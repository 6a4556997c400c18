use vstd::prelude::*;

use crate::block::Block;
use crate::disk::{Disk, LBAAddress};
use crate::errors::Error;
use crate::fs::amiga_dos_options::FilesystemType;
use crate::fs::block::{spec_block_count, spec_read_bitmap};
use crate::fs::boot_block::{
    spec_boot_block_valid, spec_boot_flags, spec_filesystem_type, spec_root_block_address, BootBlockReader,
};

verus! {

broadcast use Disk::lemma_len;

/// The block that an address word names: zero stands for no block.
pub open spec fn spec_to_address(addr: u32) -> Option<usize> {
    if addr != 0 {
        Some(addr as usize)
    } else {
        None
    }
}

/// Whether `pages` can be the bitmap blocks of an image of `block_count`
/// blocks: at most 25 of them, each inside the image and after the boot
/// blocks, no block twice.
pub open spec fn spec_pages_valid(pages: Seq<usize>, block_count: nat) -> bool {
    &&& pages.len() <= 25
    &&& forall|i: int| 0 <= i < pages.len() ==> 2 <= #[trigger] pages[i] < block_count
    &&& forall|i: int, j: int| 0 <= i < j < pages.len() ==> pages[i] != pages[j]
}

/// What mounting an image finds: the bitmap blocks that its root block
/// lists. The image must start with a valid boot block, the block that the
/// boot block names as root must be a root block, and the bitmap blocks
/// must be usable.
pub open spec fn spec_mount(image: Seq<u8>) -> Result<Seq<usize>, Error> {
    if !spec_boot_block_valid(image) {
        Err(Error::CorruptedImageFile)
    } else {
        match spec_read_bitmap(image, spec_root_block_address(image)) {
            Err(e) => Err(e),
            Ok(pages) => if spec_pages_valid(pages, spec_block_count(image)) {
                Ok(pages)
            } else {
                Err(Error::CorruptedImageFile)
            },
        }
    }
}

/// The state of a mounted volume: the image, and the addresses of its
/// bitmap blocks as they were found when the volume was mounted.
#[derive(Debug)]
pub struct AmigaDosInner {
    pub disk: Disk,
    pub bitmap_block_addresses: Vec<LBAAddress>,
}

impl View for AmigaDosInner {
    type V = Seq<u8>;

    open spec fn view(&self) -> Seq<u8> {
        self.disk@
    }
}

impl AmigaDosInner {
    /// The image is well formed and the bitmap blocks are usable.
    pub open spec fn wf(&self) -> bool {
        &&& self.disk.wf()
        &&& spec_pages_valid(self.bitmap_block_addresses@, self.disk.spec_block_count())
    }

    /// The bitmap blocks of the volume, in the order of the root block's
    /// table.
    pub open spec fn spec_pages(&self) -> Seq<usize> {
        self.bitmap_block_addresses@
    }

    /// What a step that keeps the volume mounted leaves as it was: the
    /// geometry of the image and the bitmap blocks.
    pub open spec fn same_volume(&self, other: &AmigaDosInner) -> bool {
        &&& self.disk.spec_disk_type() == other.disk.spec_disk_type()
        &&& self.bitmap_block_addresses@ == other.bitmap_block_addresses@
    }

    pub fn disk(&self) -> (disk: &Disk)
        ensures
            disk == self.disk,
    {
        &self.disk
    }

    pub fn get_boot_block(&self) -> (res: Result<BootBlockReader, Error>)
        requires
            self.wf(),
        ensures
            match res {
                Ok(reader) => spec_boot_block_valid(self@) && reader.spec_flags() == spec_boot_flags(self@)
                    && reader.spec_root_block_address() == spec_root_block_address(self@),
                Err(e) => !spec_boot_block_valid(self@) && e == Error::CorruptedImageFile,
            },
    {
        BootBlockReader::try_from_disk(&self.disk)
    }

    pub fn get_filesystem_type(&self) -> (res: Result<FilesystemType, Error>)
        requires
            self.wf(),
        ensures
            res == spec_get_filesystem_type(self@),
    {
        match self.get_boot_block() {
            Ok(reader) => Ok(reader.get_filesystem_type()),
            Err(e) => Err(e),
        }
    }

    pub fn get_bitmap_block_addresses(&self) -> (addresses: Vec<LBAAddress>)
        ensures
            addresses@ == self.spec_pages(),
    {
        let mut addresses: Vec<LBAAddress> = Vec::new();
        let len: usize = self.bitmap_block_addresses.len();
        let mut i: usize = 0;
        while i < len
            invariant
                i <= len,
                len == self.bitmap_block_addresses@.len(),
                addresses@ == self.bitmap_block_addresses@.take(i as int),
            decreases len - i,
        {
            addresses.push(self.bitmap_block_addresses[i]);
            assert(self.bitmap_block_addresses@.take(i + 1) =~= self.bitmap_block_addresses@.take(
                i as int,
            ).push(self.bitmap_block_addresses@[i as int]));
            i = i + 1;
        }
        assert(self.bitmap_block_addresses@.take(len as int) =~= self.bitmap_block_addresses@);
        addresses
    }
}

/// The flavour of the volume in an image, as its boot block gives it.
pub open spec fn spec_get_filesystem_type(image: Seq<u8>) -> Result<FilesystemType, Error> {
    if spec_boot_block_valid(image) {
        Ok(spec_filesystem_type(spec_boot_flags(image)))
    } else {
        Err(Error::CorruptedImageFile)
    }
}

fn pages_valid(pages: &Vec<LBAAddress>, block_count: usize) -> (res: bool)
    ensures
        res == spec_pages_valid(pages@, block_count as nat),
{
    let len: usize = pages.len();
    if len > 25 {
        return false;
    }
    let mut i: usize = 0;
    while i < len
        invariant
            i <= len,
            len == pages@.len(),
            forall|k: int| 0 <= k < i ==> 2 <= #[trigger] pages@[k] < block_count,
            forall|k: int, j: int| 0 <= k < j < i ==> pages@[k] != pages@[j],
        decreases len - i,
    {
        if pages[i] < 2 || pages[i] >= block_count {
            return false;
        }
        let mut j: usize = 0;
        while j < i
            invariant
                j <= i < len,
                len == pages@.len(),
                forall|k: int| 0 <= k < j ==> pages@[k] != pages@[i as int],
            decreases i - j,
        {
            if pages[j] == pages[i] {
                return false;
            }
            j = j + 1;
        }
        i = i + 1;
    }
    true
}

/// A mounted volume.
#[derive(Debug)]
pub struct AmigaDos {
    pub inner: AmigaDosInner,
}

impl View for AmigaDos {
    type V = Seq<u8>;

    open spec fn view(&self) -> Seq<u8> {
        self.inner@
    }
}

impl AmigaDos {
    /// The handle is usable: its state is.
    pub open spec fn wf(&self) -> bool {
        self.inner.wf()
    }

    /// What a step that keeps the volume mounted leaves as it was.
    pub open spec fn same_volume(&self, other: &AmigaDos) -> bool {
        self.inner.same_volume(&other.inner)
    }

    /// Mounts the volume that an image holds.
    pub fn try_from(disk: Disk) -> (res: Result<AmigaDos, Error>)
        requires
            disk.wf(),
        ensures
            match spec_mount(disk@) {
                Err(e) => res matches Err(err) && err == e,
                Ok(pages) => res matches Ok(fs) && fs.wf() && fs.inner.disk == disk && fs.inner.spec_pages()
                    == pages,
            },
    {
        let boot_block = match BootBlockReader::try_from_disk(&disk) {
            Ok(reader) => reader,
            Err(e) => {
                return Err(e);
            },
        };
        let root_block = Block::new(boot_block.get_root_block_address());
        let bitmap_block_addresses = match root_block.read_bitmap(&disk) {
            Ok(pages) => pages,
            Err(e) => {
                return Err(e);
            },
        };
        if !pages_valid(&bitmap_block_addresses, disk.block_count()) {
            return Err(Error::CorruptedImageFile);
        }
        Ok(AmigaDos { inner: AmigaDosInner { disk, bitmap_block_addresses } })
    }

    pub fn disk(&self) -> (disk: &Disk)
        ensures
            disk == self.inner.disk,
    {
        self.inner.disk()
    }

    /// Unmounts the volume and gives its image back.
    pub fn into_disk(self) -> (disk: Disk)
        ensures
            disk == self.inner.disk,
    {
        self.inner.disk
    }

    pub fn get_filesystem_type(&self) -> (res: Result<FilesystemType, Error>)
        requires
            self.wf(),
        ensures
            res == spec_get_filesystem_type(self@),
    {
        self.inner.get_filesystem_type()
    }

    pub fn to_address(addr: u32) -> (res: Option<LBAAddress>)
        ensures
            res == spec_to_address(addr),
    {
        if addr != 0 {
            Some(addr as LBAAddress)
        } else {
            None
        }
    }
}

} // verus!
