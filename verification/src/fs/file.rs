use vstd::prelude::*;
use vstd::string::StringSliceAdditionalSpecFns;

use crate::block::{spec_read_u32, Block};
use crate::disk::{Disk, LBAAddress};
use crate::errors::Error;
use crate::fs::amiga_dos::{spec_get_filesystem_type, spec_to_address, AmigaDos};
use crate::fs::amiga_dos_options::FilesystemType;
use crate::fs::bitmap::spec_block_free;
use crate::fs::block::{spec_block_count, spec_block_table_address, spec_data_list_extension_address};
use crate::fs::boot_block::{spec_boot_block_valid, spec_boot_flags, spec_filesystem_type};
use crate::fs::constants::{
    BLOCK_DATA_FFS_OFFSET, BLOCK_DATA_FFS_SIZE, BLOCK_DATA_LIST_SIZE, BLOCK_DATA_OFS_OFFSET,
    BLOCK_DATA_OFS_SIZE,
};
use crate::fs::file_open::OpenOptions;

verus! {

broadcast use Disk::lemma_len;

/// The two ways in which a file can be open; a file can be open in both.
#[derive(Clone, Copy, Debug, PartialEq, Eq, Structural)]
pub enum FileMode {
    /// The file can be read.
    Read,
    /// The file can be written. What is written where the file has
    /// content already takes the place of that content.
    Write,
}

impl Default for FileMode {
    fn default() -> (res: Self)
        ensures
            res == FileMode::Read,
    {
        Self::Read
    }
}

impl FileMode {
    /// The bit that stands for the mode in a mask of modes.
    pub open spec fn spec_mask(self) -> usize {
        match self {
            FileMode::Read => 0x01,
            FileMode::Write => 0x02,
        }
    }

    #[verifier::when_used_as_spec(spec_mask)]
    pub fn mask(self) -> (mask: usize)
        ensures
            mask == self.spec_mask(),
    {
        match self {
            FileMode::Read => 0x01,
            FileMode::Write => 0x02,
        }
    }
}

/// Whether the mask of modes `mode_mask` holds the mode `mode`.
pub open spec fn spec_test_file_mode(mode: FileMode, mode_mask: usize) -> bool {
    mode_mask & mode.spec_mask() != 0
}

pub fn test_file_mode(mode: FileMode, mode_mask: usize) -> (res: bool)
    ensures
        res == spec_test_file_mode(mode, mode_mask),
{
    (mode_mask & mode.mask()) != 0
}

pub fn check_file_mode(mode: FileMode, mode_mask: usize) -> (res: Result<(), Error>)
    ensures
        spec_test_file_mode(mode, mode_mask) ==> res == Ok::<(), Error>(()),
        !spec_test_file_mode(mode, mode_mask) ==> res == Err::<(), Error>(Error::BadFileDescriptor),
{
    if !test_file_mode(mode, mode_mask) {
        Err(Error::BadFileDescriptor)
    } else {
        Ok(())
    }
}

/// Where one data block of a file is kept: its own address, and the slot
/// of the header or list block that holds the address.
#[derive(Clone, Copy, Debug, PartialEq, Eq, Structural)]
pub struct FileDataBlockListEntry {
    /// Address of the data block.
    pub data_block_address: usize,
    /// Slot of the data block's address in the header or list block.
    pub extension_block_index: usize,
    /// Address of the header or list block.
    pub extension_block_address: LBAAddress,
}

/// Slot `index` of the table of the header or list block `extension`, as a
/// data block of a file: the table is filled from its end, so that slot 0
/// is its last entry.
pub open spec fn spec_entry_at(image: Seq<u8>, extension: usize, index: usize) -> Result<
    Option<FileDataBlockListEntry>,
    Error,
> {
    match spec_block_table_address(image, extension, (71 - index) as usize) {
        Err(e) => Err(e),
        Ok(None) => Ok(None),
        Ok(Some(data_block_address)) => Ok(
            Some(
                FileDataBlockListEntry {
                    data_block_address,
                    extension_block_address: extension,
                    extension_block_index: index,
                },
            ),
        ),
    }
}

/// The data blocks that the header or list block `extension` holds from
/// slot `index` on, up to the first empty slot.
pub open spec fn spec_entries_from(image: Seq<u8>, extension: usize, index: usize) -> Result<
    Seq<FileDataBlockListEntry>,
    Error,
>
    decreases 72 - index,
{
    if index >= 72 {
        Ok(Seq::empty())
    } else {
        match spec_entry_at(image, extension, index) {
            Err(e) => Err(e),
            Ok(None) => Ok(Seq::empty()),
            Ok(Some(entry)) => match spec_entries_from(image, extension, (index + 1) as usize) {
                Err(e) => Err(e),
                Ok(rest) => Ok(seq![entry] + rest),
            },
        }
    }
}

/// The data blocks of a file, in their order: those that its header block
/// holds, then those of each list block that follows. At most `fuel`
/// blocks are followed, so that a chain that runs in a circle is found out.
pub open spec fn spec_block_data_list_from(image: Seq<u8>, extension: Option<usize>, fuel: nat) -> Result<
    Seq<FileDataBlockListEntry>,
    Error,
>
    decreases fuel,
{
    match extension {
        None => Ok(Seq::empty()),
        Some(address) => if fuel == 0 {
            Err(Error::CorruptedImageFile)
        } else {
            match spec_entries_from(image, address, 0) {
                Err(e) => Err(e),
                Ok(entries) => match spec_data_list_extension_address(image, address) {
                    Err(e) => Err(e),
                    Ok(next) => match spec_block_data_list_from(image, next, (fuel - 1) as nat) {
                        Err(e) => Err(e),
                        Ok(rest) => Ok(entries + rest),
                    },
                },
            }
        },
    }
}

/// The data blocks of the file whose header block is `header`.
pub open spec fn spec_block_data_list(image: Seq<u8>, header: usize) -> Result<
    Seq<FileDataBlockListEntry>,
    Error,
> {
    spec_block_data_list_from(image, Some(header), spec_block_count(image))
}

impl FileDataBlockListEntry {
    /// The data block at slot `extension_block_index` of the header or list
    /// block `extension_block_addr`, if the slot is filled.
    pub fn try_create(disk: &Disk, extension_block_addr: usize, extension_block_index: usize) -> (res: Result<
        Option<FileDataBlockListEntry>,
        Error,
    >)
        requires
            disk.wf(),
            extension_block_index < 72,
        ensures
            res == spec_entry_at(disk@, extension_block_addr, extension_block_index),
    {
        let index: usize = BLOCK_DATA_LIST_SIZE - extension_block_index - 1;
        match Block::new(extension_block_addr).read_block_table_address(disk, index) {
            Ok(Some(data_block_address)) => Ok(
                Some(
                    FileDataBlockListEntry {
                        data_block_address,
                        extension_block_address: extension_block_addr,
                        extension_block_index,
                    },
                ),
            ),
            Ok(None) => Ok(None),
            Err(e) => Err(e),
        }
    }

    /// The data blocks of the file whose header block is
    /// `header_block_addr`, in their order.
    pub fn try_get_block_data_list(disk: &Disk, header_block_addr: LBAAddress) -> (res: Result<
        Vec<FileDataBlockListEntry>,
        Error,
    >)
        requires
            disk.wf(),
        ensures
            match spec_block_data_list(disk@, header_block_addr) {
                Err(e) => res matches Err(err) && err == e,
                Ok(list) => res matches Ok(entries) && entries@ == list,
            },
    {
        let mut entries: Vec<FileDataBlockListEntry> = Vec::new();
        let mut block_address: Option<LBAAddress> = Some(header_block_addr);
        let mut fuel: usize = disk.block_count();
        loop
            invariant
                disk.wf(),
                match spec_block_data_list_from(disk@, block_address, fuel as nat) {
                    Err(e) => spec_block_data_list(disk@, header_block_addr) == Err::<
                        Seq<FileDataBlockListEntry>,
                        Error,
                    >(e),
                    Ok(rest) => spec_block_data_list(disk@, header_block_addr) == Ok::<
                        Seq<FileDataBlockListEntry>,
                        Error,
                    >(entries@ + rest),
                },
            decreases fuel,
        {
            let extension_block_address: LBAAddress = match block_address {
                Some(address) => address,
                None => {
                    assert(entries@ + Seq::<FileDataBlockListEntry>::empty() =~= entries@);
                    return Ok(entries);
                },
            };
            if fuel == 0 {
                return Err(Error::CorruptedImageFile);
            }
            let ghost before = entries@;
            let mut extension_block_index: usize = 0;
            let mut filled: bool = true;
            while filled && extension_block_index < BLOCK_DATA_LIST_SIZE
                invariant
                    disk.wf(),
                    extension_block_index <= 72,
                    filled ==> match spec_entries_from(disk@, extension_block_address, extension_block_index) {
                        Err(e) => spec_entries_from(disk@, extension_block_address, 0) == Err::<
                            Seq<FileDataBlockListEntry>,
                            Error,
                        >(e),
                        Ok(rest) => spec_entries_from(disk@, extension_block_address, 0) == Ok::<
                            Seq<FileDataBlockListEntry>,
                            Error,
                        >(entries@.skip(before.len() as int) + rest),
                    },
                    !filled ==> spec_entries_from(disk@, extension_block_address, 0) == Ok::<
                        Seq<FileDataBlockListEntry>,
                        Error,
                    >(entries@.skip(before.len() as int)),
                    entries@.len() >= before.len(),
                    entries@.take(before.len() as int) == before,
                    fuel > 0,
                    block_address == Some(extension_block_address),
                    match spec_block_data_list_from(disk@, block_address, fuel as nat) {
                        Err(e) => spec_block_data_list(disk@, header_block_addr) == Err::<
                            Seq<FileDataBlockListEntry>,
                            Error,
                        >(e),
                        Ok(rest) => spec_block_data_list(disk@, header_block_addr) == Ok::<
                            Seq<FileDataBlockListEntry>,
                            Error,
                        >(before + rest),
                    },
                decreases 72 - extension_block_index + if filled {
                    1int
                } else {
                    0int
                },
            {
                let ghost listed = entries@;
                match FileDataBlockListEntry::try_create(disk, extension_block_address, extension_block_index) {
                    Ok(Some(entry)) => {
                        entries.push(entry);
                        assert(entries@.skip(before.len() as int) =~= listed.skip(before.len() as int).push(
                            entry,
                        ));
                        assert(entries@.take(before.len() as int) =~= listed.take(before.len() as int));
                        let ghost rest = spec_entries_from(
                            disk@,
                            extension_block_address,
                            (extension_block_index + 1) as usize,
                        );
                        assert(rest is Ok ==> listed.skip(before.len() as int) + (seq![entry] + rest->Ok_0)
                            =~= listed.skip(before.len() as int).push(entry) + rest->Ok_0);
                        extension_block_index = extension_block_index + 1;
                    },
                    Ok(None) => {
                        assert(entries@.skip(before.len() as int) + Seq::<FileDataBlockListEntry>::empty()
                            =~= entries@.skip(before.len() as int));
                        filled = false;
                    },
                    Err(e) => {
                        return Err(e);
                    },
                }
            }
            assert(filled ==> entries@.skip(before.len() as int) + Seq::<FileDataBlockListEntry>::empty()
                =~= entries@.skip(before.len() as int));
            assert(entries@ =~= before + entries@.skip(before.len() as int));
            let next = match Block::new(extension_block_address).read_data_list_extension_address(disk) {
                Ok(next) => next,
                Err(e) => {
                    return Err(e);
                },
            };
            proof {
                let tail = spec_block_data_list_from(disk@, next, (fuel - 1) as nat);
                if tail is Ok {
                    assert(before + (entries@.skip(before.len() as int) + tail->Ok_0) =~= entries@
                        + tail->Ok_0);
                }
            }
            block_address = next;
            fuel = fuel - 1;
        }
    }
}

/// Where the payload of a data block starts and how long it is, for each
/// flavour of the file system: the old one keeps a header of 24 bytes
/// in each data block, the fast one keeps none.
pub open spec fn spec_data_block_info(filesystem_type: FilesystemType) -> (usize, usize) {
    match filesystem_type {
        FilesystemType::FFS => (0, 512),
        FilesystemType::OFS => (24, 488),
    }
}

pub fn get_data_block_info(fs: &AmigaDos) -> (res: Result<(usize, usize), Error>)
    requires
        fs.wf(),
    ensures
        res == match spec_get_filesystem_type(fs@) {
            Ok(filesystem_type) => Ok::<(usize, usize), Error>(spec_data_block_info(filesystem_type)),
            Err(e) => Err::<(usize, usize), Error>(e),
        },
{
    match fs.get_filesystem_type() {
        Ok(FilesystemType::FFS) => Ok((BLOCK_DATA_FFS_OFFSET, BLOCK_DATA_FFS_SIZE)),
        Ok(FilesystemType::OFS) => Ok((BLOCK_DATA_OFS_OFFSET, BLOCK_DATA_OFS_SIZE)),
        Err(e) => Err(e),
    }
}

/// Number of blocks that a file of `count` data blocks takes besides its
/// header block: the data blocks, and a list block for every 72 data blocks
/// after the first 72.
pub open spec fn spec_block_usage(count: int) -> int {
    if count <= 72 {
        count
    } else {
        count + (count - 1) / 72
    }
}

/// An open file of a volume.
#[derive(Debug)]
pub struct File {
    pub block_data_list: Vec<FileDataBlockListEntry>,
    pub block_data_offset: usize,
    pub block_data_size: usize,
    pub header_block_address: LBAAddress,
    pub mode: usize,
    pub pos: usize,
    pub size: usize,
}

/// Whether the list of data blocks `list` is laid out as the list of a
/// file whose header block is `header`: the blocks fill the slots of the
/// header block, then of one list block after the other, 72 to each; and
/// no block serves twice, be it as data block, as list block or as header
/// block.
pub open spec fn spec_list_wf(header: usize, list: Seq<FileDataBlockListEntry>) -> bool {
    &&& forall|i: int| 0 <= i < list.len() ==> (#[trigger] list[i]).extension_block_index == i % 72
    &&& forall|i: int| 0 <= i < list.len() && i < 72 ==> (#[trigger] list[i]).extension_block_address == header
    &&& forall|i: int| 72 <= i < list.len() ==> (#[trigger] list[i]).extension_block_address != header
    &&& forall|i: int, j: int|
        0 <= i < list.len() && 0 <= j < list.len() && i / 72 == j / 72 ==> (
        #[trigger] list[i]).extension_block_address == (#[trigger] list[j]).extension_block_address
    &&& forall|i: int, j: int|
        0 <= i < list.len() && 0 <= j < list.len() && i / 72 != j / 72 ==> (
        #[trigger] list[i]).extension_block_address != (#[trigger] list[j]).extension_block_address
    &&& forall|i: int, j: int|
        0 <= i < list.len() && 0 <= j < list.len() && i != j ==> (#[trigger] list[i]).data_block_address != (
        #[trigger] list[j]).data_block_address
    &&& forall|i: int, j: int|
        0 <= i < list.len() && 0 <= j < list.len() ==> (#[trigger] list[i]).data_block_address != (
        #[trigger] list[j]).extension_block_address
    &&& forall|i: int| 0 <= i < list.len() ==> (#[trigger] list[i]).data_block_address != header
}

/// Whether block `address` can be a block of a file: it lies in the image
/// after the boot blocks, it is no bitmap block, and the bitmap keeps track
/// of it and marks it as used.
pub open spec fn spec_owned(image: Seq<u8>, pages: Seq<usize>, address: usize) -> bool {
    &&& 2 <= address < spec_block_count(image)
    &&& crate::fs::bitmap::spec_tracked(image, pages, address as int)
    &&& forall|k: int| 0 <= k < pages.len() ==> #[trigger] pages[k] != address
    &&& !spec_block_free(image, pages, address as int)
}

/// Whether the blocks of a file, and the bitmap blocks, are marked as used:
/// a block that is taken next is then none of them.
pub open spec fn spec_list_owned(
    image: Seq<u8>,
    pages: Seq<usize>,
    header: usize,
    list: Seq<FileDataBlockListEntry>,
) -> bool {
    &&& spec_owned(image, pages, header)
    &&& forall|i: int|
        0 <= i < list.len() ==> spec_owned(image, pages, (#[trigger] list[i]).data_block_address) && spec_owned(
            image,
            pages,
            list[i].extension_block_address,
        )
    &&& forall|k: int| 0 <= k < pages.len() ==> !spec_block_free(image, pages, #[trigger] pages[k] as int)
}

/// The content of a file: byte `p` of it is byte `p % size` of the payload
/// of its data block number `p / size`, where `size` is the size of the
/// payload of one data block.
pub open spec fn spec_content(
    image: Seq<u8>,
    list: Seq<FileDataBlockListEntry>,
    block_data_offset: usize,
    block_data_size: usize,
    size: usize,
) -> Seq<u8> {
    Seq::new(
        size as nat,
        |p: int|
            image[list[p / (block_data_size as int)].data_block_address * 512 + block_data_offset + p % (
            block_data_size as int)],
    )
}

impl File {
    /// The list of data blocks is that of a file of the volume `fs`: its
    /// blocks are laid out as they should be, they are marked as used, and
    /// the place of the payload in a data block is the one that the flavour
    /// of the volume gives.
    pub open spec fn wf_blocks(&self, fs: &AmigaDos) -> bool {
        &&& fs.wf()
        &&& spec_boot_block_valid(fs@)
        &&& (self.block_data_offset, self.block_data_size) == spec_data_block_info(
            spec_filesystem_type(spec_boot_flags(fs@)),
        )
        &&& self.block_data_list@.len() <= spec_block_count(fs@)
        &&& spec_list_wf(self.header_block_address, self.block_data_list@)
        &&& spec_list_owned(fs@, fs.inner.spec_pages(), self.header_block_address, self.block_data_list@)
    }

    /// The file can be read on the volume `fs`: it has as many data blocks
    /// as its size needs, they lie in the image, and its position lies in
    /// it. The bitmap is not asked.
    pub open spec fn readable(&self, fs: &AmigaDos) -> bool {
        &&& fs.wf()
        &&& spec_boot_block_valid(fs@)
        &&& (self.block_data_offset, self.block_data_size) == spec_data_block_info(
            spec_filesystem_type(spec_boot_flags(fs@)),
        )
        &&& spec_file_readable(fs@, self.block_data_list@, self.size, self.block_data_size)
        &&& self.pos <= self.size
    }

    /// The file is a file of the volume `fs`: besides what `wf_blocks`
    /// asks, it has as many data blocks as its size needs, and its position
    /// lies in it.
    pub open spec fn wf(&self, fs: &AmigaDos) -> bool {
        &&& self.wf_blocks(fs)
        &&& self.pos <= self.size
        &&& self.size <= self.block_data_list@.len() * self.block_data_size
        &&& self.block_data_list@.len() > 0 ==> self.size > (self.block_data_list@.len() - 1) * self.block_data_size
    }

    /// Whether this is the file `other`, its position aside: the same
    /// blocks, the same size, the same modes.
    pub open spec fn same_file(&self, other: &File) -> bool {
        &&& self.block_data_list@ == other.block_data_list@
        &&& self.block_data_offset == other.block_data_offset
        &&& self.block_data_size == other.block_data_size
        &&& self.header_block_address == other.header_block_address
        &&& self.mode == other.mode
        &&& self.size == other.size
    }

    /// Whether this is the handle `other` at another time: a handle of the
    /// same file, open in the same modes.
    pub open spec fn same_handle(&self, other: &File) -> bool {
        &&& self.block_data_offset == other.block_data_offset
        &&& self.block_data_size == other.block_data_size
        &&& self.header_block_address == other.header_block_address
        &&& self.mode == other.mode
    }

    /// The content of the file on the volume `fs`.
    pub open spec fn content(&self, fs: &AmigaDos) -> Seq<u8> {
        spec_content(fs@, self.block_data_list@, self.block_data_offset, self.block_data_size, self.size)
    }

    /// Number of blocks that the file takes besides its header block: its
    /// data blocks, and a list block for every 72 data blocks after the
    /// first 72.
    pub open spec fn spec_block_usage(&self) -> int {
        spec_block_usage(self.block_data_list@.len() as int)
    }

    pub fn options() -> (res: OpenOptions)
        ensures
            res == OpenOptions::spec_new(),
    {
        OpenOptions::new()
    }
}

/// Whether a file of `size` bytes with the data blocks `list` can be read
/// from the image: it has no more data blocks than the image has blocks,
/// and as many as its size needs; and they lie in the image.
pub open spec fn spec_file_readable(
    image: Seq<u8>,
    list: Seq<FileDataBlockListEntry>,
    size: usize,
    block_data_size: usize,
) -> bool {
    &&& list.len() <= spec_block_count(image)
    &&& size <= list.len() * block_data_size
    &&& list.len() > 0 ==> size > (list.len() - 1) * block_data_size
    &&& forall|i: int| 0 <= i < list.len() ==> (#[trigger] list[i]).data_block_address < spec_block_count(image)
}

/// What opening the file at `path` to read it finds: the header block of
/// the file, its size, and its data blocks. The path must lead to an entry
/// of the secondary type of files; the data blocks must be readable; and
/// the file must be one that can be read as `spec_file_readable` says,
/// else the volume is corrupted. The bitmap is not asked: a file whose
/// blocks it does not mark as used is read all the same.
#[verifier::opaque]
pub open spec fn spec_open_read(image: Seq<u8>, path: Seq<u8>) -> Result<
    (usize, usize, Seq<FileDataBlockListEntry>),
    Error,
> {
    match crate::fs::lookup::spec_lookup(image, path) {
        Err(e) => Err(e),
        Ok(header) => match crate::fs::block::spec_block_secondary_type(image, header) {
            Err(e) => Err(e),
            Ok(secondary) => if secondary != crate::fs::block_type::BlockSecondaryType::File {
                Err(Error::NotAFileError)
            } else {
                match crate::fs::metadata::spec_metadata(image, header) {
                    Err(e) => Err(e),
                    Ok(metadata) => match spec_block_data_list(image, header) {
                        Err(e) => Err(e),
                        Ok(list) => if spec_file_readable(
                            image,
                            list,
                            metadata.file_size,
                            spec_data_block_info(spec_filesystem_type(spec_boot_flags(image))).1,
                        ) {
                            Ok((header, metadata.file_size, list))
                        } else {
                            Err(Error::CorruptedImageFile)
                        },
                    },
                }
            },
        },
    }
}

/// A file of the volume can be read.
pub proof fn lemma_wf_readable(file: &File, fs: &AmigaDos)
    requires
        file.wf(fs),
    ensures
        file.readable(fs),
{
    assert forall|i: int| 0 <= i < file.block_data_list@.len() implies (
    #[trigger] file.block_data_list@[i]).data_block_address < spec_block_count(fs@) by {
        assert(spec_owned(fs@, fs.inner.spec_pages(), file.block_data_list@[i].data_block_address));
    }
}

/// What opening the file at `path` finds, to be written or only to be
/// read: a file that is to be written must be a file of the volume as the
/// bitmap has it; a file that is only read need not.
pub open spec fn spec_open_as(image: Seq<u8>, pages: Seq<usize>, path: Seq<u8>, write: bool) -> Result<
    (usize, usize, Seq<FileDataBlockListEntry>),
    Error,
> {
    if write {
        spec_open(image, pages, path)
    } else {
        spec_open_read(image, path)
    }
}

/// A file that can be opened to be written can be opened to be read, and
/// is the same file then.
pub proof fn lemma_open_read_of_open(image: Seq<u8>, pages: Seq<usize>, path: Seq<u8>)
    requires
        spec_open(image, pages, path) is Ok,
    ensures
        spec_open_read(image, path) == spec_open(image, pages, path),
{
    reveal(spec_open);
    reveal(spec_open_read);
    let header = crate::fs::lookup::spec_lookup(image, path)->Ok_0;
    let list = spec_block_data_list(image, header)->Ok_0;
    assert forall|i: int| 0 <= i < list.len() implies (#[trigger] list[i]).data_block_address < spec_block_count(
        image,
    ) by {
        assert(spec_owned(image, pages, list[i].data_block_address));
    }
}

/// What opening the file at `path` finds: the header block of the file,
/// its size, and its data blocks. The path must lead to an entry of the
/// secondary type of files: a directory or a link is not a file. The data
/// blocks must be readable; and the file must be a file of the volume as
/// `spec_file_valid` says, else the volume is corrupted.
#[verifier::opaque]
pub open spec fn spec_open(image: Seq<u8>, pages: Seq<usize>, path: Seq<u8>) -> Result<
    (usize, usize, Seq<FileDataBlockListEntry>),
    Error,
> {
    match crate::fs::lookup::spec_lookup(image, path) {
        Err(e) => Err(e),
        Ok(header) => match crate::fs::block::spec_block_secondary_type(image, header) {
            Err(e) => Err(e),
            Ok(secondary) => if secondary != crate::fs::block_type::BlockSecondaryType::File {
                Err(Error::NotAFileError)
            } else {
                match crate::fs::metadata::spec_metadata(image, header) {
                    Err(e) => Err(e),
                    Ok(metadata) => match spec_block_data_list(image, header) {
                        Err(e) => Err(e),
                        Ok(list) => if crate::fs::file_check::spec_file_valid(
                            image,
                            pages,
                            header,
                            list,
                            metadata.file_size,
                            spec_data_block_info(spec_filesystem_type(spec_boot_flags(image))).1,
                        ) {
                            Ok((header, metadata.file_size, list))
                        } else {
                            Err(Error::CorruptedImageFile)
                        },
                    },
                }
            },
        },
    }
}

/// What making the file at `path` leaves on the image, and the header
/// block of the file. The parent must be there and be a directory; the
/// lowest free block becomes the header block of the file and is put into
/// the parent. A volume on which that block cannot be the block of a file
/// is corrupted.
#[verifier::opaque]
pub open spec fn spec_create_file(image: Seq<u8>, pages: Seq<usize>, path: Seq<u8>, date_time: u64) -> (
    Seq<u8>,
    Result<usize, Error>,
) {
    match crate::fs::path::spec_dirname(path) {
        Err(e) => (image, Err(e)),
        Ok(parent_path) => match crate::fs::lookup::spec_lookup_segments(image, parent_path) {
            Err(e) => (image, Err(e)),
            Ok(parent) => match crate::fs::dir::spec_check_directory(image, parent) {
                Err(e) => (image, Err(e)),
                Ok(_) => {
                    let (made, res) = crate::fs::dir_create::spec_make_entry(
                        image,
                        pages,
                        parent,
                        crate::fs::path::spec_basename(path)->Ok_0,
                        crate::fs::block_type::BlockSecondaryType::File,
                        date_time,
                    );
                    match res {
                        Err(e) => (made, Err(e)),
                        Ok(header) => if spec_boot_block_valid(made) && crate::fs::file_check::spec_file_valid(
                            made,
                            pages,
                            header,
                            Seq::empty(),
                            0,
                            spec_data_block_info(spec_filesystem_type(spec_boot_flags(made))).1,
                        ) {
                            (made, Ok(header))
                        } else {
                            (made, Err(Error::CorruptedImageFile))
                        },
                    }
                },
            },
        },
    }
}


/// The image from which the file at `path` starts when it is made, or
/// opened and emptied, and the data blocks that it has in it: the image
/// as it is with the data blocks of the file that is there, or the image
/// with the file made in it, which has none.
pub open spec fn spec_start(image: Seq<u8>, pages: Seq<usize>, path: Seq<u8>, date_time: u64) -> (
    Seq<u8>,
    Seq<FileDataBlockListEntry>,
) {
    match crate::fs::metadata::spec_exists(image, path) {
        Ok(true) => (
            image,
            match spec_open(image, pages, path) {
                Ok((_, _, list)) => list,
                Err(_) => Seq::empty(),
            },
        ),
        _ => (spec_create_file(image, pages, path, date_time).0, Seq::empty()),
    }
}

/// Whether the image holds the file at `path` as the opening of the file
/// finds it, or as the making of the file leaves it when it is not there:
/// the list of data blocks that is read from its header block is the one
/// that the handle gets, down to the slots after the last data block,
/// which are empty; and a file just made has a header block that holds
/// the size zero.
pub open spec fn spec_kept_at_open(image: Seq<u8>, pages: Seq<usize>, path: Seq<u8>, date_time: u64) -> bool {
    match crate::fs::metadata::spec_exists(image, path) {
        Err(_) => false,
        Ok(true) => spec_open(image, pages, path) matches Ok((header, size, list))
            && crate::fs::file_mirror::spec_listed(image, header, list),
        Ok(false) => spec_create_file(image, pages, path, date_time) matches (made, Ok(header))
            && crate::fs::file_mirror::spec_listed(made, header, Seq::empty()) && crate::block::spec_read_u32(
            made,
            header as int,
            324,
        ) == 0,
    }
}

impl File {
    /// Opens the file at `path` in the modes `mode`, set at its start.
    pub fn try_open(fs: &AmigaDos, path: &str, mode: usize) -> (res: Result<File, Error>)
        requires
            fs.wf(),
        ensures
            spec_test_file_mode(FileMode::Write, mode) ==> match spec_open(
                fs@,
                fs.inner.spec_pages(),
                path.spec_bytes(),
            ) {
                Err(e) => res matches Err(err) && err == e,
                Ok((header, size, list)) => res matches Ok(file) && file.wf(fs) && file.header_block_address
                    == header && file.size == size && file.block_data_list@ == list && file.pos == 0
                    && file.mode == mode && (file.listed(fs) ==> file.stored(fs)),
            },
            !spec_test_file_mode(FileMode::Write, mode) ==> match spec_open_read(fs@, path.spec_bytes()) {
                Err(e) => res matches Err(err) && err == e,
                Ok((header, size, list)) => res matches Ok(file) && file.readable(fs)
                    && file.header_block_address == header && file.size == size && file.block_data_list@ == list
                    && file.pos == 0 && file.mode == mode,
            },
            res matches Ok(file) ==> file.readable(fs),
    {
        proof {
            reveal(spec_open);
            reveal(spec_open_read);
        }
        let header_block_address: LBAAddress = match fs.lookup(path) {
            Ok(address) => address,
            Err(e) => {
                return Err(e);
            },
        };
        let header = crate::block::Block::new(header_block_address);
        match header.read_block_secondary_type(fs.disk()) {
            Ok(crate::fs::block_type::BlockSecondaryType::File) => {},
            Ok(_) => {
                return Err(Error::NotAFileError);
            },
            Err(e) => {
                return Err(e);
            },
        }
        let metadata = match crate::fs::metadata::Metadata::try_from(fs.disk(), &header) {
            Ok(metadata) => metadata,
            Err(e) => {
                return Err(e);
            },
        };
        let size: usize = metadata.size();
        let block_data_list = match FileDataBlockListEntry::try_get_block_data_list(
            fs.disk(),
            header_block_address,
        ) {
            Ok(list) => list,
            Err(e) => {
                return Err(e);
            },
        };
        let (block_data_offset, block_data_size) = match get_data_block_info(fs) {
            Ok(info) => info,
            Err(e) => {
                return Err(e);
            },
        };
        let file = File {
            block_data_list,
            block_data_offset,
            block_data_size,
            header_block_address,
            mode,
            pos: 0,
            size,
        };
        if test_file_mode(FileMode::Write, mode) {
            if !file.check(fs) {
                return Err(Error::CorruptedImageFile);
            }
            proof {
                assert forall|i: int| 0 <= i < file.block_data_list@.len() implies (
                #[trigger] file.block_data_list@[i]).data_block_address < spec_block_count(fs@) by {
                    assert(spec_owned(
                        fs@,
                        fs.inner.spec_pages(),
                        file.block_data_list@[i].data_block_address,
                    ));
                }
            }
        } else {
            if !file.check_readable(fs) {
                return Err(Error::CorruptedImageFile);
            }
        }
        Ok(file)
    }

    /// Makes the file at `path`, which must not be there, and opens it in
    /// the modes `mode`: an empty file, changed last at `date_time`.
    pub fn try_create_new(fs: &mut AmigaDos, path: &str, mode: usize, date_time: u64) -> (res: Result<File, Error>)
        requires
            old(fs).wf(),
        ensures
            final(fs).wf(),
            final(fs).same_volume(old(fs)),
            match spec_create_file(old(fs)@, old(fs).inner.spec_pages(), path.spec_bytes(), date_time) {
                (made, Err(e)) => (res matches Err(err) && err == e) && final(fs)@ == made,
                (made, Ok(header)) => (res matches Ok(file) && file.wf(final(fs)) && file.header_block_address
                    == header && file.size == 0 && file.pos == 0 && file.mode == mode
                    && file.block_data_list@.len() == 0) && final(fs)@ == made,
            },
    {
        proof {
            reveal(spec_create_file);
        }
        let (parent_path, name) = match crate::fs::path::split_parent(path) {
            Ok(parts) => parts,
            Err(e) => {
                return Err(e);
            },
        };
        let parent: LBAAddress = match crate::fs::lookup::lookup_segments(&fs.inner.disk, &parent_path) {
            Ok(address) => address,
            Err(e) => {
                return Err(e);
            },
        };
        let parent_dir = match crate::fs::dir::Dir::try_with_block_address(&fs.inner.disk, parent) {
            Ok(dir) => dir,
            Err(e) => {
                return Err(e);
            },
        };
        let header_block_address: LBAAddress = match fs.inner.make_entry(
            parent_dir,
            name.as_slice(),
            crate::fs::block_type::BlockSecondaryType::File,
            date_time,
        ) {
            Ok(address) => address,
            Err(e) => {
                return Err(e);
            },
        };
        let (block_data_offset, block_data_size) = match get_data_block_info(fs) {
            Ok(info) => info,
            Err(_) => {
                return Err(Error::CorruptedImageFile);
            },
        };
        let file = File {
            block_data_list: Vec::new(),
            block_data_offset,
            block_data_size,
            header_block_address,
            mode,
            pos: 0,
            size: 0,
        };
        if !file.check(fs) {
            return Err(Error::CorruptedImageFile);
        }
        Ok(file)
    }
}

impl File {
    /// Opens the file at `path` in the modes `mode`, and makes it first
    /// if it is not there. A file that is there is emptied, unless it is
    /// asked that the file be new, which is then an error.
    pub fn try_create(fs: &mut AmigaDos, path: &str, mode: usize, create_new: bool, date_time: u64) -> (res:
        Result<File, Error>)
        requires
            old(fs).wf(),
        ensures
            final(fs).wf(),
            final(fs).same_volume(old(fs)),
            res matches Ok(file) ==> file.wf(final(fs)) && file.size == 0 && file.pos == 0 && file.mode == mode
                && file.block_data_list@.len() == 0 && file.content(final(fs)) == Seq::<u8>::empty(),
            res matches Ok(file) ==> (spec_kept_at_open(
                old(fs)@,
                old(fs).inner.spec_pages(),
                path.spec_bytes(),
                date_time,
            ) ==> file.stored(final(fs))),
            res matches Ok(file) ==> crate::fs::file_frame::spec_file_kept(
                spec_start(old(fs)@, old(fs).inner.spec_pages(), path.spec_bytes(), date_time).0,
                final(fs)@,
                old(fs).inner.spec_pages(),
                file.header_block_address,
                spec_start(old(fs)@, old(fs).inner.spec_pages(), path.spec_bytes(), date_time).1,
            ),
            match crate::fs::metadata::spec_exists(old(fs)@, path.spec_bytes()) {
                Err(e) => (res matches Err(err) && err == e) && final(fs)@ == old(fs)@,
                Ok(true) => if create_new {
                    (res matches Err(err) && err == Error::AlreadyExists) && final(fs)@ == old(fs)@
                } else {
                    match spec_open_as(
                        old(fs)@,
                        old(fs).inner.spec_pages(),
                        path.spec_bytes(),
                        spec_test_file_mode(FileMode::Write, mode),
                    ) {
                        Err(e) => (res matches Err(err) && err == e) && final(fs)@ == old(fs)@,
                        Ok((header, size, list)) => if spec_test_file_mode(FileMode::Write, mode) {
                            (res matches Ok(file) && file.header_block_address == header)
                                && crate::fs::bitmap::spec_free_block_count(
                                final(fs)@,
                                old(fs).inner.spec_pages(),
                            ) == crate::fs::bitmap::spec_free_block_count(
                                old(fs)@,
                                old(fs).inner.spec_pages(),
                            ) + spec_block_usage(list.len() as int)
                        } else {
                            (res matches Err(err) && err == Error::BadFileDescriptor) && final(fs)@ == old(fs)@
                        },
                    }
                },
                Ok(false) => match spec_create_file(
                    old(fs)@,
                    old(fs).inner.spec_pages(),
                    path.spec_bytes(),
                    date_time,
                ) {
                    (made, Err(e)) => (res matches Err(err) && err == e) && final(fs)@ == made,
                    (made, Ok(header)) => (res matches Ok(file) && file.header_block_address == header)
                        && final(fs)@ == made,
                },
            },
    {
        match fs.try_exists(path) {
            Err(e) => Err(e),
            Ok(true) => {
                if create_new {
                    return Err(Error::AlreadyExists);
                }
                let mut file = match File::try_open(fs, path, mode) {
                    Ok(file) => file,
                    Err(e) => {
                        return Err(e);
                    },
                };
                if !test_file_mode(FileMode::Write, mode) {
                    return Err(Error::BadFileDescriptor);
                }
                proof {
                    crate::fs::file_lemmas::lemma_block_usage_monotonic(0, file.block_data_list@.len() as int);
                }
                let ghost opened = file.block_data_list@;
                match file.set_len_at(fs, 0, date_time) {
                    Ok(_) => {
                        proof {
                            crate::fs::file_frame::lemma_file_kept_shrunk(
                                old(fs)@,
                                fs@,
                                fs.inner.spec_pages(),
                                file.header_block_address,
                                opened,
                                file.block_data_list@,
                            );
                        }
                        assert(file.content(fs) =~= Seq::<u8>::empty());
                        Ok(file)
                    },
                    Err(e) => Err(e),
                }
            },
            Ok(false) => {
                match File::try_create_new(fs, path, mode, date_time) {
                    Ok(file) => {
                        proof {
                            crate::fs::file_frame::lemma_file_kept_refl(
                                fs@,
                                fs.inner.spec_pages(),
                                file.header_block_address,
                                Seq::empty(),
                            );
                        }
                        assert(file.block_data_list@ =~= Seq::<FileDataBlockListEntry>::empty());
                        assert(file.content(fs) =~= Seq::<u8>::empty());
                        Ok(file)
                    },
                    Err(e) => Err(e),
                }
            },
        }
    }
}

} // verus!
