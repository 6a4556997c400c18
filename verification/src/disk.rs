use vstd::prelude::*;
use vstd::slice::slice_subrange;

use crate::errors::Error;

verus! {

/// Size in bytes of one block of an image.
pub const BLOCK_SIZE: usize = 512;

/// Number of blocks of a double density floppy disk.
pub const DD_BLOCK_COUNT: usize = 1760;

/// Number of blocks of a high density floppy disk.
pub const HD_BLOCK_COUNT: usize = 3520;

/// A block is addressed by its zero-based index in the image.
pub type LBAAddress = usize;

/// The two floppy disk geometries.
#[derive(Clone, Copy, Debug, PartialEq, Eq, Structural)]
pub enum DiskType {
    DoubleDensity,
    HighDensity,
}

impl DiskType {
    /// Number of blocks of a disk of this type.
    pub open spec fn spec_block_count(self) -> nat {
        match self {
            DiskType::DoubleDensity => 1760,
            DiskType::HighDensity => 3520,
        }
    }

    /// Size in bytes of a disk of this type.
    pub open spec fn spec_size(self) -> nat {
        self.spec_block_count() * 512
    }

    pub fn block_count(self) -> (count: usize)
        ensures
            count == self.spec_block_count(),
    {
        match self {
            DiskType::DoubleDensity => DD_BLOCK_COUNT,
            DiskType::HighDensity => HD_BLOCK_COUNT,
        }
    }

    pub fn size(self) -> (size: usize)
        ensures
            size == self.spec_size(),
    {
        self.block_count() * BLOCK_SIZE
    }
}

/// The bytes of `count` blocks of the image `image`, from block `addr` on.
pub open spec fn spec_blocks(image: Seq<u8>, addr: int, count: int) -> Seq<u8> {
    image.subrange(addr * 512, (addr + count) * 512)
}

/// The image `image` with the `count` blocks from block `addr` on replaced
/// by `bytes`.
pub open spec fn spec_replace_blocks(image: Seq<u8>, addr: int, count: int, bytes: Seq<u8>) -> Seq<u8> {
    image.subrange(0, addr * 512) + bytes + image.subrange((addr + count) * 512, image.len() as int)
}

/// Mutable access to the bytes `begin..end` of a vector; std's `IndexMut`
/// for a range hands out exactly that window, and a slice never changes its
/// length, so the vector afterwards is its old content with the window
/// replaced by what the caller left in it.
#[verifier::external_body]
fn vec_range_mut(data: &mut Vec<u8>, begin: usize, end: usize) -> (window: &mut [u8])
    requires
        begin <= end <= old(data)@.len(),
    ensures
        window@ == old(data)@.subrange(begin as int, end as int),
        final(window)@.len() == window@.len(),
        final(data)@ == old(data)@.subrange(0, begin as int) + final(window)@ + old(data)@.subrange(
            end as int,
            old(data)@.len() as int,
        ),
{
    &mut data[begin..end]
}

/// An in-memory floppy disk image: a flat byte array cut into blocks of
/// `BLOCK_SIZE` bytes.
#[derive(Debug)]
pub struct Disk {
    disk_data: Vec<u8>,
    disk_type: DiskType,
}

impl View for Disk {
    type V = Seq<u8>;

    closed spec fn view(&self) -> Seq<u8> {
        self.disk_data@
    }
}

impl Disk {
    /// The image holds exactly as many bytes as its geometry says.
    pub closed spec fn wf(&self) -> bool {
        self.disk_data@.len() == self.disk_type.spec_size()
    }

    /// The geometry of the image.
    pub closed spec fn spec_disk_type(&self) -> DiskType {
        self.disk_type
    }

    /// Number of blocks of the image.
    pub open spec fn spec_block_count(&self) -> nat {
        self.spec_disk_type().spec_block_count()
    }

    /// Whether the `count` blocks from block `addr` on lie inside the image.
    pub open spec fn spec_has_blocks(&self, addr: usize, count: usize) -> bool {
        addr < self.spec_block_count() && addr + count <= self.spec_block_count()
    }

    /// A well-formed image is 512 bytes for each of its blocks.
    pub broadcast proof fn lemma_len(&self)
        requires
            #[trigger] self.wf(),
        ensures
            self@.len() == self.spec_block_count() * 512,
            self.spec_block_count() == 1760 || self.spec_block_count() == 3520,
    {
    }

    fn block_bounds(&self, addr: LBAAddress, count: usize) -> (res: Result<(usize, usize), Error>)
        requires
            self.wf(),
        ensures
            self.spec_has_blocks(addr, count) ==> res == Ok::<(usize, usize), Error>(
                ((addr * 512) as usize, ((addr + count) * 512) as usize),
            ),
            !self.spec_has_blocks(addr, count) ==> res == Err::<(usize, usize), Error>(
                Error::DiskInvalidLBAAddressError(addr),
            ),
    {
        let block_count: usize = self.block_count();
        if addr >= block_count || count > block_count - addr {
            Err(Error::DiskInvalidLBAAddressError(addr))
        } else {
            Ok((addr * BLOCK_SIZE, (addr + count) * BLOCK_SIZE))
        }
    }

    pub fn block_count(&self) -> (count: usize)
        ensures
            count == self.spec_block_count(),
    {
        self.disk_type.block_count()
    }

    pub fn size(&self) -> (size: usize)
        ensures
            size == self.spec_block_count() * 512,
    {
        self.block_count() * BLOCK_SIZE
    }

    pub fn disk_type(&self) -> (disk_type: DiskType)
        ensures
            disk_type == self.spec_disk_type(),
    {
        self.disk_type
    }

    /// A blank image of the given geometry: every byte is zero.
    pub fn create(disk_type: DiskType) -> (disk: Disk)
        ensures
            disk.wf(),
            disk.spec_disk_type() == disk_type,
            disk@ == Seq::new(disk_type.spec_size(), |i: int| 0u8),
    {
        let size: usize = disk_type.size();
        let mut disk_data: Vec<u8> = Vec::new();
        let mut i: usize = 0;
        while i < size
            invariant
                i <= size,
                disk_data@ == Seq::new(i as nat, |j: int| 0u8),
            decreases size - i,
        {
            disk_data.push(0u8);
            i = i + 1;
        }
        Self { disk_data, disk_type }
    }

    /// Takes `disk_data` as an image, if it has the size of one of the two
    /// geometries.
    pub fn try_create_with_data(disk_data: Vec<u8>) -> (res: Result<Disk, Error>)
        ensures
            disk_data@.len() == 1760 * 512 ==> res is Ok && res->Ok_0.spec_disk_type()
                == DiskType::DoubleDensity,
            disk_data@.len() == 3520 * 512 ==> res is Ok && res->Ok_0.spec_disk_type()
                == DiskType::HighDensity,
            res matches Ok(disk) ==> disk.wf() && disk@ == disk_data@,
            disk_data@.len() != 1760 * 512 && disk_data@.len() != 3520 * 512 ==> res == Err::<Disk, Error>(
                Error::DiskInvalidSizeError(disk_data@.len() as usize),
            ),
    {
        let disk_size: usize = disk_data.len();
        if disk_size == DiskType::DoubleDensity.size() {
            return Ok(Disk { disk_data, disk_type: DiskType::DoubleDensity });
        }
        if disk_size == DiskType::HighDensity.size() {
            return Ok(Disk { disk_data, disk_type: DiskType::HighDensity });
        }
        Err(Error::DiskInvalidSizeError(disk_size))
    }

    /// The bytes of `count` consecutive blocks, from block `addr` on.
    pub fn blocks(&self, addr: LBAAddress, count: usize) -> (res: Result<&[u8], Error>)
        requires
            self.wf(),
        ensures
            self.spec_has_blocks(addr, count) ==> res is Ok && res->Ok_0@ == spec_blocks(
                self@,
                addr as int,
                count as int,
            ),
            !self.spec_has_blocks(addr, count) ==> res == Err::<&[u8], Error>(
                Error::DiskInvalidLBAAddressError(addr),
            ),
    {
        match self.block_bounds(addr, count) {
            Ok((begin, end)) => Ok(slice_subrange(self.disk_data.as_slice(), begin, end)),
            Err(e) => Err(e),
        }
    }

    /// Mutable access to `count` consecutive blocks, from block `addr` on.
    /// Whatever the caller leaves in the window replaces those blocks; the
    /// rest of the image stays as it is.
    pub fn blocks_mut(&mut self, addr: LBAAddress, count: usize) -> (res: Result<&mut [u8], Error>)
        requires
            old(self).wf(),
        ensures
            final(self).wf(),
            final(self).spec_disk_type() == old(self).spec_disk_type(),
            old(self).spec_has_blocks(addr, count) ==> res is Ok && res->Ok_0@ == spec_blocks(
                old(self)@,
                addr as int,
                count as int,
            ) && final(res->Ok_0)@.len() == count * 512 && final(self)@ == spec_replace_blocks(
                old(self)@,
                addr as int,
                count as int,
                final(res->Ok_0)@,
            ),
            !old(self).spec_has_blocks(addr, count) ==> (res matches Err(e) && e
                == Error::DiskInvalidLBAAddressError(addr)) && final(self)@ == old(self)@,
    {
        match self.block_bounds(addr, count) {
            Ok((begin, end)) => Ok(vec_range_mut(&mut self.disk_data, begin, end)),
            Err(e) => Err(e),
        }
    }

    /// The whole image.
    pub fn data(&self) -> (data: &[u8])
        ensures
            data@ == self@,
    {
        self.disk_data.as_slice()
    }

    /// Mutable access to the whole image.
    pub fn data_mut(&mut self) -> (data: &mut [u8])
        requires
            old(self).wf(),
        ensures
            data@ == old(self)@,
            final(self)@ == final(data)@,
            final(self).wf(),
            final(self).spec_disk_type() == old(self).spec_disk_type(),
    {
        let len: usize = self.disk_data.len();
        vec_range_mut(&mut self.disk_data, 0, len)
    }
}

} // verus!
