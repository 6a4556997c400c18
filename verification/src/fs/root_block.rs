use vstd::prelude::*;
use vstd::string::StringSliceAdditionalSpecFns;
use vstd::utf8::encode_utf8;

use crate::block::{spec_fill, spec_read_bytes, spec_read_u32, spec_read_u8, spec_write_u32, Block};
use crate::disk::{Disk, LBAAddress};
use crate::errors::Error;
use crate::fs::amiga_dos_options::FilesystemType;
use crate::fs::block::{
    lemma_write_checksum_valid, spec_address_error, spec_block_checksum_valid, spec_write_checksum, spec_write_date, spec_write_name, spec_write_name_error,
};
use crate::fs::block_type::{BlockPrimaryType, BlockSecondaryType};
use crate::fs::boot_block::spec_root_or_default;
use crate::fs::constants::{
    BLOCK_TABLE_SIZE, ROOT_BLOCK_BITMAP_FLAG_OFFSET, ROOT_BLOCK_EXTENSION_OFFSET,
    ROOT_BLOCK_HASH_TABLE_SIZE_OFFSET,
};
use crate::fs::datetime::{spec_date_triplet_from_system_time, system_time_now};
use crate::fs::name::check_name_bytes;

verus! {

broadcast use Disk::lemma_len;

/// The image with block `address` made the root block of an empty volume
/// named `name`, all three of its dates set to `date_time`: a header block
/// of secondary type root, an empty hash table of 72 slots, the bitmap
/// flagged as valid, no bitmap blocks listed yet, and its checksum.
#[verifier::opaque]
pub open spec fn spec_root_block_init(image: Seq<u8>, address: usize, name: Seq<u8>, date_time: u64) -> Seq<u8> {
    let a = address as int;
    let cleared = spec_fill(image, a, 0, 0, 512);
    let typed = spec_write_u32(spec_write_u32(cleared, a, 0, 2), a, 508, 1);
    let dated = spec_write_date(
        spec_write_date(spec_write_date(typed, address, 420, date_time), address, 472, date_time),
        address,
        484,
        date_time,
    );
    let named = spec_write_name(dated, address, name);
    let filled = spec_write_u32(spec_write_u32(spec_write_u32(named, a, 12, 72), a, 312, 0xffff_ffff), a, 504, 0);
    spec_write_checksum(filled, address)
}

/// Why block `address` cannot be made the root block of a volume named
/// `name`, if it cannot.
pub open spec fn spec_root_block_init_error(image: Seq<u8>, address: usize, name: Seq<u8>) -> Option<Error> {
    match spec_address_error(image, address) {
        Some(e) => Some(e),
        None => spec_write_name_error(image, address, name),
    }
}

/// Writes the root block of a volume.
#[derive(Debug)]
pub struct RootBlockInitializer {
    pub filesystem_type: FilesystemType,
    pub volume_name: String,
    pub root_block_address: Option<LBAAddress>,
}

impl Default for RootBlockInitializer {
    fn default() -> (res: Self)
        ensures
            res.filesystem_type == FilesystemType::OFS,
            res.volume_name@ == "VOLUME"@,
            res.root_block_address == None::<LBAAddress>,
    {
        Self { filesystem_type: FilesystemType::OFS, volume_name: "VOLUME".to_owned(), root_block_address: None }
    }
}

impl RootBlockInitializer {
    pub fn with_filesystem_type(&mut self, filesystem_type: FilesystemType) -> (res: &mut Self)
        ensures
            res.filesystem_type == filesystem_type,
            res.volume_name == old(self).volume_name,
            res.root_block_address == old(self).root_block_address,
            *final(self) == *final(res),
    {
        self.filesystem_type = filesystem_type;
        self
    }

    pub fn with_root_block_address(&mut self, addr: Option<LBAAddress>) -> (res: &mut Self)
        ensures
            res.filesystem_type == old(self).filesystem_type,
            res.volume_name == old(self).volume_name,
            res.root_block_address == addr,
            *final(self) == *final(res),
    {
        self.root_block_address = addr;
        self
    }

    pub fn with_volume_name(&mut self, volume_name: &str) -> (res: &mut Self)
        ensures
            res.filesystem_type == old(self).filesystem_type,
            res.volume_name@ == volume_name@,
            res.root_block_address == old(self).root_block_address,
            *final(self) == *final(res),
    {
        self.volume_name = volume_name.to_owned();
        self
    }

    /// Writes the root block, with `date_time` as the time of the writing.
    /// Nothing is written unless the whole block can be.
    pub fn init_at(&self, disk: &mut Disk, date_time: u64) -> (res: Result<(), Error>)
        requires
            old(disk).wf(),
        ensures
            final(disk).wf(),
            final(disk).spec_disk_type() == old(disk).spec_disk_type(),
            ({
                let address = spec_root_or_default(self.root_block_address, old(disk).spec_block_count());
                let name = encode_utf8(self.volume_name@);
                match spec_root_block_init_error(old(disk)@, address, name) {
                    Some(e) => res == Err::<(), Error>(e) && final(disk)@ == old(disk)@,
                    None => res == Ok::<(), Error>(()) && final(disk)@ == spec_root_block_init(
                        old(disk)@,
                        address,
                        name,
                        date_time,
                    ),
                }
            }),
    {
        let root_block_addr: LBAAddress = match self.root_block_address {
            Some(address) => address,
            None => disk.block_count() / 2,
        };
        let block = Block::new(root_block_addr);
        let name = self.volume_name.as_str().as_bytes();
        proof {
            reveal(spec_root_block_init);
        }
        if root_block_addr >= disk.block_count() {
            return Err(Error::DiskInvalidLBAAddressError(root_block_addr));
        }
        match check_name_bytes(name) {
            Ok(_) => {},
            Err(e) => {
                return Err(e);
            },
        }
        if name.len() > 30 {
            return Err(Error::InvalidNameLengthError(name.len()));
        }
        let r = block.clear(disk);
        let r = block.write_block_primary_type(disk, BlockPrimaryType::Header);
        let r = block.write_block_secondary_type(disk, BlockSecondaryType::Root);
        let r = block.write_alteration_date(disk, date_time);
        let r = block.write_disk_alteration_date(disk, date_time);
        let r = block.write_root_creation_date(disk, date_time);
        let r = block.write_name_bytes(disk, name);
        let r = block.write_u32(disk, ROOT_BLOCK_HASH_TABLE_SIZE_OFFSET, BLOCK_TABLE_SIZE as u32);
        let r = block.write_u32(disk, ROOT_BLOCK_BITMAP_FLAG_OFFSET, 0xffff_ffff);
        let r = block.write_u32(disk, ROOT_BLOCK_EXTENSION_OFFSET, 0);
        block.write_checksum(disk)
    }

    /// Writes the root block, with the time of the system clock as the time
    /// of the writing.
    pub fn init(&self, disk: &mut Disk) -> (res: Result<(), Error>)
        requires
            old(disk).wf(),
        ensures
            final(disk).wf(),
            final(disk).spec_disk_type() == old(disk).spec_disk_type(),
            ({
                let address = spec_root_or_default(self.root_block_address, old(disk).spec_block_count());
                let name = encode_utf8(self.volume_name@);
                match spec_root_block_init_error(old(disk)@, address, name) {
                    Some(e) => res == Err::<(), Error>(e) && final(disk)@ == old(disk)@,
                    None => res == Ok::<(), Error>(()) && exists|date_time: u64|
                        final(disk)@ == spec_root_block_init(old(disk)@, address, name, date_time),
                }
            }),
    {
        let date_time: u64 = system_time_now();
        self.init_at(disk, date_time)
    }
}

/// What a root block just written holds, and what writing it leaves alone:
/// every byte outside the block.
pub proof fn lemma_root_block_init(image: Seq<u8>, address: usize, name: Seq<u8>, date_time: u64)
    requires
        image.len() % 512 == 0,
        spec_root_block_init_error(image, address, name) is None,
    ensures
        ({
            let written = spec_root_block_init(image, address, name, date_time);
            &&& written.len() == image.len()
            &&& forall|i: int|
                0 <= i < image.len() && !(address * 512 <= i < address * 512 + 512) ==> (#[trigger] written[i]) == image[i]
            &&& spec_read_u32(written, address as int, 0) == 2
            &&& spec_read_u32(written, address as int, 508) == 1
            &&& spec_read_u8(written, address as int, 432) == name.len()
            &&& spec_read_bytes(written, address as int, 433, name.len() as int) == name
            &&& forall|offset: int|
                24 <= offset <= 308 ==> #[trigger] spec_read_u32(written, address as int, offset) == 0
            &&& forall|offset: int|
                316 <= offset <= 412 ==> #[trigger] spec_read_u32(written, address as int, offset) == 0
            &&& spec_block_checksum_valid(written, address as int)
            &&& spec_read_u32(written, address as int, 420) == spec_date_triplet_from_system_time(date_time).0
            &&& spec_read_u32(written, address as int, 424) == spec_date_triplet_from_system_time(date_time).1
            &&& spec_read_u32(written, address as int, 428) == spec_date_triplet_from_system_time(date_time).2
            &&& spec_read_u32(written, address as int, 472) == spec_date_triplet_from_system_time(date_time).0
            &&& spec_read_u32(written, address as int, 476) == spec_date_triplet_from_system_time(date_time).1
            &&& spec_read_u32(written, address as int, 480) == spec_date_triplet_from_system_time(date_time).2
            &&& spec_read_u32(written, address as int, 484) == spec_date_triplet_from_system_time(date_time).0
            &&& spec_read_u32(written, address as int, 488) == spec_date_triplet_from_system_time(date_time).1
            &&& spec_read_u32(written, address as int, 492) == spec_date_triplet_from_system_time(date_time).2
        }),
{
    reveal(spec_root_block_init);
    let written = spec_root_block_init(image, address, name, date_time);
    assert(spec_read_bytes(written, address as int, 433, name.len() as int) =~= name);
    let a = address as int;
    let cleared = spec_fill(image, a, 0, 0, 512);
    let typed = spec_write_u32(spec_write_u32(cleared, a, 0, 2), a, 508, 1);
    let dated = spec_write_date(
        spec_write_date(spec_write_date(typed, address, 420, date_time), address, 472, date_time),
        address,
        484,
        date_time,
    );
    let named = spec_write_name(dated, address, name);
    let filled = spec_write_u32(spec_write_u32(spec_write_u32(named, a, 12, 72), a, 312, 0xffff_ffff), a, 504, 0);
    lemma_write_checksum_valid(filled, address);
}

} // verus!
