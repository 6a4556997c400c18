use vstd::prelude::*;

use crate::block::{spec_read_u32, spec_write_u32, Block};
use crate::disk::{Disk, LBAAddress};
use crate::errors::Error;
use crate::fs::amiga_dos::{spec_to_address, AmigaDos};
use crate::fs::amiga_dos_options::InternationalMode;
use crate::fs::block::{
    spec_block_count, spec_block_primary_type, spec_block_secondary_type, spec_block_table_address,
    spec_low_u32, spec_name_bytes, spec_write_checksum, spec_write_date,
};
use crate::fs::block_type::{BlockPrimaryType, BlockSecondaryType};
use crate::fs::boot_block::{
    spec_boot_block_valid, spec_boot_flags, spec_international_mode, BootBlockReader,
};
use crate::fs::constants::{BLOCK_HASH_CHAIN_NEXT_OFFSET, BLOCK_PARENT_OFFSET, BLOCK_TABLE_SIZE};
use crate::fs::name::{hash_name_bytes, spec_hash_name};

verus! {

broadcast use Disk::lemma_len;

/// Whether block `addr` is a directory: a header block of secondary type
/// directory or root.
pub open spec fn spec_check_directory(image: Seq<u8>, addr: usize) -> Result<(), Error> {
    match spec_block_primary_type(image, addr) {
        Err(e) => Err(e),
        Ok(primary) => match spec_block_secondary_type(image, addr) {
            Err(e) => Err(e),
            Ok(secondary) => if primary == BlockPrimaryType::Header && (secondary
                == BlockSecondaryType::Directory || secondary == BlockSecondaryType::Root) {
                Ok(())
            } else {
                Err(Error::NotADirectoryError)
            },
        },
    }
}

/// Whether the directory `addr` has no entry: every slot of its hash table
/// is empty.
pub open spec fn spec_check_empty_directory(image: Seq<u8>, addr: usize) -> Result<bool, Error> {
    match spec_check_directory(image, addr) {
        Err(e) => Err(e),
        Ok(_) => Ok(
            forall|index: int|
                0 <= index < 72 ==> #[trigger] spec_read_u32(image, addr as int, 24 + 4 * index) == 0,
        ),
    }
}

/// Where the entry named `name` stands in the hash chain that starts at
/// `addr`, if it is there: its own block, and the block before it in the
/// chain, `prev` for the first. The search follows at most `fuel` links, so
/// that a chain that runs in a circle is found out.
pub open spec fn spec_locate_in_hash_chain(
    image: Seq<u8>,
    name: Seq<u8>,
    addr: Option<usize>,
    prev: Option<usize>,
    fuel: nat,
) -> Result<Option<(Option<usize>, usize)>, Error>
    decreases fuel,
{
    match addr {
        None => Ok(None),
        Some(block_addr) => if fuel == 0 {
            Err(Error::CorruptedImageFile)
        } else {
            match spec_name_bytes(image, block_addr) {
                Err(e) => Err(e),
                Ok(entry_name) => if entry_name == name {
                    Ok(Some((prev, block_addr)))
                } else {
                    spec_locate_in_hash_chain(
                        image,
                        name,
                        spec_to_address(spec_read_u32(image, block_addr as int, 496)),
                        Some(block_addr),
                        (fuel - 1) as nat,
                    )
                },
            }
        },
    }
}

/// The block of the entry named `name` in the hash chain that starts at
/// `addr`, if it is there.
pub open spec fn spec_find_in_hash_chain(image: Seq<u8>, name: Seq<u8>, addr: Option<usize>) -> Result<
    Option<usize>,
    Error,
> {
    match spec_locate_in_hash_chain(image, name, addr, None, spec_block_count(image)) {
        Err(e) => Err(e),
        Ok(None) => Ok(None),
        Ok(Some((_, found))) => Ok(Some(found)),
    }
}

/// The international mode of the volume, as its boot block gives it.
pub open spec fn spec_volume_international_mode(image: Seq<u8>) -> Result<InternationalMode, Error> {
    if spec_boot_block_valid(image) {
        Ok(spec_international_mode(spec_boot_flags(image)))
    } else {
        Err(Error::CorruptedImageFile)
    }
}

/// The slot of a directory's hash table in which the volume keeps `name`:
/// the hash of the name under the volume's international mode.
pub open spec fn spec_hash_slot(image: Seq<u8>, name: Seq<u8>) -> nat {
    spec_hash_name(name, spec_international_mode(spec_boot_flags(image)))
}

/// The head of the hash chain in which the directory `dir` keeps the name
/// `name`.
pub open spec fn spec_hash_chain_head(image: Seq<u8>, dir: usize, name: Seq<u8>) -> Result<Option<usize>, Error> {
    match spec_volume_international_mode(image) {
        Err(e) => Err(e),
        Ok(mode) => spec_block_table_address(image, dir, spec_hash_name(name, mode) as usize),
    }
}

/// Where the entry named `name` stands in the directory `dir`, if it is
/// there: its own block, and the block before it in its hash chain.
pub open spec fn spec_dir_locate(image: Seq<u8>, dir: usize, name: Seq<u8>) -> Result<
    Option<(Option<usize>, usize)>,
    Error,
> {
    match spec_hash_chain_head(image, dir, name) {
        Err(e) => Err(e),
        Ok(head) => spec_locate_in_hash_chain(image, name, head, None, spec_block_count(image)),
    }
}

/// The block of the entry named `name` in the directory `dir`, if there is
/// one.
pub open spec fn spec_dir_lookup(image: Seq<u8>, dir: usize, name: Seq<u8>) -> Result<Option<usize>, Error> {
    match spec_dir_locate(image, dir, name) {
        Err(e) => Err(e),
        Ok(None) => Ok(None),
        Ok(Some((_, found))) => Ok(Some(found)),
    }
}

/// The image with the block `entry` put at the head of the hash chain in
/// which the directory `dir` keeps the name `name`: the directory's date of
/// change is set, its slot points at the entry, and its checksum follows;
/// the entry points at the old head of the chain and at the directory as
/// its parent, and its checksum follows.
pub open spec fn spec_add_entry(image: Seq<u8>, dir: usize, name: Seq<u8>, entry: usize, date_time: u64) -> Seq<
    u8,
> {
    let slot = 24 + 4 * (spec_hash_slot(image, name) as int);
    let head = spec_read_u32(image, dir as int, slot);
    let linked = spec_write_checksum(
        spec_write_u32(spec_write_date(image, dir, 420, date_time), dir as int, slot, spec_low_u32(entry)),
        dir,
    );
    spec_write_checksum(
        spec_write_u32(spec_write_u32(linked, entry as int, 496, head), entry as int, 500, spec_low_u32(dir)),
        entry,
    )
}

/// The image with the block `found` taken out of the hash chain in which
/// the directory `dir` keeps the name `name`: what pointed at the block,
/// the block before it or the directory's slot, points at what came after
/// it; the directory's date of change is set; the checksums follow.
pub open spec fn spec_remove_entry(
    image: Seq<u8>,
    dir: usize,
    name: Seq<u8>,
    prev: Option<usize>,
    found: usize,
    date_time: u64,
) -> Seq<u8> {
    let next = spec_read_u32(image, found as int, 496);
    let unlinked = match prev {
        Some(before) => spec_write_checksum(spec_write_u32(image, before as int, 496, next), before),
        None => spec_write_u32(image, dir as int, 24 + 4 * (spec_hash_slot(image, name) as int), next),
    };
    spec_write_checksum(spec_write_date(unlinked, dir, 420, date_time), dir)
}

pub fn check_directory(disk: &Disk, addr: LBAAddress) -> (res: Result<(), Error>)
    requires
        disk.wf(),
    ensures
        res == spec_check_directory(disk@, addr),
{
    let block = Block::new(addr);
    let primary = match block.read_block_primary_type(disk) {
        Ok(t) => t,
        Err(e) => {
            return Err(e);
        },
    };
    let secondary = match block.read_block_secondary_type(disk) {
        Ok(t) => t,
        Err(e) => {
            return Err(e);
        },
    };
    match (primary, secondary) {
        (BlockPrimaryType::Header, BlockSecondaryType::Directory) => Ok(()),
        (BlockPrimaryType::Header, BlockSecondaryType::Root) => Ok(()),
        _ => Err(Error::NotADirectoryError),
    }
}

pub fn check_empty_directory(disk: &Disk, addr: LBAAddress) -> (res: Result<bool, Error>)
    requires
        disk.wf(),
    ensures
        res == spec_check_empty_directory(disk@, addr),
{
    match check_directory(disk, addr) {
        Ok(_) => {},
        Err(e) => {
            return Err(e);
        },
    }
    let block = Block::new(addr);
    let mut index: usize = 0;
    while index < BLOCK_TABLE_SIZE
        invariant
            index <= 72,
            disk.wf(),
            block.address == addr,
            spec_check_directory(disk@, addr) is Ok,
            forall|i: int| 0 <= i < index ==> #[trigger] spec_read_u32(disk@, addr as int, 24 + 4 * i) == 0,
        decreases 72 - index,
    {
        match block.read_u32(disk, 24 + 4 * index) {
            Ok(value) => {
                if value != 0 {
                    assert(spec_read_u32(disk@, addr as int, 24 + 4 * (index as int)) != 0);
                    return Ok(false);
                }
            },
            Err(e) => {
                assert(false);
                return Err(e);
            },
        }
        index = index + 1;
    }
    Ok(true)
}

fn same_bytes(a: &[u8], b: &[u8]) -> (res: bool)
    ensures
        res == (a@ == b@),
{
    if a.len() != b.len() {
        return false;
    }
    let len: usize = a.len();
    let mut i: usize = 0;
    while i < len
        invariant
            i <= len,
            len == a@.len(),
            len == b@.len(),
            forall|j: int| 0 <= j < i ==> a@[j] == b@[j],
        decreases len - i,
    {
        if a[i] != b[i] {
            return false;
        }
        i = i + 1;
    }
    assert(a@ =~= b@);
    true
}

/// Looks for the entry named `name` in the hash chain that starts at
/// `addr`, and gives its block and the block before it in the chain.
pub fn locate_in_hash_chain(disk: &Disk, name: &[u8], addr: Option<LBAAddress>) -> (res: Result<
    Option<(Option<LBAAddress>, LBAAddress)>,
    Error,
>)
    requires
        disk.wf(),
    ensures
        res == spec_locate_in_hash_chain(disk@, name@, addr, None, spec_block_count(disk@)),
{
    let mut current = addr;
    let mut prev: Option<LBAAddress> = None;
    let mut fuel: usize = disk.block_count();
    loop
        invariant
            disk.wf(),
            spec_locate_in_hash_chain(disk@, name@, current, prev, fuel as nat) == spec_locate_in_hash_chain(
                disk@,
                name@,
                addr,
                None,
                spec_block_count(disk@),
            ),
        decreases fuel,
    {
        if current.is_none() {
            return Ok(None);
        }
        let block_addr: LBAAddress = current.unwrap();
        if fuel == 0 {
            return Err(Error::CorruptedImageFile);
        }
        let block = Block::new(block_addr);
        let read = block.read_name_bytes(disk);
        if read.is_err() {
            return Err(read.unwrap_err());
        }
        let entry_name = read.unwrap();
        if same_bytes(entry_name.as_slice(), name) {
            return Ok(Some((prev, block_addr)));
        }
        let next: u32 = match block.read_u32(disk, BLOCK_HASH_CHAIN_NEXT_OFFSET) {
            Ok(v) => v,
            Err(e) => {
                return Err(e);
            },
        };
        prev = Some(block_addr);
        current = AmigaDos::to_address(next);
        fuel = fuel - 1;
    }
}

pub fn find_in_hash_chain(disk: &Disk, name: &[u8], addr: Option<LBAAddress>) -> (res: Result<
    Option<LBAAddress>,
    Error,
>)
    requires
        disk.wf(),
    ensures
        res == spec_find_in_hash_chain(disk@, name@, addr),
{
    match locate_in_hash_chain(disk, name, addr) {
        Ok(Some((_, found))) => Ok(Some(found)),
        Ok(None) => Ok(None),
        Err(e) => Err(e),
    }
}

/// A directory of a volume, named by its header block.
#[derive(Clone, Copy, Debug)]
pub struct Dir {
    pub header_block_address: LBAAddress,
}

impl Dir {
    /// The directory whose header block is `header_block_address`, if that
    /// block is a directory.
    pub fn try_with_block_address(disk: &Disk, header_block_address: LBAAddress) -> (res: Result<Dir, Error>)
        requires
            disk.wf(),
        ensures
            match spec_check_directory(disk@, header_block_address) {
                Ok(_) => res == Ok::<Dir, Error>(Dir { header_block_address }),
                Err(e) => res == Err::<Dir, Error>(e),
            },
    {
        match check_directory(disk, header_block_address) {
            Ok(_) => Ok(Dir { header_block_address }),
            Err(e) => Err(e),
        }
    }

    /// The international mode of the volume and the slot in which this
    /// directory keeps `name`.
    fn slot_of(disk: &Disk, name: &[u8]) -> (res: Result<(InternationalMode, usize), Error>)
        requires
            disk.wf(),
        ensures
            match spec_volume_international_mode(disk@) {
                Ok(mode) => res == Ok::<(InternationalMode, usize), Error>(
                    (mode, spec_hash_name(name@, mode) as usize),
                ),
                Err(e) => res == Err::<(InternationalMode, usize), Error>(e),
            },
            res matches Ok((_, slot)) ==> slot < 72,
    {
        match BootBlockReader::try_from_disk(disk) {
            Ok(boot_block) => {
                let international_mode = boot_block.get_international_mode();
                Ok((international_mode, hash_name_bytes(name, international_mode)))
            },
            Err(e) => Err(e),
        }
    }

    /// Looks for the entry named `name`, and gives its block and the block
    /// before it in its hash chain.
    pub fn locate(&self, disk: &Disk, name: &[u8]) -> (res: Result<
        Option<(Option<LBAAddress>, LBAAddress)>,
        Error,
    >)
        requires
            disk.wf(),
        ensures
            res == spec_dir_locate(disk@, self.header_block_address, name@),
    {
        let (_, hash_index) = match Self::slot_of(disk, name) {
            Ok(slot) => slot,
            Err(e) => {
                return Err(e);
            },
        };
        let head = match Block::new(self.header_block_address).read_block_table_address(disk, hash_index) {
            Ok(head) => head,
            Err(e) => {
                return Err(e);
            },
        };
        locate_in_hash_chain(disk, name, head)
    }

    /// The block of the entry named `name`, if there is one.
    pub fn lookup(&self, disk: &Disk, name: &[u8]) -> (res: Result<Option<LBAAddress>, Error>)
        requires
            disk.wf(),
        ensures
            res == spec_dir_lookup(disk@, self.header_block_address, name@),
    {
        match self.locate(disk, name) {
            Ok(Some((_, found))) => Ok(Some(found)),
            Ok(None) => Ok(None),
            Err(e) => Err(e),
        }
    }

    /// Puts the block `entry_block_address` into the directory under the
    /// name `name`, at the head of the hash chain of that name. The name
    /// must not be in the directory yet.
    pub fn add_entry(&self, disk: &mut Disk, name: &[u8], entry_block_address: LBAAddress, date_time: u64) -> (res:
        Result<(), Error>)
        requires
            old(disk).wf(),
            spec_dir_lookup(old(disk)@, self.header_block_address, name@) == Ok::<Option<usize>, Error>(None),
            entry_block_address < old(disk).spec_block_count(),
        ensures
            final(disk).wf(),
            final(disk).spec_disk_type() == old(disk).spec_disk_type(),
            res == Ok::<(), Error>(()),
            final(disk)@ == spec_add_entry(
                old(disk)@,
                self.header_block_address,
                name@,
                entry_block_address,
                date_time,
            ),
    {
        let (_, hash_index) = match Self::slot_of(disk, name) {
            Ok(slot) => slot,
            Err(e) => {
                return Err(e);
            },
        };
        let dir_block = Block::new(self.header_block_address);
        let hash_chain_head: u32 = match dir_block.read_u32(disk, 24 + 4 * hash_index) {
            Ok(head) => head,
            Err(e) => {
                return Err(e);
            },
        };
        let r = dir_block.write_alteration_date(disk, date_time);
        let r = dir_block.write_hash_table_block_address(disk, hash_index, entry_block_address);
        let r = dir_block.write_checksum(disk);
        let entry_block = Block::new(entry_block_address);
        let r = entry_block.write_u32(disk, BLOCK_HASH_CHAIN_NEXT_OFFSET, hash_chain_head);
        let r = entry_block.write_u32(disk, BLOCK_PARENT_OFFSET, crate::fs::block::low_u32(self.header_block_address));
        entry_block.write_checksum(disk)
    }

    /// Takes the entry named `name` out of the directory. The blocks of the
    /// entry stay as they are: to give them back is up to the caller.
    pub fn remove_entry(&self, disk: &mut Disk, name: &[u8], date_time: u64) -> (res: Result<(), Error>)
        requires
            old(disk).wf(),
        ensures
            final(disk).wf(),
            final(disk).spec_disk_type() == old(disk).spec_disk_type(),
            match spec_dir_locate(old(disk)@, self.header_block_address, name@) {
                Err(e) => res == Err::<(), Error>(e) && final(disk)@ == old(disk)@,
                Ok(None) => res == Err::<(), Error>(Error::NotFoundError) && final(disk)@ == old(disk)@,
                Ok(Some((prev, found))) => res == Ok::<(), Error>(()) && final(disk)@ == spec_remove_entry(
                    old(disk)@,
                    self.header_block_address,
                    name@,
                    prev,
                    found,
                    date_time,
                ),
            },
    {
        let (prev, found) = match self.locate(disk, name) {
            Ok(Some(place)) => place,
            Ok(None) => {
                return Err(Error::NotFoundError);
            },
            Err(e) => {
                return Err(e);
            },
        };
        let (_, hash_index) = match Self::slot_of(disk, name) {
            Ok(slot) => slot,
            Err(e) => {
                return Err(e);
            },
        };
        proof {
            lemma_located_is_in_image(
                disk@,
                name@,
                spec_hash_chain_head(disk@, self.header_block_address, name@)->Ok_0,
                None,
                spec_block_count(disk@),
            );
        }
        let next: u32 = match Block::new(found).read_u32(disk, BLOCK_HASH_CHAIN_NEXT_OFFSET) {
            Ok(v) => v,
            Err(e) => {
                return Err(e);
            },
        };
        let dir_block = Block::new(self.header_block_address);
        match prev {
            Some(before) => {
                let prev_block = Block::new(before);
                let r = prev_block.write_u32(disk, BLOCK_HASH_CHAIN_NEXT_OFFSET, next);
                let r = prev_block.write_checksum(disk);
            },
            None => {
                let r = dir_block.write_u32(disk, 24 + 4 * hash_index, next);
            },
        }
        let r = dir_block.write_alteration_date(disk, date_time);
        dir_block.write_checksum(disk)
    }
}

/// What a search of a hash chain finds lies in the image: the block found,
/// and the block before it.
pub proof fn lemma_located_is_in_image(
    image: Seq<u8>,
    name: Seq<u8>,
    addr: Option<usize>,
    prev: Option<usize>,
    fuel: nat,
)
    requires
        prev matches Some(before) ==> before < spec_block_count(image),
    ensures
        spec_locate_in_hash_chain(image, name, addr, prev, fuel) matches Ok(Some((before, found))) ==> found
            < spec_block_count(image) && (before matches Some(b) ==> b < spec_block_count(image))
            && spec_name_bytes(image, found) == Ok::<Seq<u8>, Error>(name),
    decreases fuel,
{
    if addr is Some && fuel > 0 {
        let block_addr = addr->Some_0;
        if spec_name_bytes(image, block_addr) is Ok && spec_name_bytes(image, block_addr)->Ok_0 != name {
            lemma_located_is_in_image(
                image,
                name,
                spec_to_address(spec_read_u32(image, block_addr as int, 496)),
                Some(block_addr),
                (fuel - 1) as nat,
            );
        }
    }
}

/// What putting an entry into a directory changes: of the directory block
/// its checksum, its date of change and the slot of the name, which holds
/// the entry afterwards; of the entry block its checksum and its two links;
/// and nothing else.
#[verifier::spinoff_prover]
#[verifier::rlimit(100)]
pub proof fn lemma_add_entry_layout(image: Seq<u8>, dir: usize, name: Seq<u8>, entry: usize, date_time: u64)
    requires
        image.len() % 512 == 0,
        dir < spec_block_count(image),
        entry < spec_block_count(image),
        dir != entry,
    ensures
        ({
            let after = spec_add_entry(image, dir, name, entry, date_time);
            let slot = 24 + 4 * (spec_hash_slot(image, name) as int);
            &&& after.len() == image.len()
            &&& forall|i: int|
                0 <= i < image.len() && !(dir * 512 <= i < dir * 512 + 512) && !(entry * 512 <= i < entry * 512
                    + 512) ==> #[trigger] after[i] == image[i]
            &&& forall|o: int|
                0 <= o < 512 && !(20 <= o < 24) && !(420 <= o < 432) && !(slot <= o < slot + 4)
                    ==> #[trigger] after[dir * 512 + o] == image[dir * 512 + o]
            &&& forall|o: int|
                0 <= o < 512 && !(20 <= o < 24) && !(496 <= o < 504) ==> #[trigger] after[entry * 512 + o]
                    == image[entry * 512 + o]
            &&& spec_read_u32(after, dir as int, slot) == spec_low_u32(entry)
        }),
{
    let after = spec_add_entry(image, dir, name, entry, date_time);
    let slot = 24 + 4 * (spec_hash_slot(image, name) as int);
    crate::fs::name::lemma_hash_name_in_table(name, spec_international_mode(spec_boot_flags(image)));
    crate::block::lemma_u32_be_roundtrip(spec_low_u32(entry));
    assert(crate::block::spec_read_bytes(after, dir as int, slot, 4) =~= crate::block::spec_u32_to_be_bytes(
        spec_low_u32(entry),
    ));
}

/// An entry that is put into a directory is found there: after the header
/// block `entry`, which holds the name `name`, has been put into the
/// directory `dir` under that name, the search of the directory for the
/// name gives that block, and the directory lists it first in the slot of
/// the name.
pub proof fn lemma_add_entry_found(image: Seq<u8>, dir: usize, name: Seq<u8>, entry: usize, date_time: u64)
    requires
        image.len() % 512 == 0,
        spec_boot_block_valid(image),
        2 <= dir < spec_block_count(image),
        2 <= entry < spec_block_count(image),
        spec_block_count(image) <= 0xffff_ffff,
        dir != entry,
        spec_check_directory(image, dir) is Ok,
        spec_name_bytes(image, entry) == Ok::<Seq<u8>, Error>(name),
    ensures
        ({
            let after = spec_add_entry(image, dir, name, entry, date_time);
            &&& after.len() == image.len()
            &&& spec_boot_block_valid(after)
            &&& spec_check_directory(after, dir) is Ok
            &&& spec_name_bytes(after, entry) == Ok::<Seq<u8>, Error>(name)
            &&& spec_hash_chain_head(after, dir, name) == Ok::<Option<usize>, Error>(Some(entry))
            &&& spec_dir_lookup(after, dir, name) == Ok::<Option<usize>, Error>(Some(entry))
        }),
{
    let after = spec_add_entry(image, dir, name, entry, date_time);
    lemma_add_entry_layout(image, dir, name, entry, date_time);
    crate::fs::name::lemma_hash_name_in_table(name, spec_international_mode(spec_boot_flags(image)));
    lemma_entry_found(image, after, dir, name, entry);
}

/// What follows for the search of a directory from what putting an entry
/// into it changes.
proof fn lemma_entry_found(image: Seq<u8>, after: Seq<u8>, dir: usize, name: Seq<u8>, entry: usize)
    requires
        image.len() % 512 == 0,
        after.len() == image.len(),
        spec_boot_block_valid(image),
        2 <= dir < spec_block_count(image),
        2 <= entry < spec_block_count(image),
        spec_block_count(image) <= 0xffff_ffff,
        dir != entry,
        spec_check_directory(image, dir) is Ok,
        spec_name_bytes(image, entry) == Ok::<Seq<u8>, Error>(name),
        spec_hash_slot(image, name) < 72,
        forall|i: int|
            0 <= i < image.len() && !(dir * 512 <= i < dir * 512 + 512) && !(entry * 512 <= i < entry * 512 + 512)
                ==> #[trigger] after[i] == image[i],
        forall|o: int|
            0 <= o < 512 && !(20 <= o < 24) && !(420 <= o < 432) && !(24 + 4 * (spec_hash_slot(image, name) as int)
                <= o < 24 + 4 * (spec_hash_slot(image, name) as int) + 4) ==> #[trigger] after[dir * 512 + o]
                == image[dir * 512 + o],
        forall|o: int|
            0 <= o < 512 && !(20 <= o < 24) && !(496 <= o < 504) ==> #[trigger] after[entry * 512 + o]
                == image[entry * 512 + o],
        spec_read_u32(after, dir as int, 24 + 4 * (spec_hash_slot(image, name) as int)) == spec_low_u32(entry),
    ensures
        spec_boot_block_valid(after),
        spec_check_directory(after, dir) is Ok,
        spec_name_bytes(after, entry) == Ok::<Seq<u8>, Error>(name),
        spec_hash_chain_head(after, dir, name) == Ok::<Option<usize>, Error>(Some(entry)),
        spec_dir_lookup(after, dir, name) == Ok::<Option<usize>, Error>(Some(entry)),
{
    assert(crate::fs::frame::spec_same_block(image, after, 0));
    assert(crate::fs::frame::spec_same_block(image, after, 1));
    crate::fs::frame::lemma_same_boot(image, after);
    crate::fs::frame::lemma_same_range_reads(image, after, dir as int, 0, 20);
    crate::fs::frame::lemma_same_range_reads(image, after, dir as int, 504, 512);
    crate::fs::frame::lemma_same_range_reads(image, after, entry as int, 0, 20);
    crate::fs::frame::lemma_same_range_reads(image, after, entry as int, 504, 512);
    crate::fs::frame::lemma_same_range_reads(image, after, entry as int, 432, 464);
    assert(spec_name_bytes(after, entry) == Ok::<Seq<u8>, Error>(name));
    assert(seq![BlockPrimaryType::Header, BlockPrimaryType::List].contains(BlockPrimaryType::Header)) by {
        assert(seq![BlockPrimaryType::Header, BlockPrimaryType::List][0] == BlockPrimaryType::Header);
    }
}

/// Putting an entry into a directory keeps checksums: the directory block
/// and the entry block hold valid checksums afterwards.
pub proof fn lemma_add_entry_sums(
    image: Seq<u8>,
    pages: Seq<usize>,
    dir: usize,
    name: Seq<u8>,
    entry: usize,
    date_time: u64,
    raw: Set<int>,
)
    requires
        image.len() % 512 == 0,
        dir < spec_block_count(image),
        entry < spec_block_count(image),
        !pages.contains(dir),
        !pages.contains(entry),
    ensures
        crate::fs::frame::spec_sums_kept(image, spec_add_entry(image, dir, name, entry, date_time), pages, raw),
{
    let slot = 24 + 4 * (spec_hash_slot(image, name) as int);
    crate::fs::name::lemma_hash_name_in_table(name, spec_international_mode(spec_boot_flags(image)));
    let head = spec_read_u32(image, dir as int, slot);
    let pointed = spec_write_u32(spec_write_date(image, dir, 420, date_time), dir as int, slot, spec_low_u32(entry));
    let linked = spec_write_checksum(pointed, dir);
    assert(crate::fs::frame::spec_unchanged_outside(image, pointed, set![dir as int])) by {
        assert forall|i: int| 0 <= i < image.len() && !set![dir as int].contains(i / 512) implies #[trigger] pointed[i]
            == image[i] by {
            assert(!(dir * 512 <= i < dir * 512 + 512));
        }
    }
    crate::fs::block::lemma_written_and_summed(image, pointed, pages, dir, raw);
    let chained = spec_write_u32(spec_write_u32(linked, entry as int, 496, head), entry as int, 500, spec_low_u32(dir));
    assert(crate::fs::frame::spec_unchanged_outside(linked, chained, set![entry as int])) by {
        assert forall|i: int| 0 <= i < linked.len() && !set![entry as int].contains(i / 512) implies #[trigger] chained[i]
            == linked[i] by {
            assert(!(entry * 512 <= i < entry * 512 + 512));
        }
    }
    crate::fs::block::lemma_written_and_summed(linked, chained, pages, entry, raw);
    crate::fs::frame::lemma_sums_kept_trans(
        image,
        linked,
        spec_write_checksum(chained, entry),
        pages,
        raw,
        raw,
        raw,
    );
}

/// Taking an entry out of a directory keeps checksums: the directory block
/// holds a valid checksum afterwards, and so does the block that came
/// before the entry in its hash chain.
pub proof fn lemma_remove_entry_sums(
    image: Seq<u8>,
    pages: Seq<usize>,
    dir: usize,
    name: Seq<u8>,
    prev: Option<usize>,
    found: usize,
    date_time: u64,
    raw: Set<int>,
)
    requires
        image.len() % 512 == 0,
        dir < spec_block_count(image),
        !pages.contains(dir),
        prev matches Some(before) ==> before < spec_block_count(image) && !pages.contains(before),
    ensures
        crate::fs::frame::spec_sums_kept(
            image,
            spec_remove_entry(image, dir, name, prev, found, date_time),
            pages,
            raw,
        ),
{
    crate::fs::name::lemma_hash_name_in_table(name, spec_international_mode(spec_boot_flags(image)));
    let next = spec_read_u32(image, found as int, 496);
    match prev {
        Some(before) => {
            let pointed = spec_write_u32(image, before as int, 496, next);
            assert(crate::fs::frame::spec_unchanged_outside(image, pointed, set![before as int])) by {
                assert forall|i: int|
                    0 <= i < image.len() && !set![before as int].contains(i / 512) implies #[trigger] pointed[i]
                    == image[i] by {
                    assert(!(before * 512 <= i < before * 512 + 512));
                }
            }
            crate::fs::block::lemma_written_and_summed(image, pointed, pages, before, raw);
            let unlinked = spec_write_checksum(pointed, before);
            let dated = spec_write_date(unlinked, dir, 420, date_time);
            assert(crate::fs::frame::spec_unchanged_outside(unlinked, dated, set![dir as int])) by {
                assert forall|i: int|
                    0 <= i < unlinked.len() && !set![dir as int].contains(i / 512) implies #[trigger] dated[i]
                    == unlinked[i] by {
                    assert(!(dir * 512 <= i < dir * 512 + 512));
                }
            }
            crate::fs::block::lemma_written_and_summed(unlinked, dated, pages, dir, raw);
            crate::fs::frame::lemma_sums_kept_trans(
                image,
                unlinked,
                spec_write_checksum(dated, dir),
                pages,
                raw,
                raw,
                raw,
            );
        },
        None => {
            let slot = 24 + 4 * (spec_hash_slot(image, name) as int);
            let dated = spec_write_date(spec_write_u32(image, dir as int, slot, next), dir, 420, date_time);
            assert(crate::fs::frame::spec_unchanged_outside(image, dated, set![dir as int])) by {
                assert forall|i: int|
                    0 <= i < image.len() && !set![dir as int].contains(i / 512) implies #[trigger] dated[i]
                    == image[i] by {
                    assert(!(dir * 512 <= i < dir * 512 + 512));
                }
            }
            crate::fs::block::lemma_written_and_summed(image, dated, pages, dir, raw);
        },
    }
}

/// A directory stays the directory that it was when its block stays the
/// same.
pub proof fn lemma_same_directory(before: Seq<u8>, after: Seq<u8>, dir: usize)
    requires
        before.len() % 512 == 0,
        after.len() == before.len(),
        dir < spec_block_count(before),
        crate::fs::frame::spec_same_block(before, after, dir as int),
    ensures
        spec_check_directory(after, dir) == spec_check_directory(before, dir),
{
    crate::fs::frame::lemma_same_block_reads(before, after, dir as int);
}

/// Putting an entry into a directory touches the directory block and the
/// entry block, and nothing else.
pub proof fn lemma_add_entry_frame(image: Seq<u8>, dir: usize, name: Seq<u8>, entry: usize, date_time: u64)
    requires
        image.len() % 512 == 0,
        dir < spec_block_count(image),
        entry < spec_block_count(image),
    ensures
        spec_add_entry(image, dir, name, entry, date_time).len() == image.len(),
        crate::fs::frame::spec_unchanged_outside(
            image,
            spec_add_entry(image, dir, name, entry, date_time),
            set![dir as int, entry as int],
        ),
{
    let after = spec_add_entry(image, dir, name, entry, date_time);
    let touched = set![dir as int, entry as int];
    crate::fs::name::lemma_hash_name_in_table(name, spec_international_mode(spec_boot_flags(image)));
    assert forall|i: int| 0 <= i < image.len() && !touched.contains(i / 512) implies #[trigger] after[i]
        == image[i] by {
        assert(!(dir * 512 <= i < dir * 512 + 512));
        assert(!(entry * 512 <= i < entry * 512 + 512));
    }
}

} // verus!
