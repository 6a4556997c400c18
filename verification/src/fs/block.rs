use vstd::prelude::*;
use vstd::string::StringSliceAdditionalSpecFns;
use vstd::utf8::{decode_utf8, encode_utf8, valid_utf8};

use crate::block::{
    spec_access_error, spec_read_bytes, spec_read_u32, spec_read_u32s, spec_read_u8, spec_write_bytes,
    spec_write_u32, spec_write_u8, string_from_utf8, Block,
};
use crate::disk::{Disk, LBAAddress, BLOCK_SIZE};
use crate::errors::Error;
use crate::fs::amiga_dos::{spec_to_address, AmigaDos};
use crate::fs::block_type::{BlockPrimaryType, BlockSecondaryType};
use crate::fs::checksum::{
    compute_checksum, lemma_words_sum_agree, spec_checksum, spec_checksum_valid, spec_word,
};
use crate::fs::constants::{
    BLOCK_ALTERATION_DAYS_OFFSET, BLOCK_ALTERATION_MINS_OFFSET, BLOCK_ALTERATION_TICKS_OFFSET,
    BLOCK_CHECKSUM_OFFSET, BLOCK_DATA_LIST_EXTENSION_OFFSET, BLOCK_DATA_LIST_HEADER_KEY_OFFSET,
    BLOCK_FILE_SIZE, BLOCK_HASH_CHAIN_NEXT_OFFSET, BLOCK_NAME_MAX_SIZE, BLOCK_NAME_OFFSET,
    BLOCK_NAME_SIZE_OFFSET, BLOCK_PRIMARY_TYPE_OFFSET, BLOCK_SECONDARY_TYPE_OFFSET, BLOCK_TABLE_OFFSET,
    BLOCK_TABLE_SIZE, ROOT_BLOCK_BITMAP_PAGES_MAX_COUNT, ROOT_BLOCK_BITMAP_PAGES_OFFSET,
    ROOT_BLOCK_C_DAYS_OFFSET, ROOT_BLOCK_C_MINS_OFFSET, ROOT_BLOCK_C_TICKS_OFFSET, ROOT_BLOCK_V_DAYS_OFFSET,
    ROOT_BLOCK_V_MINS_OFFSET, ROOT_BLOCK_V_TICKS_OFFSET,
};
use crate::fs::datetime::{
    date_triplet_from_system_time, date_triplet_to_system_time, spec_date_triplet_from_system_time,
    spec_date_triplet_to_system_time,
};
use crate::fs::name::{check_name_bytes, spec_valid_name};

verus! {

broadcast use Disk::lemma_len;

/// Number of blocks of an image.
pub open spec fn spec_block_count(image: Seq<u8>) -> nat {
    (image.len() / 512) as nat
}

/// Why block `address` cannot be reached, if it cannot: it lies beyond the
/// image.
pub open spec fn spec_address_error(image: Seq<u8>, address: usize) -> Option<Error> {
    if address >= spec_block_count(image) {
        Some(Error::DiskInvalidLBAAddressError(address))
    } else {
        None
    }
}

/// The primary type of block `address`.
pub open spec fn spec_block_primary_type(image: Seq<u8>, address: usize) -> Result<BlockPrimaryType, Error> {
    match spec_address_error(image, address) {
        Some(e) => Err(e),
        None => BlockPrimaryType::spec_try_from(spec_read_u32(image, address as int, 0)),
    }
}

/// The secondary type of block `address`.
pub open spec fn spec_block_secondary_type(image: Seq<u8>, address: usize) -> Result<
    BlockSecondaryType,
    Error,
> {
    match spec_address_error(image, address) {
        Some(e) => Err(e),
        None => BlockSecondaryType::spec_try_from(spec_read_u32(image, address as int, 508)),
    }
}

/// Whether block `address` has one of the primary types `expected`; if not,
/// the error names the type it has.
pub open spec fn spec_check_block_primary_type(
    image: Seq<u8>,
    address: usize,
    expected: Seq<BlockPrimaryType>,
) -> Result<(), Error> {
    match spec_block_primary_type(image, address) {
        Err(e) => Err(e),
        Ok(block_type) => if expected.contains(block_type) {
            Ok(())
        } else {
            Err(Error::UnexpectedFilesystemBlockPrimaryTypeError(block_type.spec_to_u32()))
        },
    }
}

/// Whether block `address` has one of the secondary types `expected`; if
/// not, the error names the type it has.
pub open spec fn spec_check_block_secondary_type(
    image: Seq<u8>,
    address: usize,
    expected: Seq<BlockSecondaryType>,
) -> Result<(), Error> {
    match spec_block_secondary_type(image, address) {
        Err(e) => Err(e),
        Ok(block_type) => if expected.contains(block_type) {
            Ok(())
        } else {
            Err(Error::UnexpectedFilesystemBlockSecondaryTypeError(block_type.spec_to_u32()))
        },
    }
}

/// Whether block `address` is a header block or a list block: the two kinds
/// that hold a table of block addresses.
pub open spec fn spec_check_has_table(image: Seq<u8>, address: usize) -> Result<(), Error> {
    spec_check_block_primary_type(image, address, seq![BlockPrimaryType::Header, BlockPrimaryType::List])
}

/// Whether block `address` is a header block.
pub open spec fn spec_check_header(image: Seq<u8>, address: usize) -> Result<(), Error> {
    spec_check_block_primary_type(image, address, seq![BlockPrimaryType::Header])
}

/// Whether block `address` is a header block of secondary type `secondary`.
pub open spec fn spec_check_header_of(image: Seq<u8>, address: usize, secondary: BlockSecondaryType) -> Result<
    (),
    Error,
> {
    match spec_check_header(image, address) {
        Err(e) => Err(e),
        Ok(_) => spec_check_block_secondary_type(image, address, seq![secondary]),
    }
}

/// The nonzero numbers among `values`, in their order, as block addresses.
pub open spec fn spec_nonzero_addresses(values: Seq<u32>) -> Seq<usize>
    decreases values.len(),
{
    if values.len() == 0 {
        Seq::empty()
    } else {
        let head = spec_nonzero_addresses(values.drop_last());
        if values.last() != 0 {
            head.push(values.last() as usize)
        } else {
            head
        }
    }
}

/// The addresses of the bitmap blocks that the root block `address` lists:
/// the nonzero entries of its table of 25.
pub open spec fn spec_read_bitmap(image: Seq<u8>, address: usize) -> Result<Seq<usize>, Error> {
    match spec_check_header_of(image, address, BlockSecondaryType::Root) {
        Err(e) => Err(e),
        Ok(_) => Ok(spec_nonzero_addresses(spec_read_u32s(image, address as int, 316, 25))),
    }
}

/// Entry `index` of the table of block addresses of the header or list
/// block `address`; zero stands for no block.
pub open spec fn spec_block_table_address(image: Seq<u8>, address: usize, index: usize) -> Result<
    Option<usize>,
    Error,
> {
    match spec_check_has_table(image, address) {
        Err(e) => Err(e),
        Ok(_) => if index < 72 {
            Ok(spec_to_address(spec_read_u32(image, address as int, 24 + 4 * index)))
        } else {
            Err(Error::InvalidDataBlockIndexError(index))
        },
    }
}

/// The block that follows the header block `address` in its hash chain.
pub open spec fn spec_hash_chain_next_address(image: Seq<u8>, address: usize) -> Result<Option<usize>, Error> {
    match spec_check_header(image, address) {
        Err(e) => Err(e),
        Ok(_) => Ok(spec_to_address(spec_read_u32(image, address as int, 496))),
    }
}

/// The list block that continues the table of the header or list block
/// `address`.
pub open spec fn spec_data_list_extension_address(image: Seq<u8>, address: usize) -> Result<
    Option<usize>,
    Error,
> {
    match spec_check_has_table(image, address) {
        Err(e) => Err(e),
        Ok(_) => Ok(spec_to_address(spec_read_u32(image, address as int, 504))),
    }
}

/// The bytes of the name stored in the header block `address`: a length
/// byte of at most 30, then as many bytes, which are valid UTF-8 and a
/// valid name.
pub open spec fn spec_name_bytes(image: Seq<u8>, address: usize) -> Result<Seq<u8>, Error> {
    match spec_check_header(image, address) {
        Err(e) => Err(e),
        Ok(_) => match spec_block_secondary_type(image, address) {
            Err(e) => Err(e),
            Ok(_) => {
                let len = spec_read_u8(image, address as int, 432);
                let bytes = spec_read_bytes(image, address as int, 433, len as int);
                if len > 30 {
                    Err(Error::InvalidNameLengthError(len as usize))
                } else if !valid_utf8(bytes) {
                    Err(Error::InvalidStringError)
                } else if !spec_valid_name(bytes) {
                    Err(Error::InvalidNameError)
                } else {
                    Ok(bytes)
                }
            },
        },
    }
}

/// The size in bytes of the file whose header block is `address`.
pub open spec fn spec_file_size(image: Seq<u8>, address: usize) -> Result<usize, Error> {
    match spec_check_header_of(image, address, BlockSecondaryType::File) {
        Err(e) => Err(e),
        Ok(_) => Ok(spec_read_u32(image, address as int, 324) as usize),
    }
}

/// The time that the three numbers at `offset` of block `address` stand
/// for, in seconds since the Unix epoch.
pub open spec fn spec_date_at(image: Seq<u8>, address: usize, offset: int) -> u64 {
    spec_date_triplet_to_system_time(
        spec_read_u32(image, address as int, offset),
        spec_read_u32(image, address as int, offset + 4),
        spec_read_u32(image, address as int, offset + 8),
    )
}

/// When the entry whose header block is `address` was last changed: the
/// block must be a header block of an entry, be it a directory, a file or
/// a link.
pub open spec fn spec_alteration_date(image: Seq<u8>, address: usize) -> Result<u64, Error> {
    match spec_check_header(image, address) {
        Err(e) => Err(e),
        Ok(_) => match spec_check_block_secondary_type(
            image,
            address,
            seq![
                BlockSecondaryType::Directory,
                BlockSecondaryType::File,
                BlockSecondaryType::HardLinkFile,
                BlockSecondaryType::HardLinkDirectory,
                BlockSecondaryType::Root,
                BlockSecondaryType::SoftLink,
            ],
        ) {
            Err(e) => Err(e),
            Ok(_) => Ok(spec_date_at(image, address, 420)),
        },
    }
}

/// When the volume whose root block is `address` was last changed.
pub open spec fn spec_disk_alteration_date(image: Seq<u8>, address: usize) -> Result<u64, Error> {
    match spec_check_header_of(image, address, BlockSecondaryType::Root) {
        Err(e) => Err(e),
        Ok(_) => Ok(spec_date_at(image, address, 472)),
    }
}

/// When the volume whose root block is `address` was made.
pub open spec fn spec_root_creation_date(image: Seq<u8>, address: usize) -> Result<u64, Error> {
    match spec_check_header_of(image, address, BlockSecondaryType::Root) {
        Err(e) => Err(e),
        Ok(_) => Ok(spec_date_at(image, address, 484)),
    }
}

/// The image with the date that stands for `date_time` written at `offset`
/// of block `address`.
pub open spec fn spec_write_date(image: Seq<u8>, address: usize, offset: int, date_time: u64) -> Seq<u8> {
    let (days, mins, ticks) = spec_date_triplet_from_system_time(date_time);
    spec_write_u32(
        spec_write_u32(spec_write_u32(image, address as int, offset, days), address as int, offset + 4, mins),
        address as int,
        offset + 8,
        ticks,
    )
}

/// The image with `name` stored as the name of block `address`: its length
/// in one byte, then its bytes.
pub open spec fn spec_write_name(image: Seq<u8>, address: usize, name: Seq<u8>) -> Seq<u8> {
    spec_write_bytes(spec_write_u8(image, address as int, 432, name.len() as u8), address as int, 433, name)
}

/// Why `name` cannot be stored in block `address`, if it cannot.
pub open spec fn spec_write_name_error(image: Seq<u8>, address: usize, name: Seq<u8>) -> Option<Error> {
    if !spec_valid_name(name) {
        Some(Error::InvalidNameError)
    } else if name.len() > 30 {
        Some(Error::InvalidNameLengthError(name.len() as usize))
    } else {
        spec_address_error(image, address)
    }
}

/// The image with the checksum of block `address` stored in its checksum
/// word, at byte 20.
pub open spec fn spec_write_checksum(image: Seq<u8>, address: usize) -> Seq<u8> {
    spec_write_u32(image, address as int, 20, spec_checksum(spec_read_bytes(image, address as int, 0, 512), 20))
}

/// The image with block `address` made the header block of a fresh entry:
/// the block is cleared, it gets its two types, its date of change, its
/// name and its own address as its key, and its checksum follows.
pub open spec fn spec_init_header(
    image: Seq<u8>,
    address: usize,
    secondary: BlockSecondaryType,
    name: Seq<u8>,
    date_time: u64,
) -> Seq<u8> {
    let a = address as int;
    let cleared = crate::block::spec_fill(image, a, 0, 0, 512);
    let typed = spec_write_u32(spec_write_u32(cleared, a, 0, 2), a, 508, secondary.spec_to_u32());
    let named = spec_write_name(spec_write_date(typed, address, 420, date_time), address, name);
    spec_write_checksum(spec_write_u32(named, a, 4, spec_low_u32(address)), address)
}

/// Why block `address` cannot be made the header block of an entry named
/// `name`, if it cannot.
pub open spec fn spec_init_header_error(image: Seq<u8>, address: usize, name: Seq<u8>) -> Option<Error> {
    match spec_address_error(image, address) {
        Some(e) => Some(e),
        None => spec_write_name_error(image, address, name),
    }
}

/// Whether block `address` holds its own checksum in its checksum word, at
/// byte 20: the words of the block sum up to zero modulo 2^32.
pub open spec fn spec_block_checksum_valid(image: Seq<u8>, address: int) -> bool {
    spec_checksum_valid(spec_read_bytes(image, address, 0, 512), 20)
}

/// A checksum just stored is valid.
pub proof fn lemma_write_checksum_valid(image: Seq<u8>, address: usize)
    requires
        address * 512 + 512 <= image.len(),
    ensures
        spec_block_checksum_valid(spec_write_checksum(image, address), address as int),
{
    let before = spec_read_bytes(image, address as int, 0, 512);
    let checksum = spec_checksum(before, 20);
    let after = spec_read_bytes(spec_write_checksum(image, address), address as int, 0, 512);
    assert forall|i: int| 0 <= i < 128 && i != 5 implies spec_word(after, i) == spec_word(before, i) by {
        assert(after.subrange(4 * i, 4 * i + 4) =~= before.subrange(4 * i, 4 * i + 4));
    }
    lemma_words_sum_agree(after, before, 5, 128);
    assert(after.subrange(20, 24) =~= crate::block::spec_u32_to_be_bytes(checksum));
    crate::block::lemma_u32_be_roundtrip(checksum);
}

/// A step that writes into one block, which is no bitmap block, and stores
/// the checksum of the block last keeps checksums.
pub proof fn lemma_written_and_summed(
    image: Seq<u8>,
    written: Seq<u8>,
    pages: Seq<usize>,
    address: usize,
    raw: Set<int>,
)
    requires
        image.len() % 512 == 0,
        address < spec_block_count(image),
        !pages.contains(address),
        crate::fs::frame::spec_unchanged_outside(image, written, set![address as int]),
    ensures
        crate::fs::frame::spec_unchanged_outside(
            image,
            spec_write_checksum(written, address),
            set![address as int],
        ),
        spec_block_checksum_valid(spec_write_checksum(written, address), address as int),
        crate::fs::frame::spec_sums_kept(image, spec_write_checksum(written, address), pages, raw),
{
    let after = spec_write_checksum(written, address);
    lemma_write_checksum_valid(written, address);
    let touched = set![address as int];
    assert(crate::fs::frame::spec_unchanged_outside(image, after, touched)) by {
        assert forall|i: int| 0 <= i < image.len() && !touched.contains(i / 512) implies #[trigger] after[i]
            == image[i] by {
            assert(!(address * 512 <= i < address * 512 + 512));
            assert(written[i] == image[i]);
        }
    }
    crate::fs::frame::lemma_block_summed(image, after, pages, address as int, raw);
}

/// Making a block the header block of a fresh entry keeps checksums.
pub proof fn lemma_init_header_sums(
    image: Seq<u8>,
    pages: Seq<usize>,
    address: usize,
    secondary: BlockSecondaryType,
    name: Seq<u8>,
    date_time: u64,
    raw: Set<int>,
)
    requires
        image.len() % 512 == 0,
        spec_init_header_error(image, address, name) is None,
        !pages.contains(address),
    ensures
        crate::fs::frame::spec_sums_kept(
            image,
            spec_init_header(image, address, secondary, name, date_time),
            pages,
            raw,
        ),
        crate::fs::frame::spec_unchanged_outside(
            image,
            spec_init_header(image, address, secondary, name, date_time),
            set![address as int],
        ),
{
    let a = address as int;
    let cleared = crate::block::spec_fill(image, a, 0, 0, 512);
    let typed = spec_write_u32(spec_write_u32(cleared, a, 0, 2), a, 508, secondary.spec_to_u32());
    let named = spec_write_name(spec_write_date(typed, address, 420, date_time), address, name);
    let keyed = spec_write_u32(named, a, 4, spec_low_u32(address));
    let touched = set![a];
    assert(crate::fs::frame::spec_unchanged_outside(image, keyed, touched)) by {
        assert forall|i: int| 0 <= i < image.len() && !touched.contains(i / 512) implies #[trigger] keyed[i]
            == image[i] by {
            assert(!(address * 512 <= i < address * 512 + 512));
        }
    }
    lemma_written_and_summed(image, keyed, pages, address, raw);
}

/// What a header block just made holds: its two types, and its name with
/// the length of the name before it.
#[verifier::spinoff_prover]
#[verifier::rlimit(100)]
pub proof fn lemma_init_header_layout(
    image: Seq<u8>,
    address: usize,
    secondary: BlockSecondaryType,
    name: Seq<u8>,
    date_time: u64,
)
    requires
        image.len() % 512 == 0,
        spec_init_header_error(image, address, name) is None,
    ensures
        ({
            let after = spec_init_header(image, address, secondary, name, date_time);
            &&& after.len() == image.len()
            &&& spec_read_u32(after, address as int, 0) == 2
            &&& spec_read_u32(after, address as int, 508) == secondary.spec_to_u32()
            &&& spec_read_u8(after, address as int, 432) == name.len()
            &&& spec_read_bytes(after, address as int, 433, name.len() as int) == name
        }),
{
    let after = spec_init_header(image, address, secondary, name, date_time);
    assert(spec_read_bytes(after, address as int, 433, name.len() as int) =~= name);
}

/// A header block just made holds the name that it was made with.
pub proof fn lemma_init_header_reads(
    image: Seq<u8>,
    address: usize,
    secondary: BlockSecondaryType,
    name: Seq<u8>,
    date_time: u64,
)
    requires
        image.len() % 512 == 0,
        spec_init_header_error(image, address, name) is None,
        valid_utf8(name),
    ensures
        spec_name_bytes(spec_init_header(image, address, secondary, name, date_time), address) == Ok::<
            Seq<u8>,
            Error,
        >(name),
        spec_block_primary_type(spec_init_header(image, address, secondary, name, date_time), address) == Ok::<
            BlockPrimaryType,
            Error,
        >(BlockPrimaryType::Header),
        spec_block_secondary_type(spec_init_header(image, address, secondary, name, date_time), address)
            == Ok::<BlockSecondaryType, Error>(secondary),
{
    lemma_init_header_layout(image, address, secondary, name, date_time);
    lemma_header_reads(spec_init_header(image, address, secondary, name, date_time), address, secondary, name);
}

/// What is read of a block that holds the two types of a header block and
/// a name.
proof fn lemma_header_reads(image: Seq<u8>, address: usize, secondary: BlockSecondaryType, name: Seq<u8>)
    requires
        address < spec_block_count(image),
        spec_read_u32(image, address as int, 0) == 2,
        spec_read_u32(image, address as int, 508) == secondary.spec_to_u32(),
        spec_read_u8(image, address as int, 432) == name.len(),
        spec_read_bytes(image, address as int, 433, name.len() as int) == name,
        name.len() <= 30,
        spec_valid_name(name),
        valid_utf8(name),
    ensures
        spec_name_bytes(image, address) == Ok::<Seq<u8>, Error>(name),
        spec_block_primary_type(image, address) == Ok::<BlockPrimaryType, Error>(BlockPrimaryType::Header),
        spec_block_secondary_type(image, address) == Ok::<BlockSecondaryType, Error>(secondary),
{
    secondary.lemma_roundtrip();
    assert(seq![BlockPrimaryType::Header].contains(BlockPrimaryType::Header)) by {
        assert(seq![BlockPrimaryType::Header][0] == BlockPrimaryType::Header);
    }
}

/// The nonzero numbers among a first number that is not zero and zeros
/// after it: the first one alone.
pub proof fn lemma_nonzero_addresses_first(values: Seq<u32>)
    requires
        values.len() > 0,
        values[0] != 0,
        forall|i: int| 1 <= i < values.len() ==> values[i] == 0,
    ensures
        spec_nonzero_addresses(values) == seq![values[0] as usize],
    decreases values.len(),
{
    if values.len() == 1 {
        assert(values.drop_last().len() == 0);
        assert(spec_nonzero_addresses(values.drop_last()) =~= Seq::<usize>::empty());
        assert(spec_nonzero_addresses(values) =~= seq![values[0] as usize]);
    } else {
        lemma_nonzero_addresses_first(values.drop_last());
    }
}

/// The low 32 bits of a number: what an address word or a size word keeps
/// of it.
pub open spec fn spec_low_u32(value: usize) -> u32 {
    (value as int % 0x1_0000_0000) as u32
}

pub fn low_u32(value: usize) -> (low: u32)
    ensures
        low == spec_low_u32(value),
{
    ((value as u64) % 0x1_0000_0000) as u32
}

impl Block {
    /// The checksum over every word of the block, none left out.
    pub fn compute_checksum(&self, disk: &Disk) -> (res: Result<u32, Error>)
        requires
            disk.wf(),
        ensures
            res == match spec_address_error(disk@, self.address) {
                Some(e) => Err::<u32, Error>(e),
                None => Ok(spec_checksum(spec_read_bytes(disk@, self.address as int, 0, 512), 512)),
            },
    {
        match disk.blocks(self.address, 1) {
            Ok(disk_data) => Ok(compute_checksum(disk_data, BLOCK_SIZE)),
            Err(e) => Err(e),
        }
    }

    pub fn read_block_primary_type(&self, disk: &Disk) -> (res: Result<BlockPrimaryType, Error>)
        requires
            disk.wf(),
        ensures
            res == spec_block_primary_type(disk@, self.address),
    {
        match self.read_u32(disk, BLOCK_PRIMARY_TYPE_OFFSET) {
            Ok(v) => BlockPrimaryType::try_from(v),
            Err(e) => Err(e),
        }
    }

    pub fn read_block_secondary_type(&self, disk: &Disk) -> (res: Result<BlockSecondaryType, Error>)
        requires
            disk.wf(),
        ensures
            res == spec_block_secondary_type(disk@, self.address),
    {
        match self.read_u32(disk, BLOCK_SECONDARY_TYPE_OFFSET) {
            Ok(v) => BlockSecondaryType::try_from(v),
            Err(e) => Err(e),
        }
    }

    pub fn check_block_primary_type(&self, disk: &Disk, expected_block_primary_types: &[BlockPrimaryType]) -> (res:
        Result<(), Error>)
        requires
            disk.wf(),
        ensures
            res == spec_check_block_primary_type(disk@, self.address, expected_block_primary_types@),
    {
        match self.read_block_primary_type(disk) {
            Ok(block_type) => {
                let len: usize = expected_block_primary_types.len();
                let mut i: usize = 0;
                while i < len
                    invariant
                        i <= len,
                        len == expected_block_primary_types@.len(),
                        spec_block_primary_type(disk@, self.address) == Ok::<BlockPrimaryType, Error>(block_type),
                        forall|j: int| 0 <= j < i ==> expected_block_primary_types@[j] != block_type,
                    decreases len - i,
                {
                    if block_type == expected_block_primary_types[i] {
                        assert(expected_block_primary_types@[i as int] == block_type);
                        return Ok(());
                    }
                    i = i + 1;
                }
                Err(Error::UnexpectedFilesystemBlockPrimaryTypeError(block_type.to_u32()))
            },
            Err(e) => Err(e),
        }
    }

    pub fn check_block_secondary_type(
        &self,
        disk: &Disk,
        expected_block_secondary_types: &[BlockSecondaryType],
    ) -> (res: Result<(), Error>)
        requires
            disk.wf(),
        ensures
            res == spec_check_block_secondary_type(disk@, self.address, expected_block_secondary_types@),
    {
        match self.read_block_secondary_type(disk) {
            Ok(block_type) => {
                let len: usize = expected_block_secondary_types.len();
                let mut i: usize = 0;
                while i < len
                    invariant
                        i <= len,
                        len == expected_block_secondary_types@.len(),
                        spec_block_secondary_type(disk@, self.address) == Ok::<BlockSecondaryType, Error>(
                            block_type,
                        ),
                        forall|j: int| 0 <= j < i ==> expected_block_secondary_types@[j] != block_type,
                    decreases len - i,
                {
                    if block_type == expected_block_secondary_types[i] {
                        assert(expected_block_secondary_types@[i as int] == block_type);
                        return Ok(());
                    }
                    i = i + 1;
                }
                Err(Error::UnexpectedFilesystemBlockSecondaryTypeError(block_type.to_u32()))
            },
            Err(e) => Err(e),
        }
    }

    fn check_header(&self, disk: &Disk) -> (res: Result<(), Error>)
        requires
            disk.wf(),
        ensures
            res == spec_check_header(disk@, self.address),
    {
        let expected: [BlockPrimaryType; 1] = [BlockPrimaryType::Header];
        assert(expected@ =~= seq![BlockPrimaryType::Header]);
        self.check_block_primary_type(disk, expected.as_slice())
    }

    fn check_has_table(&self, disk: &Disk) -> (res: Result<(), Error>)
        requires
            disk.wf(),
        ensures
            res == spec_check_has_table(disk@, self.address),
    {
        let expected: [BlockPrimaryType; 2] = [BlockPrimaryType::Header, BlockPrimaryType::List];
        assert(expected@ =~= seq![BlockPrimaryType::Header, BlockPrimaryType::List]);
        self.check_block_primary_type(disk, expected.as_slice())
    }

    fn check_header_of(&self, disk: &Disk, secondary: BlockSecondaryType) -> (res: Result<(), Error>)
        requires
            disk.wf(),
        ensures
            res == spec_check_header_of(disk@, self.address, secondary),
    {
        match self.check_header(disk) {
            Ok(_) => {
                let expected: [BlockSecondaryType; 1] = [secondary];
                assert(expected@ =~= seq![secondary]);
                self.check_block_secondary_type(disk, expected.as_slice())
            },
            Err(e) => Err(e),
        }
    }

    /// The addresses of the bitmap blocks that this root block lists.
    pub fn read_bitmap(&self, disk: &Disk) -> (res: Result<Vec<LBAAddress>, Error>)
        requires
            disk.wf(),
        ensures
            match spec_read_bitmap(disk@, self.address) {
                Err(e) => res == Err::<Vec<LBAAddress>, Error>(e),
                Ok(pages) => res is Ok && res->Ok_0@ == pages,
            },
    {
        match self.check_header_of(disk, BlockSecondaryType::Root) {
            Ok(_) => {},
            Err(e) => {
                return Err(e);
            },
        }
        match self.read_u32_vector(disk, ROOT_BLOCK_BITMAP_PAGES_OFFSET, ROOT_BLOCK_BITMAP_PAGES_MAX_COUNT) {
            Ok(v) => {
                let mut pages: Vec<LBAAddress> = Vec::new();
                let len: usize = v.len();
                let mut i: usize = 0;
                while i < len
                    invariant
                        i <= len,
                        len == v@.len(),
                        pages@ == spec_nonzero_addresses(v@.take(i as int)),
                    decreases len - i,
                {
                    assert(v@.take(i + 1).drop_last() =~= v@.take(i as int));
                    if v[i] != 0 {
                        pages.push(v[i] as LBAAddress);
                    }
                    i = i + 1;
                }
                assert(v@.take(len as int) =~= v@);
                Ok(pages)
            },
            Err(e) => Err(e),
        }
    }

    pub fn read_block_table_address(&self, disk: &Disk, index: usize) -> (res: Result<Option<LBAAddress>, Error>)
        requires
            disk.wf(),
        ensures
            res == spec_block_table_address(disk@, self.address, index),
    {
        match self.check_has_table(disk) {
            Ok(_) => {},
            Err(e) => {
                return Err(e);
            },
        }
        if index < BLOCK_TABLE_SIZE {
            match self.read_u32(disk, BLOCK_TABLE_OFFSET + 4 * index) {
                Ok(v) => Ok(AmigaDos::to_address(v)),
                Err(e) => Err(e),
            }
        } else {
            Err(Error::InvalidDataBlockIndexError(index))
        }
    }

    pub fn read_hash_chain_next_address(&self, disk: &Disk) -> (res: Result<Option<LBAAddress>, Error>)
        requires
            disk.wf(),
        ensures
            res == spec_hash_chain_next_address(disk@, self.address),
    {
        match self.check_header(disk) {
            Ok(_) => {},
            Err(e) => {
                return Err(e);
            },
        }
        match self.read_u32(disk, BLOCK_HASH_CHAIN_NEXT_OFFSET) {
            Ok(v) => Ok(AmigaDos::to_address(v)),
            Err(e) => Err(e),
        }
    }

    pub fn read_data_list_extension_address(&self, disk: &Disk) -> (res: Result<Option<LBAAddress>, Error>)
        requires
            disk.wf(),
        ensures
            res == spec_data_list_extension_address(disk@, self.address),
    {
        match self.check_has_table(disk) {
            Ok(_) => {},
            Err(e) => {
                return Err(e);
            },
        }
        match self.read_u32(disk, BLOCK_DATA_LIST_EXTENSION_OFFSET) {
            Ok(v) => Ok(AmigaDos::to_address(v)),
            Err(e) => Err(e),
        }
    }

    /// The bytes of the name stored in this header block, before they are
    /// checked to be UTF-8 and a valid name.
    fn read_raw_name(&self, disk: &Disk) -> (res: Result<Vec<u8>, Error>)
        requires
            disk.wf(),
        ensures
            match spec_check_header(disk@, self.address) {
                Err(e) => res == Err::<Vec<u8>, Error>(e),
                Ok(_) => match spec_block_secondary_type(disk@, self.address) {
                    Err(e) => res == Err::<Vec<u8>, Error>(e),
                    Ok(_) => {
                        let len = spec_read_u8(disk@, self.address as int, 432);
                        if len > 30 {
                            res == Err::<Vec<u8>, Error>(Error::InvalidNameLengthError(len as usize))
                        } else {
                            res is Ok && res->Ok_0@ == spec_read_bytes(disk@, self.address as int, 433, len as int)
                        }
                    },
                },
            },
    {
        match self.check_header(disk) {
            Ok(_) => {},
            Err(e) => {
                return Err(e);
            },
        }
        match self.read_block_secondary_type(disk) {
            Ok(_) => {},
            Err(e) => {
                return Err(e);
            },
        }
        match self.read_u8(disk, BLOCK_NAME_SIZE_OFFSET) {
            Ok(len) => {
                let len: usize = len as usize;
                if len <= BLOCK_NAME_MAX_SIZE {
                    self.read_u8_vector(disk, BLOCK_NAME_OFFSET, len)
                } else {
                    Err(Error::InvalidNameLengthError(len))
                }
            },
            Err(e) => Err(e),
        }
    }

    /// The bytes of the name stored in this header block.
    pub fn read_name_bytes(&self, disk: &Disk) -> (res: Result<Vec<u8>, Error>)
        requires
            disk.wf(),
        ensures
            match spec_name_bytes(disk@, self.address) {
                Err(e) => res == Err::<Vec<u8>, Error>(e),
                Ok(name) => res is Ok && res->Ok_0@ == name,
            },
    {
        match self.read_raw_name(disk) {
            Ok(bytes) => {
                let valid = check_name_bytes(bytes.as_slice());
                let ghost raw = bytes@;
                match string_from_utf8(bytes) {
                    Some(text) => match valid {
                        Ok(_) => {
                            proof {
                                vstd::utf8::decode_utf8_encode_utf8(raw);
                            }
                            Ok(text.as_str().as_bytes_vec())
                        },
                        Err(e) => Err(e),
                    },
                    None => Err(Error::InvalidStringError),
                }
            },
            Err(e) => Err(e),
        }
    }

    /// The name stored in this header block.
    pub fn read_name(&self, disk: &Disk) -> (res: Result<String, Error>)
        requires
            disk.wf(),
        ensures
            match spec_name_bytes(disk@, self.address) {
                Err(e) => res == Err::<String, Error>(e),
                Ok(name) => res is Ok && res->Ok_0@ == decode_utf8(name) && encode_utf8(res->Ok_0@) == name,
            },
    {
        match self.read_raw_name(disk) {
            Ok(bytes) => {
                let valid = check_name_bytes(bytes.as_slice());
                let ghost raw = bytes@;
                match string_from_utf8(bytes) {
                    Some(text) => match valid {
                        Ok(_) => {
                            proof {
                                vstd::utf8::decode_utf8_encode_utf8(raw);
                            }
                            Ok(text)
                        },
                        Err(e) => Err(e),
                    },
                    None => Err(Error::InvalidStringError),
                }
            },
            Err(e) => Err(e),
        }
    }

    pub fn read_file_size(&self, disk: &Disk) -> (res: Result<usize, Error>)
        requires
            disk.wf(),
        ensures
            res == spec_file_size(disk@, self.address),
    {
        match self.check_header_of(disk, BlockSecondaryType::File) {
            Ok(_) => {},
            Err(e) => {
                return Err(e);
            },
        }
        match self.read_u32(disk, BLOCK_FILE_SIZE) {
            Ok(v) => Ok(v as usize),
            Err(e) => Err(e),
        }
    }

    /// The time that the three numbers at `offset` stand for.
    fn read_date_at(&self, disk: &Disk, offset: usize) -> (res: Result<u64, Error>)
        requires
            disk.wf(),
            offset + 12 <= 512,
        ensures
            res == match spec_address_error(disk@, self.address) {
                Some(e) => Err::<u64, Error>(e),
                None => Ok(spec_date_at(disk@, self.address, offset as int)),
            },
    {
        match self.read_u32(disk, offset) {
            Ok(days) => match self.read_u32(disk, offset + 4) {
                Ok(mins) => match self.read_u32(disk, offset + 8) {
                    Ok(ticks) => Ok(date_triplet_to_system_time(days, mins, ticks)),
                    Err(e) => Err(e),
                },
                Err(e) => Err(e),
            },
            Err(e) => Err(e),
        }
    }

    pub fn read_alteration_date(&self, disk: &Disk) -> (res: Result<u64, Error>)
        requires
            disk.wf(),
        ensures
            res == spec_alteration_date(disk@, self.address),
    {
        match self.check_header(disk) {
            Ok(_) => {},
            Err(e) => {
                return Err(e);
            },
        }
        let expected: [BlockSecondaryType; 6] = [
            BlockSecondaryType::Directory,
            BlockSecondaryType::File,
            BlockSecondaryType::HardLinkFile,
            BlockSecondaryType::HardLinkDirectory,
            BlockSecondaryType::Root,
            BlockSecondaryType::SoftLink,
        ];
        assert(expected@ =~= seq![
            BlockSecondaryType::Directory,
            BlockSecondaryType::File,
            BlockSecondaryType::HardLinkFile,
            BlockSecondaryType::HardLinkDirectory,
            BlockSecondaryType::Root,
            BlockSecondaryType::SoftLink,
        ]);
        match self.check_block_secondary_type(disk, expected.as_slice()) {
            Ok(_) => {},
            Err(e) => {
                return Err(e);
            },
        }
        self.read_date_at(disk, BLOCK_ALTERATION_DAYS_OFFSET)
    }

    pub fn read_disk_alteration_date(&self, disk: &Disk) -> (res: Result<u64, Error>)
        requires
            disk.wf(),
        ensures
            res == spec_disk_alteration_date(disk@, self.address),
    {
        match self.check_header_of(disk, BlockSecondaryType::Root) {
            Ok(_) => {},
            Err(e) => {
                return Err(e);
            },
        }
        self.read_date_at(disk, ROOT_BLOCK_V_DAYS_OFFSET)
    }

    pub fn read_root_creation_date(&self, disk: &Disk) -> (res: Result<u64, Error>)
        requires
            disk.wf(),
        ensures
            res == spec_root_creation_date(disk@, self.address),
    {
        match self.check_header_of(disk, BlockSecondaryType::Root) {
            Ok(_) => {},
            Err(e) => {
                return Err(e);
            },
        }
        self.read_date_at(disk, ROOT_BLOCK_C_DAYS_OFFSET)
    }

    /// Writes a number at `offset`, a place that lies in every block.
    fn write_field(&self, disk: &mut Disk, offset: usize, value: u32) -> (res: Result<(), Error>)
        requires
            old(disk).wf(),
            offset + 4 <= 512,
        ensures
            final(disk).wf(),
            final(disk).spec_disk_type() == old(disk).spec_disk_type(),
            match spec_address_error(old(disk)@, self.address) {
                Some(e) => res == Err::<(), Error>(e) && final(disk)@ == old(disk)@,
                None => res == Ok::<(), Error>(()) && final(disk)@ == spec_write_u32(
                    old(disk)@,
                    self.address as int,
                    offset as int,
                    value,
                ),
            },
    {
        self.write_u32(disk, offset, value)
    }

    /// Writes the date that stands for `date_time` at `offset`.
    fn write_date_at(&self, disk: &mut Disk, offset: usize, date_time: u64) -> (res: Result<(), Error>)
        requires
            old(disk).wf(),
            offset + 12 <= 512,
        ensures
            final(disk).wf(),
            final(disk).spec_disk_type() == old(disk).spec_disk_type(),
            match spec_address_error(old(disk)@, self.address) {
                Some(e) => res == Err::<(), Error>(e) && final(disk)@ == old(disk)@,
                None => res == Ok::<(), Error>(()) && final(disk)@ == spec_write_date(
                    old(disk)@,
                    self.address,
                    offset as int,
                    date_time,
                ),
            },
    {
        let (days, mins, ticks) = date_triplet_from_system_time(date_time);
        match self.write_field(disk, offset, days) {
            Ok(_) => {},
            Err(e) => {
                return Err(e);
            },
        }
        match self.write_field(disk, offset + 4, mins) {
            Ok(_) => {},
            Err(e) => {
                return Err(e);
            },
        }
        self.write_field(disk, offset + 8, ticks)
    }

    pub fn write_alteration_date(&self, disk: &mut Disk, datetime: u64) -> (res: Result<(), Error>)
        requires
            old(disk).wf(),
        ensures
            final(disk).wf(),
            final(disk).spec_disk_type() == old(disk).spec_disk_type(),
            match spec_address_error(old(disk)@, self.address) {
                Some(e) => res == Err::<(), Error>(e) && final(disk)@ == old(disk)@,
                None => res == Ok::<(), Error>(()) && final(disk)@ == spec_write_date(
                    old(disk)@,
                    self.address,
                    420,
                    datetime,
                ),
            },
    {
        self.write_date_at(disk, BLOCK_ALTERATION_DAYS_OFFSET, datetime)
    }

    pub fn write_disk_alteration_date(&self, disk: &mut Disk, datetime: u64) -> (res: Result<(), Error>)
        requires
            old(disk).wf(),
        ensures
            final(disk).wf(),
            final(disk).spec_disk_type() == old(disk).spec_disk_type(),
            match spec_address_error(old(disk)@, self.address) {
                Some(e) => res == Err::<(), Error>(e) && final(disk)@ == old(disk)@,
                None => res == Ok::<(), Error>(()) && final(disk)@ == spec_write_date(
                    old(disk)@,
                    self.address,
                    472,
                    datetime,
                ),
            },
    {
        self.write_date_at(disk, ROOT_BLOCK_V_DAYS_OFFSET, datetime)
    }

    pub fn write_root_creation_date(&self, disk: &mut Disk, datetime: u64) -> (res: Result<(), Error>)
        requires
            old(disk).wf(),
        ensures
            final(disk).wf(),
            final(disk).spec_disk_type() == old(disk).spec_disk_type(),
            match spec_address_error(old(disk)@, self.address) {
                Some(e) => res == Err::<(), Error>(e) && final(disk)@ == old(disk)@,
                None => res == Ok::<(), Error>(()) && final(disk)@ == spec_write_date(
                    old(disk)@,
                    self.address,
                    484,
                    datetime,
                ),
            },
    {
        self.write_date_at(disk, ROOT_BLOCK_C_DAYS_OFFSET, datetime)
    }

    pub fn write_block_primary_type(&self, disk: &mut Disk, block_primary_type: BlockPrimaryType) -> (res: Result<
        (),
        Error,
    >)
        requires
            old(disk).wf(),
        ensures
            final(disk).wf(),
            final(disk).spec_disk_type() == old(disk).spec_disk_type(),
            match spec_address_error(old(disk)@, self.address) {
                Some(e) => res == Err::<(), Error>(e) && final(disk)@ == old(disk)@,
                None => res == Ok::<(), Error>(()) && final(disk)@ == spec_write_u32(
                    old(disk)@,
                    self.address as int,
                    0,
                    block_primary_type.spec_to_u32(),
                ),
            },
    {
        self.write_field(disk, BLOCK_PRIMARY_TYPE_OFFSET, block_primary_type.to_u32())
    }

    pub fn write_block_secondary_type(&self, disk: &mut Disk, block_secondary_type: BlockSecondaryType) -> (res:
        Result<(), Error>)
        requires
            old(disk).wf(),
        ensures
            final(disk).wf(),
            final(disk).spec_disk_type() == old(disk).spec_disk_type(),
            match spec_address_error(old(disk)@, self.address) {
                Some(e) => res == Err::<(), Error>(e) && final(disk)@ == old(disk)@,
                None => res == Ok::<(), Error>(()) && final(disk)@ == spec_write_u32(
                    old(disk)@,
                    self.address as int,
                    508,
                    block_secondary_type.spec_to_u32(),
                ),
            },
    {
        self.write_field(disk, BLOCK_SECONDARY_TYPE_OFFSET, block_secondary_type.to_u32())
    }

    /// Stores `name` as the name of this block.
    pub fn write_name_bytes(&self, disk: &mut Disk, name: &[u8]) -> (res: Result<(), Error>)
        requires
            old(disk).wf(),
        ensures
            final(disk).wf(),
            final(disk).spec_disk_type() == old(disk).spec_disk_type(),
            match spec_write_name_error(old(disk)@, self.address, name@) {
                Some(e) => res == Err::<(), Error>(e) && final(disk)@ == old(disk)@,
                None => res == Ok::<(), Error>(()) && final(disk)@ == spec_write_name(
                    old(disk)@,
                    self.address,
                    name@,
                ),
            },
    {
        match check_name_bytes(name) {
            Ok(_) => {},
            Err(e) => {
                return Err(e);
            },
        }
        let len: usize = name.len();
        if len <= BLOCK_NAME_MAX_SIZE {
            match self.write_u8(disk, BLOCK_NAME_SIZE_OFFSET, len as u8) {
                Ok(_) => {},
                Err(e) => {
                    return Err(e);
                },
            }
            self.write_u8_array(disk, BLOCK_NAME_OFFSET, name)
        } else {
            Err(Error::InvalidNameLengthError(len))
        }
    }

    /// Stores `name` as the name of this block.
    pub fn write_name(&self, disk: &mut Disk, name: &str) -> (res: Result<(), Error>)
        requires
            old(disk).wf(),
        ensures
            final(disk).wf(),
            final(disk).spec_disk_type() == old(disk).spec_disk_type(),
            match spec_write_name_error(old(disk)@, self.address, name.spec_bytes()) {
                Some(e) => res == Err::<(), Error>(e) && final(disk)@ == old(disk)@,
                None => res == Ok::<(), Error>(()) && final(disk)@ == spec_write_name(
                    old(disk)@,
                    self.address,
                    name.spec_bytes(),
                ),
            },
    {
        self.write_name_bytes(disk, name.as_bytes())
    }

    /// Stores a file size, which is kept in 32 bits.
    pub fn write_file_size(&self, disk: &mut Disk, file_size: usize) -> (res: Result<(), Error>)
        requires
            old(disk).wf(),
        ensures
            final(disk).wf(),
            final(disk).spec_disk_type() == old(disk).spec_disk_type(),
            match spec_address_error(old(disk)@, self.address) {
                Some(e) => res == Err::<(), Error>(e) && final(disk)@ == old(disk)@,
                None => res == Ok::<(), Error>(()) && final(disk)@ == spec_write_u32(
                    old(disk)@,
                    self.address as int,
                    324,
                    spec_low_u32(file_size),
                ),
            },
    {
        self.write_field(disk, BLOCK_FILE_SIZE, low_u32(file_size))
    }

    /// Computes the checksum of the block and stores it in the block.
    pub fn write_checksum(&self, disk: &mut Disk) -> (res: Result<(), Error>)
        requires
            old(disk).wf(),
        ensures
            final(disk).wf(),
            final(disk).spec_disk_type() == old(disk).spec_disk_type(),
            match spec_address_error(old(disk)@, self.address) {
                Some(e) => res == Err::<(), Error>(e) && final(disk)@ == old(disk)@,
                None => res == Ok::<(), Error>(()) && final(disk)@ == spec_write_checksum(
                    old(disk)@,
                    self.address,
                ),
            },
    {
        let chksum: u32 = match disk.blocks(self.address, 1) {
            Ok(disk_data) => compute_checksum(disk_data, BLOCK_CHECKSUM_OFFSET),
            Err(e) => {
                return Err(e);
            },
        };
        self.write_field(disk, BLOCK_CHECKSUM_OFFSET, chksum)
    }

    /// Stores a block address, kept in 32 bits, as entry `index` of the
    /// table of block addresses.
    pub fn write_block_table_address(&self, disk: &mut Disk, index: usize, address: LBAAddress) -> (res: Result<
        (),
        Error,
    >)
        requires
            old(disk).wf(),
            24 + 4 * index <= usize::MAX,
        ensures
            final(disk).wf(),
            final(disk).spec_disk_type() == old(disk).spec_disk_type(),
            match spec_access_error(old(disk).spec_block_count(), self.address, (24 + 4 * index) as usize, 4) {
                Some(e) => res == Err::<(), Error>(e) && final(disk)@ == old(disk)@,
                None => res == Ok::<(), Error>(()) && final(disk)@ == spec_write_u32(
                    old(disk)@,
                    self.address as int,
                    24 + 4 * index,
                    spec_low_u32(address),
                ),
            },
    {
        self.write_u32(disk, BLOCK_TABLE_OFFSET + 4 * index, low_u32(address))
    }

    /// Stores a block address as slot `index` of a directory's hash table.
    pub fn write_hash_table_block_address(&self, disk: &mut Disk, index: usize, address: LBAAddress) -> (res:
        Result<(), Error>)
        requires
            old(disk).wf(),
        ensures
            final(disk).wf(),
            final(disk).spec_disk_type() == old(disk).spec_disk_type(),
            index >= 72 ==> res == Err::<(), Error>(Error::InvalidDataBlockIndexError(index)) && final(disk)@
                == old(disk)@,
            index < 72 ==> match spec_address_error(old(disk)@, self.address) {
                Some(e) => res == Err::<(), Error>(e) && final(disk)@ == old(disk)@,
                None => res == Ok::<(), Error>(()) && final(disk)@ == spec_write_u32(
                    old(disk)@,
                    self.address as int,
                    24 + 4 * index,
                    spec_low_u32(address),
                ),
            },
    {
        if index < BLOCK_TABLE_SIZE {
            self.write_block_table_address(disk, index, address)
        } else {
            Err(Error::InvalidDataBlockIndexError(index))
        }
    }

    pub fn write_hash_chain_next_address(&self, disk: &mut Disk, address: LBAAddress) -> (res: Result<(), Error>)
        requires
            old(disk).wf(),
        ensures
            final(disk).wf(),
            final(disk).spec_disk_type() == old(disk).spec_disk_type(),
            match spec_address_error(old(disk)@, self.address) {
                Some(e) => res == Err::<(), Error>(e) && final(disk)@ == old(disk)@,
                None => res == Ok::<(), Error>(()) && final(disk)@ == spec_write_u32(
                    old(disk)@,
                    self.address as int,
                    496,
                    spec_low_u32(address),
                ),
            },
    {
        self.write_field(disk, BLOCK_HASH_CHAIN_NEXT_OFFSET, low_u32(address))
    }

    /// Makes the block the header block of a fresh entry named `name`, of
    /// the kind that `secondary_type` gives, changed last at `date_time`.
    /// Nothing is written unless the whole block can be.
    pub fn init_header(&self, disk: &mut Disk, secondary_type: BlockSecondaryType, name: &[u8], date_time: u64) -> (res:
        Result<(), Error>)
        requires
            old(disk).wf(),
        ensures
            final(disk).wf(),
            final(disk).spec_disk_type() == old(disk).spec_disk_type(),
            match spec_init_header_error(old(disk)@, self.address, name@) {
                Some(e) => res == Err::<(), Error>(e) && final(disk)@ == old(disk)@,
                None => res == Ok::<(), Error>(()) && final(disk)@ == spec_init_header(
                    old(disk)@,
                    self.address,
                    secondary_type,
                    name@,
                    date_time,
                ),
            },
    {
        if self.address >= disk.block_count() {
            return Err(Error::DiskInvalidLBAAddressError(self.address));
        }
        match check_name_bytes(name) {
            Ok(_) => {},
            Err(e) => {
                return Err(e);
            },
        }
        if name.len() > BLOCK_NAME_MAX_SIZE {
            return Err(Error::InvalidNameLengthError(name.len()));
        }
        let r = self.clear(disk);
        let r = self.write_block_primary_type(disk, BlockPrimaryType::Header);
        let r = self.write_block_secondary_type(disk, secondary_type);
        let r = self.write_alteration_date(disk, date_time);
        let r = self.write_name_bytes(disk, name);
        let r = self.write_u32(disk, BLOCK_DATA_LIST_HEADER_KEY_OFFSET, low_u32(self.address));
        self.write_checksum(disk)
    }
}

/// A header block just made holds nothing after its checksum but its date
/// of change, its name and its secondary type: the bytes between are zero.
#[verifier::spinoff_prover]
#[verifier::rlimit(100)]
pub proof fn lemma_init_header_zeros(
    image: Seq<u8>,
    address: usize,
    secondary: BlockSecondaryType,
    name: Seq<u8>,
    date_time: u64,
)
    requires
        image.len() % 512 == 0,
        spec_init_header_error(image, address, name) is None,
    ensures
        forall|i: int|
            address * 512 + 24 <= i < address * 512 + 420 || address * 512 + 464 <= i < address * 512 + 508
                ==> #[trigger] spec_init_header(image, address, secondary, name, date_time)[i] == 0,
{
}

} // verus!
