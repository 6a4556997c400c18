use vstd::prelude::*;

use crate::block::{spec_fill, spec_read_bytes, spec_read_u32, spec_write_u32, Block};
use crate::disk::{Disk, LBAAddress, BLOCK_SIZE};
use crate::errors::Error;
use crate::fs::amiga_dos::{spec_pages_valid, AmigaDosInner};
use crate::fs::block::{spec_block_count, spec_write_checksum};
use crate::fs::boot_block::spec_root_or_default;
use crate::fs::checksum::{compute_checksum, spec_checksum};
use crate::fs::constants::{
    BITMAP_BLOCK_BIT_COUNT, BITMAP_BLOCK_CHECKSUM_OFFSET, ROOT_BLOCK_BITMAP_PAGES_OFFSET,
};

verus! {

broadcast use Disk::lemma_len;

/// What is done to a block in the bitmap: it is taken, or given back.
#[derive(Clone, Copy, Debug, PartialEq, Eq, Structural)]
pub enum BitmapAction {
    Alloc,
    Free,
}

/// Number of bitmap blocks that an image of `block_count` blocks needs: one
/// for every 4064 blocks after the two boot blocks.
pub open spec fn spec_bitmap_block_count(block_count: nat) -> nat {
    if (block_count - 2) % 4064 == 0 {
        ((block_count - 2) / 4064) as nat
    } else {
        ((block_count - 2) / 4064 + 1) as nat
    }
}

/// Bit number `bit` of a word; bit 0 is the lowest.
pub open spec fn spec_bit(word: u32, bit: u32) -> bool {
    (word >> bit) & 1 == 1
}

/// Whether the bitmap keeps track of block `address`: the two boot blocks
/// are not tracked, and a block after them is tracked by the bitmap block
/// whose turn it is, if that one is there.
pub open spec fn spec_tracked(image: Seq<u8>, pages: Seq<usize>, address: int) -> bool {
    2 <= address < spec_block_count(image) && (address - 2) / 4064 < pages.len()
}

/// The bitmap block that tracks block `address`.
pub open spec fn spec_page_of(pages: Seq<usize>, address: int) -> int {
    pages[(address - 2) / 4064] as int
}

/// The offset, in its bitmap block, of the word that holds the bit of block
/// `address`: the checksum comes first, then one bit for each block.
pub open spec fn spec_bit_word_offset(address: int) -> int {
    4 + 4 * ((address - 2) % 4064 / 32)
}

/// The number, in its word, of the bit of block `address`.
pub open spec fn spec_bit_number(address: int) -> u32 {
    ((address - 2) % 32) as u32
}

/// Whether the bitmap marks block `address` as free: its bit is set.
pub open spec fn spec_block_free(image: Seq<u8>, pages: Seq<usize>, address: int) -> bool {
    spec_tracked(image, pages, address) && spec_bit(
        spec_read_u32(image, spec_page_of(pages, address), spec_bit_word_offset(address)),
        spec_bit_number(address),
    )
}

/// The image with the checksum of the bitmap block `page` stored in it: a
/// bitmap block keeps its checksum in its first word.
pub open spec fn spec_write_bitmap_checksum(image: Seq<u8>, page: int) -> Seq<u8> {
    spec_write_u32(image, page, 0, spec_checksum(spec_read_bytes(image, page, 0, 512), 0))
}

/// The image with block `address` marked as free or as used: the bit is
/// set or cleared, and the checksum of the bitmap block follows.
#[verifier::opaque]
pub open spec fn spec_bitmap_update(image: Seq<u8>, pages: Seq<usize>, address: int, free: bool) -> Seq<u8> {
    let page = spec_page_of(pages, address);
    let offset = spec_bit_word_offset(address);
    let word = spec_read_u32(image, page, offset);
    let mask = 1u32 << spec_bit_number(address);
    let new_word = if free {
        word | mask
    } else {
        word & !mask
    };
    spec_write_bitmap_checksum(spec_write_u32(image, page, offset, new_word), page)
}

/// Number of blocks before `end` that the bitmap marks as free.
pub open spec fn spec_free_count(image: Seq<u8>, pages: Seq<usize>, end: int) -> nat
    decreases end,
{
    if end <= 2 {
        0
    } else {
        spec_free_count(image, pages, end - 1) + if spec_block_free(image, pages, end - 1) {
            1nat
        } else {
            0nat
        }
    }
}

/// No more blocks are free before `end` than there are blocks after the
/// boot blocks and before `end`.
pub proof fn lemma_free_count_bound(image: Seq<u8>, pages: Seq<usize>, end: int)
    ensures
        spec_free_count(image, pages, end) <= if end <= 2 {
            0
        } else {
            end - 2
        },
    decreases end,
{
    if end > 2 {
        lemma_free_count_bound(image, pages, end - 1);
    }
}

/// No block before `end` is free just when the count of free blocks before
/// `end` is zero.
pub proof fn lemma_free_count_zero(image: Seq<u8>, pages: Seq<usize>, end: int)
    ensures
        spec_free_count(image, pages, end) == 0 <==> forall|address: int|
            2 <= address < end ==> !spec_block_free(image, pages, address),
    decreases end,
{
    if end > 2 {
        lemma_free_count_zero(image, pages, end - 1);
        if spec_free_count(image, pages, end) == 0 {
            assert forall|address: int| 2 <= address < end implies !spec_block_free(image, pages, address) by {
                if address < end - 1 {
                }
            }
        }
    }
}

/// No block is free just when the count of free blocks is zero.
pub proof fn lemma_no_free_count(image: Seq<u8>, pages: Seq<usize>)
    ensures
        spec_no_free(image, pages) <==> spec_free_block_count(image, pages) == 0,
{
    lemma_free_count_zero(image, pages, spec_block_count(image) as int);
    if spec_free_block_count(image, pages) == 0 {
        assert forall|other: int| !spec_block_free(image, pages, other) by {
            if spec_tracked(image, pages, other) {
            }
        }
    }
}

/// Number of blocks of the image that the bitmap marks as free.
pub open spec fn spec_free_block_count(image: Seq<u8>, pages: Seq<usize>) -> nat {
    spec_free_count(image, pages, spec_block_count(image) as int)
}

/// The lowest block that the bitmap marks as free, if there is one.
pub open spec fn spec_first_free(image: Seq<u8>, pages: Seq<usize>, address: int) -> bool {
    &&& spec_block_free(image, pages, address)
    &&& forall|other: int| 2 <= other < address ==> !spec_block_free(image, pages, other)
}

/// The block that is taken next: the lowest one that the bitmap marks as
/// free, if there is one.
pub open spec fn spec_lowest_free(image: Seq<u8>, pages: Seq<usize>) -> Option<usize> {
    if exists|address: int| spec_first_free(image, pages, address) {
        Some((choose|address: int| spec_first_free(image, pages, address)) as usize)
    } else {
        None
    }
}

/// There is at most one lowest free block.
pub proof fn lemma_first_free_unique(image: Seq<u8>, pages: Seq<usize>, one: int, other: int)
    requires
        spec_first_free(image, pages, one),
        spec_first_free(image, pages, other),
    ensures
        one == other,
{
}

/// The lowest free block is the block that is taken next.
pub proof fn lemma_lowest_free_is(image: Seq<u8>, pages: Seq<usize>, address: usize)
    requires
        spec_first_free(image, pages, address as int),
    ensures
        spec_lowest_free(image, pages) == Some(address),
{
    let chosen = choose|a: int| spec_first_free(image, pages, a);
    lemma_first_free_unique(image, pages, chosen, address as int);
}

/// Either no block before `end` is free, or there is a lowest free block.
proof fn lemma_first_free_before(image: Seq<u8>, pages: Seq<usize>, end: int)
    ensures
        (forall|address: int| address < end ==> !spec_block_free(image, pages, address)) || exists|
            address: int,
        |
            spec_first_free(image, pages, address),
    decreases end,
{
    if end <= 2 {
    } else {
        lemma_first_free_before(image, pages, end - 1);
        if forall|address: int| address < end - 1 ==> !spec_block_free(image, pages, address) {
            if spec_block_free(image, pages, end - 1) {
                assert(spec_first_free(image, pages, end - 1));
            } else {
                assert forall|address: int| address < end implies !spec_block_free(image, pages, address) by {
                    if address < end - 1 {
                    }
                }
            }
        }
    }
}

/// The block that is taken next is the lowest free block; when there is
/// none, no block is free.
pub proof fn lemma_lowest_free(image: Seq<u8>, pages: Seq<usize>)
    requires
        image.len() == 1760 * 512 || image.len() == 3520 * 512,
    ensures
        match spec_lowest_free(image, pages) {
            Some(address) => spec_first_free(image, pages, address as int),
            None => spec_no_free(image, pages),
        },
{
    if exists|address: int| spec_first_free(image, pages, address) {
        let chosen = choose|address: int| spec_first_free(image, pages, address);
        assert(spec_tracked(image, pages, chosen));
    } else {
        lemma_first_free_before(image, pages, spec_block_count(image) as int);
        assert forall|other: int| !spec_block_free(image, pages, other) by {
            if spec_tracked(image, pages, other) {
            }
        }
    }
}

/// Whether the bitmap marks no block as free.
pub open spec fn spec_no_free(image: Seq<u8>, pages: Seq<usize>) -> bool {
    forall|other: int| !spec_block_free(image, pages, other)
}

proof fn lemma_zero_word_has_no_bit(word: u32, bit: u32)
    requires
        word == 0,
        bit < 32,
    ensures
        !spec_bit(word, bit),
{
    assert((word >> bit) & 1 != 1) by (bit_vector)
        requires
            word == 0,
            bit < 32,
    ;
}

proof fn lemma_set_bit(word: u32, bit: u32, other: u32)
    requires
        bit < 32,
        other < 32,
    ensures
        spec_bit(word | (1u32 << bit), other) == (other == bit || spec_bit(word, other)),
{
    assert((((word | (1u32 << bit)) >> other) & 1 == 1) == (other == bit || (word >> other) & 1 == 1))
        by (bit_vector)
        requires
            bit < 32,
            other < 32,
    ;
}

proof fn lemma_clear_bit(word: u32, bit: u32, other: u32)
    requires
        bit < 32,
        other < 32,
    ensures
        spec_bit(word & !(1u32 << bit), other) == (other != bit && spec_bit(word, other)),
{
    assert((((word & !(1u32 << bit)) >> other) & 1 == 1) == (other != bit && (word >> other) & 1 == 1))
        by (bit_vector)
        requires
            bit < 32,
            other < 32,
    ;
}

/// A word written into a bitmap block, with a checksum written after it,
/// is read back; every other word of every bitmap block is as it was.
proof fn lemma_bitmap_words(
    image: Seq<u8>,
    page: int,
    offset: int,
    word: u32,
    sum: u32,
    other_page: int,
    other_offset: int,
)
    requires
        0 <= page,
        page * 512 + 512 <= image.len(),
        4 <= offset <= 508,
        0 <= other_page,
        other_page * 512 + 512 <= image.len(),
        4 <= other_offset <= 508,
        other_page != page || other_offset == offset || other_offset + 4 <= offset || offset + 4
            <= other_offset,
    ensures
        spec_write_u32(spec_write_u32(image, page, offset, word), page, 0, sum).len() == image.len(),
        spec_read_u32(
            spec_write_u32(spec_write_u32(image, page, offset, word), page, 0, sum),
            other_page,
            other_offset,
        ) == if other_page == page && other_offset == offset {
            word
        } else {
            spec_read_u32(image, other_page, other_offset)
        },
{
    let after = spec_write_u32(spec_write_u32(image, page, offset, word), page, 0, sum);
    crate::block::lemma_u32_be_roundtrip(word);
    if other_page == page && other_offset == offset {
        assert(spec_read_bytes(after, page, offset, 4) =~= crate::block::spec_u32_to_be_bytes(word));
    } else {
        assert(spec_read_bytes(after, other_page, other_offset, 4) =~= spec_read_bytes(
            image,
            other_page,
            other_offset,
            4,
        ));
    }
}

/// Marking a block changes the mark of that block and of no other.
pub proof fn lemma_bitmap_update_marks(image: Seq<u8>, pages: Seq<usize>, address: int, free: bool, other: int)
    requires
        image.len() % 512 == 0,
        spec_pages_valid(pages, spec_block_count(image)),
        spec_tracked(image, pages, address),
    ensures
        spec_bitmap_update(image, pages, address, free).len() == image.len(),
        spec_block_free(spec_bitmap_update(image, pages, address, free), pages, other) == if other == address {
            free
        } else {
            spec_block_free(image, pages, other)
        },
{
    reveal(spec_bitmap_update);
    let page = spec_page_of(pages, address);
    let offset = spec_bit_word_offset(address);
    let word = spec_read_u32(image, page, offset);
    let bit = spec_bit_number(address);
    let new_word = if free {
        word | (1u32 << bit)
    } else {
        word & !(1u32 << bit)
    };
    let written = spec_write_u32(image, page, offset, new_word);
    let sum = spec_checksum(spec_read_bytes(written, page, 0, 512), 0);
    assert(spec_bitmap_update(image, pages, address, free) == spec_write_u32(written, page, 0, sum));
    if spec_tracked(image, pages, other) {
        let other_page = spec_page_of(pages, other);
        let other_offset = spec_bit_word_offset(other);
        let other_bit = spec_bit_number(other);
        assert(offset % 4 == 0 && other_offset % 4 == 0);
        lemma_bitmap_words(image, page, offset, new_word, sum, other_page, other_offset);
        if other_page == page && other_offset == offset {
            assert((other - 2) / 4064 == (address - 2) / 4064);
            if free {
                lemma_set_bit(word, bit, other_bit);
            } else {
                lemma_clear_bit(word, bit, other_bit);
            }
            assert(other_bit == bit <==> other == address);
        }
    } else {
        lemma_bitmap_words(image, page, offset, new_word, sum, page, offset);
    }
}

/// Marking a block changes the count of free blocks by as much as the mark
/// of the block changes.
pub proof fn lemma_bitmap_update_count(image: Seq<u8>, pages: Seq<usize>, address: int, free: bool, end: int)
    requires
        image.len() % 512 == 0,
        spec_pages_valid(pages, spec_block_count(image)),
        spec_tracked(image, pages, address),
    ensures
        spec_free_count(spec_bitmap_update(image, pages, address, free), pages, end) == spec_free_count(
            image,
            pages,
            end,
        ) + (if address < end && free && !spec_block_free(image, pages, address) {
            1int
        } else {
            0int
        }) - (if address < end && !free && spec_block_free(image, pages, address) {
            1int
        } else {
            0int
        }),
    decreases end,
{
    if end > 2 {
        lemma_bitmap_update_count(image, pages, address, free, end - 1);
        lemma_bitmap_update_marks(image, pages, address, free, end - 1);
    }
}

/// Whether block `address` is marked as free.
fn block_is_free(disk: &Disk, pages: &Vec<LBAAddress>, address: LBAAddress) -> (res: bool)
    requires
        disk.wf(),
        spec_pages_valid(pages@, disk.spec_block_count()),
        spec_tracked(disk@, pages@, address as int),
    ensures
        res == spec_block_free(disk@, pages@, address as int),
{
    let index: usize = address - 2;
    let page = Block::new(pages[index / BITMAP_BLOCK_BIT_COUNT]);
    let offset: usize = 4 + 4 * (index % BITMAP_BLOCK_BIT_COUNT / 32);
    let bit: u32 = (index % 32) as u32;
    match page.read_u32(disk, offset) {
        Ok(word) => (word >> bit) & 1 == 1,
        Err(_) => false,
    }
}

/// Marks block `address` as used or as free in the bitmap.
fn update_block(disk: &mut Disk, pages: &Vec<LBAAddress>, address: LBAAddress, action: BitmapAction) -> (res:
    Result<(), Error>)
    requires
        old(disk).wf(),
        spec_pages_valid(pages@, old(disk).spec_block_count()),
    ensures
        final(disk).wf(),
        final(disk).spec_disk_type() == old(disk).spec_disk_type(),
        spec_tracked(old(disk)@, pages@, address as int) ==> res == Ok::<(), Error>(()) && final(disk)@
            == spec_bitmap_update(old(disk)@, pages@, address as int, action == BitmapAction::Free),
        !spec_tracked(old(disk)@, pages@, address as int) ==> res == Err::<(), Error>(
            Error::DiskInvalidLBAAddressError(address),
        ) && final(disk)@ == old(disk)@,
{
    proof {
        reveal(spec_bitmap_update);
    }
    if address < 2 || address >= disk.block_count() || (address - 2) / BITMAP_BLOCK_BIT_COUNT >= pages.len() {
        return Err(Error::DiskInvalidLBAAddressError(address));
    }
    let index: usize = address - 2;
    let page = Block::new(pages[index / BITMAP_BLOCK_BIT_COUNT]);
    let offset: usize = 4 + 4 * (index % BITMAP_BLOCK_BIT_COUNT / 32);
    let bit: u32 = (index % 32) as u32;
    let word: u32 = match page.read_u32(disk, offset) {
        Ok(word) => word,
        Err(e) => {
            return Err(e);
        },
    };
    let new_word: u32 = match action {
        BitmapAction::Alloc => word & !(1u32 << bit),
        BitmapAction::Free => word | (1u32 << bit),
    };
    match page.write_u32(disk, offset, new_word) {
        Ok(_) => {},
        Err(e) => {
            return Err(e);
        },
    }
    let checksum: u32 = match disk.blocks(page.address, 1) {
        Ok(data) => compute_checksum(data, BITMAP_BLOCK_CHECKSUM_OFFSET),
        Err(e) => {
            return Err(e);
        },
    };
    page.write_u32(disk, BITMAP_BLOCK_CHECKSUM_OFFSET, checksum)
}

/// Takes the lowest block that the bitmap marks as free, and marks it as
/// used.
fn reserve_lowest(disk: &mut Disk, pages: &Vec<LBAAddress>) -> (res: Result<LBAAddress, Error>)
    requires
        old(disk).wf(),
        spec_pages_valid(pages@, old(disk).spec_block_count()),
    ensures
        final(disk).wf(),
        final(disk).spec_disk_type() == old(disk).spec_disk_type(),
        match res {
            Ok(address) => spec_first_free(old(disk)@, pages@, address as int) && final(disk)@
                == spec_bitmap_update(old(disk)@, pages@, address as int, false) && spec_lowest_free(
                old(disk)@,
                pages@,
            ) == Some(address),
            Err(e) => e == Error::NoSpaceLeft && spec_no_free(old(disk)@, pages@) && final(disk)@ == old(disk)@
                && spec_lowest_free(old(disk)@, pages@) == None::<usize>,
        },
{
    let block_count: usize = disk.block_count();
    let covered: usize = pages.len() * BITMAP_BLOCK_BIT_COUNT;
    let end: usize = if block_count - 2 < covered {
        block_count
    } else {
        covered + 2
    };
    let mut address: usize = 2;
    while address < end
        invariant
            2 <= address <= end,
            disk.wf(),
            disk@ == old(disk)@,
            disk.spec_disk_type() == old(disk).spec_disk_type(),
            block_count == disk.spec_block_count(),
            spec_pages_valid(pages@, disk.spec_block_count()),
            end <= block_count,
            end - 2 <= pages@.len() * 4064,
            end == block_count || end - 2 == pages@.len() * 4064,
            forall|other: int| 2 <= other < address ==> !spec_block_free(disk@, pages@, other),
        decreases end - address,
    {
        let index: usize = address - 2;
        let page = Block::new(pages[index / BITMAP_BLOCK_BIT_COUNT]);
        let offset: usize = 4 + 4 * (index % BITMAP_BLOCK_BIT_COUNT / 32);
        let bit: u32 = (index % 32) as u32;
        let word: u32 = match page.read_u32(disk, offset) {
            Ok(word) => word,
            Err(_) => 0,
        };
        if bit == 0 && word == 0 {
            let next: usize = if end - address < 32 {
                end
            } else {
                address + 32
            };
            assert forall|other: int| address <= other < next implies !spec_block_free(
                disk@,
                pages@,
                other,
            ) by {
                assert((other - 2) / 4064 == index / 4064);
                assert((other - 2) % 4064 / 32 == index % 4064 / 32);
                lemma_zero_word_has_no_bit(word, spec_bit_number(other));
            }
            address = next;
        } else if (word >> bit) & 1 == 1 {
            proof {
                lemma_lowest_free_is(disk@, pages@, address);
            }
            let r = update_block(disk, pages, address, BitmapAction::Alloc);
            return Ok(address);
        } else {
            address = address + 1;
        }
    }
    assert forall|other: int| !spec_block_free(disk@, pages@, other) by {
        if spec_tracked(disk@, pages@, other) {
            assert(other < end);
        }
    }
    Err(Error::NoSpaceLeft)
}

/// The bytes of the first `count` bitmap blocks, one block after the other.
pub open spec fn spec_bitmap_bytes(image: Seq<u8>, pages: Seq<usize>, count: nat) -> Seq<u8>
    decreases count,
{
    if count == 0 {
        Seq::empty()
    } else {
        spec_bitmap_bytes(image, pages, (count - 1) as nat) + spec_read_bytes(
            image,
            pages[count - 1] as int,
            0,
            512,
        )
    }
}

impl AmigaDosInner {
    /// The bitmap as it stands on disk: the bytes of the bitmap blocks, one
    /// block after the other.
    pub fn get_bitmap(&self) -> (res: Result<Vec<u8>, Error>)
        requires
            self.wf(),
        ensures
            res is Ok,
            res->Ok_0@ == spec_bitmap_bytes(self@, self.spec_pages(), self.spec_pages().len()),
    {
        let mut bitmap: Vec<u8> = Vec::new();
        let count: usize = self.bitmap_block_addresses.len();
        let mut i: usize = 0;
        while i < count
            invariant
                i <= count,
                count == self.bitmap_block_addresses@.len(),
                self.wf(),
                bitmap@ == spec_bitmap_bytes(self@, self.spec_pages(), i as nat),
            decreases count - i,
        {
            let block = Block::new(self.bitmap_block_addresses[i]);
            let ghost before = bitmap@;
            match block.read_u8_vector(&self.disk, 0, BLOCK_SIZE) {
                Ok(mut bytes) => {
                    let ghost read = bytes@;
                    bitmap.append(&mut bytes);
                    assert(bitmap@ =~= before + read);
                },
                Err(_) => {
                    assert(false);
                },
            }
            i = i + 1;
        }
        Ok(bitmap)
    }

    /// Takes a free block: the lowest one that the bitmap marks as free is
    /// marked as used and returned.
    pub fn reserve_block(&mut self) -> (res: Result<LBAAddress, Error>)
        requires
            old(self).wf(),
        ensures
            final(self).wf(),
            final(self).same_volume(old(self)),
            match res {
                Ok(address) => spec_first_free(old(self)@, old(self).spec_pages(), address as int) && final(self)@
                    == spec_bitmap_update(old(self)@, old(self).spec_pages(), address as int, false)
                    && spec_lowest_free(old(self)@, old(self).spec_pages()) == Some(address),
                Err(e) => e == Error::NoSpaceLeft && spec_no_free(old(self)@, old(self).spec_pages()) && final(
                    self)@ == old(self)@ && spec_lowest_free(old(self)@, old(self).spec_pages()) == None::<
                    usize,
                >,
            },
    {
        reserve_lowest(&mut self.disk, &self.bitmap_block_addresses)
    }

    /// Gives a block back: the bitmap marks it as free.
    pub fn free_block(&mut self, address: LBAAddress) -> (res: Result<(), Error>)
        requires
            old(self).wf(),
        ensures
            final(self).wf(),
            final(self).same_volume(old(self)),
            spec_tracked(old(self)@, old(self).spec_pages(), address as int) ==> res == Ok::<(), Error>(())
                && final(self)@ == spec_bitmap_update(old(self)@, old(self).spec_pages(), address as int, true),
            !spec_tracked(old(self)@, old(self).spec_pages(), address as int) ==> res == Err::<(), Error>(
                Error::DiskInvalidLBAAddressError(address),
            ) && final(self)@ == old(self)@,
    {
        update_block(&mut self.disk, &self.bitmap_block_addresses, address, BitmapAction::Free)
    }

    pub fn total_block_count(&self) -> (count: usize)
        ensures
            count == self.disk.spec_block_count(),
    {
        self.disk.block_count()
    }

    /// Number of blocks that the bitmap marks as free.
    pub fn free_block_count(&self) -> (count: usize)
        requires
            self.wf(),
        ensures
            count == spec_free_block_count(self@, self.spec_pages()),
    {
        let block_count: usize = self.disk.block_count();
        let mut count: usize = 0;
        let mut address: usize = 2;
        while address < block_count
            invariant
                2 <= address <= block_count,
                self.wf(),
                block_count == self.disk.spec_block_count(),
                count == spec_free_count(self@, self.spec_pages(), address as int),
                count <= address,
            decreases block_count - address,
        {
            if (address - 2) / BITMAP_BLOCK_BIT_COUNT < self.bitmap_block_addresses.len() {
                if block_is_free(&self.disk, &self.bitmap_block_addresses, address) {
                    count = count + 1;
                }
            }
            address = address + 1;
        }
        count
    }
}

/// The addresses of the bitmap blocks of a fresh volume: the blocks that
/// follow the root block.
pub open spec fn spec_initial_pages(root: int, count: nat) -> Seq<usize> {
    Seq::new(count, |i: int| (root + 1 + i) as usize)
}

/// The image with the first `count` bitmap blocks of a fresh volume filled
/// with ones, all blocks free, and listed in the root block's table.
pub open spec fn spec_bitmap_pages_init(image: Seq<u8>, root: int, count: nat) -> Seq<u8>
    decreases count,
{
    if count == 0 {
        image
    } else {
        spec_write_u32(
            spec_fill(spec_bitmap_pages_init(image, root, (count - 1) as nat), root + count, 0xff, 0, 512),
            root,
            316 + 4 * (count - 1),
            (root + count) as u32,
        )
    }
}

/// The image with the first `count` of the blocks from `root` on marked as
/// used.
pub open spec fn spec_reserve_from(image: Seq<u8>, pages: Seq<usize>, root: int, count: nat) -> Seq<u8>
    decreases count,
{
    if count == 0 {
        image
    } else {
        spec_bitmap_update(spec_reserve_from(image, pages, root, (count - 1) as nat), pages, root + count - 1, false)
    }
}

/// The image with the bitmap of a fresh volume written: the bitmap blocks
/// follow the root block, the root block lists them and gets its checksum,
/// and the bitmap marks every block as free but the root block and the
/// bitmap blocks.
#[verifier::opaque]
pub open spec fn spec_bitmap_init(image: Seq<u8>, root: int) -> Seq<u8> {
    let count = spec_bitmap_block_count(spec_block_count(image));
    spec_reserve_from(
        spec_write_checksum(spec_bitmap_pages_init(image, root, count), root as usize),
        spec_initial_pages(root, count),
        root,
        count + 1,
    )
}

/// Why the bitmap of a fresh volume cannot be written with the root block
/// at `root`, if it cannot: the root block and the bitmap blocks must lie
/// in the image, after the boot blocks.
pub open spec fn spec_bitmap_init_error(block_count: nat, root: usize) -> Option<Error> {
    if root >= block_count {
        Some(Error::DiskInvalidLBAAddressError(root))
    } else if root + spec_bitmap_block_count(block_count) >= block_count {
        Some(Error::DiskInvalidLBAAddressError(block_count as usize))
    } else if root < 2 {
        Some(Error::DiskInvalidLBAAddressError(root))
    } else {
        None
    }
}

fn get_bitmap_block_count(disk: &Disk) -> (count: usize)
    requires
        disk.wf(),
    ensures
        count == spec_bitmap_block_count(disk.spec_block_count()),
        count == 1,
{
    let block_count: usize = disk.block_count() - 2;
    assert(block_count == 1758 || block_count == 3518);
    if block_count % BITMAP_BLOCK_BIT_COUNT == 0 {
        block_count / BITMAP_BLOCK_BIT_COUNT
    } else {
        block_count / BITMAP_BLOCK_BIT_COUNT + 1
    }
}

/// Writes the bitmap of a fresh volume.
#[derive(Clone, Copy, Debug)]
pub struct BitmapInitializer {
    pub root_block_address: Option<LBAAddress>,
}

impl Default for BitmapInitializer {
    fn default() -> (res: Self)
        ensures
            res.root_block_address == None::<LBAAddress>,
    {
        Self { root_block_address: None }
    }
}

impl BitmapInitializer {
    pub fn with_root_block_address(&mut self, addr: Option<LBAAddress>) -> (res: &mut Self)
        ensures
            res.root_block_address == addr,
            *final(self) == *final(res),
    {
        self.root_block_address = addr;
        self
    }

    /// Writes the bitmap blocks after the root block, lists them in the
    /// root block, and marks the root block and the bitmap blocks as used.
    /// Nothing is written unless all of it can be.
    pub fn init(&self, disk: &mut Disk) -> (res: Result<(), Error>)
        requires
            old(disk).wf(),
        ensures
            final(disk).wf(),
            final(disk).spec_disk_type() == old(disk).spec_disk_type(),
            ({
                let root = spec_root_or_default(self.root_block_address, old(disk).spec_block_count());
                match spec_bitmap_init_error(old(disk).spec_block_count(), root) {
                    Some(e) => res == Err::<(), Error>(e) && final(disk)@ == old(disk)@,
                    None => res == Ok::<(), Error>(()) && final(disk)@ == spec_bitmap_init(old(disk)@, root as int),
                }
            }),
    {
        proof {
            reveal(spec_bitmap_init);
        }
        let block_count: usize = disk.block_count();
        let root_block_address: LBAAddress = match self.root_block_address {
            Some(address) => address,
            None => block_count / 2,
        };
        let bitmap_block_count: usize = get_bitmap_block_count(disk);
        if root_block_address >= block_count {
            return Err(Error::DiskInvalidLBAAddressError(root_block_address));
        }
        if bitmap_block_count >= block_count - root_block_address {
            return Err(Error::DiskInvalidLBAAddressError(block_count));
        }
        if root_block_address < 2 {
            return Err(Error::DiskInvalidLBAAddressError(root_block_address));
        }
        let root = Block::new(root_block_address);
        let mut bitmap_blocks: Vec<LBAAddress> = Vec::new();
        let mut bitmap_block_index: usize = 0;
        while bitmap_block_index < bitmap_block_count
            invariant
                bitmap_block_index <= bitmap_block_count,
                bitmap_block_count == 1,
                disk.wf(),
                disk.spec_disk_type() == old(disk).spec_disk_type(),
                block_count == disk.spec_block_count(),
                2 <= root_block_address,
                root_block_address + bitmap_block_count < block_count,
                root.address == root_block_address,
                bitmap_blocks@ == spec_initial_pages(root_block_address as int, bitmap_block_index as nat),
                disk@ == spec_bitmap_pages_init(
                    old(disk)@,
                    root_block_address as int,
                    bitmap_block_index as nat,
                ),
            decreases bitmap_block_count - bitmap_block_index,
        {
            let bitmap_block_address: LBAAddress = root_block_address + 1 + bitmap_block_index;
            let r = Block::new(bitmap_block_address).fill(disk, 0xff, 0, BLOCK_SIZE);
            let r = root.write_u32(
                disk,
                ROOT_BLOCK_BITMAP_PAGES_OFFSET + 4 * bitmap_block_index,
                bitmap_block_address as u32,
            );
            let ghost listed = bitmap_blocks@;
            bitmap_blocks.push(bitmap_block_address);
            assert(bitmap_blocks@ =~= spec_initial_pages(
                root_block_address as int,
                (bitmap_block_index + 1) as nat,
            ));
            bitmap_block_index = bitmap_block_index + 1;
        }
        let r = root.write_checksum(disk);
        let ghost listed: Seq<u8> = disk@;
        let mut reserved: usize = 0;
        while reserved <= bitmap_block_count
            invariant
                reserved <= bitmap_block_count + 1,
                bitmap_block_count == 1,
                disk.wf(),
                disk.spec_disk_type() == old(disk).spec_disk_type(),
                block_count == disk.spec_block_count(),
                2 <= root_block_address,
                root_block_address + bitmap_block_count < block_count,
                bitmap_blocks@ == spec_initial_pages(root_block_address as int, bitmap_block_count as nat),
                disk@ == spec_reserve_from(listed, bitmap_blocks@, root_block_address as int, reserved as nat),
            decreases bitmap_block_count + 1 - reserved,
        {
            let r = update_block(disk, &bitmap_blocks, root_block_address + reserved, BitmapAction::Alloc);
            reserved = reserved + 1;
        }
        Ok(())
    }
}

proof fn lemma_full_word_has_every_bit(bit: u32)
    requires
        bit < 32,
    ensures
        spec_bit(0xffff_ffff, bit),
{
    assert((0xffff_ffffu32 >> bit) & 1 == 1) by (bit_vector)
        requires
            bit < 32,
    ;
}

/// Whether the bitmap block `page` holds its own checksum in its first
/// word.
pub open spec fn spec_bitmap_checksum_valid(image: Seq<u8>, page: int) -> bool {
    crate::fs::checksum::spec_checksum_valid(spec_read_bytes(image, page, 0, 512), 0)
}

/// The checksum of a bitmap block is valid after every marking.
pub proof fn lemma_bitmap_update_checksum(image: Seq<u8>, pages: Seq<usize>, address: int, free: bool)
    requires
        image.len() % 512 == 0,
        spec_pages_valid(pages, spec_block_count(image)),
        spec_tracked(image, pages, address),
    ensures
        spec_bitmap_update(image, pages, address, free).len() == image.len(),
        spec_bitmap_checksum_valid(
            spec_bitmap_update(image, pages, address, free),
            spec_page_of(pages, address),
        ),
        forall|i: int|
            0 <= i < image.len() && !(spec_page_of(pages, address) * 512 <= i < spec_page_of(pages, address)
                * 512 + 512) ==> (#[trigger] spec_bitmap_update(image, pages, address, free)[i]) == image[i],
{
    reveal(spec_bitmap_update);
    let page = spec_page_of(pages, address);
    let offset = spec_bit_word_offset(address);
    let word = spec_read_u32(image, page, offset);
    let mask = 1u32 << spec_bit_number(address);
    let new_word = if free {
        word | mask
    } else {
        word & !mask
    };
    let written = spec_write_u32(image, page, offset, new_word);
    let before = spec_read_bytes(written, page, 0, 512);
    let checksum = spec_checksum(before, 0);
    let after = spec_read_bytes(spec_bitmap_update(image, pages, address, free), page, 0, 512);
    assert forall|i: int| 0 <= i < 128 && i != 0 implies crate::fs::checksum::spec_word(after, i)
        == crate::fs::checksum::spec_word(before, i) by {
        assert(after.subrange(4 * i, 4 * i + 4) =~= before.subrange(4 * i, 4 * i + 4));
    }
    crate::fs::checksum::lemma_words_sum_agree(after, before, 0, 128);
    assert(after.subrange(0, 4) =~= crate::block::spec_u32_to_be_bytes(checksum));
    crate::block::lemma_u32_be_roundtrip(checksum);
}

/// The bitmap block of a fresh volume once it is written and listed: the
/// block after the root block is all ones, the root block lists it first and
/// has a valid checksum, and no other byte has changed.
proof fn lemma_bitmap_listed(image: Seq<u8>, root: usize)
    requires
        image.len() == 1760 * 512 || image.len() == 3520 * 512,
        spec_bitmap_init_error(spec_block_count(image), root) is None,
    ensures
        ({
            let listed = spec_write_checksum(spec_bitmap_pages_init(image, root as int, 1), root);
            &&& listed.len() == image.len()
            &&& forall|i: int|
                0 <= i < image.len() && !(root * 512 <= i < root * 512 + 1024) ==> (#[trigger] listed[i]) == image[i]
            &&& forall|i: int|
                root * 512 <= i < root * 512 + 512 && !(root * 512 + 20 <= i < root * 512 + 24) && !(root * 512
                    + 316 <= i < root * 512 + 320) ==> (#[trigger] listed[i]) == image[i]
            &&& forall|i: int| root * 512 + 512 <= i < root * 512 + 1024 ==> (#[trigger] listed[i]) == 0xffu8
            &&& spec_read_u32(listed, root as int, 316) == root + 1
            &&& crate::fs::block::spec_block_checksum_valid(listed, root as int)
        }),
{
    let r = root as int;
    reveal_with_fuel(spec_bitmap_pages_init, 2);
    let filled = spec_fill(image, r + 1, 0xff, 0, 512);
    let listed = spec_write_u32(filled, r, 316, (r + 1) as u32);
    assert(spec_bitmap_pages_init(image, r, 1) == listed);
    crate::fs::block::lemma_write_checksum_valid(listed, root);
    crate::block::lemma_u32_be_roundtrip((r + 1) as u32);
}

/// The steps by which the bitmap of a fresh volume is written, when one
/// bitmap block is enough: the block is written and listed, then the root
/// block is marked as used, then the bitmap block.
proof fn lemma_bitmap_init_steps(image: Seq<u8>, root: usize)
    requires
        image.len() == 1760 * 512 || image.len() == 3520 * 512,
        spec_bitmap_init_error(spec_block_count(image), root) is None,
    ensures
        ({
            let pages = spec_initial_pages(root as int, 1);
            let listed = spec_write_checksum(spec_bitmap_pages_init(image, root as int, 1), root);
            let first = spec_bitmap_update(listed, pages, root as int, false);
            &&& spec_bitmap_init(image, root as int) == spec_bitmap_update(first, pages, root + 1, false)
            &&& spec_pages_valid(pages, spec_block_count(image))
            &&& spec_page_of(pages, root as int) == root + 1
            &&& spec_page_of(pages, root + 1) == root + 1
            &&& listed.len() == image.len()
            &&& first.len() == image.len()
            &&& spec_tracked(listed, pages, root as int)
            &&& spec_tracked(first, pages, root + 1)
        }),
{
    let r = root as int;
    let pages = spec_initial_pages(r, 1);
    assert(spec_bitmap_block_count(spec_block_count(image)) == 1);
    assert(pages[0] == r + 1);
    reveal(spec_bitmap_init);
    reveal(spec_bitmap_update);
    reveal_with_fuel(spec_reserve_from, 3);
    lemma_bitmap_listed(image, root);
}

/// Writing the bitmap of a fresh volume changes the root block and the
/// block after it, and nothing else; in the root block it changes the
/// checksum and the first entry of the table of bitmap blocks.
proof fn lemma_bitmap_init_frame(image: Seq<u8>, root: usize)
    requires
        image.len() == 1760 * 512 || image.len() == 3520 * 512,
        spec_bitmap_init_error(spec_block_count(image), root) is None,
    ensures
        ({
            let written = spec_bitmap_init(image, root as int);
            let listed = spec_write_checksum(spec_bitmap_pages_init(image, root as int, 1), root);
            &&& written.len() == image.len()
            &&& forall|i: int|
                0 <= i < image.len() && !(root * 512 <= i < root * 512 + 1024) ==> (#[trigger] written[i]) == image[i]
            &&& forall|i: int|
                root * 512 <= i < root * 512 + 512 && !(root * 512 + 20 <= i < root * 512 + 24) && !(root * 512
                    + 316 <= i < root * 512 + 320) ==> (#[trigger] written[i]) == image[i]
            &&& forall|i: int| root * 512 <= i < root * 512 + 512 ==> (#[trigger] written[i]) == listed[i]
        }),
{
    let r = root as int;
    let pages = spec_initial_pages(r, 1);
    let listed = spec_write_checksum(spec_bitmap_pages_init(image, r, 1), root);
    let first = spec_bitmap_update(listed, pages, r, false);
    let second = spec_bitmap_update(first, pages, r + 1, false);
    lemma_bitmap_init_steps(image, root);
    lemma_bitmap_listed(image, root);
    lemma_bitmap_update_checksum(listed, pages, r, false);
    lemma_bitmap_update_checksum(first, pages, r + 1, false);
    assert forall|i: int| 0 <= i < image.len() && !(r * 512 + 512 <= i < r * 512 + 1024) implies second[i]
        == listed[i] by {
        assert(first[i] == listed[i]);
        assert(second[i] == first[i]);
    }
}

/// A bitmap block of ones marks every block that it tracks as free.
proof fn lemma_listed_all_free(image: Seq<u8>, root: usize, address: int)
    requires
        image.len() == 1760 * 512 || image.len() == 3520 * 512,
        spec_bitmap_init_error(spec_block_count(image), root) is None,
    ensures
        spec_block_free(
            spec_write_checksum(spec_bitmap_pages_init(image, root as int, 1), root),
            spec_initial_pages(root as int, 1),
            address,
        ) <==> 2 <= address < spec_block_count(image),
{
    let r = root as int;
    let pages = spec_initial_pages(r, 1);
    let listed = spec_write_checksum(spec_bitmap_pages_init(image, r, 1), root);
    lemma_bitmap_listed(image, root);
    assert(pages[0] == r + 1);
    if 2 <= address < spec_block_count(image) {
        let offset = spec_bit_word_offset(address);
        assert(spec_read_bytes(listed, r + 1, offset, 4) =~= seq![0xffu8, 0xffu8, 0xffu8, 0xffu8]);
        assert(spec_read_u32(listed, r + 1, offset) == 0xffff_ffff);
        lemma_full_word_has_every_bit(spec_bit_number(address));
    }
}

/// Two blocks marked as used, one after the other, are used; every other
/// block keeps its mark.
proof fn lemma_two_updates_mark(image: Seq<u8>, pages: Seq<usize>, one: int, two: int, address: int)
    requires
        image.len() % 512 == 0,
        spec_pages_valid(pages, spec_block_count(image)),
        spec_tracked(image, pages, one),
        spec_tracked(image, pages, two),
    ensures
        spec_block_free(
            spec_bitmap_update(spec_bitmap_update(image, pages, one, false), pages, two, false),
            pages,
            address,
        ) == (address != one && address != two && spec_block_free(image, pages, address)),
{
    let first = spec_bitmap_update(image, pages, one, false);
    lemma_bitmap_update_marks(image, pages, one, false, address);
    assert(first.len() == image.len());
    assert(spec_tracked(first, pages, two));
    lemma_bitmap_update_marks(first, pages, two, false, address);
}

/// The bitmap of a fresh volume marks every block after the boot blocks as
/// free but the root block and the bitmap block.
proof fn lemma_bitmap_init_marks(image: Seq<u8>, root: usize, address: int)
    requires
        image.len() == 1760 * 512 || image.len() == 3520 * 512,
        spec_bitmap_init_error(spec_block_count(image), root) is None,
    ensures
        spec_block_free(spec_bitmap_init(image, root as int), spec_initial_pages(root as int, 1), address) <==> 2
            <= address < spec_block_count(image) && address != root && address != root + 1,
{
    let r = root as int;
    let pages = spec_initial_pages(r, 1);
    let listed = spec_write_checksum(spec_bitmap_pages_init(image, r, 1), root);
    lemma_bitmap_init_steps(image, root);
    lemma_listed_all_free(image, root, address);
    lemma_two_updates_mark(listed, pages, r, r + 1, address);
}

/// The bitmap of a fresh volume: the one bitmap block follows the root
/// block and is listed first in the root block's table; every block after
/// the boot blocks is free but the root block and the bitmap block; the
/// checksums of both blocks are valid; and no other block has changed.
pub proof fn lemma_bitmap_init(image: Seq<u8>, root: usize)
    requires
        image.len() == 1760 * 512 || image.len() == 3520 * 512,
        spec_bitmap_init_error(spec_block_count(image), root) is None,
    ensures
        ({
            let written = spec_bitmap_init(image, root as int);
            let pages = spec_initial_pages(root as int, 1);
            &&& written.len() == image.len()
            &&& spec_pages_valid(pages, spec_block_count(image))
            &&& forall|i: int|
                0 <= i < image.len() && !(root * 512 <= i < root * 512 + 1024) ==> (#[trigger] written[i]) == image[i]
            &&& forall|i: int|
                root * 512 <= i < root * 512 + 512 && !(root * 512 + 20 <= i < root * 512 + 24) && !(root * 512
                    + 316 <= i < root * 512 + 320) ==> (#[trigger] written[i]) == image[i]
            &&& spec_read_u32(written, root as int, 316) == root + 1
            &&& crate::fs::block::spec_block_checksum_valid(written, root as int)
            &&& spec_bitmap_checksum_valid(written, root + 1)
            &&& forall|address: int|
                spec_block_free(written, pages, address) <==> 2 <= address < spec_block_count(image) && address
                    != root && address != root + 1
        }),
{
    let r = root as int;
    let pages = spec_initial_pages(r, 1);
    let written = spec_bitmap_init(image, r);
    let listed = spec_write_checksum(spec_bitmap_pages_init(image, r, 1), root);
    let first = spec_bitmap_update(listed, pages, r, false);
    lemma_bitmap_init_steps(image, root);
    lemma_bitmap_init_frame(image, root);
    lemma_bitmap_listed(image, root);
    assert(spec_read_bytes(written, r, 0, 512) =~= spec_read_bytes(listed, r, 0, 512));
    assert(spec_read_bytes(written, r, 316, 4) =~= spec_read_bytes(listed, r, 316, 4));
    lemma_bitmap_update_checksum(first, pages, r + 1, false);
    assert forall|address: int|
        spec_block_free(written, pages, address) <==> 2 <= address < spec_block_count(image) && address != r
            && address != r + 1 by {
        lemma_bitmap_init_marks(image, root, address);
    }
}

/// Marking a block keeps checksums: the bitmap block that changes holds a
/// valid checksum afterwards.
pub proof fn lemma_bitmap_update_sums(image: Seq<u8>, pages: Seq<usize>, address: int, free: bool, raw: Set<int>)
    requires
        image.len() % 512 == 0,
        spec_pages_valid(pages, spec_block_count(image)),
        spec_tracked(image, pages, address),
    ensures
        crate::fs::frame::spec_sums_kept(image, spec_bitmap_update(image, pages, address, free), pages, raw),
{
    let after = spec_bitmap_update(image, pages, address, free);
    let page = spec_page_of(pages, address);
    lemma_bitmap_update_checksum(image, pages, address, free);
    assert(pages[(address - 2) / 4064] == page);
    assert(pages.contains(page as usize));
    assert(crate::fs::frame::spec_unchanged_outside(image, after, set![page])) by {
        assert forall|i: int| 0 <= i < image.len() && !set![page].contains(i / 512) implies #[trigger] after[i]
            == image[i] by {
            assert(!(page * 512 <= i < page * 512 + 512));
        }
    }
    crate::fs::frame::lemma_page_summed(image, after, pages, page, raw);
}

} // verus!
