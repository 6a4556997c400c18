use vstd::prelude::*;

use crate::block::{spec_read_bytes, spec_read_u32, spec_write_bytes};
use crate::errors::Error;
use crate::fs::amiga_dos::spec_pages_valid;
use crate::fs::bitmap::{spec_bitmap_checksum_valid, spec_block_free, spec_free_count};
use crate::fs::block::{spec_block_checksum_valid, spec_block_count};
use crate::fs::boot_block::{spec_boot_block_valid, spec_boot_flags, spec_root_block_address};

verus! {

/// Whether `after` is `before` but for the blocks `touched`: the same
/// length, and the same bytes in every other block.
pub open spec fn spec_unchanged_outside(before: Seq<u8>, after: Seq<u8>, touched: Set<int>) -> bool {
    &&& after.len() == before.len()
    &&& forall|i: int| 0 <= i < before.len() && !touched.contains(i / 512) ==> #[trigger] after[i] == before[i]
}

/// Whether block `address` is the same in both images.
pub open spec fn spec_same_block(before: Seq<u8>, after: Seq<u8>, address: int) -> bool {
    forall|offset: int| 0 <= offset < 512 ==> #[trigger] after[address * 512 + offset] == before[address * 512
        + offset]
}

/// A block that was not touched is the same block.
pub proof fn lemma_untouched_block(before: Seq<u8>, after: Seq<u8>, touched: Set<int>, address: int)
    requires
        spec_unchanged_outside(before, after, touched),
        !touched.contains(address),
        0 <= address,
        address * 512 + 512 <= before.len(),
    ensures
        spec_same_block(before, after, address),
{
    assert forall|offset: int| 0 <= offset < 512 implies #[trigger] after[address * 512 + offset]
        == before[address * 512 + offset] by {
        assert((address * 512 + offset) / 512 == address);
    }
}

/// What was left alone by one step and by the next was left alone by both.
pub proof fn lemma_unchanged_outside_trans(
    first: Seq<u8>,
    second: Seq<u8>,
    third: Seq<u8>,
    one: Set<int>,
    other: Set<int>,
    both: Set<int>,
)
    requires
        spec_unchanged_outside(first, second, one),
        spec_unchanged_outside(second, third, other),
        forall|a: int| one.contains(a) || other.contains(a) ==> both.contains(a),
    ensures
        spec_unchanged_outside(first, third, both),
{
}

/// A write into a block touches that block alone.
pub proof fn lemma_write_bytes_touches(image: Seq<u8>, address: int, offset: int, bytes: Seq<u8>, touched: Set<
    int,
>)
    requires
        0 <= address,
        0 <= offset,
        offset + bytes.len() <= 512,
        touched.contains(address),
    ensures
        spec_unchanged_outside(image, spec_write_bytes(image, address, offset, bytes), touched),
{
    let after = spec_write_bytes(image, address, offset, bytes);
    assert forall|i: int| 0 <= i < image.len() && !touched.contains(i / 512) implies #[trigger] after[i]
        == image[i] by {
        if address * 512 + offset <= i < address * 512 + offset + bytes.len() {
            assert(i / 512 == address);
        }
    }
}

/// What is read from a block that is the same in both images is the same.
pub proof fn lemma_same_block_reads(before: Seq<u8>, after: Seq<u8>, address: int)
    requires
        spec_same_block(before, after, address),
        0 <= address,
        address * 512 + 512 <= before.len(),
        after.len() == before.len(),
    ensures
        spec_read_bytes(after, address, 0, 512) == spec_read_bytes(before, address, 0, 512),
        forall|offset: int|
            0 <= offset <= 508 ==> #[trigger] spec_read_u32(after, address, offset) == spec_read_u32(
                before,
                address,
                offset,
            ),
        forall|offset: int, len: int|
            0 <= offset && 0 <= len && offset + len <= 512 ==> #[trigger] spec_read_bytes(
                after,
                address,
                offset,
                len,
            ) == spec_read_bytes(before, address, offset, len),
        spec_block_checksum_valid(before, address) == spec_block_checksum_valid(after, address),
        spec_bitmap_checksum_valid(before, address) == spec_bitmap_checksum_valid(after, address),
{
    assert(spec_read_bytes(after, address, 0, 512) =~= spec_read_bytes(before, address, 0, 512)) by {
        assert forall|k: int| 0 <= k < 512 implies spec_read_bytes(after, address, 0, 512)[k]
            == spec_read_bytes(before, address, 0, 512)[k] by {
            assert(after[address * 512 + k] == before[address * 512 + k]);
        }
    }
    assert forall|offset: int, len: int|
        0 <= offset && 0 <= len && offset + len <= 512 implies #[trigger] spec_read_bytes(
        after,
        address,
        offset,
        len,
    ) == spec_read_bytes(before, address, offset, len) by {
        assert forall|k: int| 0 <= k < len implies spec_read_bytes(after, address, offset, len)[k]
            == spec_read_bytes(before, address, offset, len)[k] by {
            assert(after[address * 512 + (offset + k)] == before[address * 512 + (offset + k)]);
        }
        assert(spec_read_bytes(after, address, offset, len) =~= spec_read_bytes(before, address, offset, len));
    }
    assert forall|offset: int| 0 <= offset <= 508 implies #[trigger] spec_read_u32(after, address, offset)
        == spec_read_u32(before, address, offset) by {
        assert(spec_read_bytes(after, address, offset, 4) == spec_read_bytes(before, address, offset, 4));
    }
}

/// When the bitmap blocks are the same in both images, the bitmap marks
/// the same blocks as free.
pub proof fn lemma_same_pages_same_marks(before: Seq<u8>, after: Seq<u8>, pages: Seq<usize>, address: int)
    requires
        after.len() == before.len(),
        before.len() % 512 == 0,
        spec_pages_valid(pages, spec_block_count(before)),
        forall|k: int| 0 <= k < pages.len() ==> spec_same_block(before, after, #[trigger] pages[k] as int),
    ensures
        spec_block_free(after, pages, address) == spec_block_free(before, pages, address),
{
    if crate::fs::bitmap::spec_tracked(before, pages, address) {
        let k = (address - 2) / 4064;
        let page = pages[k] as int;
        assert(spec_same_block(before, after, page));
        lemma_same_block_reads(before, after, page);
    }
}

/// When the bitmap blocks are the same in both images, as many blocks are
/// free.
pub proof fn lemma_same_pages_same_count(before: Seq<u8>, after: Seq<u8>, pages: Seq<usize>, end: int)
    requires
        after.len() == before.len(),
        before.len() % 512 == 0,
        spec_pages_valid(pages, spec_block_count(before)),
        forall|k: int| 0 <= k < pages.len() ==> spec_same_block(before, after, #[trigger] pages[k] as int),
    ensures
        spec_free_count(after, pages, end) == spec_free_count(before, pages, end),
    decreases end,
{
    if end > 2 {
        lemma_same_pages_same_count(before, after, pages, end - 1);
        lemma_same_pages_same_marks(before, after, pages, end - 1);
    }
}

/// When the two boot blocks are the same in both images, the boot block
/// says the same.
pub proof fn lemma_same_boot(before: Seq<u8>, after: Seq<u8>)
    requires
        after.len() == before.len(),
        before.len() >= 1024,
        spec_same_block(before, after, 0),
        spec_same_block(before, after, 1),
    ensures
        spec_boot_block_valid(after) == spec_boot_block_valid(before),
        spec_boot_flags(after) == spec_boot_flags(before),
        spec_root_block_address(after) == spec_root_block_address(before),
{
    assert(crate::disk::spec_blocks(after, 0, 2) =~= crate::disk::spec_blocks(before, 0, 2)) by {
        assert forall|i: int| 0 <= i < 1024 implies after[i] == before[i] by {
            if i < 512 {
                assert(after[0 * 512 + i] == before[0 * 512 + i]);
            } else {
                assert(after[1 * 512 + (i - 512)] == before[1 * 512 + (i - 512)]);
            }
        }
    }
    assert(spec_read_bytes(after, 0, 8, 4) =~= spec_read_bytes(before, 0, 8, 4)) by {
        assert forall|k: int| 0 <= k < 4 implies spec_read_bytes(after, 0, 8, 4)[k] == spec_read_bytes(
            before,
            0,
            8,
            4,
        )[k] by {
            assert(after[0 * 512 + (8 + k)] == before[0 * 512 + (8 + k)]);
        }
    }
    assert(after[0int * 512 + 3] == before[0int * 512 + 3]);
}

/// What is read from a range of a block that is the same in both images is
/// the same.
pub proof fn lemma_same_range_reads(before: Seq<u8>, after: Seq<u8>, address: int, from: int, to: int)
    requires
        0 <= address,
        0 <= from <= to <= 512,
        address * 512 + 512 <= before.len(),
        after.len() == before.len(),
        forall|offset: int|
            from <= offset < to ==> #[trigger] after[address * 512 + offset] == before[address * 512 + offset],
    ensures
        forall|offset: int|
            from <= offset && offset + 4 <= to ==> #[trigger] spec_read_u32(after, address, offset)
                == spec_read_u32(before, address, offset),
        forall|offset: int|
            from <= offset < to ==> #[trigger] crate::block::spec_read_u8(after, address, offset)
                == crate::block::spec_read_u8(before, address, offset),
        forall|offset: int, len: int|
            from <= offset && 0 <= len && offset + len <= to ==> #[trigger] spec_read_bytes(
                after,
                address,
                offset,
                len,
            ) == spec_read_bytes(before, address, offset, len),
{
    assert forall|offset: int, len: int|
        from <= offset && 0 <= len && offset + len <= to implies #[trigger] spec_read_bytes(
        after,
        address,
        offset,
        len,
    ) == spec_read_bytes(before, address, offset, len) by {
        assert forall|k: int| 0 <= k < len implies spec_read_bytes(after, address, offset, len)[k]
            == spec_read_bytes(before, address, offset, len)[k] by {
            assert(after[address * 512 + (offset + k)] == before[address * 512 + (offset + k)]);
        }
        assert(spec_read_bytes(after, address, offset, len) =~= spec_read_bytes(before, address, offset, len));
    }
    assert forall|offset: int| from <= offset && offset + 4 <= to implies #[trigger] spec_read_u32(
        after,
        address,
        offset,
    ) == spec_read_u32(before, address, offset) by {
        assert(spec_read_bytes(after, address, offset, 4) == spec_read_bytes(before, address, offset, 4));
    }
}

/// Whether block `address` holds the checksum that it keeps of itself: a
/// bitmap block in its first word, any other block at byte 20.
pub open spec fn spec_sum_valid(image: Seq<u8>, pages: Seq<usize>, address: int) -> bool {
    if pages.contains(address as usize) {
        spec_bitmap_checksum_valid(image, address)
    } else {
        spec_block_checksum_valid(image, address)
    }
}

/// Whether every block that differs between `before` and `after` holds a
/// valid checksum in `after`, the blocks `raw` aside: these are data blocks
/// of the fast file system, which are all payload.
pub open spec fn spec_sums_kept(before: Seq<u8>, after: Seq<u8>, pages: Seq<usize>, raw: Set<int>) -> bool {
    &&& after.len() == before.len()
    &&& forall|address: int|
        0 <= address < before.len() / 512 && !raw.contains(address) ==> #[trigger] spec_same_block(
            before,
            after,
            address,
        ) || spec_sum_valid(after, pages, address)
}

/// Nothing changed keeps every checksum.
pub proof fn lemma_sums_kept_refl(image: Seq<u8>, pages: Seq<usize>, raw: Set<int>)
    ensures
        spec_sums_kept(image, image, pages, raw),
{
}

/// Checksums that are kept by one step and by the next are kept by both.
pub proof fn lemma_sums_kept_trans(
    first: Seq<u8>,
    second: Seq<u8>,
    third: Seq<u8>,
    pages: Seq<usize>,
    one: Set<int>,
    other: Set<int>,
    raw: Set<int>,
)
    requires
        first.len() % 512 == 0,
        spec_sums_kept(first, second, pages, one),
        spec_sums_kept(second, third, pages, other),
        forall|a: int| one.contains(a) || other.contains(a) ==> raw.contains(a),
    ensures
        spec_sums_kept(first, third, pages, raw),
{
    assert forall|address: int|
        0 <= address < first.len() / 512 && !raw.contains(address) implies #[trigger] spec_same_block(
        first,
        third,
        address,
    ) || spec_sum_valid(third, pages, address) by {
        if spec_same_block(second, third, address) {
            lemma_same_block_reads(second, third, address);
            if spec_same_block(first, second, address) {
                assert forall|offset: int| 0 <= offset < 512 implies #[trigger] third[address * 512 + offset]
                    == first[address * 512 + offset] by {
                    assert(second[address * 512 + offset] == first[address * 512 + offset]);
                }
            }
        }
    }
}

/// A checksum that was valid is valid after steps that keep checksums:
/// the checksums of a volume stay valid through every change of it.
pub proof fn lemma_sums_kept_valid(
    before: Seq<u8>,
    after: Seq<u8>,
    pages: Seq<usize>,
    raw: Set<int>,
    address: int,
)
    requires
        before.len() % 512 == 0,
        spec_sums_kept(before, after, pages, raw),
        0 <= address < before.len() / 512,
        !raw.contains(address),
        spec_sum_valid(before, pages, address),
    ensures
        spec_sum_valid(after, pages, address),
{
    if spec_same_block(before, after, address) {
        lemma_same_block_reads(before, after, address);
    }
}

/// A step that changes one block, which is no bitmap block, and leaves a
/// valid checksum in it keeps checksums.
pub proof fn lemma_block_summed(before: Seq<u8>, after: Seq<u8>, pages: Seq<usize>, address: int, raw: Set<int>)
    requires
        before.len() % 512 == 0,
        spec_unchanged_outside(before, after, set![address]),
        0 <= address < before.len() / 512,
        raw.contains(address) || (!pages.contains(address as usize) && spec_block_checksum_valid(after, address)),
    ensures
        spec_sums_kept(before, after, pages, raw),
{
    assert forall|other: int|
        0 <= other < before.len() / 512 && !raw.contains(other) implies #[trigger] spec_same_block(
        before,
        after,
        other,
    ) || spec_sum_valid(after, pages, other) by {
        if other != address {
            lemma_untouched_block(before, after, set![address], other);
        }
    }
}

/// A step that changes one bitmap block and leaves a valid checksum in it
/// keeps checksums.
pub proof fn lemma_page_summed(before: Seq<u8>, after: Seq<u8>, pages: Seq<usize>, page: int, raw: Set<int>)
    requires
        before.len() % 512 == 0,
        spec_unchanged_outside(before, after, set![page]),
        0 <= page < before.len() / 512,
        pages.contains(page as usize),
        spec_bitmap_checksum_valid(after, page),
    ensures
        spec_sums_kept(before, after, pages, raw),
{
    assert forall|other: int|
        0 <= other < before.len() / 512 && !raw.contains(other) implies #[trigger] spec_same_block(
        before,
        after,
        other,
    ) || spec_sum_valid(after, pages, other) by {
        if other != page {
            lemma_untouched_block(before, after, set![page], other);
        }
    }
}

} // verus!
