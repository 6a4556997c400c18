use vstd::prelude::*;

use crate::errors::Error;
use crate::fs::amiga_dos::spec_pages_valid;
use crate::fs::bitmap::{
    lemma_bitmap_update_count, lemma_bitmap_update_marks, spec_bitmap_update, spec_block_free,
    spec_first_free, spec_free_block_count, spec_free_count, spec_page_of, spec_tracked,
};
use crate::fs::block::spec_block_count;
use crate::fs::boot_block::{spec_boot_block_valid, spec_boot_flags};
use crate::fs::file::{spec_content, spec_list_owned, spec_list_wf, spec_owned, FileDataBlockListEntry};
use crate::fs::frame::{
    lemma_same_block_reads, lemma_same_boot, lemma_same_pages_same_count, lemma_same_pages_same_marks,
    lemma_untouched_block, spec_same_block, spec_unchanged_outside,
};

verus! {

/// Byte `offset` of block `address` of the image.
pub open spec fn spec_block_byte(image: Seq<u8>, address: usize, offset: int) -> u8 {
    image[address * 512 + offset]
}

/// Whether the payload of every data block of `list` is the same in both
/// images.
pub open spec fn spec_same_payloads(
    before: Seq<u8>,
    after: Seq<u8>,
    list: Seq<FileDataBlockListEntry>,
    block_data_offset: usize,
) -> bool {
    forall|i: int, offset: int|
        0 <= i < list.len() && block_data_offset <= offset < 512 ==> #[trigger] spec_block_byte(
            after,
            list[i].data_block_address,
            offset,
        ) == spec_block_byte(before, list[i].data_block_address, offset)
}

/// The content of a file is what the payloads of its data blocks hold:
/// when the payloads are the same in two images, so is the content.
pub proof fn lemma_same_payloads_same_content(
    before: Seq<u8>,
    after: Seq<u8>,
    list: Seq<FileDataBlockListEntry>,
    block_data_offset: usize,
    block_data_size: usize,
    size: usize,
)
    requires
        spec_same_payloads(before, after, list, block_data_offset),
        block_data_size > 0,
        block_data_offset + block_data_size == 512,
        size <= list.len() * block_data_size,
    ensures
        spec_content(after, list, block_data_offset, block_data_size, size) == spec_content(
            before,
            list,
            block_data_offset,
            block_data_size,
            size,
        ),
{
    let a = spec_content(after, list, block_data_offset, block_data_size, size);
    let b = spec_content(before, list, block_data_offset, block_data_size, size);
    assert forall|p: int| 0 <= p < size implies a[p] == b[p] by {
        let i = p / (block_data_size as int);
        let r = p % (block_data_size as int);
        assert(0 <= i < list.len() && 0 <= r < block_data_size) by (nonlinear_arith)
            requires
                0 <= p < size,
                size <= list.len() * block_data_size,
                block_data_size > 0,
                i == p / (block_data_size as int),
                r == p % (block_data_size as int),
        ;
        assert(spec_block_byte(after, list[i].data_block_address, block_data_offset + r) == spec_block_byte(
            before,
            list[i].data_block_address,
            block_data_offset + r,
        ));
    }
    assert(a =~= b);
}

/// What stays as it is when an image changes in blocks that are neither
/// boot blocks nor bitmap blocks: what the boot block says, the marks of
/// the bitmap, the count of free blocks, and so the standing of the blocks
/// of a file.
pub proof fn lemma_plain_blocks_touched(
    before: Seq<u8>,
    after: Seq<u8>,
    touched: Set<int>,
    pages: Seq<usize>,
    header: usize,
    list: Seq<FileDataBlockListEntry>,
)
    requires
        before.len() == 1760 * 512 || before.len() == 3520 * 512,
        spec_pages_valid(pages, spec_block_count(before)),
        spec_unchanged_outside(before, after, touched),
        !touched.contains(0),
        !touched.contains(1),
        forall|k: int| 0 <= k < pages.len() ==> !touched.contains(#[trigger] pages[k] as int),
    ensures
        spec_boot_block_valid(after) == spec_boot_block_valid(before),
        spec_boot_flags(after) == spec_boot_flags(before),
        forall|address: int| spec_block_free(after, pages, address) == spec_block_free(before, pages, address),
        spec_free_block_count(after, pages) == spec_free_block_count(before, pages),
        spec_list_owned(before, pages, header, list) ==> spec_list_owned(after, pages, header, list),
        forall|address: usize| spec_owned(before, pages, address) ==> spec_owned(after, pages, address),
{
    lemma_untouched_block(before, after, touched, 0);
    lemma_untouched_block(before, after, touched, 1);
    lemma_same_boot(before, after);
    assert forall|k: int| 0 <= k < pages.len() implies spec_same_block(before, after, #[trigger] pages[k] as int) by {
        lemma_untouched_block(before, after, touched, pages[k] as int);
    }
    assert forall|address: int| spec_block_free(after, pages, address) == spec_block_free(
        before,
        pages,
        address,
    ) by {
        lemma_same_pages_same_marks(before, after, pages, address);
    }
    lemma_same_pages_same_count(before, after, pages, spec_block_count(before) as int);
}

/// What taking a free block does to a file that does not own it: the block
/// is none of the blocks of the file and none of the bitmap blocks; it is
/// marked as used from now on, as the blocks of the file still are; one
/// block less is free; and nothing changes but the bitmap block.
pub proof fn lemma_block_taken(
    image: Seq<u8>,
    pages: Seq<usize>,
    header: usize,
    list: Seq<FileDataBlockListEntry>,
    block_data_offset: usize,
    taken: usize,
)
    requires
        image.len() == 1760 * 512 || image.len() == 3520 * 512,
        spec_pages_valid(pages, spec_block_count(image)),
        spec_list_owned(image, pages, header, list),
        spec_first_free(image, pages, taken as int),
    ensures
        ({
            let after = spec_bitmap_update(image, pages, taken as int, false);
            &&& after.len() == image.len()
            &&& spec_list_owned(after, pages, header, list)
            &&& spec_owned(after, pages, taken)
            &&& taken != header
            &&& forall|i: int|
                0 <= i < list.len() ==> (#[trigger] list[i]).data_block_address != taken
                    && list[i].extension_block_address != taken
            &&& spec_free_block_count(after, pages) == spec_free_block_count(image, pages) - 1
            &&& spec_same_payloads(image, after, list, block_data_offset)
            &&& spec_boot_block_valid(after) == spec_boot_block_valid(image)
            &&& spec_boot_flags(after) == spec_boot_flags(image)
            &&& forall|address: usize|
                spec_owned(image, pages, address) ==> spec_owned(after, pages, address)
            &&& spec_unchanged_outside(image, after, set![spec_page_of(pages, taken as int)])
        }),
{
    let after = spec_bitmap_update(image, pages, taken as int, false);
    let page = spec_page_of(pages, taken as int);
    let touched = set![page];
    crate::fs::bitmap::lemma_bitmap_update_checksum(image, pages, taken as int, false);
    assert forall|address: int| spec_block_free(after, pages, address) == (address != taken && spec_block_free(
        image,
        pages,
        address,
    )) by {
        lemma_bitmap_update_marks(image, pages, taken as int, false, address);
    }
    lemma_bitmap_update_marks(image, pages, taken as int, false, taken as int);
    lemma_bitmap_update_count(image, pages, taken as int, false, spec_block_count(image) as int);
    assert(spec_unchanged_outside(image, after, touched)) by {
        assert forall|i: int| 0 <= i < image.len() && !touched.contains(i / 512) implies #[trigger] after[i]
            == image[i] by {
            assert(!(page * 512 <= i < page * 512 + 512));
        }
    }
    lemma_untouched_block(image, after, touched, 0);
    lemma_untouched_block(image, after, touched, 1);
    lemma_same_boot(image, after);
    assert forall|i: int, offset: int|
        0 <= i < list.len() && block_data_offset <= offset < 512 implies #[trigger] spec_block_byte(
        after,
        list[i].data_block_address,
        offset,
    ) == spec_block_byte(image, list[i].data_block_address, offset) by {
        let data = list[i].data_block_address;
        assert(spec_owned(image, pages, data));
        assert(data != page);
        assert((data * 512 + offset) / 512 == data);
    }
    assert forall|k: int| 0 <= k < pages.len() implies #[trigger] pages[k] != taken by {
        assert(!spec_block_free(image, pages, pages[k] as int));
    }
}

/// A list of data blocks stays well laid out when a data block is put at
/// its end that is in the next slot, of the same header or list block or,
/// when that one is full, of a fresh list block, and that no block of the
/// file is.
pub proof fn lemma_list_wf_push(header: usize, list: Seq<FileDataBlockListEntry>, entry: FileDataBlockListEntry)
    requires
        spec_list_wf(header, list),
        entry.data_block_address != header,
        entry.data_block_address != entry.extension_block_address,
        forall|i: int|
            0 <= i < list.len() ==> (#[trigger] list[i]).data_block_address != entry.data_block_address
                && list[i].extension_block_address != entry.data_block_address
                && list[i].data_block_address != entry.extension_block_address,
        list.len() == 0 ==> entry.extension_block_address == header && entry.extension_block_index == 0,
        list.len() > 0 && list.last().extension_block_index < 71 ==> entry.extension_block_address
            == list.last().extension_block_address && entry.extension_block_index
            == list.last().extension_block_index + 1,
        list.len() > 0 && list.last().extension_block_index >= 71 ==> entry.extension_block_index == 0
            && entry.extension_block_address != header && forall|i: int|
            0 <= i < list.len() ==> (#[trigger] list[i]).extension_block_address
                != entry.extension_block_address,
    ensures
        spec_list_wf(header, list.push(entry)),
{
    let longer = list.push(entry);
    let n = list.len() as int;
    assert forall|i: int| 0 <= i < longer.len() implies (#[trigger] longer[i]).extension_block_index == i
        % 72 by {
        if i == n && n > 0 {
            assert(list[n - 1].extension_block_index == (n - 1) % 72);
        }
    }
    assert forall|i: int| 0 <= i < longer.len() && i < 72 implies (#[trigger] longer[i]).extension_block_address
        == header by {
        if i == n && n > 0 {
            assert(list[n - 1].extension_block_index == (n - 1) % 72);
            assert(list[n - 1].extension_block_address == header);
        }
    }
    assert forall|i: int| 72 <= i < longer.len() implies (#[trigger] longer[i]).extension_block_address
        != header by {
        if i == n {
            assert(list[n - 1].extension_block_index == (n - 1) % 72);
            if list[n - 1].extension_block_index < 71 {
                assert(n - 1 >= 72);
                assert(list[n - 1].extension_block_address != header);
            }
        }
    }
    assert forall|i: int, j: int|
        0 <= i < longer.len() && 0 <= j < longer.len() && i / 72 == j / 72 implies (
    #[trigger] longer[i]).extension_block_address == (#[trigger] longer[j]).extension_block_address by {
        if n > 0 {
            assert(list[n - 1].extension_block_index == (n - 1) % 72);
            if i == n && j < n {
                assert(list[j].extension_block_address == list[n - 1].extension_block_address);
            }
            if j == n && i < n {
                assert(list[i].extension_block_address == list[n - 1].extension_block_address);
            }
        }
    }
    assert forall|i: int, j: int|
        0 <= i < longer.len() && 0 <= j < longer.len() && i / 72 != j / 72 implies (
    #[trigger] longer[i]).extension_block_address != (#[trigger] longer[j]).extension_block_address by {
        if n > 0 {
            assert(list[n - 1].extension_block_index == (n - 1) % 72);
            if i == n && j < n {
                if list[n - 1].extension_block_index < 71 {
                    assert(list[j].extension_block_address != list[n - 1].extension_block_address);
                }
            }
            if j == n && i < n {
                if list[n - 1].extension_block_index < 71 {
                    assert(list[i].extension_block_address != list[n - 1].extension_block_address);
                }
            }
        }
    }
    assert forall|i: int, j: int| 0 <= i < longer.len() && 0 <= j < longer.len() && i != j implies (
    #[trigger] longer[i]).data_block_address != (#[trigger] longer[j]).data_block_address by {
        if i < n && j < n {
            assert(list[i].data_block_address != list[j].data_block_address);
        }
    }
    assert forall|i: int, j: int| 0 <= i < longer.len() && 0 <= j < longer.len() implies (
    #[trigger] longer[i]).data_block_address != (#[trigger] longer[j]).extension_block_address by {
        if i < n && j < n {
            assert(list[i].data_block_address != list[j].extension_block_address);
        }
        if j == n && i < n && n > 0 {
            if list[n - 1].extension_block_index < 71 {
                assert(list[i].data_block_address != list[n - 1].extension_block_address);
            }
        }
    }
    assert forall|i: int| 0 <= i < longer.len() implies (#[trigger] longer[i]).data_block_address != header by {
        if i < n {
            assert(list[i].data_block_address != header);
        }
    }
}

/// A list of data blocks stays well laid out when its last data block is
/// taken away.
pub proof fn lemma_list_wf_pop(header: usize, list: Seq<FileDataBlockListEntry>)
    requires
        spec_list_wf(header, list),
        list.len() > 0,
    ensures
        spec_list_wf(header, list.drop_last()),
{
    let shorter = list.drop_last();
    assert forall|i: int| 0 <= i < shorter.len() implies shorter[i] == list[i] by {}
    assert forall|i: int| 0 <= i < shorter.len() implies (#[trigger] shorter[i]).extension_block_index == i
        % 72 by {
        assert(list[i].extension_block_index == i % 72);
    }
    assert forall|i: int| 0 <= i < shorter.len() && i < 72 implies (
    #[trigger] shorter[i]).extension_block_address == header by {
        assert(list[i].extension_block_address == header);
    }
    assert forall|i: int| 72 <= i < shorter.len() implies (#[trigger] shorter[i]).extension_block_address
        != header by {
        assert(list[i].extension_block_address != header);
    }
    assert forall|i: int, j: int|
        0 <= i < shorter.len() && 0 <= j < shorter.len() && i / 72 == j / 72 implies (
    #[trigger] shorter[i]).extension_block_address == (#[trigger] shorter[j]).extension_block_address by {
        assert(list[i].extension_block_address == list[j].extension_block_address);
    }
    assert forall|i: int, j: int|
        0 <= i < shorter.len() && 0 <= j < shorter.len() && i / 72 != j / 72 implies (
    #[trigger] shorter[i]).extension_block_address != (#[trigger] shorter[j]).extension_block_address by {
        assert(list[i].extension_block_address != list[j].extension_block_address);
    }
    assert forall|i: int, j: int| 0 <= i < shorter.len() && 0 <= j < shorter.len() && i != j implies (
    #[trigger] shorter[i]).data_block_address != (#[trigger] shorter[j]).data_block_address by {
        assert(list[i].data_block_address != list[j].data_block_address);
    }
    assert forall|i: int, j: int| 0 <= i < shorter.len() && 0 <= j < shorter.len() implies (
    #[trigger] shorter[i]).data_block_address != (#[trigger] shorter[j]).extension_block_address by {
        assert(list[i].data_block_address != list[j].extension_block_address);
    }
    assert forall|i: int| 0 <= i < shorter.len() implies (#[trigger] shorter[i]).data_block_address
        != header by {
        assert(list[i].data_block_address != header);
    }
}

/// The payloads of the data blocks of a file are as they were when none of
/// the data blocks was touched.
pub proof fn lemma_untouched_payloads(
    before: Seq<u8>,
    after: Seq<u8>,
    touched: Set<int>,
    list: Seq<FileDataBlockListEntry>,
    block_data_offset: usize,
)
    requires
        spec_unchanged_outside(before, after, touched),
        forall|i: int| 0 <= i < list.len() ==> !touched.contains((#[trigger] list[i]).data_block_address as int),
        forall|i: int| 0 <= i < list.len() ==> (#[trigger] list[i]).data_block_address * 512 + 512 <= before.len(),
    ensures
        spec_same_payloads(before, after, list, block_data_offset),
{
    assert forall|i: int, offset: int|
        0 <= i < list.len() && block_data_offset <= offset < 512 implies #[trigger] spec_block_byte(
        after,
        list[i].data_block_address,
        offset,
    ) == spec_block_byte(before, list[i].data_block_address, offset) by {
        let data = list[i].data_block_address;
        assert((data * 512 + offset) / 512 == data);
        assert(!touched.contains(data as int));
    }
}

/// A file with more data blocks takes more blocks.
pub proof fn lemma_block_usage_monotonic(fewer: int, more: int)
    requires
        0 <= fewer <= more,
    ensures
        crate::fs::file::spec_block_usage(fewer) <= crate::fs::file::spec_block_usage(more),
        crate::fs::file::spec_block_usage(fewer) >= fewer,
        crate::fs::file::spec_block_usage(0) == 0,
{
}

/// The content of a file does not depend on data blocks that lie beyond
/// its size.
pub proof fn lemma_content_of_prefix(
    image: Seq<u8>,
    list: Seq<FileDataBlockListEntry>,
    longer: Seq<FileDataBlockListEntry>,
    block_data_offset: usize,
    block_data_size: usize,
    size: usize,
)
    requires
        block_data_size > 0,
        size <= list.len() * block_data_size,
        list.len() <= longer.len(),
        forall|i: int| 0 <= i < list.len() ==> longer[i] == list[i],
    ensures
        spec_content(image, longer, block_data_offset, block_data_size, size) == spec_content(
            image,
            list,
            block_data_offset,
            block_data_size,
            size,
        ),
{
    let a = spec_content(image, longer, block_data_offset, block_data_size, size);
    let b = spec_content(image, list, block_data_offset, block_data_size, size);
    assert forall|p: int| 0 <= p < size implies a[p] == b[p] by {
        let i = p / (block_data_size as int);
        assert(0 <= i < list.len()) by (nonlinear_arith)
            requires
                0 <= p < size,
                size <= list.len() * block_data_size,
                block_data_size > 0,
                i == p / (block_data_size as int),
        ;
    }
    assert(a =~= b);
}

} // verus!
