use vstd::prelude::*;

use crate::fs::amiga_dos::spec_pages_valid;
use crate::fs::amiga_dos_options::FilesystemType;
use crate::fs::bitmap::{spec_bitmap_update, spec_block_free, spec_lowest_free, spec_page_of, spec_tracked};
use crate::fs::block::spec_block_count;
use crate::fs::file::{spec_list_owned, spec_list_wf, spec_owned, FileDataBlockListEntry};
use crate::fs::file_set_len::{
    spec_clear_link, spec_pop_data_block, spec_pop_release, spec_unset_extension_block_data_block,
};
use crate::fs::file_write::{
    spec_chain_extension_block, spec_link_block, spec_link_data_block, spec_push_data_block,
};
use crate::fs::frame::{lemma_unchanged_outside_trans, spec_unchanged_outside};

verus! {

/// What a change of a file may touch: the bitmap blocks, and the blocks of
/// the file, which are its header block, its data blocks and its list
/// blocks.
#[verifier::opaque]
pub open spec fn spec_file_touch(pages: Seq<usize>, header: usize, list: Seq<FileDataBlockListEntry>) -> Set<
    int,
> {
    Set::new(
        |a: int|
            a == header || (exists|k: int| 0 <= k < pages.len() && #[trigger] pages[k] == a) || (exists|i: int|
                0 <= i < list.len() && ((#[trigger] list[i]).data_block_address == a
                    || list[i].extension_block_address == a)),
    )
}

/// What was left alone outside some blocks was left alone outside more
/// blocks.
pub proof fn lemma_unchanged_outside_more(before: Seq<u8>, after: Seq<u8>, touched: Set<int>, more: Set<int>)
    requires
        spec_unchanged_outside(before, after, touched),
        forall|a: int| touched.contains(a) ==> more.contains(a),
    ensures
        spec_unchanged_outside(before, after, more),
{
}

/// What a file may touch, a file that starts with its data blocks may
/// touch.
pub proof fn lemma_file_touch_of_prefix(
    pages: Seq<usize>,
    header: usize,
    list: Seq<FileDataBlockListEntry>,
    longer: Seq<FileDataBlockListEntry>,
)
    requires
        list.len() <= longer.len(),
        forall|i: int| 0 <= i < list.len() ==> longer[i] == list[i],
    ensures
        forall|a: int|
            spec_file_touch(pages, header, list).contains(a) ==> spec_file_touch(pages, header, longer).contains(
                a,
            ),
{
    reveal(spec_file_touch);
    assert forall|a: int| spec_file_touch(pages, header, list).contains(a) implies spec_file_touch(
        pages,
        header,
        longer,
    ).contains(a) by {
        if a != header && !(exists|k: int| 0 <= k < pages.len() && #[trigger] pages[k] == a) {
            let i = choose|i: int|
                0 <= i < list.len() && ((#[trigger] list[i]).data_block_address == a
                    || list[i].extension_block_address == a);
            assert(longer[i] == list[i]);
        }
    }
}

/// A step on a file that has only grown leaves alone what the steps before
/// it left alone.
pub proof fn lemma_file_touch_step(
    first: Seq<u8>,
    second: Seq<u8>,
    third: Seq<u8>,
    pages: Seq<usize>,
    header: usize,
    list: Seq<FileDataBlockListEntry>,
    longer: Seq<FileDataBlockListEntry>,
)
    requires
        spec_unchanged_outside(first, second, spec_file_touch(pages, header, list)),
        spec_unchanged_outside(second, third, spec_file_touch(pages, header, longer)),
        list.len() <= longer.len(),
        forall|i: int| 0 <= i < list.len() ==> longer[i] == list[i],
    ensures
        spec_unchanged_outside(first, third, spec_file_touch(pages, header, longer)),
{
    lemma_file_touch_of_prefix(pages, header, list, longer);
    lemma_unchanged_outside_trans(
        first,
        second,
        third,
        spec_file_touch(pages, header, list),
        spec_file_touch(pages, header, longer),
        spec_file_touch(pages, header, longer),
    );
}

/// A step on a file that has only shrunk leaves alone what the steps
/// before it left alone.
pub proof fn lemma_file_touch_step_back(
    first: Seq<u8>,
    second: Seq<u8>,
    third: Seq<u8>,
    pages: Seq<usize>,
    header: usize,
    list: Seq<FileDataBlockListEntry>,
    longer: Seq<FileDataBlockListEntry>,
)
    requires
        spec_unchanged_outside(first, second, spec_file_touch(pages, header, longer)),
        spec_unchanged_outside(second, third, spec_file_touch(pages, header, list)),
        list.len() <= longer.len(),
        forall|i: int| 0 <= i < list.len() ==> longer[i] == list[i],
    ensures
        spec_unchanged_outside(first, third, spec_file_touch(pages, header, longer)),
{
    lemma_file_touch_of_prefix(pages, header, list, longer);
    lemma_unchanged_outside_trans(
        first,
        second,
        third,
        spec_file_touch(pages, header, longer),
        spec_file_touch(pages, header, list),
        spec_file_touch(pages, header, longer),
    );
}

/// A change of one block of a file, after changes that the file may make,
/// is a change that the file may make.
pub proof fn lemma_file_touch_block(
    first: Seq<u8>,
    second: Seq<u8>,
    third: Seq<u8>,
    pages: Seq<usize>,
    header: usize,
    list: Seq<FileDataBlockListEntry>,
    block: usize,
)
    requires
        spec_unchanged_outside(first, second, spec_file_touch(pages, header, list)),
        spec_unchanged_outside(second, third, set![block as int]),
        spec_file_touch(pages, header, list).contains(block as int),
    ensures
        spec_unchanged_outside(first, third, spec_file_touch(pages, header, list)),
{
    let touch = spec_file_touch(pages, header, list);
    lemma_unchanged_outside_trans(first, second, third, touch, set![block as int], touch);
}

/// A change of the header block of a file, after changes that the file
/// may make, is a change that the file may make.
pub proof fn lemma_file_touch_header(
    first: Seq<u8>,
    second: Seq<u8>,
    third: Seq<u8>,
    pages: Seq<usize>,
    header: usize,
    list: Seq<FileDataBlockListEntry>,
)
    requires
        spec_unchanged_outside(first, second, spec_file_touch(pages, header, list)),
        spec_unchanged_outside(second, third, set![header as int]),
    ensures
        spec_unchanged_outside(first, third, spec_file_touch(pages, header, list)),
{
    reveal(spec_file_touch);
    lemma_file_touch_block(first, second, third, pages, header, list, header);
}

/// What a file may touch, the file may touch before or after it has
/// changed.
pub proof fn lemma_file_touch_either(
    before: Seq<u8>,
    after: Seq<u8>,
    pages: Seq<usize>,
    header: usize,
    list: Seq<FileDataBlockListEntry>,
    other: Seq<FileDataBlockListEntry>,
)
    requires
        spec_unchanged_outside(before, after, spec_file_touch(pages, header, list)),
    ensures
        spec_unchanged_outside(
            before,
            after,
            spec_file_touch(pages, header, list) + spec_file_touch(pages, header, other),
        ),
        spec_unchanged_outside(
            before,
            after,
            spec_file_touch(pages, header, other) + spec_file_touch(pages, header, list),
        ),
{
}

/// No change is a change that a file may make.
pub proof fn lemma_file_touch_refl(image: Seq<u8>, pages: Seq<usize>, header: usize, list: Seq<FileDataBlockListEntry>)
    ensures
        spec_unchanged_outside(image, image, spec_file_touch(pages, header, list)),
{
}

/// Marking a block touches a bitmap block, which every file may touch.
pub proof fn lemma_bitmap_update_touch(
    image: Seq<u8>,
    pages: Seq<usize>,
    address: int,
    free: bool,
    header: usize,
    list: Seq<FileDataBlockListEntry>,
)
    requires
        image.len() % 512 == 0,
        spec_pages_valid(pages, spec_block_count(image)),
        spec_tracked(image, pages, address),
    ensures
        spec_unchanged_outside(
            image,
            spec_bitmap_update(image, pages, address, free),
            spec_file_touch(pages, header, list),
        ),
{
    reveal(spec_file_touch);
    let after = spec_bitmap_update(image, pages, address, free);
    let page = spec_page_of(pages, address);
    let touch = spec_file_touch(pages, header, list);
    crate::fs::bitmap::lemma_bitmap_update_checksum(image, pages, address, free);
    assert(pages[(address - 2) / 4064] == page);
    assert(touch.contains(page));
    assert forall|i: int| 0 <= i < image.len() && !touch.contains(i / 512) implies #[trigger] after[i]
        == image[i] by {
        assert(!(page * 512 <= i < page * 512 + 512));
    }
}

/// A data block of a file, and the header or list block that holds it, are
/// blocks that the file may touch.
pub proof fn lemma_file_touch_contains(
    pages: Seq<usize>,
    header: usize,
    list: Seq<FileDataBlockListEntry>,
    i: int,
)
    requires
        0 <= i < list.len(),
    ensures
        spec_file_touch(pages, header, list).contains(list[i].data_block_address as int),
        spec_file_touch(pages, header, list).contains(list[i].extension_block_address as int),
        spec_file_touch(pages, header, list).contains(header as int),
{
    reveal(spec_file_touch);
}

/// Giving a file one more data block touches the bitmap blocks and the
/// blocks of the file, the fresh ones among them, and nothing else.
#[verifier::spinoff_prover]
#[verifier::rlimit(100)]
pub proof fn lemma_push_data_block_frame(
    image: Seq<u8>,
    pages: Seq<usize>,
    header: usize,
    list: Seq<FileDataBlockListEntry>,
    filesystem_type: FilesystemType,
)
    requires
        image.len() == 1760 * 512 || image.len() == 3520 * 512,
        spec_pages_valid(pages, spec_block_count(image)),
        spec_list_wf(header, list),
        spec_list_owned(image, pages, header, list),
    ensures
        ({
            let (after, res) = spec_push_data_block(image, pages, header, list, filesystem_type);
            match res {
                Ok(entry) => spec_unchanged_outside(image, after, spec_file_touch(pages, header, list.push(entry))),
                Err(_) => spec_unchanged_outside(image, after, spec_file_touch(pages, header, list)),
            }
        }),
{
    crate::fs::bitmap::lemma_lowest_free(image, pages);
    if list.len() > 0 {
        assert(spec_owned(image, pages, list[list.len() - 1].data_block_address));
        assert(spec_owned(image, pages, list[list.len() - 1].extension_block_address));
        assert(list[list.len() - 1].extension_block_index == (list.len() - 1) % 72);
    }
    if list.len() >= spec_block_count(image) {
    } else if list.len() == 0 || list.last().extension_block_index < 71 {
        match spec_lowest_free(image, pages) {
            None => {},
            Some(data) => {
                let entry = FileDataBlockListEntry {
                    data_block_address: data,
                    extension_block_address: if list.len() == 0 {
                        header
                    } else {
                        list.last().extension_block_address
                    },
                    extension_block_index: if list.len() == 0 {
                        0
                    } else {
                        (list.last().extension_block_index + 1) as usize
                    },
                };
                let longer = list.push(entry);
                let touch = spec_file_touch(pages, header, longer);
                let taken = spec_bitmap_update(image, pages, data as int, false);
                lemma_bitmap_update_touch(image, pages, data as int, false, header, longer);
                crate::fs::file_lemmas::lemma_block_taken(image, pages, header, list, 0, data);
                crate::fs::file_write::lemma_link_data_block(taken, header, list, entry, filesystem_type);
                let after = spec_link_data_block(taken, header, list, entry, filesystem_type);
                assert(longer[list.len() as int] == entry);
                lemma_file_touch_contains(pages, header, longer, list.len() as int);
                if list.len() > 0 {
                    assert(longer[list.len() - 1] == list[list.len() - 1]);
                    lemma_file_touch_contains(pages, header, longer, list.len() - 1);
                }
                lemma_unchanged_outside_more(
                    taken,
                    after,
                    set![
                        entry.data_block_address as int,
                        entry.extension_block_address as int,
                        spec_link_block(header, list) as int,
                    ],
                    touch,
                );
                lemma_unchanged_outside_trans(image, taken, after, touch, touch, touch);
            },
        }
    } else {
        match spec_lowest_free(image, pages) {
            None => {},
            Some(extension) => {
                let taken = spec_bitmap_update(image, pages, extension as int, false);
                crate::fs::file_lemmas::lemma_block_taken(image, pages, header, list, 0, extension);
                crate::fs::bitmap::lemma_lowest_free(taken, pages);
                match spec_lowest_free(taken, pages) {
                    None => {
                        let touch = spec_file_touch(pages, header, list);
                        lemma_bitmap_update_touch(image, pages, extension as int, false, header, list);
                        lemma_bitmap_update_touch(taken, pages, extension as int, true, header, list);
                        lemma_unchanged_outside_trans(
                            image,
                            taken,
                            spec_bitmap_update(taken, pages, extension as int, true),
                            touch,
                            touch,
                            touch,
                        );
                    },
                    Some(data) => {
                        let entry = FileDataBlockListEntry {
                            data_block_address: data,
                            extension_block_address: extension,
                            extension_block_index: 0,
                        };
                        let longer = list.push(entry);
                        let touch = spec_file_touch(pages, header, longer);
                        let both = spec_bitmap_update(taken, pages, data as int, false);
                        lemma_bitmap_update_touch(image, pages, extension as int, false, header, longer);
                        lemma_bitmap_update_touch(taken, pages, data as int, false, header, longer);
                        lemma_unchanged_outside_trans(image, taken, both, touch, touch, touch);
                        crate::fs::file_lemmas::lemma_block_taken(taken, pages, header, list, 0, data);
                        let last = list.last().extension_block_address;
                        let chained = spec_chain_extension_block(both, extension, header, last);
                        crate::fs::file_write::lemma_chain_extension_block(both, extension, header, last);
                        assert(longer[list.len() as int] == entry);
                        lemma_file_touch_contains(pages, header, longer, list.len() as int);
                        assert(longer[list.len() - 1] == list[list.len() - 1]);
                        lemma_file_touch_contains(pages, header, longer, list.len() - 1);
                        lemma_unchanged_outside_more(both, chained, set![extension as int, last as int], touch);
                        lemma_unchanged_outside_trans(image, both, chained, touch, touch, touch);
                        crate::fs::file_write::lemma_link_data_block(chained, header, list, entry, filesystem_type);
                        let after = spec_link_data_block(chained, header, list, entry, filesystem_type);
                        lemma_unchanged_outside_more(
                            chained,
                            after,
                            set![
                                entry.data_block_address as int,
                                entry.extension_block_address as int,
                                spec_link_block(header, list) as int,
                            ],
                            touch,
                        );
                        lemma_unchanged_outside_trans(image, chained, after, touch, touch, touch);
                    },
                }
            },
        }
    }
}

/// Taking the last data block from a file touches the bitmap blocks and
/// the blocks of the file, and nothing else.
#[verifier::spinoff_prover]
#[verifier::rlimit(100)]
pub proof fn lemma_pop_data_block_frame(
    image: Seq<u8>,
    pages: Seq<usize>,
    header: usize,
    list: Seq<FileDataBlockListEntry>,
    filesystem_type: FilesystemType,
)
    requires
        image.len() == 1760 * 512 || image.len() == 3520 * 512,
        spec_pages_valid(pages, spec_block_count(image)),
        spec_list_wf(header, list),
        spec_list_owned(image, pages, header, list),
        list.len() > 0,
    ensures
        spec_unchanged_outside(
            image,
            spec_pop_data_block(image, pages, header, list, filesystem_type),
            spec_file_touch(pages, header, list),
        ),
{
    let touch = spec_file_touch(pages, header, list);
    let n = list.len() as int;
    let last = list[n - 1];
    assert(spec_owned(image, pages, last.data_block_address));
    assert(spec_owned(image, pages, last.extension_block_address));
    assert(last.extension_block_index == (n - 1) % 72);
    lemma_file_touch_contains(pages, header, list, n - 1);
    let freed = spec_bitmap_update(image, pages, last.data_block_address as int, true);
    lemma_bitmap_update_touch(image, pages, last.data_block_address as int, true, header, list);
    crate::fs::bitmap::lemma_bitmap_update_checksum(image, pages, last.data_block_address as int, true);
    let unset = spec_unset_extension_block_data_block(freed, last);
    crate::fs::file_set_len::lemma_unset_frame(freed, last);
    lemma_unchanged_outside_more(freed, unset, set![last.extension_block_address as int], touch);
    lemma_unchanged_outside_trans(image, freed, unset, touch, touch, touch);
    let released = spec_pop_release(image, pages, list);
    if last.extension_block_index == 0 && n > 1 {
        let before = list[n - 2].extension_block_address;
        assert(spec_owned(image, pages, before));
        lemma_file_touch_contains(pages, header, list, n - 2);
        let given = spec_bitmap_update(unset, pages, last.extension_block_address as int, true);
        lemma_bitmap_update_touch(unset, pages, last.extension_block_address as int, true, header, list);
        crate::fs::bitmap::lemma_bitmap_update_checksum(unset, pages, last.extension_block_address as int, true);
        lemma_unchanged_outside_trans(image, unset, given, touch, touch, touch);
        crate::fs::file_set_len::lemma_clear_link_frame(given, before, 504);
        lemma_unchanged_outside_more(given, released, set![before as int], touch);
        lemma_unchanged_outside_trans(image, given, released, touch, touch, touch);
    }
    match filesystem_type {
        FilesystemType::FFS => {},
        FilesystemType::OFS => {
            let link = if n > 1 {
                list[n - 2].data_block_address
            } else {
                header
            };
            if n > 1 {
                assert(spec_owned(image, pages, list[n - 2].data_block_address));
                lemma_file_touch_contains(pages, header, list, n - 2);
            }
            assert(spec_owned(image, pages, header));
            crate::fs::file_set_len::lemma_clear_link_frame(released, link, 16);
            let after = spec_clear_link(released, link, 16);
            lemma_unchanged_outside_more(released, after, set![link as int], touch);
            lemma_unchanged_outside_trans(image, released, after, touch, touch, touch);
        },
    }
}

/// What a change of a file may touch, as the image before the change
/// knows it: the bitmap blocks, the blocks of the file, and the blocks
/// that the bitmap marks as free, of which the file may take some.
pub open spec fn spec_may_touch(
    image: Seq<u8>,
    pages: Seq<usize>,
    header: usize,
    list: Seq<FileDataBlockListEntry>,
) -> Set<int> {
    Set::new(|a: int| spec_file_touch(pages, header, list).contains(a) || spec_block_free(image, pages, a))
}

/// The blocks of a file that has grown are blocks that it had or blocks
/// that were free.
pub proof fn lemma_touch_within(
    before: Seq<u8>,
    after: Seq<u8>,
    pages: Seq<usize>,
    header: usize,
    list: Seq<FileDataBlockListEntry>,
    longer: Seq<FileDataBlockListEntry>,
)
    requires
        spec_list_wf(header, longer),
        list.len() <= longer.len(),
        forall|i: int| 0 <= i < list.len() ==> longer[i] == list[i],
        crate::fs::file_marks::spec_marks_grown(before, after, pages, longer, list.len() as int),
    ensures
        forall|a: int|
            spec_file_touch(pages, header, longer).contains(a) ==> spec_may_touch(before, pages, header, list).contains(
                a,
            ),
{
    reveal(spec_file_touch);
    reveal(crate::fs::file_marks::spec_marks_grown);
    let n = list.len() as int;
    let m = longer.len() as int;
    assert forall|a: int| spec_file_touch(pages, header, longer).contains(a) implies spec_may_touch(
        before,
        pages,
        header,
        list,
    ).contains(a) by {
        if a != header && !(exists|k: int| 0 <= k < pages.len() && #[trigger] pages[k] == a) {
            let i = choose|i: int|
                0 <= i < longer.len() && ((#[trigger] longer[i]).data_block_address == a
                    || longer[i].extension_block_address == a);
            if longer[i].data_block_address == a {
                if i < n {
                    assert(list[i] == longer[i]);
                } else {
                    assert(crate::fs::file_marks::spec_brings(longer, i, a));
                    assert(crate::fs::file_marks::spec_blocks_between(longer, n, m, a));
                }
            } else {
                let g = (i / 72) * 72;
                assert(g / 72 == i / 72 && g % 72 == 0 && 0 <= g <= i);
                assert(longer[g].extension_block_address == longer[i].extension_block_address);
                assert(longer[g].extension_block_index == g % 72);
                if g == 0 {
                    assert(longer[g].extension_block_address == header);
                } else if g < n {
                    assert(list[g] == longer[g]);
                } else {
                    assert(crate::fs::file_marks::spec_brings(longer, g, a));
                    assert(crate::fs::file_marks::spec_blocks_between(longer, n, m, a));
                }
            }
        }
    }
}

/// The blocks that a file of the volume may touch are no boot blocks.
pub proof fn lemma_touch_plain(image: Seq<u8>, pages: Seq<usize>, header: usize, list: Seq<FileDataBlockListEntry>)
    requires
        spec_pages_valid(pages, spec_block_count(image)),
        spec_list_owned(image, pages, header, list),
    ensures
        !spec_file_touch(pages, header, list).contains(0),
        !spec_file_touch(pages, header, list).contains(1),
{
    reveal(spec_file_touch);
    assert(spec_owned(image, pages, header));
    assert forall|i: int| 0 <= i < list.len() implies (#[trigger] list[i]).data_block_address >= 2
        && list[i].extension_block_address >= 2 by {
        assert(spec_owned(image, pages, list[i].data_block_address));
        assert(spec_owned(image, pages, list[i].extension_block_address));
    }
}

/// Whether changes of the file whose header block is `header` have kept
/// what they must keep, as the image `start` before them knows it: they
/// have changed no block but bitmap blocks, the blocks `list` that the
/// file had, and blocks that were free; the header block holds its two
/// types and its name; and no block is free that was neither free nor a
/// block of the file.
#[verifier::opaque]
pub open spec fn spec_file_kept(
    start: Seq<u8>,
    after: Seq<u8>,
    pages: Seq<usize>,
    header: usize,
    list: Seq<FileDataBlockListEntry>,
) -> bool {
    &&& spec_unchanged_outside(start, after, spec_may_touch(start, pages, header, list))
    &&& crate::fs::file_mirror::spec_identity_kept(start, after, header)
    &&& forall|a: int|
        #[trigger] spec_block_free(after, pages, a) ==> spec_may_touch(start, pages, header, list).contains(a)
}

/// No change keeps what must be kept.
pub proof fn lemma_file_kept_refl(image: Seq<u8>, pages: Seq<usize>, header: usize, list: Seq<FileDataBlockListEntry>)
    ensures
        spec_file_kept(image, image, pages, header, list),
{
    reveal(spec_file_kept);
    crate::fs::file_mirror::lemma_identity_kept_refl(image, header);
}

/// A file that has shrunk has kept what must be kept.
pub proof fn lemma_file_kept_shrunk(
    before: Seq<u8>,
    after: Seq<u8>,
    pages: Seq<usize>,
    header: usize,
    list: Seq<FileDataBlockListEntry>,
    shorter: Seq<FileDataBlockListEntry>,
)
    requires
        spec_unchanged_outside(
            before,
            after,
            spec_file_touch(pages, header, list) + spec_file_touch(pages, header, shorter),
        ),
        crate::fs::file_mirror::spec_identity_kept(before, after, header),
        crate::fs::file_marks::spec_marks_shrunk(before, after, pages, list, shorter.len() as int),
        shorter.len() <= list.len(),
        forall|i: int| 0 <= i < shorter.len() ==> shorter[i] == list[i],
    ensures
        spec_file_kept(before, after, pages, header, list),
{
    reveal(spec_file_kept);
    reveal(crate::fs::file_marks::spec_marks_shrunk);
    let may = spec_may_touch(before, pages, header, list);
    lemma_file_touch_of_prefix(pages, header, shorter, list);
    lemma_unchanged_outside_more(
        before,
        after,
        spec_file_touch(pages, header, list) + spec_file_touch(pages, header, shorter),
        may,
    );
    assert forall|a: int| #[trigger] spec_block_free(after, pages, a) implies may.contains(a) by {
        if !spec_block_free(before, pages, a) {
            assert(crate::fs::file_marks::spec_blocks_between(list, shorter.len() as int, list.len() as int, a));
            let i = choose|i: int|
                shorter.len() <= i < list.len() && #[trigger] crate::fs::file_marks::spec_brings(list, i, a);
            lemma_file_touch_contains(pages, header, list, i);
        }
    }
}

/// A file that was empty and has grown, after changes that kept what must
/// be kept, has kept it.
pub proof fn lemma_file_kept_grown(
    start: Seq<u8>,
    before: Seq<u8>,
    after: Seq<u8>,
    pages: Seq<usize>,
    header: usize,
    list: Seq<FileDataBlockListEntry>,
    longer: Seq<FileDataBlockListEntry>,
)
    requires
        spec_file_kept(start, before, pages, header, list),
        spec_unchanged_outside(before, after, spec_file_touch(pages, header, longer)),
        crate::fs::file_mirror::spec_identity_kept(before, after, header),
        crate::fs::file_marks::spec_marks_grown(before, after, pages, longer, 0),
        spec_list_wf(header, longer),
    ensures
        spec_file_kept(start, after, pages, header, list),
{
    reveal(spec_file_kept);
    let may = spec_may_touch(start, pages, header, list);
    let empty = Seq::<FileDataBlockListEntry>::empty();
    lemma_touch_within(before, after, pages, header, empty, longer);
    assert forall|a: int| spec_file_touch(pages, header, longer).contains(a) implies may.contains(a) by {
        assert(spec_may_touch(before, pages, header, empty).contains(a));
        if spec_file_touch(pages, header, empty).contains(a) {
            lemma_file_touch_of_prefix(pages, header, empty, list);
        } else {
            assert(spec_block_free(before, pages, a));
        }
    }
    lemma_unchanged_outside_trans(start, before, after, may, spec_file_touch(pages, header, longer), may);
    crate::fs::file_mirror::lemma_identity_kept_trans(start, before, after, header);
    assert forall|a: int| #[trigger] spec_block_free(after, pages, a) implies may.contains(a) by {
        reveal(crate::fs::file_marks::spec_marks_grown);
        assert(spec_block_free(before, pages, a));
    }
}

/// A path that led to a file leads to it after changes of the file that
/// kept what must be kept, when the way to the file passes through no
/// block that the changes may touch.
pub proof fn lemma_file_kept_path(
    start: Seq<u8>,
    after: Seq<u8>,
    pages: Seq<usize>,
    path: Seq<u8>,
    header: usize,
    list: Seq<FileDataBlockListEntry>,
)
    requires
        after.len() == 1760 * 512 || after.len() == 3520 * 512,
        spec_pages_valid(pages, spec_block_count(after)),
        spec_list_owned(start, pages, header, list),
        spec_file_kept(start, after, pages, header, list),
        crate::fs::lookup::spec_lookup(start, path) == Ok::<usize, crate::errors::Error>(header),
        crate::fs::lookup_frame::spec_lookup_clear(
            start,
            crate::fs::boot_block::spec_root_block_address(start),
            crate::fs::path::spec_split(path),
            spec_may_touch(start, pages, header, list),
        ),
    ensures
        crate::fs::lookup::spec_lookup(after, path) == Ok::<usize, crate::errors::Error>(header),
{
    reveal(spec_file_kept);
    reveal(crate::fs::file_mirror::spec_identity_kept);
    lemma_touch_plain(start, pages, header, list);
    assert(spec_owned(start, pages, header));
    crate::fs::file_mirror::lemma_identity_kept_reads(start, after, header);
    crate::fs::lookup_frame::lemma_lookup_kept(start, after, path, spec_may_touch(start, pages, header, list));
}

} // verus!
