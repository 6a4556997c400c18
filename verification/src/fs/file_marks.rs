use vstd::prelude::*;

use crate::fs::amiga_dos::spec_pages_valid;
use crate::fs::amiga_dos_options::FilesystemType;
use crate::fs::bitmap::{spec_bitmap_update, spec_block_free, spec_lowest_free};
use crate::fs::block::spec_block_count;
use crate::fs::file::{spec_list_owned, spec_list_wf, spec_owned, FileDataBlockListEntry};
use crate::fs::file_set_len::{spec_clear_link, spec_pop_data_block, spec_pop_release};
use crate::fs::file_write::{
    spec_chain_extension_block, spec_link_block, spec_link_data_block, spec_push_data_block,
};

verus! {

/// Whether block `address` is one that a file takes with the data block
/// `entry`, which comes after the data blocks `list`: the data block, or
/// the list block that is made to hold it.
pub open spec fn spec_joins(list: Seq<FileDataBlockListEntry>, entry: FileDataBlockListEntry, address: int) -> bool {
    address == entry.data_block_address || (list.len() > 0 && entry.extension_block_index == 0 && address
        == entry.extension_block_address)
}

/// Whether block `address` is one that a file gives back with its last
/// data block: the data block, or the list block that held nothing else.
pub open spec fn spec_leaves(list: Seq<FileDataBlockListEntry>, address: int) -> bool {
    list.len() > 0 && (address == list.last().data_block_address || (list.len() > 1
        && list.last().extension_block_index == 0 && address == list.last().extension_block_address))
}

/// The bitmap follows the file when it grows: giving a file one more data
/// block marks the blocks that join the file as used, which were free, and
/// leaves the mark of every other block as it was. When no block is left
/// for the data block, every mark is as it was.
pub proof fn lemma_push_data_block_marks(
    image: Seq<u8>,
    pages: Seq<usize>,
    header: usize,
    list: Seq<FileDataBlockListEntry>,
    filesystem_type: FilesystemType,
)
    requires
        image.len() == 1760 * 512 || image.len() == 3520 * 512,
        spec_pages_valid(pages, spec_block_count(image)),
        spec_list_wf(header, list),
        spec_list_owned(image, pages, header, list),
    ensures
        ({
            let (after, res) = spec_push_data_block(image, pages, header, list, filesystem_type);
            match res {
                Ok(entry) => forall|address: int|
                    #[trigger] spec_block_free(after, pages, address) == (spec_block_free(image, pages, address)
                        && !spec_joins(list, entry, address)),
                Err(_) => forall|address: int|
                    #[trigger] spec_block_free(after, pages, address) == spec_block_free(image, pages, address),
            }
        }),
        spec_push_data_block(image, pages, header, list, filesystem_type).1 matches Ok(entry) ==> forall|
            address: int,
        |
            spec_joins(list, entry, address) ==> #[trigger] spec_block_free(image, pages, address),
{
    crate::fs::bitmap::lemma_lowest_free(image, pages);
    let n = list.len() as int;
    if n > 0 {
        assert(spec_owned(image, pages, list[n - 1].data_block_address));
        assert(spec_owned(image, pages, list[n - 1].extension_block_address));
        assert(list[n - 1].extension_block_index == (n - 1) % 72);
    }
    assert(spec_owned(image, pages, header));
    if list.len() >= spec_block_count(image) {
    } else if list.len() == 0 || list.last().extension_block_index < 71 {
        match spec_lowest_free(image, pages) {
            None => {},
            Some(data) => {
                let entry = FileDataBlockListEntry {
                    data_block_address: data,
                    extension_block_address: if list.len() == 0 {
                        header
                    } else {
                        list.last().extension_block_address
                    },
                    extension_block_index: if list.len() == 0 {
                        0
                    } else {
                        (list.last().extension_block_index + 1) as usize
                    },
                };
                let taken = spec_bitmap_update(image, pages, data as int, false);
                crate::fs::file_lemmas::lemma_block_taken(image, pages, header, list, 0, data);
                let after = spec_link_data_block(taken, header, list, entry, filesystem_type);
                lemma_linked_marks(taken, pages, header, list, entry, filesystem_type);
                assert forall|address: int| #[trigger] spec_block_free(after, pages, address) == (spec_block_free(
                    image,
                    pages,
                    address,
                ) && !spec_joins(list, entry, address)) by {
                    crate::fs::bitmap::lemma_bitmap_update_marks(image, pages, data as int, false, address);
                    assert(spec_block_free(after, pages, address) == spec_block_free(taken, pages, address));
                }
            },
        }
    } else {
        match spec_lowest_free(image, pages) {
            None => {},
            Some(extension) => {
                let taken = spec_bitmap_update(image, pages, extension as int, false);
                crate::fs::file_lemmas::lemma_block_taken(image, pages, header, list, 0, extension);
                crate::fs::bitmap::lemma_lowest_free(taken, pages);
                match spec_lowest_free(taken, pages) {
                    None => {
                        let back = spec_bitmap_update(taken, pages, extension as int, true);
                        assert forall|address: int| #[trigger] spec_block_free(back, pages, address)
                            == spec_block_free(image, pages, address) by {
                            crate::fs::bitmap::lemma_bitmap_update_marks(
                                image,
                                pages,
                                extension as int,
                                false,
                                address,
                            );
                            crate::fs::bitmap::lemma_bitmap_update_marks(taken, pages, extension as int, true, address);
                        }
                    },
                    Some(data) => {
                        let entry = FileDataBlockListEntry {
                            data_block_address: data,
                            extension_block_address: extension,
                            extension_block_index: 0,
                        };
                        let both = spec_bitmap_update(taken, pages, data as int, false);
                        crate::fs::file_lemmas::lemma_block_taken(taken, pages, header, list, 0, data);
                        assert(spec_owned(taken, pages, extension));
                        assert(spec_owned(both, pages, extension));
                        let last = list.last().extension_block_address;
                        let chained = spec_chain_extension_block(both, extension, header, last);
                        lemma_chained_marks(both, pages, header, list, extension);
                        let after = spec_link_data_block(chained, header, list, entry, filesystem_type);
                        crate::fs::file_write::lemma_chain_extension_block(both, extension, header, last);
                        lemma_linked_marks(chained, pages, header, list, entry, filesystem_type);
                        assert(spec_block_free(taken, pages, data as int));
                        crate::fs::bitmap::lemma_bitmap_update_marks(
                            image,
                            pages,
                            extension as int,
                            false,
                            data as int,
                        );
                        assert forall|address: int| #[trigger] spec_block_free(after, pages, address) == (
                        spec_block_free(image, pages, address) && !spec_joins(list, entry, address)) by {
                            crate::fs::bitmap::lemma_bitmap_update_marks(
                                image,
                                pages,
                                extension as int,
                                false,
                                address,
                            );
                            crate::fs::bitmap::lemma_bitmap_update_marks(taken, pages, data as int, false, address);
                            assert(spec_block_free(chained, pages, address) == spec_block_free(
                                both,
                                pages,
                                address,
                            ));
                            assert(spec_block_free(after, pages, address) == spec_block_free(
                                chained,
                                pages,
                                address,
                            ));
                        }
                    },
                }
            },
        }
    }
}

/// Making a fresh data block part of a file leaves every mark of the
/// bitmap as it was.
proof fn lemma_linked_marks(
    image: Seq<u8>,
    pages: Seq<usize>,
    header: usize,
    list: Seq<FileDataBlockListEntry>,
    entry: FileDataBlockListEntry,
    filesystem_type: FilesystemType,
)
    requires
        image.len() == 1760 * 512 || image.len() == 3520 * 512,
        spec_pages_valid(pages, spec_block_count(image)),
        spec_owned(image, pages, entry.data_block_address),
        spec_owned(image, pages, entry.extension_block_address),
        spec_owned(image, pages, spec_link_block(header, list)),
        entry.extension_block_index < 72,
        entry.data_block_address != entry.extension_block_address,
        entry.data_block_address != spec_link_block(header, list),
    ensures
        forall|address: int|
            #[trigger] spec_block_free(
                spec_link_data_block(image, header, list, entry, filesystem_type),
                pages,
                address,
            ) == spec_block_free(image, pages, address),
{
    let after = spec_link_data_block(image, header, list, entry, filesystem_type);
    crate::fs::file_write::lemma_link_data_block(image, header, list, entry, filesystem_type);
    crate::fs::file_lemmas::lemma_plain_blocks_touched(
        image,
        after,
        set![
            entry.data_block_address as int,
            entry.extension_block_address as int,
            spec_link_block(header, list) as int,
        ],
        pages,
        header,
        Seq::empty(),
    );
}

/// Chaining a fresh list block to the last list block of a file leaves
/// every mark of the bitmap as it was.
proof fn lemma_chained_marks(
    image: Seq<u8>,
    pages: Seq<usize>,
    header: usize,
    list: Seq<FileDataBlockListEntry>,
    extension: usize,
)
    requires
        image.len() == 1760 * 512 || image.len() == 3520 * 512,
        spec_pages_valid(pages, spec_block_count(image)),
        spec_owned(image, pages, extension),
        list.len() > 0,
        spec_owned(image, pages, list.last().extension_block_address),
    ensures
        forall|address: int|
            #[trigger] spec_block_free(
                spec_chain_extension_block(image, extension, header, list.last().extension_block_address),
                pages,
                address,
            ) == spec_block_free(image, pages, address),
        forall|address: usize|
            spec_owned(image, pages, address) ==> spec_owned(
                spec_chain_extension_block(image, extension, header, list.last().extension_block_address),
                pages,
                address,
            ),
{
    let last = list.last().extension_block_address;
    let after = spec_chain_extension_block(image, extension, header, last);
    crate::fs::file_write::lemma_chain_extension_block(image, extension, header, last);
    crate::fs::file_lemmas::lemma_plain_blocks_touched(
        image,
        after,
        set![extension as int, last as int],
        pages,
        header,
        Seq::empty(),
    );
}

/// Clearing a link in a block of a file leaves every mark of the bitmap as
/// it was.
proof fn lemma_cleared_marks(image: Seq<u8>, pages: Seq<usize>, address: usize, offset: int)
    requires
        image.len() == 1760 * 512 || image.len() == 3520 * 512,
        spec_pages_valid(pages, spec_block_count(image)),
        2 <= address < spec_block_count(image),
        forall|k: int| 0 <= k < pages.len() ==> #[trigger] pages[k] != address,
        0 <= offset,
        offset + 4 <= 512,
    ensures
        spec_clear_link(image, address, offset).len() == image.len(),
        forall|block: int|
            #[trigger] spec_block_free(spec_clear_link(image, address, offset), pages, block) == spec_block_free(
                image,
                pages,
                block,
            ),
{
    let after = spec_clear_link(image, address, offset);
    crate::fs::file_set_len::lemma_clear_link_frame(image, address, offset);
    assert(after.len() == image.len()) by {
        reveal(spec_clear_link);
    }
    crate::fs::file_lemmas::lemma_plain_blocks_touched(
        image,
        after,
        set![address as int],
        pages,
        address,
        Seq::empty(),
    );
}

/// The bitmap follows the file when it shrinks: taking the last data block
/// from a file marks the blocks that leave the file as free, and leaves
/// the mark of every other block as it was.
pub proof fn lemma_pop_data_block_marks(
    image: Seq<u8>,
    pages: Seq<usize>,
    header: usize,
    list: Seq<FileDataBlockListEntry>,
    filesystem_type: FilesystemType,
)
    requires
        image.len() == 1760 * 512 || image.len() == 3520 * 512,
        spec_pages_valid(pages, spec_block_count(image)),
        spec_list_wf(header, list),
        spec_list_owned(image, pages, header, list),
        list.len() > 0,
    ensures
        forall|address: int|
            #[trigger] spec_block_free(
                spec_pop_data_block(image, pages, header, list, filesystem_type),
                pages,
                address,
            ) == (spec_block_free(image, pages, address) || spec_leaves(list, address)),
{
    let n = list.len() as int;
    let last = list[n - 1];
    assert(spec_owned(image, pages, last.data_block_address));
    assert(spec_owned(image, pages, last.extension_block_address));
    assert(spec_owned(image, pages, header));
    assert(last.extension_block_index == (n - 1) % 72);
    let freed = spec_bitmap_update(image, pages, last.data_block_address as int, true);
    crate::fs::bitmap::lemma_bitmap_update_checksum(image, pages, last.data_block_address as int, true);
    let unset = crate::fs::file_set_len::spec_unset_extension_block_data_block(freed, last);
    crate::fs::file_set_len::lemma_unset_frame(freed, last);
    assert(unset.len() == image.len()) by {
        reveal(crate::fs::file_set_len::spec_unset_extension_block_data_block);
    }
    crate::fs::file_lemmas::lemma_plain_blocks_touched(
        freed,
        unset,
        set![last.extension_block_address as int],
        pages,
        header,
        Seq::empty(),
    );
    let released = spec_pop_release(image, pages, list);
    if last.extension_block_index == 0 && n > 1 {
        let before = list[n - 2].extension_block_address;
        assert(spec_owned(image, pages, before));
        let given = spec_bitmap_update(unset, pages, last.extension_block_address as int, true);
        crate::fs::bitmap::lemma_bitmap_update_checksum(unset, pages, last.extension_block_address as int, true);
        lemma_cleared_marks(given, pages, before, 504);
        assert forall|address: int| #[trigger] spec_block_free(released, pages, address) == (spec_block_free(
            image,
            pages,
            address,
        ) || spec_leaves(list, address)) by {
            crate::fs::bitmap::lemma_bitmap_update_marks(image, pages, last.data_block_address as int, true, address);
            crate::fs::bitmap::lemma_bitmap_update_marks(
                unset,
                pages,
                last.extension_block_address as int,
                true,
                address,
            );
            assert(spec_block_free(unset, pages, address) == spec_block_free(freed, pages, address));
            assert(spec_block_free(released, pages, address) == spec_block_free(given, pages, address));
        }
    } else {
        assert forall|address: int| #[trigger] spec_block_free(released, pages, address) == (spec_block_free(
            image,
            pages,
            address,
        ) || spec_leaves(list, address)) by {
            crate::fs::bitmap::lemma_bitmap_update_marks(image, pages, last.data_block_address as int, true, address);
            assert(spec_block_free(unset, pages, address) == spec_block_free(freed, pages, address));
        }
    }
    assert(released.len() == image.len());
    match filesystem_type {
        FilesystemType::FFS => {},
        FilesystemType::OFS => {
            let link = if n > 1 {
                list[n - 2].data_block_address
            } else {
                header
            };
            if n > 1 {
                assert(spec_owned(image, pages, list[n - 2].data_block_address));
            }
            lemma_cleared_marks(released, pages, link, 16);
        },
    }
}

/// Whether block `address` is one that data block number `index` of the
/// list brings into a file: the data block, or the list block that was
/// made to hold it.
pub open spec fn spec_brings(list: Seq<FileDataBlockListEntry>, index: int, address: int) -> bool {
    0 <= index < list.len() && (address == list[index].data_block_address || (index > 0
        && list[index].extension_block_index == 0 && address == list[index].extension_block_address))
}

/// Whether block `address` is one that the data blocks `from` to `to` of
/// the list bring into a file.
pub open spec fn spec_blocks_between(list: Seq<FileDataBlockListEntry>, from: int, to: int, address: int) -> bool {
    exists|index: int| from <= index < to && #[trigger] spec_brings(list, index, address)
}

/// Whether the bitmap has followed a file that has grown to the data
/// blocks `list` from its first `from`: the blocks that the data blocks
/// after them brought in were free and are marked as used, and the mark
/// of every other block is as it was.
#[verifier::opaque]
pub open spec fn spec_marks_grown(
    before: Seq<u8>,
    after: Seq<u8>,
    pages: Seq<usize>,
    list: Seq<FileDataBlockListEntry>,
    from: int,
) -> bool {
    &&& forall|address: int|
        #[trigger] spec_block_free(after, pages, address) == (spec_block_free(before, pages, address)
            && !spec_blocks_between(list, from, list.len() as int, address))
    &&& forall|address: int|
        #[trigger] spec_blocks_between(list, from, list.len() as int, address) ==> spec_block_free(
            before,
            pages,
            address,
        )
}

/// Whether the bitmap has followed a file that has shrunk from the data
/// blocks `list` to its first `from`: the blocks that the data blocks
/// after them had brought in are marked as free, and the mark of every
/// other block is as it was.
#[verifier::opaque]
pub open spec fn spec_marks_shrunk(
    before: Seq<u8>,
    after: Seq<u8>,
    pages: Seq<usize>,
    list: Seq<FileDataBlockListEntry>,
    from: int,
) -> bool {
    forall|address: int|
        #[trigger] spec_block_free(after, pages, address) == (spec_block_free(before, pages, address)
            || spec_blocks_between(list, from, list.len() as int, address))
}

/// A file that has not grown has left the bitmap as it was.
pub proof fn lemma_marks_grown_refl(image: Seq<u8>, pages: Seq<usize>, list: Seq<FileDataBlockListEntry>)
    ensures
        spec_marks_grown(image, image, pages, list, list.len() as int),
{
    reveal(spec_marks_grown);
}

/// A file that has not shrunk has left the bitmap as it was.
pub proof fn lemma_marks_shrunk_refl(image: Seq<u8>, pages: Seq<usize>, list: Seq<FileDataBlockListEntry>)
    ensures
        spec_marks_shrunk(image, image, pages, list, list.len() as int),
{
    reveal(spec_marks_shrunk);
}

/// A change that leaves every mark of the bitmap as it was leaves the
/// bitmap following the file.
pub proof fn lemma_marks_kept(
    before: Seq<u8>,
    image: Seq<u8>,
    after: Seq<u8>,
    pages: Seq<usize>,
    list: Seq<FileDataBlockListEntry>,
    from: int,
)
    requires
        forall|address: int|
            #[trigger] spec_block_free(after, pages, address) == spec_block_free(image, pages, address),
    ensures
        spec_marks_grown(before, image, pages, list, from) ==> spec_marks_grown(before, after, pages, list, from),
        spec_marks_shrunk(before, image, pages, list, from) ==> spec_marks_shrunk(before, after, pages, list, from),
{
    reveal(spec_marks_grown);
    reveal(spec_marks_shrunk);
    if spec_marks_grown(before, image, pages, list, from) {
        assert forall|address: int|
            #[trigger] spec_block_free(after, pages, address) == (spec_block_free(before, pages, address)
                && !spec_blocks_between(list, from, list.len() as int, address)) by {
            assert(spec_block_free(after, pages, address) == spec_block_free(image, pages, address));
        }
    }
    if spec_marks_shrunk(before, image, pages, list, from) {
        assert forall|address: int|
            #[trigger] spec_block_free(after, pages, address) == (spec_block_free(before, pages, address)
                || spec_blocks_between(list, from, list.len() as int, address)) by {
            assert(spec_block_free(after, pages, address) == spec_block_free(image, pages, address));
        }
    }
}

/// The bitmap that has followed a file as it grew, and then as it grew
/// more, has followed it all the way.
pub proof fn lemma_marks_grown_trans(
    first: Seq<u8>,
    second: Seq<u8>,
    third: Seq<u8>,
    pages: Seq<usize>,
    list: Seq<FileDataBlockListEntry>,
    longer: Seq<FileDataBlockListEntry>,
    from: int,
)
    requires
        spec_marks_grown(first, second, pages, list, from),
        spec_marks_grown(second, third, pages, longer, list.len() as int),
        0 <= from <= list.len() <= longer.len(),
        forall|i: int| 0 <= i < list.len() ==> longer[i] == list[i],
    ensures
        spec_marks_grown(first, third, pages, longer, from),
{
    reveal(spec_marks_grown);
    let n = list.len() as int;
    let m = longer.len() as int;
    assert forall|address: int| #[trigger]
        spec_blocks_between(longer, from, m, address) implies spec_block_free(first, pages, address) by {
        let i = choose|i: int| from <= i < m && #[trigger] spec_brings(longer, i, address);
        if i < n {
            assert(longer[i] == list[i]);
            assert(spec_brings(list, i, address));
            assert(spec_blocks_between(list, from, n, address));
        } else {
            assert(spec_brings(longer, i, address));
            assert(spec_blocks_between(longer, n, m, address));
            assert(spec_block_free(second, pages, address));
            assert(spec_block_free(second, pages, address) == (spec_block_free(first, pages, address)
                && !spec_blocks_between(list, from, n, address)));
        }
    }
    assert forall|address: int|
        #[trigger] spec_block_free(third, pages, address) == (spec_block_free(first, pages, address)
            && !spec_blocks_between(longer, from, m, address)) by {
        assert(spec_block_free(second, pages, address) == (spec_block_free(first, pages, address)
            && !spec_blocks_between(list, from, n, address)));
        if spec_blocks_between(longer, from, m, address) {
            let i = choose|i: int| from <= i < m && #[trigger] spec_brings(longer, i, address);
            if i < n {
                assert(longer[i] == list[i]);
                assert(spec_brings(list, i, address));
            } else {
                assert(spec_brings(longer, i, address));
                assert(spec_blocks_between(longer, n, m, address));
            }
        }
        if spec_blocks_between(list, from, n, address) {
            let i = choose|i: int| from <= i < n && #[trigger] spec_brings(list, i, address);
            assert(longer[i] == list[i]);
            assert(spec_brings(longer, i, address));
        }
        if spec_blocks_between(longer, n, m, address) {
            let i = choose|i: int| n <= i < m && #[trigger] spec_brings(longer, i, address);
            assert(spec_brings(longer, i, address));
        }
    }
}

/// The bitmap that has followed a file as it shrank, and then as it
/// shrank more, has followed it all the way.
pub proof fn lemma_marks_shrunk_trans(
    first: Seq<u8>,
    second: Seq<u8>,
    third: Seq<u8>,
    pages: Seq<usize>,
    list: Seq<FileDataBlockListEntry>,
    shorter: Seq<FileDataBlockListEntry>,
    from: int,
)
    requires
        spec_marks_shrunk(first, second, pages, list, shorter.len() as int),
        spec_marks_shrunk(second, third, pages, shorter, from),
        0 <= from <= shorter.len() <= list.len(),
        forall|i: int| 0 <= i < shorter.len() ==> shorter[i] == list[i],
    ensures
        spec_marks_shrunk(first, third, pages, list, from),
{
    reveal(spec_marks_shrunk);
    let n = shorter.len() as int;
    let m = list.len() as int;
    assert forall|address: int|
        #[trigger] spec_block_free(third, pages, address) == (spec_block_free(first, pages, address)
            || spec_blocks_between(list, from, m, address)) by {
        assert(spec_block_free(second, pages, address) == (spec_block_free(first, pages, address)
            || spec_blocks_between(list, n, m, address)));
        if spec_blocks_between(list, from, m, address) {
            let i = choose|i: int| from <= i < m && #[trigger] spec_brings(list, i, address);
            if i < n {
                assert(shorter[i] == list[i]);
                assert(spec_brings(shorter, i, address));
            } else {
                assert(spec_brings(list, i, address));
                assert(spec_blocks_between(list, n, m, address));
            }
        }
        if spec_blocks_between(shorter, from, n, address) {
            let i = choose|i: int| from <= i < n && #[trigger] spec_brings(shorter, i, address);
            assert(shorter[i] == list[i]);
            assert(spec_brings(list, i, address));
        }
        if spec_blocks_between(list, n, m, address) {
            let i = choose|i: int| n <= i < m && #[trigger] spec_brings(list, i, address);
            assert(spec_brings(list, i, address));
        }
    }
}

/// Giving a file one more data block leaves the bitmap following the
/// file.
pub proof fn lemma_marks_pushed(
    image: Seq<u8>,
    pages: Seq<usize>,
    header: usize,
    list: Seq<FileDataBlockListEntry>,
    filesystem_type: FilesystemType,
)
    requires
        image.len() == 1760 * 512 || image.len() == 3520 * 512,
        spec_pages_valid(pages, spec_block_count(image)),
        spec_list_wf(header, list),
        spec_list_owned(image, pages, header, list),
    ensures
        ({
            let (after, res) = spec_push_data_block(image, pages, header, list, filesystem_type);
            match res {
                Ok(entry) => spec_marks_grown(image, after, pages, list.push(entry), list.len() as int),
                Err(_) => spec_marks_grown(image, after, pages, list, list.len() as int),
            }
        }),
{
    reveal(spec_marks_grown);
    lemma_push_data_block_marks(image, pages, header, list, filesystem_type);
    let (after, res) = spec_push_data_block(image, pages, header, list, filesystem_type);
    let n = list.len() as int;
    match res {
        Ok(entry) => {
            let longer = list.push(entry);
            assert(longer[n] == entry);
            if n > 0 {
                assert(list[n - 1].extension_block_index == (n - 1) % 72);
            }
            assert forall|address: int| #[trigger]
                spec_blocks_between(longer, n, n + 1, address) implies spec_block_free(image, pages, address) by {
                let i = choose|i: int| n <= i < n + 1 && #[trigger] spec_brings(longer, i, address);
                assert(i == n);
                assert(spec_joins(list, entry, address));
            }
            assert forall|address: int|
                #[trigger] spec_block_free(after, pages, address) == (spec_block_free(image, pages, address)
                    && !spec_blocks_between(longer, n, n + 1, address)) by {
                if spec_joins(list, entry, address) {
                    assert(spec_brings(longer, n, address));
                }
                if spec_blocks_between(longer, n, n + 1, address) {
                    let i = choose|i: int| n <= i < n + 1 && #[trigger] spec_brings(longer, i, address);
                    assert(i == n);
                    assert(spec_joins(list, entry, address));
                }
            }
        },
        Err(_) => {},
    }
}

/// Taking the last data block from a file leaves the bitmap following the
/// file.
pub proof fn lemma_marks_popped(
    image: Seq<u8>,
    pages: Seq<usize>,
    header: usize,
    list: Seq<FileDataBlockListEntry>,
    filesystem_type: FilesystemType,
)
    requires
        image.len() == 1760 * 512 || image.len() == 3520 * 512,
        spec_pages_valid(pages, spec_block_count(image)),
        spec_list_wf(header, list),
        spec_list_owned(image, pages, header, list),
        list.len() > 0,
    ensures
        spec_marks_shrunk(
            image,
            spec_pop_data_block(image, pages, header, list, filesystem_type),
            pages,
            list,
            list.len() - 1,
        ),
{
    reveal(spec_marks_shrunk);
    lemma_pop_data_block_marks(image, pages, header, list, filesystem_type);
    let after = spec_pop_data_block(image, pages, header, list, filesystem_type);
    let n = list.len() as int;
    assert forall|address: int|
        #[trigger] spec_block_free(after, pages, address) == (spec_block_free(image, pages, address)
            || spec_blocks_between(list, n - 1, n, address)) by {
        if spec_leaves(list, address) {
            assert(spec_brings(list, n - 1, address));
        }
        if spec_blocks_between(list, n - 1, n, address) {
            let i = choose|i: int| n - 1 <= i < n && #[trigger] spec_brings(list, i, address);
            assert(i == n - 1);
            assert(spec_leaves(list, address));
        }
    }
}

/// A change of blocks that are neither boot blocks nor bitmap blocks
/// leaves every mark of the bitmap as it was.
pub proof fn lemma_marks_same(before: Seq<u8>, after: Seq<u8>, pages: Seq<usize>, touched: Set<int>)
    requires
        before.len() == 1760 * 512 || before.len() == 3520 * 512,
        spec_pages_valid(pages, spec_block_count(before)),
        crate::fs::frame::spec_unchanged_outside(before, after, touched),
        !touched.contains(0),
        !touched.contains(1),
        forall|k: int| 0 <= k < pages.len() ==> !touched.contains(#[trigger] pages[k] as int),
    ensures
        forall|address: int|
            #[trigger] spec_block_free(after, pages, address) == spec_block_free(before, pages, address),
{
    crate::fs::file_lemmas::lemma_plain_blocks_touched(before, after, touched, pages, 0, Seq::empty());
}

/// Writing into the payload of a data block of a file leaves the bitmap
/// following the file.
pub proof fn lemma_marks_written(
    before: Seq<u8>,
    image: Seq<u8>,
    pages: Seq<usize>,
    header: usize,
    list: Seq<FileDataBlockListEntry>,
    index: int,
    data_pos: usize,
    chunk: Seq<u8>,
    filesystem_type: FilesystemType,
    from: int,
)
    requires
        image.len() == 1760 * 512 || image.len() == 3520 * 512,
        spec_pages_valid(pages, spec_block_count(image)),
        spec_list_owned(image, pages, header, list),
        spec_marks_grown(before, image, pages, list, from),
        0 <= index < list.len(),
        crate::fs::file_write::spec_payload_offset(filesystem_type) + data_pos + chunk.len() <= 512,
    ensures
        spec_marks_grown(
            before,
            crate::fs::file_write::spec_write_data(
                image,
                list[index].data_block_address,
                crate::fs::file_write::spec_payload_offset(filesystem_type) as usize,
                data_pos,
                chunk,
                filesystem_type,
            ),
            pages,
            list,
            from,
        ),
{
    let data = list[index].data_block_address;
    let after = crate::fs::file_write::spec_write_data(
        image,
        data,
        crate::fs::file_write::spec_payload_offset(filesystem_type) as usize,
        data_pos,
        chunk,
        filesystem_type,
    );
    assert(spec_owned(image, pages, data));
    crate::fs::file_write::lemma_write_data(image, data, data_pos, chunk, filesystem_type);
    lemma_marks_same(image, after, pages, set![data as int]);
    lemma_marks_kept(before, image, after, pages, list, from);
}

/// Bringing the header block of a file up to date leaves the bitmap
/// following the file.
pub proof fn lemma_marks_synced(
    before: Seq<u8>,
    image: Seq<u8>,
    pages: Seq<usize>,
    header: usize,
    list: Seq<FileDataBlockListEntry>,
    other: Seq<FileDataBlockListEntry>,
    mode: usize,
    size: usize,
    date_time: u64,
    from: int,
)
    requires
        image.len() == 1760 * 512 || image.len() == 3520 * 512,
        spec_pages_valid(pages, spec_block_count(image)),
        spec_list_owned(image, pages, header, list),
    ensures
        spec_marks_grown(before, image, pages, other, from) ==> spec_marks_grown(
            before,
            crate::fs::file_write::spec_sync_all(image, header, mode, size, date_time),
            pages,
            other,
            from,
        ),
        spec_marks_shrunk(before, image, pages, other, from) ==> spec_marks_shrunk(
            before,
            crate::fs::file_write::spec_sync_all(image, header, mode, size, date_time),
            pages,
            other,
            from,
        ),
{
    let after = crate::fs::file_write::spec_sync_all(image, header, mode, size, date_time);
    assert(spec_owned(image, pages, header));
    crate::fs::file_write::lemma_sync_all(image, header, mode, size, date_time);
    lemma_marks_same(image, after, pages, set![header as int]);
    lemma_marks_kept(before, image, after, pages, other, from);
}

/// Setting the count of payload bytes of the last data block of a file
/// leaves the bitmap following the file.
pub proof fn lemma_marks_block_synced(
    before: Seq<u8>,
    image: Seq<u8>,
    pages: Seq<usize>,
    header: usize,
    list: Seq<FileDataBlockListEntry>,
    other: Seq<FileDataBlockListEntry>,
    filesystem_type: FilesystemType,
    block_data_size: usize,
    new_size: usize,
    from: int,
)
    requires
        image.len() == 1760 * 512 || image.len() == 3520 * 512,
        spec_pages_valid(pages, spec_block_count(image)),
        spec_list_owned(image, pages, header, list),
        spec_marks_shrunk(before, image, pages, other, from),
    ensures
        spec_marks_shrunk(
            before,
            crate::fs::file_set_len::spec_sync_last_block(image, list, filesystem_type, block_data_size, new_size),
            pages,
            other,
            from,
        ),
{
    let after = crate::fs::file_set_len::spec_sync_last_block(
        image,
        list,
        filesystem_type,
        block_data_size,
        new_size,
    );
    if after != image {
        let data = list[list.len() - 1].data_block_address;
        assert(spec_owned(image, pages, data));
        crate::fs::file_set_len::lemma_sync_block_frame(
            image,
            data,
            (new_size % block_data_size) as usize,
        );
        lemma_marks_same(image, after, pages, set![data as int]);
        lemma_marks_kept(before, image, after, pages, other, from);
    }
}

} // verus!
