use vstd::prelude::*;

use crate::block::{spec_fill, spec_read_u32, spec_write_bytes, spec_write_u32};
use crate::errors::Error;
use crate::fs::amiga_dos::spec_pages_valid;
use crate::fs::amiga_dos_options::FilesystemType;
use crate::fs::bitmap::{lemma_bitmap_update_sums, spec_bitmap_update, spec_lowest_free};
use crate::fs::block::{lemma_written_and_summed, spec_block_count, spec_low_u32, spec_write_checksum, spec_write_date};
use crate::fs::file::{spec_list_owned, spec_list_wf, spec_owned, FileDataBlockListEntry};
use crate::fs::file_set_len::{
    spec_clear_link, spec_pop_data_block, spec_pop_release, spec_sync_block,
    spec_unset_extension_block_data_block,
};
use crate::fs::file_write::{
    spec_chain_extension_block, spec_init_data_block, spec_init_extension_block, spec_link_block,
    spec_link_data_block, spec_max, spec_push_data_block, spec_set_extension_block_data_block,
    spec_sync_all, spec_write_data,
};
use crate::fs::frame::{lemma_sums_kept_refl, lemma_sums_kept_trans, spec_sums_kept, spec_unchanged_outside};

verus! {

/// The data blocks of a file that hold no checksum: in the fast flavour
/// all of them, which are all payload; in the old flavour none.
pub open spec fn spec_raw_blocks(list: Seq<FileDataBlockListEntry>, filesystem_type: FilesystemType) -> Set<int> {
    match filesystem_type {
        FilesystemType::OFS => Set::empty(),
        FilesystemType::FFS => Set::new(
            |a: int| exists|i: int| 0 <= i < list.len() && (#[trigger] list[i]).data_block_address == a,
        ),
    }
}

/// Whether block `address` is a block like those of files: in the image
/// and no bitmap block.
pub open spec fn spec_plain(image: Seq<u8>, pages: Seq<usize>, address: usize) -> bool {
    address < spec_block_count(image) && !pages.contains(address)
}

/// A block that can be a block of a file is in the image and no bitmap
/// block.
pub proof fn lemma_owned_is_plain(image: Seq<u8>, pages: Seq<usize>, address: usize)
    requires
        spec_owned(image, pages, address),
    ensures
        spec_plain(image, pages, address),
{
    if pages.contains(address) {
        let k = choose|k: int| 0 <= k < pages.len() && pages[k] == address;
        assert(pages[k] != address);
    }
}

/// A write of one word into a block touches that block alone.
proof fn lemma_word_written(image: Seq<u8>, address: usize, offset: int, value: u32)
    requires
        image.len() % 512 == 0,
        address < spec_block_count(image),
        0 <= offset <= 508,
    ensures
        spec_unchanged_outside(image, spec_write_u32(image, address as int, offset, value), set![address as int]),
{
    let after = spec_write_u32(image, address as int, offset, value);
    assert forall|i: int| 0 <= i < image.len() && !set![address as int].contains(i / 512) implies #[trigger] after[i]
        == image[i] by {
        assert(!(address * 512 <= i < address * 512 + 512));
    }
}

/// Writes into one block, one after the other, touch that block alone.
proof fn lemma_touched_twice(first: Seq<u8>, second: Seq<u8>, third: Seq<u8>, address: int)
    requires
        spec_unchanged_outside(first, second, set![address]),
        spec_unchanged_outside(second, third, set![address]),
    ensures
        spec_unchanged_outside(first, third, set![address]),
{
}

/// Bringing the header block of a file up to date keeps checksums.
pub proof fn lemma_sync_all_sums(
    image: Seq<u8>,
    pages: Seq<usize>,
    header: usize,
    mode: usize,
    size: usize,
    date_time: u64,
    raw: Set<int>,
)
    requires
        image.len() % 512 == 0,
        spec_plain(image, pages, header),
    ensures
        spec_sums_kept(image, spec_sync_all(image, header, mode, size, date_time), pages, raw),
{
    if crate::fs::file::spec_test_file_mode(crate::fs::file::FileMode::Write, mode) {
        let sized = spec_write_u32(image, header as int, 324, spec_low_u32(size));
        let dated = spec_write_date(sized, header, 420, date_time);
        assert(spec_unchanged_outside(image, dated, set![header as int])) by {
            assert forall|i: int|
                0 <= i < image.len() && !set![header as int].contains(i / 512) implies #[trigger] dated[i]
                == image[i] by {
                assert(!(header * 512 <= i < header * 512 + 512));
            }
        }
        lemma_written_and_summed(image, dated, pages, header, raw);
    } else {
        lemma_sums_kept_refl(image, pages, raw);
    }
}

/// Setting the date of change of a file keeps checksums.
pub proof fn lemma_set_time_sums(image: Seq<u8>, pages: Seq<usize>, header: usize, date_time: u64, raw: Set<int>)
    requires
        image.len() % 512 == 0,
        spec_plain(image, pages, header),
    ensures
        spec_sums_kept(image, crate::fs::file_set_time::spec_set_time(image, header, date_time), pages, raw),
{
    let dated = spec_write_date(image, header, 420, date_time);
    assert(spec_unchanged_outside(image, dated, set![header as int])) by {
        assert forall|i: int|
            0 <= i < image.len() && !set![header as int].contains(i / 512) implies #[trigger] dated[i]
            == image[i] by {
            assert(!(header * 512 <= i < header * 512 + 512));
        }
    }
    lemma_written_and_summed(image, dated, pages, header, raw);
}

/// Writing into the payload of a data block keeps checksums: in the
/// old flavour the data block holds a valid checksum afterwards; in
/// the fast flavour it holds none.
pub proof fn lemma_write_data_sums(
    image: Seq<u8>,
    pages: Seq<usize>,
    data: usize,
    block_data_offset: usize,
    data_pos: usize,
    chunk: Seq<u8>,
    filesystem_type: FilesystemType,
    raw: Set<int>,
)
    requires
        image.len() % 512 == 0,
        spec_plain(image, pages, data),
        block_data_offset + data_pos + chunk.len() <= 512,
        filesystem_type == FilesystemType::FFS ==> raw.contains(data as int),
    ensures
        spec_sums_kept(
            image,
            spec_write_data(image, data, block_data_offset, data_pos, chunk, filesystem_type),
            pages,
            raw,
        ),
{
    reveal(spec_write_data);
    let written = spec_write_bytes(image, data as int, block_data_offset + data_pos, chunk);
    crate::fs::frame::lemma_write_bytes_touches(
        image,
        data as int,
        block_data_offset + data_pos,
        chunk,
        set![data as int],
    );
    match filesystem_type {
        FilesystemType::FFS => {
            crate::fs::frame::lemma_block_summed(image, written, pages, data as int, raw);
        },
        FilesystemType::OFS => {
            let counted = spec_write_u32(
                written,
                data as int,
                12,
                spec_max(spec_read_u32(written, data as int, 12) as int, data_pos + chunk.len()) as u32,
            );
            lemma_word_written(
                written,
                data,
                12,
                spec_max(spec_read_u32(written, data as int, 12) as int, data_pos + chunk.len()) as u32,
            );
            lemma_touched_twice(image, written, counted, data as int);
            lemma_written_and_summed(image, counted, pages, data, raw);
        },
    }
}

/// Clearing a link keeps checksums.
pub proof fn lemma_clear_link_sums(image: Seq<u8>, pages: Seq<usize>, address: usize, offset: int, raw: Set<int>)
    requires
        image.len() % 512 == 0,
        spec_plain(image, pages, address),
        0 <= offset <= 508,
    ensures
        spec_sums_kept(image, spec_clear_link(image, address, offset), pages, raw),
{
    reveal(spec_clear_link);
    lemma_word_written(image, address, offset, 0);
    lemma_written_and_summed(image, spec_write_u32(image, address as int, offset, 0), pages, address, raw);
}

/// Setting the count of payload bytes of a data block keeps checksums.
pub proof fn lemma_sync_block_sums(image: Seq<u8>, pages: Seq<usize>, data: usize, count: usize, raw: Set<int>)
    requires
        image.len() % 512 == 0,
        spec_plain(image, pages, data),
    ensures
        spec_sums_kept(image, spec_sync_block(image, data, count), pages, raw),
{
    reveal(spec_sync_block);
    lemma_word_written(image, data, 12, count as u32);
    lemma_written_and_summed(image, spec_write_u32(image, data as int, 12, count as u32), pages, data, raw);
}

/// Putting a data block into its slot keeps checksums.
pub proof fn lemma_set_extension_sums(image: Seq<u8>, pages: Seq<usize>, entry: FileDataBlockListEntry, raw: Set<int>)
    requires
        image.len() % 512 == 0,
        spec_plain(image, pages, entry.extension_block_address),
        entry.extension_block_index < 72,
    ensures
        spec_sums_kept(image, spec_set_extension_block_data_block(image, entry), pages, raw),
{
    let e = entry.extension_block_address;
    let slot = spec_write_u32(
        image,
        e as int,
        24 + 4 * (71 - entry.extension_block_index),
        spec_low_u32(entry.data_block_address),
    );
    lemma_word_written(
        image,
        e,
        24 + 4 * (71 - entry.extension_block_index),
        spec_low_u32(entry.data_block_address),
    );
    let counted = spec_write_u32(slot, e as int, 8, (entry.extension_block_index + 1) as u32);
    lemma_word_written(slot, e, 8, (entry.extension_block_index + 1) as u32);
    lemma_touched_twice(image, slot, counted, e as int);
    lemma_written_and_summed(image, counted, pages, e, raw);
}

/// Taking a data block out of its slot keeps checksums.
pub proof fn lemma_unset_extension_sums(image: Seq<u8>, pages: Seq<usize>, entry: FileDataBlockListEntry, raw: Set<
    int,
>)
    requires
        image.len() % 512 == 0,
        spec_plain(image, pages, entry.extension_block_address),
        entry.extension_block_index < 72,
    ensures
        spec_sums_kept(image, spec_unset_extension_block_data_block(image, entry), pages, raw),
{
    reveal(spec_unset_extension_block_data_block);
    let e = entry.extension_block_address;
    let slot = spec_write_u32(image, e as int, 24 + 4 * (71 - entry.extension_block_index), 0);
    lemma_word_written(image, e, 24 + 4 * (71 - entry.extension_block_index), 0);
    let counted = spec_write_u32(slot, e as int, 8, entry.extension_block_index as u32);
    lemma_word_written(slot, e, 8, entry.extension_block_index as u32);
    lemma_touched_twice(image, slot, counted, e as int);
    lemma_written_and_summed(image, counted, pages, e, raw);
}

/// Making a block a data block keeps checksums: in the old flavour
/// the block holds a valid checksum afterwards; in the fast flavour it
/// holds none.
pub proof fn lemma_init_data_block_sums(
    image: Seq<u8>,
    pages: Seq<usize>,
    address: usize,
    header: usize,
    sequence: usize,
    filesystem_type: FilesystemType,
    raw: Set<int>,
)
    requires
        image.len() % 512 == 0,
        spec_plain(image, pages, address),
        filesystem_type == FilesystemType::FFS ==> raw.contains(address as int),
    ensures
        spec_sums_kept(
            image,
            spec_init_data_block(image, address, header, sequence, filesystem_type),
            pages,
            raw,
        ),
{
    let a = address as int;
    let cleared = spec_fill(image, a, 0, 0, 512);
    assert(spec_unchanged_outside(image, cleared, set![a])) by {
        assert forall|i: int| 0 <= i < image.len() && !set![a].contains(i / 512) implies #[trigger] cleared[i]
            == image[i] by {
            assert(!(address * 512 <= i < address * 512 + 512));
        }
    }
    match filesystem_type {
        FilesystemType::FFS => {
            crate::fs::frame::lemma_block_summed(image, cleared, pages, a, raw);
        },
        FilesystemType::OFS => {
            let numbered = spec_write_u32(
                spec_write_u32(spec_write_u32(cleared, a, 0, 8), a, 4, spec_low_u32(header)),
                a,
                8,
                spec_low_u32(sequence),
            );
            assert(spec_unchanged_outside(image, numbered, set![a])) by {
                assert forall|i: int| 0 <= i < image.len() && !set![a].contains(i / 512) implies #[trigger] numbered[i]
                    == image[i] by {
                    assert(!(address * 512 <= i < address * 512 + 512));
                }
            }
            lemma_written_and_summed(image, numbered, pages, address, raw);
        },
    }
}

/// Making a block a list block keeps checksums.
pub proof fn lemma_init_extension_block_sums(
    image: Seq<u8>,
    pages: Seq<usize>,
    address: usize,
    header: usize,
    raw: Set<int>,
)
    requires
        image.len() % 512 == 0,
        spec_plain(image, pages, address),
    ensures
        spec_sums_kept(image, spec_init_extension_block(image, address, header), pages, raw),
{
    let a = address as int;
    let typed = spec_write_u32(spec_write_u32(spec_fill(image, a, 0, 0, 512), a, 0, 16), a, 508, 0xffff_fffd);
    let keyed = spec_write_u32(spec_write_u32(typed, a, 4, spec_low_u32(address)), a, 500, spec_low_u32(header));
    assert(spec_unchanged_outside(image, keyed, set![a])) by {
        assert forall|i: int| 0 <= i < image.len() && !set![a].contains(i / 512) implies #[trigger] keyed[i]
            == image[i] by {
            assert(!(address * 512 <= i < address * 512 + 512));
        }
    }
    lemma_written_and_summed(image, keyed, pages, address, raw);
}

/// Making a fresh data block part of a file keeps checksums.
pub proof fn lemma_link_data_block_sums(
    image: Seq<u8>,
    pages: Seq<usize>,
    header: usize,
    list: Seq<FileDataBlockListEntry>,
    entry: FileDataBlockListEntry,
    filesystem_type: FilesystemType,
    raw: Set<int>,
)
    requires
        image.len() % 512 == 0,
        spec_plain(image, pages, entry.data_block_address),
        spec_plain(image, pages, entry.extension_block_address),
        spec_plain(image, pages, spec_link_block(header, list)),
        entry.extension_block_index < 72,
        filesystem_type == FilesystemType::FFS ==> raw.contains(entry.data_block_address as int),
    ensures
        spec_sums_kept(image, spec_link_data_block(image, header, list, entry, filesystem_type), pages, raw),
{
    reveal(spec_link_data_block);
    let made = spec_init_data_block(
        image,
        entry.data_block_address,
        header,
        (list.len() + 1) as usize,
        filesystem_type,
    );
    lemma_init_data_block_sums(
        image,
        pages,
        entry.data_block_address,
        header,
        (list.len() + 1) as usize,
        filesystem_type,
        raw,
    );
    let listed = spec_set_extension_block_data_block(made, entry);
    lemma_set_extension_sums(made, pages, entry, raw);
    lemma_sums_kept_trans(image, made, listed, pages, raw, raw, raw);
    match filesystem_type {
        FilesystemType::FFS => {},
        FilesystemType::OFS => {
            let before = spec_link_block(header, list);
            lemma_word_written(listed, before, 16, spec_low_u32(entry.data_block_address));
            lemma_written_and_summed(
                listed,
                spec_write_u32(listed, before as int, 16, spec_low_u32(entry.data_block_address)),
                pages,
                before,
                raw,
            );
            lemma_sums_kept_trans(
                image,
                listed,
                spec_link_data_block(image, header, list, entry, filesystem_type),
                pages,
                raw,
                raw,
                raw,
            );
        },
    }
}

/// Chaining a fresh list block to the last list block of a file keeps
/// checksums.
pub proof fn lemma_chain_extension_block_sums(
    image: Seq<u8>,
    pages: Seq<usize>,
    extension: usize,
    header: usize,
    last: usize,
    raw: Set<int>,
)
    requires
        image.len() % 512 == 0,
        spec_plain(image, pages, extension),
        spec_plain(image, pages, last),
    ensures
        spec_sums_kept(image, spec_chain_extension_block(image, extension, header, last), pages, raw),
{
    reveal(spec_chain_extension_block);
    let made = spec_init_extension_block(image, extension, header);
    lemma_init_extension_block_sums(image, pages, extension, header, raw);
    lemma_word_written(made, last, 504, spec_low_u32(extension));
    lemma_written_and_summed(
        made,
        spec_write_u32(made, last as int, 504, spec_low_u32(extension)),
        pages,
        last,
        raw,
    );
    lemma_sums_kept_trans(
        image,
        made,
        spec_chain_extension_block(image, extension, header, last),
        pages,
        raw,
        raw,
        raw,
    );
}

/// A data block that a list holds is one of its raw blocks in the fast
/// flavour.
pub proof fn lemma_raw_contains(list: Seq<FileDataBlockListEntry>, filesystem_type: FilesystemType, i: int)
    requires
        0 <= i < list.len(),
        filesystem_type == FilesystemType::FFS,
    ensures
        spec_raw_blocks(list, filesystem_type).contains(list[i].data_block_address as int),
{
}

/// Giving a file one more data block keeps checksums: every block that it
/// changes holds a valid checksum afterwards, the data blocks of the fast
/// flavour aside.
pub proof fn lemma_push_data_block_sums(
    image: Seq<u8>,
    pages: Seq<usize>,
    header: usize,
    list: Seq<FileDataBlockListEntry>,
    filesystem_type: FilesystemType,
)
    requires
        image.len() == 1760 * 512 || image.len() == 3520 * 512,
        spec_pages_valid(pages, spec_block_count(image)),
        spec_list_wf(header, list),
        spec_list_owned(image, pages, header, list),
    ensures
        ({
            let (after, res) = spec_push_data_block(image, pages, header, list, filesystem_type);
            match res {
                Ok(entry) => spec_sums_kept(
                    image,
                    after,
                    pages,
                    spec_raw_blocks(list.push(entry), filesystem_type),
                ),
                Err(_) => spec_sums_kept(image, after, pages, spec_raw_blocks(list, filesystem_type)),
            }
        }),
{
    crate::fs::bitmap::lemma_lowest_free(image, pages);
    lemma_owned_is_plain(image, pages, header);
    if list.len() > 0 {
        assert(spec_owned(image, pages, list[list.len() - 1].data_block_address));
        assert(spec_owned(image, pages, list[list.len() - 1].extension_block_address));
        lemma_owned_is_plain(image, pages, list[list.len() - 1].data_block_address);
        lemma_owned_is_plain(image, pages, list[list.len() - 1].extension_block_address);
        assert(list[list.len() - 1].extension_block_index == (list.len() - 1) % 72);
    }
    if list.len() >= spec_block_count(image) {
        lemma_sums_kept_refl(image, pages, spec_raw_blocks(list, filesystem_type));
    } else if list.len() == 0 || list.last().extension_block_index < 71 {
        match spec_lowest_free(image, pages) {
            None => {
                lemma_sums_kept_refl(image, pages, spec_raw_blocks(list, filesystem_type));
            },
            Some(data) => {
                let entry = FileDataBlockListEntry {
                    data_block_address: data,
                    extension_block_address: if list.len() == 0 {
                        header
                    } else {
                        list.last().extension_block_address
                    },
                    extension_block_index: if list.len() == 0 {
                        0
                    } else {
                        (list.last().extension_block_index + 1) as usize
                    },
                };
                let raw = spec_raw_blocks(list.push(entry), filesystem_type);
                let taken = spec_bitmap_update(image, pages, data as int, false);
                lemma_bitmap_update_sums(image, pages, data as int, false, raw);
                crate::fs::file_lemmas::lemma_block_taken(image, pages, header, list, 0, data);
                lemma_owned_is_plain(taken, pages, data);
                if filesystem_type == FilesystemType::FFS {
                    assert(list.push(entry)[list.len() as int] == entry);
                    lemma_raw_contains(list.push(entry), filesystem_type, list.len() as int);
                }
                lemma_link_data_block_sums(taken, pages, header, list, entry, filesystem_type, raw);
                lemma_sums_kept_trans(
                    image,
                    taken,
                    crate::fs::file_write::spec_link_data_block(taken, header, list, entry, filesystem_type),
                    pages,
                    raw,
                    raw,
                    raw,
                );
            },
        }
    } else {
        match spec_lowest_free(image, pages) {
            None => {
                lemma_sums_kept_refl(image, pages, spec_raw_blocks(list, filesystem_type));
            },
            Some(extension) => {
                let taken = spec_bitmap_update(image, pages, extension as int, false);
                crate::fs::file_lemmas::lemma_block_taken(image, pages, header, list, 0, extension);
                crate::fs::bitmap::lemma_lowest_free(taken, pages);
                match spec_lowest_free(taken, pages) {
                    None => {
                        let raw = spec_raw_blocks(list, filesystem_type);
                        lemma_bitmap_update_sums(image, pages, extension as int, false, raw);
                        lemma_bitmap_update_sums(taken, pages, extension as int, true, raw);
                        lemma_sums_kept_trans(
                            image,
                            taken,
                            spec_bitmap_update(taken, pages, extension as int, true),
                            pages,
                            raw,
                            raw,
                            raw,
                        );
                    },
                    Some(data) => {
                        let entry = FileDataBlockListEntry {
                            data_block_address: data,
                            extension_block_address: extension,
                            extension_block_index: 0,
                        };
                        let raw = spec_raw_blocks(list.push(entry), filesystem_type);
                        let both = spec_bitmap_update(taken, pages, data as int, false);
                        lemma_bitmap_update_sums(image, pages, extension as int, false, raw);
                        lemma_bitmap_update_sums(taken, pages, data as int, false, raw);
                        lemma_sums_kept_trans(image, taken, both, pages, raw, raw, raw);
                        crate::fs::file_lemmas::lemma_block_taken(taken, pages, header, list, 0, data);
                        lemma_owned_is_plain(both, pages, data);
                        lemma_owned_is_plain(both, pages, extension);
                        let last = list.last().extension_block_address;
                        let chained = spec_chain_extension_block(both, extension, header, last);
                        lemma_chain_extension_block_sums(both, pages, extension, header, last, raw);
                        lemma_sums_kept_trans(image, both, chained, pages, raw, raw, raw);
                        crate::fs::file_write::lemma_chain_extension_block(both, extension, header, last);
                        if filesystem_type == FilesystemType::FFS {
                            assert(list.push(entry)[list.len() as int] == entry);
                            lemma_raw_contains(list.push(entry), filesystem_type, list.len() as int);
                        }
                        lemma_link_data_block_sums(chained, pages, header, list, entry, filesystem_type, raw);
                        lemma_sums_kept_trans(
                            image,
                            chained,
                            crate::fs::file_write::spec_link_data_block(
                                chained,
                                header,
                                list,
                                entry,
                                filesystem_type,
                            ),
                            pages,
                            raw,
                            raw,
                            raw,
                        );
                    },
                }
            },
        }
    }
}

/// Taking the last data block from a file keeps checksums.
pub proof fn lemma_pop_data_block_sums(
    image: Seq<u8>,
    pages: Seq<usize>,
    header: usize,
    list: Seq<FileDataBlockListEntry>,
    filesystem_type: FilesystemType,
)
    requires
        image.len() == 1760 * 512 || image.len() == 3520 * 512,
        spec_pages_valid(pages, spec_block_count(image)),
        spec_list_wf(header, list),
        spec_list_owned(image, pages, header, list),
        list.len() > 0,
    ensures
        spec_sums_kept(
            image,
            spec_pop_data_block(image, pages, header, list, filesystem_type),
            pages,
            spec_raw_blocks(list, filesystem_type),
        ),
{
    let raw = spec_raw_blocks(list, filesystem_type);
    let n = list.len() as int;
    let last = list[n - 1];
    assert(spec_owned(image, pages, last.data_block_address));
    assert(spec_owned(image, pages, last.extension_block_address));
    assert(last.extension_block_index == (n - 1) % 72);
    lemma_owned_is_plain(image, pages, header);
    lemma_owned_is_plain(image, pages, last.extension_block_address);
    let freed = spec_bitmap_update(image, pages, last.data_block_address as int, true);
    lemma_bitmap_update_sums(image, pages, last.data_block_address as int, true, raw);
    crate::fs::bitmap::lemma_bitmap_update_checksum(image, pages, last.data_block_address as int, true);
    let unset = spec_unset_extension_block_data_block(freed, last);
    lemma_unset_extension_sums(freed, pages, last, raw);
    lemma_sums_kept_trans(image, freed, unset, pages, raw, raw, raw);
    crate::fs::file_set_len::lemma_unset_frame(freed, last);
    let released = spec_pop_release(image, pages, list);
    if last.extension_block_index == 0 && n > 1 {
        let before = list[n - 2].extension_block_address;
        assert(spec_owned(image, pages, before));
        lemma_owned_is_plain(image, pages, before);
        let given = spec_bitmap_update(unset, pages, last.extension_block_address as int, true);
        lemma_bitmap_update_sums(unset, pages, last.extension_block_address as int, true, raw);
        crate::fs::bitmap::lemma_bitmap_update_checksum(unset, pages, last.extension_block_address as int, true);
        lemma_sums_kept_trans(image, unset, given, pages, raw, raw, raw);
        lemma_clear_link_sums(given, pages, before, 504, raw);
        lemma_sums_kept_trans(image, given, released, pages, raw, raw, raw);
    }
    match filesystem_type {
        FilesystemType::FFS => {},
        FilesystemType::OFS => {
            let link = if n > 1 {
                list[n - 2].data_block_address
            } else {
                header
            };
            if n > 1 {
                assert(spec_owned(image, pages, list[n - 2].data_block_address));
                lemma_owned_is_plain(image, pages, list[n - 2].data_block_address);
            }
            lemma_clear_link_sums(released, pages, link, 16, raw);
            lemma_sums_kept_trans(image, released, spec_clear_link(released, link, 16), pages, raw, raw, raw);
        },
    }
}

/// The raw blocks of a list are raw blocks of every list that starts with
/// it.
pub proof fn lemma_raw_blocks_of_prefix(
    list: Seq<FileDataBlockListEntry>,
    longer: Seq<FileDataBlockListEntry>,
    filesystem_type: FilesystemType,
)
    requires
        list.len() <= longer.len(),
        forall|i: int| 0 <= i < list.len() ==> longer[i] == list[i],
    ensures
        forall|a: int|
            spec_raw_blocks(list, filesystem_type).contains(a) ==> spec_raw_blocks(
                longer,
                filesystem_type,
            ).contains(a),
{
    assert forall|a: int| spec_raw_blocks(list, filesystem_type).contains(a) implies spec_raw_blocks(
        longer,
        filesystem_type,
    ).contains(a) by {
        if filesystem_type == FilesystemType::FFS {
            let i = choose|i: int| 0 <= i < list.len() && (#[trigger] list[i]).data_block_address == a;
            assert(longer[i].data_block_address == a);
        }
    }
}

/// Checksums that are kept with some blocks set aside are kept with more
/// blocks set aside.
pub proof fn lemma_sums_kept_more_raw(
    before: Seq<u8>,
    after: Seq<u8>,
    pages: Seq<usize>,
    raw: Set<int>,
    more: Set<int>,
)
    requires
        spec_sums_kept(before, after, pages, raw),
        forall|a: int| raw.contains(a) ==> more.contains(a),
    ensures
        spec_sums_kept(before, after, pages, more),
{
}

/// One more step keeps the checksums that the steps before it kept, when
/// the file has only grown.
pub proof fn lemma_sums_kept_step(
    first: Seq<u8>,
    second: Seq<u8>,
    third: Seq<u8>,
    pages: Seq<usize>,
    list: Seq<FileDataBlockListEntry>,
    longer: Seq<FileDataBlockListEntry>,
    filesystem_type: FilesystemType,
)
    requires
        first.len() % 512 == 0,
        spec_sums_kept(first, second, pages, spec_raw_blocks(list, filesystem_type)),
        spec_sums_kept(second, third, pages, spec_raw_blocks(longer, filesystem_type)),
        list.len() <= longer.len(),
        forall|i: int| 0 <= i < list.len() ==> longer[i] == list[i],
    ensures
        spec_sums_kept(first, third, pages, spec_raw_blocks(longer, filesystem_type)),
{
    lemma_raw_blocks_of_prefix(list, longer, filesystem_type);
    lemma_sums_kept_trans(
        first,
        second,
        third,
        pages,
        spec_raw_blocks(list, filesystem_type),
        spec_raw_blocks(longer, filesystem_type),
        spec_raw_blocks(longer, filesystem_type),
    );
}

} // verus!
