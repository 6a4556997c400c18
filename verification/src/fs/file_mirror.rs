use vstd::prelude::*;

use crate::block::{spec_read_u32, spec_write_u32};
use crate::errors::Error;
use crate::fs::amiga_dos_options::FilesystemType;
use crate::fs::block::{
    spec_block_count, spec_block_secondary_type, spec_data_list_extension_address, spec_low_u32, spec_name_bytes,
    spec_write_checksum,
};
use crate::fs::block_type::BlockSecondaryType;
use crate::fs::file_lemmas::spec_block_byte;
use crate::fs::file_set_len::{
    spec_clear_link, spec_pop_data_block, spec_pop_release, spec_unset_extension_block_data_block,
};
use crate::fs::file_write::{
    spec_chain_extension_block, spec_link_block, spec_link_data_block, spec_push_data_block,
    spec_set_extension_block_data_block,
};
use crate::fs::amiga_dos::{spec_pages_valid, AmigaDos};
use crate::fs::bitmap::{spec_bitmap_update, spec_lowest_free, spec_tracked};
use crate::fs::file::{
    spec_block_data_list, spec_block_data_list_from, spec_entries_from, spec_entry_at, spec_list_owned,
    spec_list_wf, spec_owned, File, FileDataBlockListEntry,
};

verus! {

/// The header or list block that holds the last data block of a file; the
/// header block when the file has no data block.
pub open spec fn spec_last_extension(header: usize, list: Seq<FileDataBlockListEntry>) -> usize {
    if list.len() > 0 {
        list.last().extension_block_address
    } else {
        header
    }
}

/// Number of slots that are filled in the header or list block that holds
/// the last data block of a file.
pub open spec fn spec_last_filled(list: Seq<FileDataBlockListEntry>) -> int {
    if list.len() > 0 {
        list.last().extension_block_index + 1
    } else {
        0
    }
}

/// Whether the image holds the list of data blocks `list` for the file
/// whose header block is `header`: each data block stands in its slot;
/// each list block but the last points at the next, and the last points
/// at none; and the slots after the last data block are empty.
#[verifier::opaque]
pub open spec fn spec_table_ok(image: Seq<u8>, header: usize, list: Seq<FileDataBlockListEntry>) -> bool {
    &&& forall|i: int|
        0 <= i < list.len() ==> spec_entry_at(
            image,
            (#[trigger] list[i]).extension_block_address,
            list[i].extension_block_index,
        ) == Ok::<Option<FileDataBlockListEntry>, Error>(Some(list[i]))
    &&& forall|i: int|
        0 <= i < list.len() - 1 && i % 72 == 71 ==> spec_data_list_extension_address(
            image,
            (#[trigger] list[i]).extension_block_address,
        ) == Ok::<Option<usize>, Error>(Some(list[i + 1].extension_block_address))
    &&& spec_data_list_extension_address(image, spec_last_extension(header, list)) == Ok::<Option<usize>, Error>(
        None,
    )
    &&& forall|k: int|
        spec_last_filled(list) <= k < 72 ==> #[trigger] spec_entry_at(
            image,
            spec_last_extension(header, list),
            k as usize,
        ) == Ok::<Option<FileDataBlockListEntry>, Error>(None)
}

/// The slots `index` to `upto` of a header or list block, read one after
/// the other, give the data blocks that stand in them.
proof fn lemma_entries_from(
    image: Seq<u8>,
    extension: usize,
    index: int,
    upto: int,
    list: Seq<FileDataBlockListEntry>,
    base: int,
)
    requires
        0 <= index <= upto <= 72,
        0 <= base,
        base + upto <= list.len(),
        forall|k: int|
            index <= k < upto ==> #[trigger] spec_entry_at(image, extension, k as usize) == Ok::<
                Option<FileDataBlockListEntry>,
                Error,
            >(Some(list[base + k])),
        upto < 72 ==> spec_entry_at(image, extension, upto as usize) == Ok::<Option<FileDataBlockListEntry>, Error>(
            None,
        ),
    ensures
        spec_entries_from(image, extension, index as usize) == Ok::<Seq<FileDataBlockListEntry>, Error>(
            list.subrange(base + index, base + upto),
        ),
    decreases upto - index,
{
    if index == upto {
        assert(list.subrange(base + index, base + upto) =~= Seq::<FileDataBlockListEntry>::empty());
    } else {
        assert(spec_entry_at(image, extension, index as usize) == Ok::<Option<FileDataBlockListEntry>, Error>(
            Some(list[base + index]),
        ));
        lemma_entries_from(image, extension, index + 1, upto, list, base);
        assert(seq![list[base + index]] + list.subrange(base + index + 1, base + upto) =~= list.subrange(
            base + index,
            base + upto,
        ));
    }
}

/// Number of header and list blocks that hold the data blocks of a file.
pub open spec fn spec_groups(len: int) -> int {
    if len <= 0 {
        1
    } else {
        (len - 1) / 72 + 1
    }
}

/// The header block or list block number `group` of a file.
pub open spec fn spec_group_block(header: usize, list: Seq<FileDataBlockListEntry>, group: int) -> usize {
    if group == 0 {
        header
    } else {
        list[group * 72].extension_block_address
    }
}

/// The header and list blocks of a file, read from number `group` on, give
/// the data blocks that they hold.
proof fn lemma_loaded_from(
    image: Seq<u8>,
    header: usize,
    list: Seq<FileDataBlockListEntry>,
    group: int,
    fuel: nat,
)
    requires
        spec_table_ok(image, header, list),
        spec_list_wf(header, list),
        0 <= group < spec_groups(list.len() as int),
        fuel >= spec_groups(list.len() as int) - group,
    ensures
        spec_block_data_list_from(image, Some(spec_group_block(header, list, group)), fuel) == Ok::<
            Seq<FileDataBlockListEntry>,
            Error,
        >(list.subrange(group * 72, list.len() as int)),
    decreases spec_groups(list.len() as int) - group,
{
    reveal(spec_table_ok);
    let len = list.len() as int;
    let lo = group * 72;
    let hi = if lo + 72 <= len {
        lo + 72
    } else {
        len
    };
    let block = spec_group_block(header, list, group);
    assert forall|k: int| 0 <= k < hi - lo implies #[trigger] spec_entry_at(image, block, k as usize) == Ok::<
        Option<FileDataBlockListEntry>,
        Error,
    >(Some(list[lo + k])) by {
        let i = lo + k;
        assert(i / 72 == group && i % 72 == k);
        assert(lo / 72 == group);
        assert(list[i].extension_block_index == k);
        if group == 0 {
            assert(list[i].extension_block_address == header);
        } else {
            assert(list[i].extension_block_address == list[lo].extension_block_address);
        }
    }
    if hi - lo < 72 {
        assert(hi == len);
        if len > 0 {
            assert((len - 1) / 72 == group && (len - 1) % 72 == len - 1 - lo);
            assert(lo / 72 == group);
            assert(list[len - 1].extension_block_index == len - 1 - lo);
            if group > 0 {
                assert(list[len - 1].extension_block_address == list[lo].extension_block_address);
            } else {
                assert(list[len - 1].extension_block_address == header);
            }
        }
        assert(spec_last_extension(header, list) == block);
        assert(spec_last_filled(list) == hi - lo);
        assert(spec_entry_at(image, block, (hi - lo) as usize) == Ok::<Option<FileDataBlockListEntry>, Error>(
            None,
        ));
    }
    lemma_entries_from(image, block, 0, hi - lo, list, lo);
    if lo + 72 < len {
        let i = lo + 71;
        assert(i % 72 == 71 && i / 72 == group);
        assert(lo / 72 == group);
        assert((lo + 72) / 72 == group + 1);
        if group == 0 {
            assert(list[i].extension_block_address == header);
        } else {
            assert(list[i].extension_block_address == list[lo].extension_block_address);
        }
        assert(spec_data_list_extension_address(image, list[i].extension_block_address) == Ok::<
            Option<usize>,
            Error,
        >(Some(list[i + 1].extension_block_address)));
        assert(spec_group_block(header, list, group + 1) == list[lo + 72].extension_block_address);
        assert(group + 1 < spec_groups(len));
        lemma_loaded_from(image, header, list, group + 1, (fuel - 1) as nat);
        assert(list.subrange(lo, lo + 72) + list.subrange(lo + 72, len) =~= list.subrange(lo, len));
        assert(fuel > 0);
        assert(spec_entries_from(image, block, 0) == Ok::<Seq<FileDataBlockListEntry>, Error>(
            list.subrange(lo, hi),
        ));
        assert(spec_data_list_extension_address(image, block) == Ok::<Option<usize>, Error>(
            Some(list[lo + 72].extension_block_address),
        ));
        assert((group + 1) * 72 == lo + 72);
    } else {
        if len > 0 {
            assert((len - 1) / 72 == group);
            assert(lo / 72 == group);
            if group > 0 {
                assert(list[len - 1].extension_block_address == list[lo].extension_block_address);
            } else {
                assert(list[len - 1].extension_block_address == header);
            }
        }
        assert(spec_last_extension(header, list) == block);
        assert(spec_data_list_extension_address(image, block) == Ok::<Option<usize>, Error>(None));
        assert(spec_block_data_list_from(image, None, (fuel - 1) as nat) == Ok::<
            Seq<FileDataBlockListEntry>,
            Error,
        >(Seq::empty()));
        assert(list.subrange(lo, hi) + Seq::<FileDataBlockListEntry>::empty() =~= list.subrange(lo, len));
        assert(fuel > 0);
        assert(spec_entries_from(image, block, 0) == Ok::<Seq<FileDataBlockListEntry>, Error>(
            list.subrange(lo, hi),
        ));
    }
}

/// What the image holds is what is read of it: a file whose list of data
/// blocks the image holds is loaded from its header block with that list.
pub proof fn lemma_table_loaded(image: Seq<u8>, header: usize, list: Seq<FileDataBlockListEntry>)
    requires
        spec_table_ok(image, header, list),
        spec_list_wf(header, list),
        list.len() <= spec_block_count(image),
        spec_block_count(image) > 0,
    ensures
        spec_block_data_list(image, header) == Ok::<Seq<FileDataBlockListEntry>, Error>(list),
{
    lemma_loaded_from(image, header, list, 0, spec_block_count(image));
    assert(list.subrange(0, list.len() as int) =~= list);
}

/// Byte offset of slot `index` of the table of a header or list block: the
/// slots are filled from the end of the table.
pub open spec fn spec_slot(index: int) -> int {
    24 + 4 * (71 - index)
}

/// What writing a slot of the table of block `block` changes, with the
/// count of filled slots and the checksum: these three words of the block
/// and nothing else; and the slot holds what was written.
proof fn lemma_slot_written(image: Seq<u8>, block: usize, index: int, value: u32, count: u32)
    requires
        image.len() % 512 == 0,
        block < spec_block_count(image),
        0 <= index < 72,
    ensures
        ({
            let b = block as int;
            let after = spec_write_checksum(
                spec_write_u32(spec_write_u32(image, b, spec_slot(index), value), b, 8, count),
                block,
            );
            &&& after.len() == image.len()
            &&& forall|i: int|
                0 <= i < image.len() && !(b * 512 + 8 <= i < b * 512 + 12) && !(b * 512 + 20 <= i < b * 512 + 24)
                    && !(b * 512 + spec_slot(index) <= i < b * 512 + spec_slot(index) + 4) ==> #[trigger] after[i]
                    == image[i]
            &&& spec_read_u32(after, b, spec_slot(index)) == value
        }),
{
    let b = block as int;
    let after = spec_write_checksum(
        spec_write_u32(spec_write_u32(image, b, spec_slot(index), value), b, 8, count),
        block,
    );
    crate::block::lemma_u32_be_roundtrip(value);
    assert(crate::block::spec_read_bytes(after, b, spec_slot(index), 4) =~= crate::block::spec_u32_to_be_bytes(
        value,
    ));
}

/// What putting a data block into its slot changes: three words of the
/// header or list block; and the slot holds the data block.
pub proof fn lemma_set_extension_layout(image: Seq<u8>, entry: FileDataBlockListEntry)
    requires
        image.len() % 512 == 0,
        entry.extension_block_address < spec_block_count(image),
        entry.extension_block_index < 72,
    ensures
        ({
            let e = entry.extension_block_address as int;
            let slot = spec_slot(entry.extension_block_index as int);
            let after = spec_set_extension_block_data_block(image, entry);
            &&& after.len() == image.len()
            &&& forall|i: int|
                0 <= i < image.len() && !(e * 512 + 8 <= i < e * 512 + 12) && !(e * 512 + 20 <= i < e * 512 + 24)
                    && !(e * 512 + slot <= i < e * 512 + slot + 4) ==> #[trigger] after[i] == image[i]
            &&& spec_read_u32(after, e, slot) == spec_low_u32(entry.data_block_address)
        }),
{
    lemma_slot_written(
        image,
        entry.extension_block_address,
        entry.extension_block_index as int,
        spec_low_u32(entry.data_block_address),
        (entry.extension_block_index + 1) as u32,
    );
}

/// What taking a data block out of its slot changes: three words of the
/// header or list block; and the slot is empty.
pub proof fn lemma_unset_extension_layout(image: Seq<u8>, entry: FileDataBlockListEntry)
    requires
        image.len() % 512 == 0,
        entry.extension_block_address < spec_block_count(image),
        entry.extension_block_index < 72,
    ensures
        ({
            let e = entry.extension_block_address as int;
            let slot = spec_slot(entry.extension_block_index as int);
            let after = spec_unset_extension_block_data_block(image, entry);
            &&& after.len() == image.len()
            &&& forall|i: int|
                0 <= i < image.len() && !(e * 512 + 8 <= i < e * 512 + 12) && !(e * 512 + 20 <= i < e * 512 + 24)
                    && !(e * 512 + slot <= i < e * 512 + slot + 4) ==> #[trigger] after[i] == image[i]
            &&& spec_read_u32(after, e, slot) == 0
        }),
{
    reveal(spec_unset_extension_block_data_block);
    lemma_slot_written(
        image,
        entry.extension_block_address,
        entry.extension_block_index as int,
        0,
        entry.extension_block_index as u32,
    );
}

/// What clearing a link changes: the word of the link and the checksum of
/// the block, and nothing else; and a link that stands after the checksum
/// reads as none.
pub proof fn lemma_clear_link_layout(image: Seq<u8>, address: usize, offset: int)
    requires
        image.len() % 512 == 0,
        address < spec_block_count(image),
        0 <= offset,
        offset + 4 <= 512,
    ensures
        ({
            let a = address as int;
            let after = spec_clear_link(image, address, offset);
            &&& after.len() == image.len()
            &&& forall|i: int|
                0 <= i < image.len() && !(a * 512 + offset <= i < a * 512 + offset + 4) && !(a * 512 + 20 <= i < a
                    * 512 + 24) ==> #[trigger] after[i] == image[i]
            &&& offset >= 24 ==> spec_read_u32(after, a, offset) == 0
        }),
{
    reveal(spec_clear_link);
    let a = address as int;
    let after = spec_clear_link(image, address, offset);
    crate::block::lemma_u32_be_roundtrip(0);
    if offset >= 24 {
        assert(crate::block::spec_read_bytes(after, a, offset, 4) =~= crate::block::spec_u32_to_be_bytes(0));
    }
}

/// What chaining a fresh list block to the last list block of a file
/// changes: the fresh block, which is a list block with an empty table
/// that points at no next one; and of the last list block the pointer,
/// which points at the fresh block, and the checksum.
pub proof fn lemma_chain_layout(image: Seq<u8>, extension: usize, header: usize, last: usize)
    requires
        image.len() % 512 == 0,
        extension < spec_block_count(image),
        last < spec_block_count(image),
        extension != last,
    ensures
        ({
            let after = spec_chain_extension_block(image, extension, header, last);
            &&& after.len() == image.len()
            &&& forall|i: int|
                0 <= i < image.len() && !(extension * 512 <= i < extension * 512 + 512) && !(last * 512 + 504 <= i
                    < last * 512 + 508) && !(last * 512 + 20 <= i < last * 512 + 24) ==> #[trigger] after[i]
                    == image[i]
            &&& spec_read_u32(after, last as int, 504) == spec_low_u32(extension)
            &&& spec_read_u32(after, extension as int, 0) == 16
            &&& forall|o: int|
                24 <= o < 312 || 504 <= o < 508 ==> #[trigger] spec_block_byte(after, extension, o) == 0
        }),
{
    reveal(spec_chain_extension_block);
    let after = spec_chain_extension_block(image, extension, header, last);
    crate::block::lemma_u32_be_roundtrip(spec_low_u32(extension));
    crate::block::lemma_u32_be_roundtrip(16);
    assert(crate::block::spec_read_bytes(after, last as int, 504, 4) =~= crate::block::spec_u32_to_be_bytes(
        spec_low_u32(extension),
    ));
    assert(crate::block::spec_read_bytes(after, extension as int, 0, 4) =~= crate::block::spec_u32_to_be_bytes(16));
}

/// What writing a word of block `block` changes, with the checksum: these
/// two words of the block and nothing else.
proof fn lemma_word_summed(image: Seq<u8>, block: usize, offset: int, value: u32)
    requires
        image.len() % 512 == 0,
        block < spec_block_count(image),
        0 <= offset,
        offset + 4 <= 512,
    ensures
        ({
            let b = block as int;
            let after = spec_write_checksum(spec_write_u32(image, b, offset, value), block);
            &&& after.len() == image.len()
            &&& forall|i: int|
                0 <= i < image.len() && !(b * 512 + offset <= i < b * 512 + offset + 4) && !(b * 512 + 20 <= i < b
                    * 512 + 24) ==> #[trigger] after[i] == image[i]
        }),
{
}

/// Making a block a data block changes that block and nothing else.
proof fn lemma_init_data_block_layout(
    image: Seq<u8>,
    address: usize,
    header: usize,
    sequence: usize,
    filesystem_type: FilesystemType,
)
    requires
        image.len() % 512 == 0,
        address < spec_block_count(image),
    ensures
        ({
            let after = crate::fs::file_write::spec_init_data_block(image, address, header, sequence, filesystem_type);
            &&& after.len() == image.len()
            &&& forall|i: int|
                0 <= i < image.len() && !(address * 512 <= i < address * 512 + 512) ==> #[trigger] after[i]
                    == image[i]
        }),
{
}

/// Whether byte `i` of the image lies where making a fresh data block part
/// of a file may change it: in the data block `d`; in three words of the
/// block `e`, of which one is the slot `index`; or in two words before the
/// table of the block `link`.
#[verifier::opaque]
pub open spec fn spec_link_changed(i: int, d: int, e: int, index: int, link: int) -> bool {
    ||| d * 512 <= i < d * 512 + 512
    ||| e * 512 + 8 <= i < e * 512 + 12
    ||| e * 512 + 20 <= i < e * 512 + 24
    ||| e * 512 + spec_slot(index) <= i < e * 512 + spec_slot(index) + 4
    ||| link * 512 + 16 <= i < link * 512 + 24
}

/// What making a fresh data block part of a file changes, as
/// `spec_link_changed` says; the slot holds the data block afterwards.
#[verifier::spinoff_prover]
#[verifier::rlimit(100)]
pub proof fn lemma_link_layout(
    image: Seq<u8>,
    header: usize,
    list: Seq<FileDataBlockListEntry>,
    entry: FileDataBlockListEntry,
    filesystem_type: FilesystemType,
)
    requires
        image.len() % 512 == 0,
        entry.data_block_address < spec_block_count(image),
        entry.extension_block_address < spec_block_count(image),
        spec_link_block(header, list) < spec_block_count(image),
        entry.extension_block_index < 72,
        entry.data_block_address != entry.extension_block_address,
        entry.data_block_address != spec_link_block(header, list),
    ensures
        spec_link_data_block(image, header, list, entry, filesystem_type).len() == image.len(),
        forall|i: int|
            0 <= i < image.len() && !spec_link_changed(
                i,
                entry.data_block_address as int,
                entry.extension_block_address as int,
                entry.extension_block_index as int,
                spec_link_block(header, list) as int,
            ) ==> #[trigger] spec_link_data_block(image, header, list, entry, filesystem_type)[i] == image[i],
        spec_read_u32(
            spec_link_data_block(image, header, list, entry, filesystem_type),
            entry.extension_block_address as int,
            spec_slot(entry.extension_block_index as int),
        ) == spec_low_u32(entry.data_block_address),
{
    reveal(spec_link_changed);
    let d = entry.data_block_address as int;
    let e = entry.extension_block_address as int;
    let l = spec_link_block(header, list);
    let slot = spec_slot(entry.extension_block_index as int);
    let made = crate::fs::file_write::spec_init_data_block(
        image,
        entry.data_block_address,
        header,
        (list.len() + 1) as usize,
        filesystem_type,
    );
    lemma_init_data_block_layout(image, entry.data_block_address, header, (list.len() + 1) as usize, filesystem_type);
    lemma_set_extension_layout(made, entry);
    let listed = spec_set_extension_block_data_block(made, entry);
    let after = spec_link_data_block(image, header, list, entry, filesystem_type);
    let word = spec_low_u32(entry.data_block_address);
    lemma_word_summed(listed, l, 16, word);
    assert(after == match filesystem_type {
        FilesystemType::FFS => listed,
        FilesystemType::OFS => spec_write_checksum(spec_write_u32(listed, l as int, 16, word), l),
    }) by {
        reveal(spec_link_data_block);
    }
    lemma_slot_kept(listed, after, e, slot);
}

/// A byte of the type word, of the table or of the pointer of a block
/// other than the fresh data block lies where nothing may change, but for
/// the slot that does change.
proof fn lemma_link_not_changed(i: int, block: usize, offset: int, d: int, e: int, index: int, link: int)
    requires
        i == block * 512 + offset,
        0 <= offset < 8 || 24 <= offset < 512,
        0 <= index < 72,
        block != d,
        !(block == e && spec_slot(index) <= offset < spec_slot(index) + 4),
    ensures
        !spec_link_changed(i, d, e, index, link),
{
    reveal(spec_link_changed);
}

/// A word of a block that is the same in both images reads the same.
proof fn lemma_slot_kept(before: Seq<u8>, after: Seq<u8>, block: int, offset: int)
    requires
        after.len() == before.len(),
        0 <= block,
        0 <= offset,
        offset + 4 <= 512,
        block * 512 + 512 <= before.len(),
        forall|i: int|
            block * 512 + offset <= i < block * 512 + offset + 4 ==> #[trigger] after[i] == before[i],
    ensures
        spec_read_u32(after, block, offset) == spec_read_u32(before, block, offset),
{
    assert(crate::block::spec_read_bytes(after, block, offset, 4) =~= crate::block::spec_read_bytes(
        before,
        block,
        offset,
        4,
    ));
}

/// Whether byte `i` of the image is part of what a file keeps of its list
/// of data blocks: of the type word, the table or the pointer to the next
/// list block, in the header block or in a list block of the file.
pub open spec fn spec_in_table(header: usize, list: Seq<FileDataBlockListEntry>, i: int) -> bool {
    &&& 0 <= i % 512 < 4 || 24 <= i % 512 < 312 || 504 <= i % 512 < 508
    &&& i / 512 == header || exists|j: int|
        0 <= j < list.len() && (#[trigger] list[j]).extension_block_address == i / 512
}

/// A slot of a table reads the same in two images in which the type word
/// of the block and the slot are the same.
proof fn lemma_entry_kept(before: Seq<u8>, after: Seq<u8>, block: usize, k: int)
    requires
        after.len() == before.len(),
        before.len() % 512 == 0,
        block < spec_block_count(before),
        0 <= k < 72,
        forall|i: int| block * 512 <= i < block * 512 + 4 ==> #[trigger] after[i] == before[i],
        forall|i: int|
            block * 512 + spec_slot(k) <= i < block * 512 + spec_slot(k) + 4 ==> #[trigger] after[i] == before[i],
    ensures
        spec_entry_at(after, block, k as usize) == spec_entry_at(before, block, k as usize),
{
    lemma_slot_kept(before, after, block as int, 0);
    lemma_slot_kept(before, after, block as int, spec_slot(k));
}

/// The pointer to the next list block reads the same in two images in
/// which the type word of the block and the pointer are the same.
proof fn lemma_pointer_kept(before: Seq<u8>, after: Seq<u8>, block: usize)
    requires
        after.len() == before.len(),
        before.len() % 512 == 0,
        block < spec_block_count(before),
        forall|i: int| block * 512 <= i < block * 512 + 4 ==> #[trigger] after[i] == before[i],
        forall|i: int| block * 512 + 504 <= i < block * 512 + 508 ==> #[trigger] after[i] == before[i],
    ensures
        spec_data_list_extension_address(after, block) == spec_data_list_extension_address(before, block),
{
    lemma_slot_kept(before, after, block as int, 0);
    lemma_slot_kept(before, after, block as int, 504);
}

/// The bytes that a block of a file keeps of the list of data blocks are
/// part of what the file keeps of it.
proof fn lemma_in_table(header: usize, list: Seq<FileDataBlockListEntry>, block: usize, i: int)
    requires
        block == header || exists|j: int| 0 <= j < list.len() && (#[trigger] list[j]).extension_block_address == block,
        block * 512 <= i < block * 512 + 4 || block * 512 + 24 <= i < block * 512 + 312 || block * 512 + 504 <= i
            < block * 512 + 508,
    ensures
        spec_in_table(header, list, i),
{
    assert(i / 512 == block && i % 512 == i - block * 512);
}

/// A change that leaves alone what a file keeps of its list of data
/// blocks leaves the image holding the list.
pub proof fn lemma_table_kept(before: Seq<u8>, after: Seq<u8>, header: usize, list: Seq<FileDataBlockListEntry>)
    requires
        spec_table_ok(before, header, list),
        spec_list_wf(header, list),
        after.len() == before.len(),
        before.len() % 512 == 0,
        header < spec_block_count(before),
        forall|j: int| 0 <= j < list.len() ==> (#[trigger] list[j]).extension_block_address < spec_block_count(before),
        forall|i: int| 0 <= i < before.len() && #[trigger] spec_in_table(header, list, i) ==> after[i] == before[i],
    ensures
        spec_table_ok(after, header, list),
{
    reveal(spec_table_ok);
    assert forall|block: usize, k: int|
        (block == header || exists|j: int|
            0 <= j < list.len() && (#[trigger] list[j]).extension_block_address == block) && 0 <= k
            < 72 implies #[trigger] spec_entry_at(after, block, k as usize) == spec_entry_at(
        before,
        block,
        k as usize,
    ) by {
        assert forall|i: int| block * 512 <= i < block * 512 + 4 implies #[trigger] after[i] == before[i] by {
            lemma_in_table(header, list, block, i);
        }
        assert forall|i: int|
            block * 512 + spec_slot(k) <= i < block * 512 + spec_slot(k) + 4 implies #[trigger] after[i]
            == before[i] by {
            lemma_in_table(header, list, block, i);
        }
        lemma_entry_kept(before, after, block, k);
    }
    assert forall|block: usize|
        (block == header || exists|j: int|
            0 <= j < list.len() && (#[trigger] list[j]).extension_block_address == block)
        implies #[trigger] spec_data_list_extension_address(after, block) == spec_data_list_extension_address(
        before,
        block,
    ) by {
        assert forall|i: int| block * 512 <= i < block * 512 + 4 implies #[trigger] after[i] == before[i] by {
            lemma_in_table(header, list, block, i);
        }
        assert forall|i: int| block * 512 + 504 <= i < block * 512 + 508 implies #[trigger] after[i]
            == before[i] by {
            lemma_in_table(header, list, block, i);
        }
        lemma_pointer_kept(before, after, block);
    }
    assert forall|i: int| 0 <= i < list.len() implies spec_entry_at(
        after,
        (#[trigger] list[i]).extension_block_address,
        list[i].extension_block_index,
    ) == Ok::<Option<FileDataBlockListEntry>, Error>(Some(list[i])) by {
        assert(spec_entry_at(before, list[i].extension_block_address, list[i].extension_block_index) is Ok);
        assert(list[i].extension_block_index < 72);
        assert(spec_entry_at(after, list[i].extension_block_address, list[i].extension_block_index as int as usize)
            == spec_entry_at(
            before,
            list[i].extension_block_address,
            list[i].extension_block_index as int as usize,
        ));
    }
    if list.len() > 0 {
        assert(list[list.len() - 1].extension_block_address == spec_last_extension(header, list));
    }
}

/// Whether the image holds the list of data blocks `list` for the file
/// whose header block is `header`, and the next data block goes into the
/// header or list block `extension`: that block comes after the blocks
/// that are full, it points at no next one, and its slots after the last
/// data block are empty.
pub open spec fn spec_table_room(
    image: Seq<u8>,
    header: usize,
    list: Seq<FileDataBlockListEntry>,
    extension: usize,
) -> bool {
    &&& forall|i: int|
        0 <= i < list.len() ==> spec_entry_at(
            image,
            (#[trigger] list[i]).extension_block_address,
            list[i].extension_block_index,
        ) == Ok::<Option<FileDataBlockListEntry>, Error>(Some(list[i]))
    &&& forall|i: int|
        0 <= i < list.len() - 1 && i % 72 == 71 ==> spec_data_list_extension_address(
            image,
            (#[trigger] list[i]).extension_block_address,
        ) == Ok::<Option<usize>, Error>(Some(list[i + 1].extension_block_address))
    &&& if list.len() > 0 && list.len() % 72 == 0 {
        spec_data_list_extension_address(image, list.last().extension_block_address) == Ok::<Option<usize>, Error>(
            Some(extension),
        )
    } else {
        extension == spec_last_extension(header, list)
    }
    &&& spec_data_list_extension_address(image, extension) == Ok::<Option<usize>, Error>(None)
    &&& forall|k: int|
        list.len() % 72 <= k < 72 ==> #[trigger] spec_entry_at(image, extension, k as usize) == Ok::<
            Option<FileDataBlockListEntry>,
            Error,
        >(None)
}

/// A file whose last header or list block is not full has room in it.
proof fn lemma_room_same_group(image: Seq<u8>, header: usize, list: Seq<FileDataBlockListEntry>)
    requires
        spec_table_ok(image, header, list),
        spec_list_wf(header, list),
        list.len() == 0 || list.len() % 72 != 0,
    ensures
        spec_table_room(image, header, list, spec_last_extension(header, list)),
{
    reveal(spec_table_ok);
    if list.len() > 0 {
        let n = list.len() as int;
        assert(list[n - 1].extension_block_index == (n - 1) % 72);
        assert((n - 1) % 72 + 1 == n % 72);
    }
}

/// A word whose bytes are zero reads as zero.
proof fn lemma_zero_word(image: Seq<u8>, block: usize, offset: int)
    requires
        image.len() % 512 == 0,
        block < spec_block_count(image),
        0 <= offset,
        offset + 4 <= 512,
        forall|o: int| offset <= o < offset + 4 ==> #[trigger] spec_block_byte(image, block, o) == 0,
    ensures
        spec_read_u32(image, block as int, offset) == 0,
{
    let bytes = crate::block::spec_read_bytes(image, block as int, offset, 4);
    assert(bytes[0] == spec_block_byte(image, block, offset));
    assert(bytes[1] == spec_block_byte(image, block, offset + 1));
    assert(bytes[2] == spec_block_byte(image, block, offset + 2));
    assert(bytes[3] == spec_block_byte(image, block, offset + 3));
    crate::block::lemma_u32_be_roundtrip(0);
    assert(bytes =~= crate::block::spec_u32_to_be_bytes(0));
}

/// A fresh list block that is chained to a list block holds no data block
/// and points at no next list block.
proof fn lemma_chained_fresh(image: Seq<u8>, extension: usize, header: usize, last: usize)
    requires
        image.len() % 512 == 0,
        extension < spec_block_count(image),
        last < spec_block_count(image),
        extension != last,
    ensures
        spec_data_list_extension_address(
            spec_chain_extension_block(image, extension, header, last),
            extension,
        ) == Ok::<Option<usize>, Error>(None),
        forall|k: int|
            0 <= k < 72 ==> #[trigger] spec_entry_at(
                spec_chain_extension_block(image, extension, header, last),
                extension,
                k as usize,
            ) == Ok::<Option<FileDataBlockListEntry>, Error>(None),
{
    let after = spec_chain_extension_block(image, extension, header, last);
    lemma_chain_layout(image, extension, header, last);
    lemma_zero_word(after, extension, 504);
    assert(seq![crate::fs::block_type::BlockPrimaryType::Header, crate::fs::block_type::BlockPrimaryType::List][1]
        == crate::fs::block_type::BlockPrimaryType::List);
    assert(crate::fs::block::spec_check_has_table(after, extension) is Ok);
    assert forall|k: int| 0 <= k < 72 implies #[trigger] spec_entry_at(after, extension, k as usize) == Ok::<
        Option<FileDataBlockListEntry>,
        Error,
    >(None) by {
        lemma_zero_word(after, extension, spec_slot(k));
    }
}

/// The list block that a fresh list block is chained to points at it, and
/// holds the data blocks that it held.
proof fn lemma_chained_last(image: Seq<u8>, extension: usize, header: usize, last: usize)
    requires
        image.len() % 512 == 0,
        0 < extension < spec_block_count(image),
        extension < 0x1_0000_0000,
        last < spec_block_count(image),
        extension != last,
        crate::fs::block::spec_check_has_table(image, last) is Ok,
    ensures
        spec_data_list_extension_address(spec_chain_extension_block(image, extension, header, last), last) == Ok::<
            Option<usize>,
            Error,
        >(Some(extension)),
        forall|k: int|
            0 <= k < 72 ==> #[trigger] spec_entry_at(
                spec_chain_extension_block(image, extension, header, last),
                last,
                k as usize,
            ) == spec_entry_at(image, last, k as usize),
{
    let after = spec_chain_extension_block(image, extension, header, last);
    lemma_chain_layout(image, extension, header, last);
    lemma_slot_kept(image, after, last as int, 0);
    assert(spec_low_u32(extension) == extension);
    assert forall|k: int| 0 <= k < 72 implies #[trigger] spec_entry_at(after, last, k as usize) == spec_entry_at(
        image,
        last,
        k as usize,
    ) by {
        lemma_entry_kept(image, after, last, k);
    }
}

/// A block that is neither the fresh list block nor the list block that
/// it is chained to holds what it held.
proof fn lemma_chained_other(image: Seq<u8>, extension: usize, header: usize, last: usize, block: usize)
    requires
        image.len() % 512 == 0,
        extension < spec_block_count(image),
        last < spec_block_count(image),
        block < spec_block_count(image),
        extension != last,
        block != extension,
        block != last,
    ensures
        spec_data_list_extension_address(spec_chain_extension_block(image, extension, header, last), block)
            == spec_data_list_extension_address(image, block),
        forall|k: int|
            0 <= k < 72 ==> #[trigger] spec_entry_at(
                spec_chain_extension_block(image, extension, header, last),
                block,
                k as usize,
            ) == spec_entry_at(image, block, k as usize),
{
    let after = spec_chain_extension_block(image, extension, header, last);
    lemma_chain_layout(image, extension, header, last);
    lemma_pointer_kept(image, after, block);
    assert forall|k: int| 0 <= k < 72 implies #[trigger] spec_entry_at(after, block, k as usize) == spec_entry_at(
        image,
        block,
        k as usize,
    ) by {
        lemma_entry_kept(image, after, block, k);
    }
}

/// A fresh list block that is chained to the last list block of a file,
/// which is full, has room for the next data block.
#[verifier::spinoff_prover]
proof fn lemma_room_chained(image: Seq<u8>, header: usize, list: Seq<FileDataBlockListEntry>, extension: usize)
    requires
        spec_table_ok(image, header, list),
        spec_list_wf(header, list),
        image.len() % 512 == 0,
        list.len() > 0,
        list.len() % 72 == 0,
        header < spec_block_count(image),
        forall|j: int| 0 <= j < list.len() ==> (#[trigger] list[j]).extension_block_address < spec_block_count(image),
        0 < extension < spec_block_count(image),
        extension < 0x1_0000_0000,
        extension != header,
        forall|j: int| 0 <= j < list.len() ==> (#[trigger] list[j]).extension_block_address != extension,
    ensures
        spec_table_room(
            spec_chain_extension_block(image, extension, header, list.last().extension_block_address),
            header,
            list,
            extension,
        ),
{
    reveal(spec_table_ok);
    let n = list.len() as int;
    let last = list[n - 1].extension_block_address;
    let after = spec_chain_extension_block(image, extension, header, last);
    assert(spec_entry_at(image, last, list[n - 1].extension_block_index) is Ok);
    lemma_chained_fresh(image, extension, header, last);
    lemma_chained_last(image, extension, header, last);
    assert forall|i: int| 0 <= i < n implies spec_entry_at(
        after,
        (#[trigger] list[i]).extension_block_address,
        list[i].extension_block_index,
    ) == Ok::<Option<FileDataBlockListEntry>, Error>(Some(list[i])) by {
        let k = list[i].extension_block_index as int;
        assert(k == i % 72);
        if list[i].extension_block_address != last {
            lemma_chained_other(image, extension, header, last, list[i].extension_block_address);
        }
        assert(spec_entry_at(after, list[i].extension_block_address, k as usize) == spec_entry_at(
            image,
            list[i].extension_block_address,
            k as usize,
        ));
    }
    assert forall|i: int| 0 <= i < n - 1 && i % 72 == 71 implies spec_data_list_extension_address(
        after,
        (#[trigger] list[i]).extension_block_address,
    ) == Ok::<Option<usize>, Error>(Some(list[i + 1].extension_block_address)) by {
        assert(i / 72 != (n - 1) / 72);
        assert(list[i].extension_block_address != list[n - 1].extension_block_address);
        lemma_chained_other(image, extension, header, last, list[i].extension_block_address);
    }
}

/// The slot that a fresh data block is put into holds it afterwards.
proof fn lemma_linked_slot(
    image: Seq<u8>,
    header: usize,
    list: Seq<FileDataBlockListEntry>,
    entry: FileDataBlockListEntry,
    filesystem_type: FilesystemType,
)
    requires
        image.len() % 512 == 0,
        0 < entry.data_block_address < spec_block_count(image),
        entry.data_block_address < 0x1_0000_0000,
        entry.extension_block_address < spec_block_count(image),
        spec_link_block(header, list) < spec_block_count(image),
        entry.extension_block_index < 72,
        entry.data_block_address != entry.extension_block_address,
        entry.data_block_address != spec_link_block(header, list),
        crate::fs::block::spec_check_has_table(image, entry.extension_block_address) is Ok,
    ensures
        spec_entry_at(
            spec_link_data_block(image, header, list, entry, filesystem_type),
            entry.extension_block_address,
            entry.extension_block_index,
        ) == Ok::<Option<FileDataBlockListEntry>, Error>(Some(entry)),
{
    let after = spec_link_data_block(image, header, list, entry, filesystem_type);
    let block = entry.extension_block_address;
    lemma_link_layout(image, header, list, entry, filesystem_type);
    assert forall|i: int| block * 512 <= i < block * 512 + 4 implies #[trigger] after[i] == image[i] by {
        lemma_link_not_changed(
            i,
            block,
            i - block * 512,
            entry.data_block_address as int,
            entry.extension_block_address as int,
            entry.extension_block_index as int,
            spec_link_block(header, list) as int,
        );
    }
    lemma_slot_kept(image, after, entry.extension_block_address as int, 0);
    assert(spec_low_u32(entry.data_block_address) == entry.data_block_address);
}

/// A slot other than the one that a fresh data block is put into holds
/// what it held.
proof fn lemma_linked_entry(
    image: Seq<u8>,
    header: usize,
    list: Seq<FileDataBlockListEntry>,
    entry: FileDataBlockListEntry,
    filesystem_type: FilesystemType,
    block: usize,
    k: int,
)
    requires
        image.len() % 512 == 0,
        entry.data_block_address < spec_block_count(image),
        entry.extension_block_address < spec_block_count(image),
        spec_link_block(header, list) < spec_block_count(image),
        entry.extension_block_index < 72,
        entry.data_block_address != entry.extension_block_address,
        entry.data_block_address != spec_link_block(header, list),
        block < spec_block_count(image),
        block != entry.data_block_address,
        0 <= k < 72,
        !(block == entry.extension_block_address && k == entry.extension_block_index),
    ensures
        spec_entry_at(spec_link_data_block(image, header, list, entry, filesystem_type), block, k as usize)
            == spec_entry_at(image, block, k as usize),
{
    let after = spec_link_data_block(image, header, list, entry, filesystem_type);
    lemma_link_layout(image, header, list, entry, filesystem_type);
    assert forall|i: int| block * 512 <= i < block * 512 + 4 implies #[trigger] after[i] == image[i] by {
        lemma_link_not_changed(
            i,
            block,
            i - block * 512,
            entry.data_block_address as int,
            entry.extension_block_address as int,
            entry.extension_block_index as int,
            spec_link_block(header, list) as int,
        );
    }
    assert forall|i: int|
        block * 512 + spec_slot(k) <= i < block * 512 + spec_slot(k) + 4 implies #[trigger] after[i]
        == image[i] by {
        lemma_link_not_changed(
            i,
            block,
            i - block * 512,
            entry.data_block_address as int,
            entry.extension_block_address as int,
            entry.extension_block_index as int,
            spec_link_block(header, list) as int,
        );
    }
    lemma_entry_kept(image, after, block, k);
}

/// The pointers to the next list blocks stay when a fresh data block is
/// put into its slot.
proof fn lemma_linked_pointer(
    image: Seq<u8>,
    header: usize,
    list: Seq<FileDataBlockListEntry>,
    entry: FileDataBlockListEntry,
    filesystem_type: FilesystemType,
    block: usize,
)
    requires
        image.len() % 512 == 0,
        entry.data_block_address < spec_block_count(image),
        entry.extension_block_address < spec_block_count(image),
        spec_link_block(header, list) < spec_block_count(image),
        entry.extension_block_index < 72,
        entry.data_block_address != entry.extension_block_address,
        entry.data_block_address != spec_link_block(header, list),
        block < spec_block_count(image),
        block != entry.data_block_address,
    ensures
        spec_data_list_extension_address(spec_link_data_block(image, header, list, entry, filesystem_type), block)
            == spec_data_list_extension_address(image, block),
{
    let after = spec_link_data_block(image, header, list, entry, filesystem_type);
    lemma_link_layout(image, header, list, entry, filesystem_type);
    assert forall|i: int| block * 512 <= i < block * 512 + 4 implies #[trigger] after[i] == image[i] by {
        lemma_link_not_changed(
            i,
            block,
            i - block * 512,
            entry.data_block_address as int,
            entry.extension_block_address as int,
            entry.extension_block_index as int,
            spec_link_block(header, list) as int,
        );
    }
    assert forall|i: int| block * 512 + 504 <= i < block * 512 + 508 implies #[trigger] after[i] == image[i] by {
        lemma_link_not_changed(
            i,
            block,
            i - block * 512,
            entry.data_block_address as int,
            entry.extension_block_address as int,
            entry.extension_block_index as int,
            spec_link_block(header, list) as int,
        );
    }
    lemma_pointer_kept(image, after, block);
}

/// A fresh data block that is put into the block that has room for it
/// makes the image hold the list with the data block at its end.
#[verifier::spinoff_prover]
proof fn lemma_table_linked(
    image: Seq<u8>,
    header: usize,
    list: Seq<FileDataBlockListEntry>,
    entry: FileDataBlockListEntry,
    filesystem_type: FilesystemType,
)
    requires
        spec_table_room(image, header, list, entry.extension_block_address),
        spec_list_wf(header, list.push(entry)),
        image.len() % 512 == 0,
        header < spec_block_count(image),
        forall|j: int| 0 <= j < list.len() ==> (#[trigger] list[j]).extension_block_address < spec_block_count(image),
        forall|j: int| 0 <= j < list.len() ==> (#[trigger] list[j]).data_block_address < spec_block_count(image),
        0 < entry.data_block_address < spec_block_count(image),
        entry.data_block_address < 0x1_0000_0000,
        entry.extension_block_address < spec_block_count(image),
    ensures
        spec_table_ok(
            spec_link_data_block(image, header, list, entry, filesystem_type),
            header,
            list.push(entry),
        ),
{
    reveal(spec_table_ok);
    let n = list.len() as int;
    let longer = list.push(entry);
    let after = spec_link_data_block(image, header, list, entry, filesystem_type);
    assert(longer[n] == entry);
    assert(entry.extension_block_index == n % 72);
    assert(forall|j: int| 0 <= j < n ==> longer[j] == list[j]);
    if n > 0 {
        assert(longer[n - 1].data_block_address != longer[n].data_block_address);
    }
    assert(longer[n].data_block_address != header);
    assert(longer[n].data_block_address != longer[n].extension_block_address);
    lemma_linked_slot(image, header, list, entry, filesystem_type);
    lemma_linked_pointer(image, header, list, entry, filesystem_type, entry.extension_block_address);
    assert forall|i: int| 0 <= i < longer.len() implies spec_entry_at(
        after,
        (#[trigger] longer[i]).extension_block_address,
        longer[i].extension_block_index,
    ) == Ok::<Option<FileDataBlockListEntry>, Error>(Some(longer[i])) by {
        if i < n {
            let k = list[i].extension_block_index as int;
            assert(longer[i].extension_block_index == i % 72);
            assert(longer[i].data_block_address != longer[n].data_block_address);
            assert(longer[n].data_block_address != longer[i].extension_block_address);
            if list[i].extension_block_address == entry.extension_block_address {
                assert(i / 72 == n / 72);
                assert(k != n % 72);
            }
            lemma_linked_entry(image, header, list, entry, filesystem_type, list[i].extension_block_address, k);
            assert(spec_entry_at(after, list[i].extension_block_address, k as usize) == spec_entry_at(
                image,
                list[i].extension_block_address,
                k as usize,
            ));
        }
    }
    assert forall|i: int| 0 <= i < longer.len() - 1 && i % 72 == 71 implies spec_data_list_extension_address(
        after,
        (#[trigger] longer[i]).extension_block_address,
    ) == Ok::<Option<usize>, Error>(Some(longer[i + 1].extension_block_address)) by {
        assert(longer[n].data_block_address != longer[i].extension_block_address);
        lemma_linked_pointer(image, header, list, entry, filesystem_type, list[i].extension_block_address);
        if i == n - 1 {
            assert(n % 72 == 0);
        } else {
            assert(longer[i + 1] == list[i + 1]);
        }
    }
    assert(spec_last_extension(header, longer) == entry.extension_block_address);
    assert(spec_last_filled(longer) == n % 72 + 1);
    assert forall|k: int| spec_last_filled(longer) <= k < 72 implies #[trigger] spec_entry_at(
        after,
        spec_last_extension(header, longer),
        k as usize,
    ) == Ok::<Option<FileDataBlockListEntry>, Error>(None) by {
        assert(spec_entry_at(image, entry.extension_block_address, k as usize) == Ok::<
            Option<FileDataBlockListEntry>,
            Error,
        >(None));
        lemma_linked_entry(image, header, list, entry, filesystem_type, entry.extension_block_address, k);
    }
}

/// Marking a block in the bitmap leaves the image holding the list of data
/// blocks of a file.
proof fn lemma_table_marked(
    image: Seq<u8>,
    pages: Seq<usize>,
    header: usize,
    list: Seq<FileDataBlockListEntry>,
    address: int,
    free: bool,
)
    requires
        spec_table_ok(image, header, list),
        spec_list_wf(header, list),
        image.len() % 512 == 0,
        spec_pages_valid(pages, spec_block_count(image)),
        spec_tracked(image, pages, address),
        header < spec_block_count(image),
        forall|k: int| 0 <= k < pages.len() ==> #[trigger] pages[k] != header,
        forall|j: int| 0 <= j < list.len() ==> (#[trigger] list[j]).extension_block_address < spec_block_count(image),
        forall|j: int, k: int|
            0 <= j < list.len() && 0 <= k < pages.len() ==> (#[trigger] list[j]).extension_block_address
                != #[trigger] pages[k],
    ensures
        spec_table_ok(spec_bitmap_update(image, pages, address, free), header, list),
{
    let after = spec_bitmap_update(image, pages, address, free);
    let page = crate::fs::bitmap::spec_page_of(pages, address);
    crate::fs::bitmap::lemma_bitmap_update_checksum(image, pages, address, free);
    assert(pages[(address - 2) / 4064] == page);
    assert forall|i: int| 0 <= i < image.len() && #[trigger] spec_in_table(header, list, i) implies after[i]
        == image[i] by {
        if page * 512 <= i < page * 512 + 512 {
            assert(i / 512 == page);
        }
    }
    lemma_table_kept(image, after, header, list);
}

/// The blocks of a file that is marked as used lie in the image and are no
/// bitmap blocks.
proof fn lemma_owned_blocks(image: Seq<u8>, pages: Seq<usize>, header: usize, list: Seq<FileDataBlockListEntry>)
    requires
        spec_list_owned(image, pages, header, list),
    ensures
        2 <= header < spec_block_count(image),
        forall|k: int| 0 <= k < pages.len() ==> #[trigger] pages[k] != header,
        forall|j: int|
            0 <= j < list.len() ==> 2 <= (#[trigger] list[j]).extension_block_address < spec_block_count(image)
                && 2 <= list[j].data_block_address < spec_block_count(image),
        forall|j: int, k: int|
            0 <= j < list.len() && 0 <= k < pages.len() ==> (#[trigger] list[j]).extension_block_address
                != #[trigger] pages[k],
{
    assert forall|j: int, k: int| 0 <= j < list.len() && 0 <= k < pages.len() implies (
    #[trigger] list[j]).extension_block_address != #[trigger] pages[k] by {
        assert(spec_owned(image, pages, list[j].extension_block_address));
    }
}

/// The place of the next data block of a file with the data block `data`
/// in it, when the header or list block `extension` is to hold it.
pub open spec fn spec_next_entry(
    list: Seq<FileDataBlockListEntry>,
    data: usize,
    extension: usize,
) -> FileDataBlockListEntry {
    FileDataBlockListEntry {
        data_block_address: data,
        extension_block_address: extension,
        extension_block_index: (list.len() % 72) as usize,
    }
}

/// A fresh data block that goes into the last header or list block of a
/// file, which is not full, makes the image hold the longer list.
#[verifier::spinoff_prover]
proof fn lemma_table_pushed_same(
    image: Seq<u8>,
    pages: Seq<usize>,
    header: usize,
    list: Seq<FileDataBlockListEntry>,
    data: usize,
    filesystem_type: FilesystemType,
)
    requires
        image.len() == 1760 * 512 || image.len() == 3520 * 512,
        spec_list_wf(header, list),
        spec_list_owned(image, pages, header, list),
        spec_owned(image, pages, data),
        spec_table_ok(image, header, list),
        list.len() == 0 || list.len() % 72 != 0,
        data != header,
        forall|i: int|
            0 <= i < list.len() ==> (#[trigger] list[i]).data_block_address != data
                && list[i].extension_block_address != data,
    ensures
        spec_table_ok(
            spec_link_data_block(
                image,
                header,
                list,
                spec_next_entry(list, data, spec_last_extension(header, list)),
                filesystem_type,
            ),
            header,
            list.push(spec_next_entry(list, data, spec_last_extension(header, list))),
        ),
{
    let entry = spec_next_entry(list, data, spec_last_extension(header, list));
    let n = list.len() as int;
    lemma_owned_blocks(image, pages, header, list);
    if n > 0 {
        assert(list[n - 1].extension_block_index == (n - 1) % 72);
        assert((n - 1) % 72 + 1 == n % 72);
        assert(list[n - 1].data_block_address != list[n - 1].extension_block_address);
        assert forall|i: int| 0 <= i < n implies (#[trigger] list[i]).data_block_address
            != entry.extension_block_address by {
            assert(list[i].data_block_address != list[n - 1].extension_block_address);
        }
    }
    crate::fs::file_lemmas::lemma_list_wf_push(header, list, entry);
    lemma_room_same_group(image, header, list);
    lemma_table_linked(image, header, list, entry, filesystem_type);
}

/// A fresh data block that goes into a fresh list block, which is chained
/// to the last list block of the file, makes the image hold the longer
/// list.
#[verifier::spinoff_prover]
proof fn lemma_table_pushed_next(
    image: Seq<u8>,
    pages: Seq<usize>,
    header: usize,
    list: Seq<FileDataBlockListEntry>,
    data: usize,
    extension: usize,
    filesystem_type: FilesystemType,
)
    requires
        image.len() == 1760 * 512 || image.len() == 3520 * 512,
        spec_list_wf(header, list),
        spec_list_owned(image, pages, header, list),
        spec_owned(image, pages, data),
        spec_owned(image, pages, extension),
        spec_table_ok(image, header, list),
        list.len() > 0,
        list.len() % 72 == 0,
        data != header,
        extension != header,
        data != extension,
        forall|i: int|
            0 <= i < list.len() ==> (#[trigger] list[i]).data_block_address != data
                && list[i].extension_block_address != data && list[i].data_block_address != extension
                && list[i].extension_block_address != extension,
    ensures
        spec_table_ok(
            spec_link_data_block(
                spec_chain_extension_block(image, extension, header, list.last().extension_block_address),
                header,
                list,
                spec_next_entry(list, data, extension),
                filesystem_type,
            ),
            header,
            list.push(spec_next_entry(list, data, extension)),
        ),
{
    let entry = spec_next_entry(list, data, extension);
    let n = list.len() as int;
    lemma_owned_blocks(image, pages, header, list);
    assert(list[n - 1].extension_block_index == (n - 1) % 72);
    crate::fs::file_lemmas::lemma_list_wf_push(header, list, entry);
    lemma_room_chained(image, header, list, extension);
    crate::fs::file_write::lemma_chain_extension_block(
        image,
        extension,
        header,
        list.last().extension_block_address,
    );
    lemma_table_linked(
        spec_chain_extension_block(image, extension, header, list.last().extension_block_address),
        header,
        list,
        entry,
        filesystem_type,
    );
}

/// Giving a file one more data block makes the image hold the list with
/// the data block at its end; when no block is left for it, the image
/// holds the list as before.
#[verifier::spinoff_prover]
pub proof fn lemma_table_pushed(
    image: Seq<u8>,
    pages: Seq<usize>,
    header: usize,
    list: Seq<FileDataBlockListEntry>,
    filesystem_type: FilesystemType,
)
    requires
        image.len() == 1760 * 512 || image.len() == 3520 * 512,
        spec_pages_valid(pages, spec_block_count(image)),
        spec_list_wf(header, list),
        spec_list_owned(image, pages, header, list),
        spec_table_ok(image, header, list),
    ensures
        ({
            let (after, res) = spec_push_data_block(image, pages, header, list, filesystem_type);
            match res {
                Ok(entry) => spec_table_ok(after, header, list.push(entry)),
                Err(_) => spec_table_ok(after, header, list),
            }
        }),
{
    crate::fs::bitmap::lemma_lowest_free(image, pages);
    lemma_owned_blocks(image, pages, header, list);
    let n = list.len() as int;
    if n > 0 {
        assert(list[n - 1].extension_block_index == (n - 1) % 72);
        assert((n - 1) % 72 < 71 <==> n % 72 != 0);
        assert((n - 1) % 72 < 71 ==> (n - 1) % 72 + 1 == n % 72);
    }
    if list.len() >= spec_block_count(image) {
    } else if list.len() == 0 || list.last().extension_block_index < 71 {
        match spec_lowest_free(image, pages) {
            None => {},
            Some(data) => {
                let taken = spec_bitmap_update(image, pages, data as int, false);
                crate::fs::file_lemmas::lemma_block_taken(image, pages, header, list, 0, data);
                lemma_table_marked(image, pages, header, list, data as int, false);
                lemma_table_pushed_same(taken, pages, header, list, data, filesystem_type);
            },
        }
    } else {
        match spec_lowest_free(image, pages) {
            None => {},
            Some(extension) => {
                let taken = spec_bitmap_update(image, pages, extension as int, false);
                crate::fs::file_lemmas::lemma_block_taken(image, pages, header, list, 0, extension);
                lemma_table_marked(image, pages, header, list, extension as int, false);
                crate::fs::bitmap::lemma_lowest_free(taken, pages);
                match spec_lowest_free(taken, pages) {
                    None => {
                        lemma_table_marked(taken, pages, header, list, extension as int, true);
                    },
                    Some(data) => {
                        let both = spec_bitmap_update(taken, pages, data as int, false);
                        crate::fs::file_lemmas::lemma_block_taken(taken, pages, header, list, 0, data);
                        lemma_table_marked(taken, pages, header, list, data as int, false);
                        assert(spec_owned(taken, pages, extension));
                        assert(spec_owned(both, pages, extension));
                        lemma_table_pushed_next(both, pages, header, list, data, extension, filesystem_type);
                    },
                }
            },
        }
    }
}

/// Whether taking the last data block from a file gives a list block
/// back: the data block was the only one in it.
pub open spec fn spec_pop_unchains(list: Seq<FileDataBlockListEntry>) -> bool {
    list.len() > 1 && list.last().extension_block_index == 0
}

/// Whether byte `i` of the image lies where taking the last data block
/// from a file may change it: in the bitmap blocks `first_page` and
/// `second_page`; in three words of the block `e`, of which one is the
/// slot `index`; in the pointer or the checksum of the block `before`,
/// when a list block is given back; or in two words before the table of
/// the block `link`.
#[verifier::opaque]
pub open spec fn spec_pop_changed(
    i: int,
    first_page: int,
    second_page: int,
    e: int,
    index: int,
    unchains: bool,
    before: int,
    link: int,
) -> bool {
    ||| first_page * 512 <= i < first_page * 512 + 512
    ||| second_page * 512 <= i < second_page * 512 + 512
    ||| e * 512 + 8 <= i < e * 512 + 12
    ||| e * 512 + 20 <= i < e * 512 + 24
    ||| e * 512 + spec_slot(index) <= i < e * 512 + spec_slot(index) + 4
    ||| unchains && (before * 512 + 504 <= i < before * 512 + 508 || before * 512 + 20 <= i < before * 512 + 24)
    ||| link * 512 + 16 <= i < link * 512 + 24
}

/// The header or list block that comes before the one that holds the last
/// data block of a file; the header block for a file with one data block.
pub open spec fn spec_pop_before(header: usize, list: Seq<FileDataBlockListEntry>) -> usize {
    if list.len() > 1 {
        list[list.len() - 2].extension_block_address
    } else {
        header
    }
}

/// The block that points at the last data block of a file in the old
/// flavour.
pub open spec fn spec_pop_link(header: usize, list: Seq<FileDataBlockListEntry>) -> usize {
    if list.len() > 1 {
        list[list.len() - 2].data_block_address
    } else {
        header
    }
}

/// What taking the last data block from a file changes, as
/// `spec_pop_changed` says; the slot is empty afterwards, and the list
/// block before one that is given back points at none.
#[verifier::spinoff_prover]
#[verifier::rlimit(100)]
proof fn lemma_pop_layout(
    image: Seq<u8>,
    pages: Seq<usize>,
    header: usize,
    list: Seq<FileDataBlockListEntry>,
    filesystem_type: FilesystemType,
)
    requires
        image.len() == 1760 * 512 || image.len() == 3520 * 512,
        spec_pages_valid(pages, spec_block_count(image)),
        spec_list_wf(header, list),
        spec_list_owned(image, pages, header, list),
        list.len() > 0,
    ensures
        spec_pop_data_block(image, pages, header, list, filesystem_type).len() == image.len(),
        forall|i: int|
            0 <= i < image.len() && !spec_pop_changed(
                i,
                crate::fs::bitmap::spec_page_of(pages, list.last().data_block_address as int),
                crate::fs::bitmap::spec_page_of(pages, list.last().extension_block_address as int),
                list.last().extension_block_address as int,
                list.last().extension_block_index as int,
                spec_pop_unchains(list),
                spec_pop_before(header, list) as int,
                spec_pop_link(header, list) as int,
            ) ==> #[trigger] spec_pop_data_block(image, pages, header, list, filesystem_type)[i] == image[i],
        spec_read_u32(
            spec_pop_data_block(image, pages, header, list, filesystem_type),
            list.last().extension_block_address as int,
            spec_slot(list.last().extension_block_index as int),
        ) == 0,
        spec_pop_unchains(list) ==> spec_read_u32(
            spec_pop_data_block(image, pages, header, list, filesystem_type),
            spec_pop_before(header, list) as int,
            504,
        ) == 0,
{
    reveal(spec_pop_changed);
    let n = list.len() as int;
    let last = list[n - 1];
    let e = last.extension_block_address as int;
    let slot = spec_slot(last.extension_block_index as int);
    assert(spec_owned(image, pages, last.data_block_address));
    assert(spec_owned(image, pages, last.extension_block_address));
    assert(last.extension_block_index == (n - 1) % 72);
    let freed = spec_bitmap_update(image, pages, last.data_block_address as int, true);
    crate::fs::bitmap::lemma_bitmap_update_checksum(image, pages, last.data_block_address as int, true);
    let unset = spec_unset_extension_block_data_block(freed, last);
    lemma_unset_extension_layout(freed, last);
    let released = spec_pop_release(image, pages, list);
    if spec_pop_unchains(list) {
        let before = list[n - 2].extension_block_address;
        assert(spec_owned(image, pages, before));
        assert(list[n - 2].extension_block_index == (n - 2) % 72);
        assert((n - 2) / 72 != (n - 1) / 72);
        assert(before != last.extension_block_address);
        let given = spec_bitmap_update(unset, pages, e, true);
        crate::fs::bitmap::lemma_bitmap_update_checksum(unset, pages, e, true);
        lemma_clear_link_layout(given, before, 504);
        lemma_slot_kept(unset, given, e, slot);
        lemma_slot_kept(given, released, e, slot);
    }
    assert(spec_read_u32(released, e, slot) == 0);
    match filesystem_type {
        FilesystemType::FFS => {},
        FilesystemType::OFS => {
            let link = spec_pop_link(header, list);
            if n > 1 {
                assert(spec_owned(image, pages, list[n - 2].data_block_address));
            }
            assert(spec_owned(image, pages, header));
            lemma_clear_link_layout(released, link, 16);
            let after = spec_clear_link(released, link, 16);
            lemma_slot_kept(released, after, e, slot);
            if spec_pop_unchains(list) {
                lemma_slot_kept(released, after, list[n - 2].extension_block_address as int, 504);
            }
        },
    }
}

/// A slot that lies where nothing may change holds what it held.
proof fn lemma_changed_entry(
    image: Seq<u8>,
    after: Seq<u8>,
    block: usize,
    k: int,
    first_page: int,
    second_page: int,
    e: int,
    index: int,
    unchains: bool,
    before: int,
    link: int,
)
    requires
        after.len() == image.len(),
        image.len() % 512 == 0,
        block < spec_block_count(image),
        0 <= k < 72,
        0 <= index < 72,
        block != first_page,
        block != second_page,
        !(block == e && k == index),
        forall|i: int|
            0 <= i < image.len() && !spec_pop_changed(i, first_page, second_page, e, index, unchains, before, link)
                ==> #[trigger] after[i] == image[i],
    ensures
        spec_entry_at(after, block, k as usize) == spec_entry_at(image, block, k as usize),
{
    assert forall|i: int| block * 512 <= i < block * 512 + 4 implies #[trigger] after[i] == image[i] by {
        lemma_not_changed(i, block, i - block * 512, first_page, second_page, e, index, unchains, before, link);
    }
    assert forall|i: int|
        block * 512 + spec_slot(k) <= i < block * 512 + spec_slot(k) + 4 implies #[trigger] after[i]
        == image[i] by {
        lemma_not_changed(i, block, i - block * 512, first_page, second_page, e, index, unchains, before, link);
    }
    lemma_entry_kept(image, after, block, k);
}

/// A byte of the type word, of the table or of the pointer of a block lies
/// where nothing may change, but for the slot and the pointer that do
/// change.
proof fn lemma_not_changed(
    i: int,
    block: usize,
    offset: int,
    first_page: int,
    second_page: int,
    e: int,
    index: int,
    unchains: bool,
    before: int,
    link: int,
)
    requires
        i == block * 512 + offset,
        0 <= offset < 8 || 24 <= offset < 512,
        0 <= index < 72,
        block != first_page,
        block != second_page,
        !(block == e && spec_slot(index) <= offset < spec_slot(index) + 4),
        !(unchains && block == before && 504 <= offset < 508),
    ensures
        !spec_pop_changed(i, first_page, second_page, e, index, unchains, before, link),
{
    reveal(spec_pop_changed);
}

/// A pointer to the next list block that lies where nothing may change
/// points where it pointed.
proof fn lemma_changed_pointer(
    image: Seq<u8>,
    after: Seq<u8>,
    block: usize,
    first_page: int,
    second_page: int,
    e: int,
    index: int,
    unchains: bool,
    before: int,
    link: int,
)
    requires
        after.len() == image.len(),
        image.len() % 512 == 0,
        block < spec_block_count(image),
        0 <= index < 72,
        block != first_page,
        block != second_page,
        !(unchains && block == before),
        forall|i: int|
            0 <= i < image.len() && !spec_pop_changed(i, first_page, second_page, e, index, unchains, before, link)
                ==> #[trigger] after[i] == image[i],
    ensures
        spec_data_list_extension_address(after, block) == spec_data_list_extension_address(image, block),
        crate::fs::block::spec_check_has_table(after, block) == crate::fs::block::spec_check_has_table(image, block),
{
    assert forall|i: int| block * 512 <= i < block * 512 + 4 implies #[trigger] after[i] == image[i] by {
        lemma_not_changed(i, block, i - block * 512, first_page, second_page, e, index, unchains, before, link);
    }
    assert forall|i: int| block * 512 + 504 <= i < block * 512 + 508 implies #[trigger] after[i] == image[i] by {
        lemma_not_changed(i, block, i - block * 512, first_page, second_page, e, index, unchains, before, link);
    }
    lemma_pointer_kept(image, after, block);
    lemma_slot_kept(image, after, block as int, 0);
}

/// The blocks of a file are none of the bitmap blocks that mark its last
/// data block and the block that holds it.
proof fn lemma_pop_pages(
    image: Seq<u8>,
    pages: Seq<usize>,
    header: usize,
    list: Seq<FileDataBlockListEntry>,
    block: usize,
)
    requires
        image.len() == 1760 * 512 || image.len() == 3520 * 512,
        spec_pages_valid(pages, spec_block_count(image)),
        spec_list_owned(image, pages, header, list),
        list.len() > 0,
        spec_owned(image, pages, block),
    ensures
        block < spec_block_count(image),
        block != crate::fs::bitmap::spec_page_of(pages, list.last().data_block_address as int),
        block != crate::fs::bitmap::spec_page_of(pages, list.last().extension_block_address as int),
{
    let last = list[list.len() - 1];
    assert(spec_owned(image, pages, last.data_block_address));
    assert(spec_owned(image, pages, last.extension_block_address));
    assert(pages[(last.data_block_address - 2) / 4064] != block);
    assert(pages[(last.extension_block_address - 2) / 4064] != block);
}

/// A slot other than the one that the last data block is taken out of
/// holds what it held.
proof fn lemma_popped_entry(
    image: Seq<u8>,
    pages: Seq<usize>,
    header: usize,
    list: Seq<FileDataBlockListEntry>,
    filesystem_type: FilesystemType,
    block: usize,
    k: int,
)
    requires
        image.len() == 1760 * 512 || image.len() == 3520 * 512,
        spec_pages_valid(pages, spec_block_count(image)),
        spec_list_wf(header, list),
        spec_list_owned(image, pages, header, list),
        list.len() > 0,
        spec_owned(image, pages, block),
        0 <= k < 72,
        !(block == list.last().extension_block_address && k == list.last().extension_block_index),
    ensures
        spec_entry_at(spec_pop_data_block(image, pages, header, list, filesystem_type), block, k as usize)
            == spec_entry_at(image, block, k as usize),
{
    let after = spec_pop_data_block(image, pages, header, list, filesystem_type);
    assert(list[list.len() - 1].extension_block_index == (list.len() - 1) % 72);
    lemma_pop_pages(image, pages, header, list, block);
    lemma_pop_layout(image, pages, header, list, filesystem_type);
    lemma_changed_entry(
        image,
        after,
        block,
        k,
        crate::fs::bitmap::spec_page_of(pages, list.last().data_block_address as int),
        crate::fs::bitmap::spec_page_of(pages, list.last().extension_block_address as int),
        list.last().extension_block_address as int,
        list.last().extension_block_index as int,
        spec_pop_unchains(list),
        spec_pop_before(header, list) as int,
        spec_pop_link(header, list) as int,
    );
}

/// The pointers to the next list blocks stay when the last data block is
/// taken from a file, but for the one that pointed at a list block that is
/// given back.
proof fn lemma_popped_pointer(
    image: Seq<u8>,
    pages: Seq<usize>,
    header: usize,
    list: Seq<FileDataBlockListEntry>,
    filesystem_type: FilesystemType,
    block: usize,
)
    requires
        image.len() == 1760 * 512 || image.len() == 3520 * 512,
        spec_pages_valid(pages, spec_block_count(image)),
        spec_list_wf(header, list),
        spec_list_owned(image, pages, header, list),
        list.len() > 0,
        spec_owned(image, pages, block),
        !(spec_pop_unchains(list) && block == spec_pop_before(header, list)),
    ensures
        spec_data_list_extension_address(spec_pop_data_block(image, pages, header, list, filesystem_type), block)
            == spec_data_list_extension_address(image, block),
        crate::fs::block::spec_check_has_table(
            spec_pop_data_block(image, pages, header, list, filesystem_type),
            block,
        ) == crate::fs::block::spec_check_has_table(image, block),
{
    let after = spec_pop_data_block(image, pages, header, list, filesystem_type);
    assert(list[list.len() - 1].extension_block_index == (list.len() - 1) % 72);
    lemma_pop_pages(image, pages, header, list, block);
    lemma_pop_layout(image, pages, header, list, filesystem_type);
    lemma_changed_pointer(
        image,
        after,
        block,
        crate::fs::bitmap::spec_page_of(pages, list.last().data_block_address as int),
        crate::fs::bitmap::spec_page_of(pages, list.last().extension_block_address as int),
        list.last().extension_block_address as int,
        list.last().extension_block_index as int,
        spec_pop_unchains(list),
        spec_pop_before(header, list) as int,
        spec_pop_link(header, list) as int,
    );
}

/// The type word of a block that lies where nothing but its pointer and
/// its table may change is what it was.
proof fn lemma_changed_type(
    image: Seq<u8>,
    after: Seq<u8>,
    block: usize,
    first_page: int,
    second_page: int,
    e: int,
    index: int,
    unchains: bool,
    before: int,
    link: int,
)
    requires
        after.len() == image.len(),
        image.len() % 512 == 0,
        block < spec_block_count(image),
        0 <= index < 72,
        block != first_page,
        block != second_page,
        forall|i: int|
            0 <= i < image.len() && !spec_pop_changed(i, first_page, second_page, e, index, unchains, before, link)
                ==> #[trigger] after[i] == image[i],
    ensures
        crate::fs::block::spec_check_has_table(after, block) == crate::fs::block::spec_check_has_table(image, block),
{
    assert forall|i: int| block * 512 <= i < block * 512 + 4 implies #[trigger] after[i] == image[i] by {
        lemma_not_changed(i, block, i - block * 512, first_page, second_page, e, index, unchains, before, link);
    }
    lemma_slot_kept(image, after, block as int, 0);
}

/// The slot that the last data block of a file is taken out of is empty
/// afterwards; and the list block before a list block that is given back
/// points at none.
proof fn lemma_popped_slot(
    image: Seq<u8>,
    pages: Seq<usize>,
    header: usize,
    list: Seq<FileDataBlockListEntry>,
    filesystem_type: FilesystemType,
)
    requires
        image.len() == 1760 * 512 || image.len() == 3520 * 512,
        spec_pages_valid(pages, spec_block_count(image)),
        spec_list_wf(header, list),
        spec_list_owned(image, pages, header, list),
        list.len() > 0,
        crate::fs::block::spec_check_has_table(image, list.last().extension_block_address) is Ok,
        spec_pop_unchains(list) ==> crate::fs::block::spec_check_has_table(
            image,
            spec_pop_before(header, list),
        ) is Ok,
    ensures
        spec_entry_at(
            spec_pop_data_block(image, pages, header, list, filesystem_type),
            list.last().extension_block_address,
            list.last().extension_block_index,
        ) == Ok::<Option<FileDataBlockListEntry>, Error>(None),
        spec_pop_unchains(list) ==> spec_data_list_extension_address(
            spec_pop_data_block(image, pages, header, list, filesystem_type),
            spec_pop_before(header, list),
        ) == Ok::<Option<usize>, Error>(None),
{
    let n = list.len() as int;
    let last = list[n - 1];
    let after = spec_pop_data_block(image, pages, header, list, filesystem_type);
    let first_page = crate::fs::bitmap::spec_page_of(pages, last.data_block_address as int);
    let second_page = crate::fs::bitmap::spec_page_of(pages, last.extension_block_address as int);
    assert(spec_owned(image, pages, last.extension_block_address));
    assert(last.extension_block_index == (n - 1) % 72);
    lemma_pop_pages(image, pages, header, list, last.extension_block_address);
    lemma_pop_layout(image, pages, header, list, filesystem_type);
    lemma_changed_type(
        image,
        after,
        last.extension_block_address,
        first_page,
        second_page,
        last.extension_block_address as int,
        last.extension_block_index as int,
        spec_pop_unchains(list),
        spec_pop_before(header, list) as int,
        spec_pop_link(header, list) as int,
    );
    if spec_pop_unchains(list) {
        let before = list[n - 2].extension_block_address;
        assert(spec_owned(image, pages, before));
        lemma_pop_pages(image, pages, header, list, before);
        lemma_changed_type(
            image,
            after,
            before,
            first_page,
            second_page,
            last.extension_block_address as int,
            last.extension_block_index as int,
            spec_pop_unchains(list),
            spec_pop_before(header, list) as int,
            spec_pop_link(header, list) as int,
        );
    }
}

/// Taking the last data block from a file makes the image hold the list
/// without it.
#[verifier::spinoff_prover]
pub proof fn lemma_table_popped(
    image: Seq<u8>,
    pages: Seq<usize>,
    header: usize,
    list: Seq<FileDataBlockListEntry>,
    filesystem_type: FilesystemType,
)
    requires
        image.len() == 1760 * 512 || image.len() == 3520 * 512,
        spec_pages_valid(pages, spec_block_count(image)),
        spec_list_wf(header, list),
        spec_list_owned(image, pages, header, list),
        spec_table_ok(image, header, list),
        list.len() > 0,
    ensures
        spec_table_ok(spec_pop_data_block(image, pages, header, list, filesystem_type), header, list.drop_last()),
{
    reveal(spec_table_ok);
    let n = list.len() as int;
    let last = list[n - 1];
    let shorter = list.drop_last();
    let after = spec_pop_data_block(image, pages, header, list, filesystem_type);
    assert(last.extension_block_index == (n - 1) % 72);
    assert(spec_entry_at(image, last.extension_block_address, last.extension_block_index) is Ok);
    if n > 1 {
        assert(list[n - 2].extension_block_index == (n - 2) % 72);
        assert(spec_entry_at(image, list[n - 2].extension_block_address, list[n - 2].extension_block_index) is Ok);
    }
    assert(spec_pop_unchains(list) ==> spec_pop_before(header, list) == list[n - 2].extension_block_address);
    lemma_popped_slot(image, pages, header, list, filesystem_type);
    assert forall|i: int| 0 <= i < shorter.len() implies spec_entry_at(
        after,
        (#[trigger] shorter[i]).extension_block_address,
        shorter[i].extension_block_index,
    ) == Ok::<Option<FileDataBlockListEntry>, Error>(Some(shorter[i])) by {
        assert(shorter[i] == list[i]);
        let k = list[i].extension_block_index as int;
        assert(k == i % 72);
        if list[i].extension_block_address == last.extension_block_address {
            assert(i / 72 == (n - 1) / 72);
        }
        assert(spec_owned(image, pages, list[i].extension_block_address));
        lemma_popped_entry(image, pages, header, list, filesystem_type, list[i].extension_block_address, k);
        assert(spec_entry_at(after, list[i].extension_block_address, k as usize) == spec_entry_at(
            image,
            list[i].extension_block_address,
            k as usize,
        ));
    }
    assert forall|i: int| 0 <= i < shorter.len() - 1 && i % 72 == 71 implies spec_data_list_extension_address(
        after,
        (#[trigger] shorter[i]).extension_block_address,
    ) == Ok::<Option<usize>, Error>(Some(shorter[i + 1].extension_block_address)) by {
        assert(shorter[i] == list[i] && shorter[i + 1] == list[i + 1]);
        assert(spec_owned(image, pages, list[i].extension_block_address));
        if spec_pop_unchains(list) {
            assert(i / 72 != (n - 2) / 72);
            assert(list[i].extension_block_address != list[n - 2].extension_block_address);
        }
        lemma_popped_pointer(image, pages, header, list, filesystem_type, list[i].extension_block_address);
    }
    let block = spec_last_extension(header, shorter);
    if n > 1 {
        assert(shorter[n - 2] == list[n - 2]);
        assert(block == list[n - 2].extension_block_address);
        assert(spec_owned(image, pages, block));
        if !spec_pop_unchains(list) {
            assert((n - 2) / 72 == (n - 1) / 72);
            assert(block == last.extension_block_address);
            assert(spec_last_filled(shorter) == last.extension_block_index);
        } else {
            assert(spec_last_filled(shorter) == 72);
        }
    } else {
        assert(list[0].extension_block_address == header);
        assert(block == last.extension_block_address);
        assert(spec_last_filled(shorter) == 0);
    }
    assert(spec_owned(image, pages, header));
    if !spec_pop_unchains(list) {
        assert(block == spec_last_extension(header, list));
        lemma_popped_pointer(image, pages, header, list, filesystem_type, block);
    }
    assert forall|k: int| spec_last_filled(shorter) <= k < 72 implies #[trigger] spec_entry_at(
        after,
        block,
        k as usize,
    ) == Ok::<Option<FileDataBlockListEntry>, Error>(None) by {
        if k != last.extension_block_index {
            lemma_popped_entry(image, pages, header, list, filesystem_type, block, k);
            assert(spec_entry_at(image, spec_last_extension(header, list), k as usize) == Ok::<
                Option<FileDataBlockListEntry>,
                Error,
            >(None));
        }
    }
}

/// Whether block `header` reads as the header block of a file: it is a
/// header block of the secondary type of files, and it holds a name.
pub open spec fn spec_file_header(image: Seq<u8>, header: usize) -> bool {
    &&& spec_name_bytes(image, header) is Ok
    &&& spec_block_secondary_type(image, header) == Ok::<BlockSecondaryType, Error>(BlockSecondaryType::File)
}

/// Whether block `header` holds the same two types and the same name in
/// both images.
pub open spec fn spec_same_identity(before: Seq<u8>, after: Seq<u8>, header: usize) -> bool {
    &&& forall|i: int| header * 512 <= i < header * 512 + 4 ==> #[trigger] after[i] == before[i]
    &&& forall|i: int| header * 512 + 432 <= i < header * 512 + 464 ==> #[trigger] after[i] == before[i]
    &&& forall|i: int| header * 512 + 508 <= i < header * 512 + 512 ==> #[trigger] after[i] == before[i]
}

/// A block that holds the same two types and the same name in two images
/// reads as the header block of a file in both or in none.
proof fn lemma_header_kept(before: Seq<u8>, after: Seq<u8>, header: usize)
    requires
        after.len() == before.len(),
        before.len() % 512 == 0,
        header < spec_block_count(before),
        spec_same_identity(before, after, header),
    ensures
        spec_file_header(after, header) == spec_file_header(before, header),
        spec_name_bytes(after, header) == spec_name_bytes(before, header),
{
    lemma_slot_kept(before, after, header as int, 0);
    lemma_slot_kept(before, after, header as int, 508);
    crate::fs::frame::lemma_same_range_reads(before, after, header as int, 432, 464);
    let len = crate::block::spec_read_u8(before, header as int, 432);
    assert(crate::block::spec_read_u8(after, header as int, 432) == len);
    if len <= 30 {
        assert(crate::block::spec_read_bytes(after, header as int, 433, len as int) == crate::block::spec_read_bytes(
            before,
            header as int,
            433,
            len as int,
        ));
    }
}

/// Whether the image holds the file whose header block is `header` with
/// the list of data blocks `list`: the header block reads as that of a
/// file, and the list is what is read from it.
#[verifier::opaque]
pub open spec fn spec_listed(image: Seq<u8>, header: usize, list: Seq<FileDataBlockListEntry>) -> bool {
    spec_table_ok(image, header, list) && spec_file_header(image, header)
}

/// A change that touches neither the header block nor a list block of a
/// file leaves the image holding the file.
pub proof fn lemma_listed_outside(
    before: Seq<u8>,
    after: Seq<u8>,
    header: usize,
    list: Seq<FileDataBlockListEntry>,
    touched: Set<int>,
)
    requires
        spec_listed(before, header, list),
        spec_list_wf(header, list),
        after.len() == before.len(),
        before.len() % 512 == 0,
        header < spec_block_count(before),
        forall|j: int| 0 <= j < list.len() ==> (#[trigger] list[j]).extension_block_address < spec_block_count(before),
        crate::fs::frame::spec_unchanged_outside(before, after, touched),
        !touched.contains(header as int),
        forall|j: int| 0 <= j < list.len() ==> !touched.contains((#[trigger] list[j]).extension_block_address as int),
    ensures
        spec_listed(after, header, list),
{
    reveal(spec_listed);
    assert forall|i: int| 0 <= i < before.len() && #[trigger] spec_in_table(header, list, i) implies after[i]
        == before[i] by {
        assert(!touched.contains(i / 512));
    }
    lemma_table_kept(before, after, header, list);
    assert(spec_same_identity(before, after, header)) by {
        assert forall|i: int| header * 512 <= i < header * 512 + 512 implies #[trigger] after[i] == before[i] by {
            assert(i / 512 == header);
            assert(!touched.contains(i / 512));
        }
    }
    lemma_header_kept(before, after, header);
}

/// A change of the header block of a file that leaves alone its two types,
/// its name, its table and its pointer to the next list block leaves the
/// image holding the file.
proof fn lemma_listed_header(before: Seq<u8>, after: Seq<u8>, header: usize, list: Seq<FileDataBlockListEntry>)
    requires
        spec_listed(before, header, list),
        spec_list_wf(header, list),
        after.len() == before.len(),
        before.len() % 512 == 0,
        header < spec_block_count(before),
        forall|j: int| 0 <= j < list.len() ==> (#[trigger] list[j]).extension_block_address < spec_block_count(before),
        forall|i: int|
            0 <= i < before.len() && !(header * 512 + 8 <= i < header * 512 + 24) && !(header * 512 + 312 <= i
                < header * 512 + 432) ==> #[trigger] after[i] == before[i],
    ensures
        spec_listed(after, header, list),
{
    reveal(spec_listed);
    assert forall|i: int| 0 <= i < before.len() && #[trigger] spec_in_table(header, list, i) implies after[i]
        == before[i] by {
        if i / 512 == header {
            assert(i == header * 512 + i % 512);
        }
    }
    lemma_table_kept(before, after, header, list);
    lemma_header_kept(before, after, header);
}

/// Bringing the header block of a file up to date leaves the image holding
/// the file, and the header block holds the size of the file afterwards.
pub proof fn lemma_listed_synced(
    image: Seq<u8>,
    header: usize,
    list: Seq<FileDataBlockListEntry>,
    mode: usize,
    size: usize,
    date_time: u64,
)
    requires
        spec_listed(image, header, list),
        spec_list_wf(header, list),
        image.len() % 512 == 0,
        header < spec_block_count(image),
        forall|j: int| 0 <= j < list.len() ==> (#[trigger] list[j]).extension_block_address < spec_block_count(image),
    ensures
        spec_listed(crate::fs::file_write::spec_sync_all(image, header, mode, size, date_time), header, list),
        crate::fs::file::spec_test_file_mode(crate::fs::file::FileMode::Write, mode) ==> spec_read_u32(
            crate::fs::file_write::spec_sync_all(image, header, mode, size, date_time),
            header as int,
            324,
        ) == spec_low_u32(size),
{
    let after = crate::fs::file_write::spec_sync_all(image, header, mode, size, date_time);
    if crate::fs::file::spec_test_file_mode(crate::fs::file::FileMode::Write, mode) {
        let sized = spec_write_u32(image, header as int, 324, spec_low_u32(size));
        crate::block::lemma_u32_be_roundtrip(spec_low_u32(size));
        assert(crate::block::spec_read_bytes(sized, header as int, 324, 4) =~= crate::block::spec_u32_to_be_bytes(
            spec_low_u32(size),
        ));
        lemma_slot_kept(sized, after, header as int, 324);
        lemma_listed_header(image, after, header, list);
    }
}

/// Setting the date of change of a file leaves the image holding the
/// file, and the size that its header block holds.
pub proof fn lemma_listed_dated(image: Seq<u8>, header: usize, list: Seq<FileDataBlockListEntry>, date_time: u64)
    requires
        spec_listed(image, header, list),
        spec_list_wf(header, list),
        image.len() % 512 == 0,
        header < spec_block_count(image),
        forall|j: int| 0 <= j < list.len() ==> (#[trigger] list[j]).extension_block_address < spec_block_count(image),
    ensures
        spec_listed(crate::fs::file_set_time::spec_set_time(image, header, date_time), header, list),
        spec_read_u32(crate::fs::file_set_time::spec_set_time(image, header, date_time), header as int, 324)
            == spec_read_u32(image, header as int, 324),
{
    let after = crate::fs::file_set_time::spec_set_time(image, header, date_time);
    lemma_listed_header(image, after, header, list);
    lemma_slot_kept(image, after, header as int, 324);
}

/// Marking a block in the bitmap leaves the types and the name of a
/// header block that is no bitmap block as they are.
proof fn lemma_identity_marked(image: Seq<u8>, pages: Seq<usize>, header: usize, address: int, free: bool)
    requires
        image.len() % 512 == 0,
        spec_pages_valid(pages, spec_block_count(image)),
        spec_tracked(image, pages, address),
        header < spec_block_count(image),
        forall|k: int| 0 <= k < pages.len() ==> #[trigger] pages[k] != header,
    ensures
        spec_same_identity(image, spec_bitmap_update(image, pages, address, free), header),
        spec_bitmap_update(image, pages, address, free).len() == image.len(),
{
    let page = crate::fs::bitmap::spec_page_of(pages, address);
    crate::fs::bitmap::lemma_bitmap_update_checksum(image, pages, address, free);
    assert(pages[(address - 2) / 4064] == page);
}

/// Chaining a fresh list block to a list block of a file leaves the types
/// and the name of the header block as they are.
proof fn lemma_identity_chained(image: Seq<u8>, extension: usize, header: usize, last: usize)
    requires
        image.len() % 512 == 0,
        extension < spec_block_count(image),
        last < spec_block_count(image),
        header < spec_block_count(image),
        extension != last,
        extension != header,
    ensures
        spec_same_identity(image, spec_chain_extension_block(image, extension, header, last), header),
        spec_chain_extension_block(image, extension, header, last).len() == image.len(),
{
    lemma_chain_layout(image, extension, header, last);
}

/// Making a fresh data block part of a file leaves the types and the name
/// of the header block as they are.
proof fn lemma_identity_linked(
    image: Seq<u8>,
    header: usize,
    list: Seq<FileDataBlockListEntry>,
    entry: FileDataBlockListEntry,
    filesystem_type: FilesystemType,
)
    requires
        image.len() % 512 == 0,
        entry.data_block_address < spec_block_count(image),
        entry.extension_block_address < spec_block_count(image),
        spec_link_block(header, list) < spec_block_count(image),
        header < spec_block_count(image),
        entry.extension_block_index < 72,
        entry.data_block_address != entry.extension_block_address,
        entry.data_block_address != spec_link_block(header, list),
        entry.data_block_address != header,
    ensures
        spec_same_identity(image, spec_link_data_block(image, header, list, entry, filesystem_type), header),
        spec_link_data_block(image, header, list, entry, filesystem_type).len() == image.len(),
{
    let after = spec_link_data_block(image, header, list, entry, filesystem_type);
    lemma_link_layout(image, header, list, entry, filesystem_type);
    assert forall|i: int|
        header * 512 <= i < header * 512 + 4 || header * 512 + 432 <= i < header * 512 + 464 || header * 512 + 508
            <= i < header * 512 + 512 implies #[trigger] after[i] == image[i] by {
        lemma_link_not_changed(
            i,
            header,
            i - header * 512,
            entry.data_block_address as int,
            entry.extension_block_address as int,
            entry.extension_block_index as int,
            spec_link_block(header, list) as int,
        );
    }
}

/// What leaves the types and the name of a header block as they are step
/// by step leaves them as they are.
proof fn lemma_identity_trans(first: Seq<u8>, second: Seq<u8>, third: Seq<u8>, header: usize)
    requires
        spec_same_identity(first, second, header),
        spec_same_identity(second, third, header),
    ensures
        spec_same_identity(first, third, header),
{
    assert forall|i: int| header * 512 <= i < header * 512 + 4 implies #[trigger] third[i] == first[i] by {
        assert(second[i] == first[i]);
    }
    assert forall|i: int| header * 512 + 432 <= i < header * 512 + 464 implies #[trigger] third[i] == first[i] by {
        assert(second[i] == first[i]);
    }
    assert forall|i: int| header * 512 + 508 <= i < header * 512 + 512 implies #[trigger] third[i] == first[i] by {
        assert(second[i] == first[i]);
    }
}

/// Giving a file one more data block leaves the types and the name of its
/// header block as they are.
#[verifier::spinoff_prover]
#[verifier::rlimit(100)]
proof fn lemma_identity_pushed(
    image: Seq<u8>,
    pages: Seq<usize>,
    header: usize,
    list: Seq<FileDataBlockListEntry>,
    filesystem_type: FilesystemType,
)
    requires
        image.len() == 1760 * 512 || image.len() == 3520 * 512,
        spec_pages_valid(pages, spec_block_count(image)),
        spec_list_wf(header, list),
        spec_list_owned(image, pages, header, list),
    ensures
        spec_same_identity(image, spec_push_data_block(image, pages, header, list, filesystem_type).0, header),
        spec_push_data_block(image, pages, header, list, filesystem_type).0.len() == image.len(),
{
    crate::fs::bitmap::lemma_lowest_free(image, pages);
    lemma_owned_blocks(image, pages, header, list);
    let n = list.len() as int;
    if n > 0 {
        assert(list[n - 1].extension_block_index == (n - 1) % 72);
    }
    if list.len() >= spec_block_count(image) {
    } else if list.len() == 0 || list.last().extension_block_index < 71 {
        match spec_lowest_free(image, pages) {
            None => {},
            Some(data) => {
                let entry = FileDataBlockListEntry {
                    data_block_address: data,
                    extension_block_address: if list.len() == 0 {
                        header
                    } else {
                        list.last().extension_block_address
                    },
                    extension_block_index: if list.len() == 0 {
                        0
                    } else {
                        (list.last().extension_block_index + 1) as usize
                    },
                };
                let taken = spec_bitmap_update(image, pages, data as int, false);
                crate::fs::file_lemmas::lemma_block_taken(image, pages, header, list, 0, data);
                lemma_identity_marked(image, pages, header, data as int, false);
                lemma_identity_linked(taken, header, list, entry, filesystem_type);
                lemma_identity_trans(
                    image,
                    taken,
                    spec_link_data_block(taken, header, list, entry, filesystem_type),
                    header,
                );
            },
        }
    } else {
        match spec_lowest_free(image, pages) {
            None => {},
            Some(extension) => {
                let taken = spec_bitmap_update(image, pages, extension as int, false);
                crate::fs::file_lemmas::lemma_block_taken(image, pages, header, list, 0, extension);
                lemma_identity_marked(image, pages, header, extension as int, false);
                crate::fs::bitmap::lemma_lowest_free(taken, pages);
                match spec_lowest_free(taken, pages) {
                    None => {
                        lemma_identity_marked(taken, pages, header, extension as int, true);
                        lemma_identity_trans(
                            image,
                            taken,
                            spec_bitmap_update(taken, pages, extension as int, true),
                            header,
                        );
                    },
                    Some(data) => {
                        let entry = FileDataBlockListEntry {
                            data_block_address: data,
                            extension_block_address: extension,
                            extension_block_index: 0,
                        };
                        let both = spec_bitmap_update(taken, pages, data as int, false);
                        crate::fs::file_lemmas::lemma_block_taken(taken, pages, header, list, 0, data);
                        lemma_identity_marked(taken, pages, header, data as int, false);
                        lemma_identity_trans(image, taken, both, header);
                        assert(spec_owned(taken, pages, extension));
                        let last = list.last().extension_block_address;
                        let chained = spec_chain_extension_block(both, extension, header, last);
                        lemma_identity_chained(both, extension, header, last);
                        lemma_identity_trans(image, both, chained, header);
                        lemma_identity_linked(chained, header, list, entry, filesystem_type);
                        lemma_identity_trans(
                            image,
                            chained,
                            spec_link_data_block(chained, header, list, entry, filesystem_type),
                            header,
                        );
                    },
                }
            },
        }
    }
}

/// Taking the last data block from a file leaves the types and the name
/// of its header block as they are.
#[verifier::spinoff_prover]
proof fn lemma_identity_popped(
    image: Seq<u8>,
    pages: Seq<usize>,
    header: usize,
    list: Seq<FileDataBlockListEntry>,
    filesystem_type: FilesystemType,
)
    requires
        image.len() == 1760 * 512 || image.len() == 3520 * 512,
        spec_pages_valid(pages, spec_block_count(image)),
        spec_list_wf(header, list),
        spec_list_owned(image, pages, header, list),
        list.len() > 0,
    ensures
        spec_same_identity(image, spec_pop_data_block(image, pages, header, list, filesystem_type), header),
        spec_pop_data_block(image, pages, header, list, filesystem_type).len() == image.len(),
{
    let after = spec_pop_data_block(image, pages, header, list, filesystem_type);
    assert(list[list.len() - 1].extension_block_index == (list.len() - 1) % 72);
    assert(spec_owned(image, pages, header));
    lemma_pop_pages(image, pages, header, list, header);
    lemma_pop_layout(image, pages, header, list, filesystem_type);
    assert forall|i: int|
        header * 512 <= i < header * 512 + 4 || header * 512 + 432 <= i < header * 512 + 464 || header * 512 + 508
            <= i < header * 512 + 512 implies #[trigger] after[i] == image[i] by {
        lemma_not_changed(
            i,
            header,
            i - header * 512,
            crate::fs::bitmap::spec_page_of(pages, list.last().data_block_address as int),
            crate::fs::bitmap::spec_page_of(pages, list.last().extension_block_address as int),
            list.last().extension_block_address as int,
            list.last().extension_block_index as int,
            spec_pop_unchains(list),
            spec_pop_before(header, list) as int,
            spec_pop_link(header, list) as int,
        );
    }
}

/// Giving a file one more data block makes the image hold the file with
/// the data block at the end of its list; when no block is left for it,
/// the image holds the file as before.
pub proof fn lemma_listed_pushed(
    image: Seq<u8>,
    pages: Seq<usize>,
    header: usize,
    list: Seq<FileDataBlockListEntry>,
    filesystem_type: FilesystemType,
)
    requires
        image.len() == 1760 * 512 || image.len() == 3520 * 512,
        spec_pages_valid(pages, spec_block_count(image)),
        spec_list_wf(header, list),
        spec_list_owned(image, pages, header, list),
        spec_listed(image, header, list),
    ensures
        ({
            let (after, res) = spec_push_data_block(image, pages, header, list, filesystem_type);
            match res {
                Ok(entry) => spec_listed(after, header, list.push(entry)),
                Err(_) => spec_listed(after, header, list),
            }
        }),
{
    reveal(spec_listed);
    lemma_table_pushed(image, pages, header, list, filesystem_type);
    lemma_identity_pushed(image, pages, header, list, filesystem_type);
    lemma_header_kept(image, spec_push_data_block(image, pages, header, list, filesystem_type).0, header);
}

/// Taking the last data block from a file makes the image hold the file
/// without it.
pub proof fn lemma_listed_popped(
    image: Seq<u8>,
    pages: Seq<usize>,
    header: usize,
    list: Seq<FileDataBlockListEntry>,
    filesystem_type: FilesystemType,
)
    requires
        image.len() == 1760 * 512 || image.len() == 3520 * 512,
        spec_pages_valid(pages, spec_block_count(image)),
        spec_list_wf(header, list),
        spec_list_owned(image, pages, header, list),
        spec_listed(image, header, list),
        list.len() > 0,
    ensures
        spec_listed(spec_pop_data_block(image, pages, header, list, filesystem_type), header, list.drop_last()),
{
    reveal(spec_listed);
    lemma_table_popped(image, pages, header, list, filesystem_type);
    lemma_identity_popped(image, pages, header, list, filesystem_type);
    assert(spec_owned(image, pages, header));
    lemma_header_kept(image, spec_pop_data_block(image, pages, header, list, filesystem_type), header);
}

impl File {
    /// Whether the volume holds the file as the handle has it: its header
    /// block reads as that of a file, and the list of data blocks that is
    /// read from it is the list of the handle.
    pub open spec fn listed(&self, fs: &AmigaDos) -> bool {
        spec_listed(fs@, self.header_block_address, self.block_data_list@)
    }

    /// Whether the volume holds the file as the handle has it, its size
    /// too.
    pub open spec fn stored(&self, fs: &AmigaDos) -> bool {
        self.listed(fs) && spec_read_u32(fs@, self.header_block_address as int, 324) == self.size
    }
}

/// Writing into the payload of a data block of a file leaves the image
/// holding the file.
pub proof fn lemma_listed_written(
    image: Seq<u8>,
    pages: Seq<usize>,
    header: usize,
    list: Seq<FileDataBlockListEntry>,
    index: int,
    data_pos: usize,
    chunk: Seq<u8>,
    filesystem_type: FilesystemType,
)
    requires
        image.len() == 1760 * 512 || image.len() == 3520 * 512,
        spec_list_wf(header, list),
        spec_list_owned(image, pages, header, list),
        spec_listed(image, header, list),
        0 <= index < list.len(),
        crate::fs::file_write::spec_payload_offset(filesystem_type) + data_pos + chunk.len() <= 512,
    ensures
        spec_listed(
            crate::fs::file_write::spec_write_data(
                image,
                list[index].data_block_address,
                crate::fs::file_write::spec_payload_offset(filesystem_type) as usize,
                data_pos,
                chunk,
                filesystem_type,
            ),
            header,
            list,
        ),
{
    let data = list[index].data_block_address;
    lemma_owned_blocks(image, pages, header, list);
    crate::fs::file_write::lemma_write_data(image, data, data_pos, chunk, filesystem_type);
    assert forall|j: int| 0 <= j < list.len() implies (#[trigger] list[j]).extension_block_address != data by {
        assert(list[index].data_block_address != list[j].extension_block_address);
    }
    lemma_listed_outside(
        image,
        crate::fs::file_write::spec_write_data(
            image,
            data,
            crate::fs::file_write::spec_payload_offset(filesystem_type) as usize,
            data_pos,
            chunk,
            filesystem_type,
        ),
        header,
        list,
        set![data as int],
    );
}

/// Setting the count of payload bytes of the last data block of a file
/// leaves the image holding the file, and the size that its header block
/// holds.
pub proof fn lemma_listed_block_synced(
    image: Seq<u8>,
    pages: Seq<usize>,
    header: usize,
    list: Seq<FileDataBlockListEntry>,
    count: usize,
)
    requires
        image.len() == 1760 * 512 || image.len() == 3520 * 512,
        spec_list_wf(header, list),
        spec_list_owned(image, pages, header, list),
        spec_listed(image, header, list),
        list.len() > 0,
    ensures
        spec_listed(
            crate::fs::file_set_len::spec_sync_block(image, list.last().data_block_address, count),
            header,
            list,
        ),
{
    let data = list[list.len() - 1].data_block_address;
    lemma_owned_blocks(image, pages, header, list);
    crate::fs::file_set_len::lemma_sync_block_frame(image, data, count);
    assert forall|j: int| 0 <= j < list.len() implies (#[trigger] list[j]).extension_block_address != data by {
        assert(list[list.len() - 1].data_block_address != list[j].extension_block_address);
    }
    assert(crate::fs::file_set_len::spec_sync_block(image, data, count).len() == image.len()) by {
        reveal(crate::fs::file_set_len::spec_sync_block);
    }
    lemma_listed_outside(
        image,
        crate::fs::file_set_len::spec_sync_block(image, data, count),
        header,
        list,
        set![data as int],
    );
}

/// Bringing the header block of a file of the volume up to date leaves
/// the image holding the file, with its size.
pub proof fn lemma_stored_synced(
    image: Seq<u8>,
    pages: Seq<usize>,
    header: usize,
    list: Seq<FileDataBlockListEntry>,
    mode: usize,
    size: usize,
    date_time: u64,
)
    requires
        image.len() == 1760 * 512 || image.len() == 3520 * 512,
        spec_list_wf(header, list),
        spec_list_owned(image, pages, header, list),
        spec_listed(image, header, list),
        size <= 3520 * 512,
    ensures
        spec_listed(crate::fs::file_write::spec_sync_all(image, header, mode, size, date_time), header, list),
        crate::fs::file::spec_test_file_mode(crate::fs::file::FileMode::Write, mode) ==> spec_read_u32(
            crate::fs::file_write::spec_sync_all(image, header, mode, size, date_time),
            header as int,
            324,
        ) == size,
{
    lemma_owned_blocks(image, pages, header, list);
    lemma_listed_synced(image, header, list, mode, size, date_time);
}

/// Setting the date of change of a file of the volume leaves the image
/// holding the file, and the size that its header block holds.
pub proof fn lemma_stored_dated(
    image: Seq<u8>,
    pages: Seq<usize>,
    header: usize,
    list: Seq<FileDataBlockListEntry>,
    date_time: u64,
)
    requires
        image.len() == 1760 * 512 || image.len() == 3520 * 512,
        spec_list_wf(header, list),
        spec_list_owned(image, pages, header, list),
        spec_listed(image, header, list),
    ensures
        spec_listed(crate::fs::file_set_time::spec_set_time(image, header, date_time), header, list),
        spec_read_u32(crate::fs::file_set_time::spec_set_time(image, header, date_time), header as int, 324)
            == spec_read_u32(image, header as int, 324),
{
    lemma_owned_blocks(image, pages, header, list);
    lemma_listed_dated(image, header, list, date_time);
}

/// A header block that holds no data block and points at no list block,
/// and that reads as the header block of a file, is a file without data
/// blocks that the image holds.
proof fn lemma_empty_listed(image: Seq<u8>, header: usize)
    requires
        image.len() % 512 == 0,
        header < spec_block_count(image),
        spec_file_header(image, header),
        forall|o: int| 24 <= o < 312 || 504 <= o < 508 ==> #[trigger] spec_block_byte(image, header, o) == 0,
    ensures
        spec_listed(image, header, Seq::empty()),
{
    reveal(spec_listed);
    reveal(spec_table_ok);
    let list = Seq::<FileDataBlockListEntry>::empty();
    assert(crate::fs::block::spec_check_header(image, header) is Ok);
    assert(seq![crate::fs::block_type::BlockPrimaryType::Header, crate::fs::block_type::BlockPrimaryType::List][0]
        == crate::fs::block_type::BlockPrimaryType::Header);
    assert(crate::fs::block::spec_check_has_table(image, header) is Ok);
    lemma_zero_word(image, header, 504);
    assert forall|k: int| 0 <= k < 72 implies #[trigger] spec_entry_at(image, header, k as usize) == Ok::<
        Option<FileDataBlockListEntry>,
        Error,
    >(None) by {
        lemma_zero_word(image, header, spec_slot(k));
    }
}

/// A file that is made in a directory is a file without data blocks that
/// the image holds, and its header block holds the size zero. The
/// directory must be a block that the bitmap marks as used, and the
/// bitmap must mark its own blocks so: else the block that is taken for
/// the file may be one of them.
#[verifier::spinoff_prover]
pub proof fn lemma_made_listed(image: Seq<u8>, pages: Seq<usize>, dir: usize, name: Seq<u8>, date_time: u64)
    requires
        image.len() == 1760 * 512 || image.len() == 3520 * 512,
        spec_pages_valid(pages, spec_block_count(image)),
        crate::fs::boot_block::spec_boot_block_valid(image),
        crate::fs::dir_create::spec_pages_used(image, pages),
        2 <= dir,
        !pages.contains(dir),
        !crate::fs::bitmap::spec_block_free(image, pages, dir as int),
        crate::fs::dir::spec_check_directory(image, dir) is Ok,
        vstd::utf8::valid_utf8(name),
    ensures
        ({
            let (made, res) = crate::fs::dir_create::spec_make_entry(
                image,
                pages,
                dir,
                name,
                BlockSecondaryType::File,
                date_time,
            );
            res matches Ok(address) ==> spec_listed(made, address, Seq::empty()) && spec_read_u32(
                made,
                address as int,
                324,
            ) == 0
        }),
{
    let (made, res) = crate::fs::dir_create::spec_make_entry(
        image,
        pages,
        dir,
        name,
        BlockSecondaryType::File,
        date_time,
    );
    if res is Ok {
        crate::fs::dir_create::lemma_make_entry_found(image, pages, dir, name, BlockSecondaryType::File, date_time);
        crate::fs::bitmap::lemma_lowest_free(image, pages);
        let address = spec_lowest_free(image, pages)->Some_0;
        assert(crate::fs::bitmap::spec_first_free(image, pages, address as int));
        let taken = spec_bitmap_update(image, pages, address as int, false);
        crate::fs::bitmap::lemma_bitmap_update_checksum(image, pages, address as int, false);
        let headed = crate::fs::block::spec_init_header(taken, address, BlockSecondaryType::File, name, date_time);
        crate::fs::block::lemma_init_header_zeros(taken, address, BlockSecondaryType::File, name, date_time);
        crate::fs::block::lemma_init_header_layout(taken, address, BlockSecondaryType::File, name, date_time);
        crate::fs::dir::lemma_add_entry_layout(headed, dir, name, address, date_time);
        lemma_made_bytes(headed, made, address);
    }
}

/// A fresh header block of a file that is put into a directory, which
/// changes nothing of it after its checksum but its two links, is a file
/// without data blocks that the image holds.
proof fn lemma_made_bytes(headed: Seq<u8>, made: Seq<u8>, address: usize)
    requires
        made.len() == headed.len(),
        headed.len() % 512 == 0,
        address < spec_block_count(headed),
        forall|i: int|
            address * 512 + 24 <= i < address * 512 + 420 || address * 512 + 464 <= i < address * 512 + 508
                ==> #[trigger] headed[i] == 0,
        forall|o: int|
            0 <= o < 512 && !(20 <= o < 24) && !(496 <= o < 504) ==> #[trigger] made[address * 512 + o]
                == headed[address * 512 + o],
        spec_read_u32(headed, address as int, 508) == 0xffff_fffdu32,
        spec_name_bytes(made, address) is Ok,
    ensures
        spec_listed(made, address, Seq::empty()),
        spec_read_u32(made, address as int, 324) == 0,
{
    assert forall|i: int| address * 512 + 508 <= i < address * 512 + 512 implies #[trigger] made[i]
        == headed[i] by {
        assert(made[address * 512 + (i - address * 512)] == headed[address * 512 + (i - address * 512)]);
    }
    lemma_slot_kept(headed, made, address as int, 508);
    assert forall|o: int| 24 <= o < 420 || 504 <= o < 508 implies #[trigger] spec_block_byte(made, address, o)
        == 0 by {
        assert(made[address * 512 + o] == headed[address * 512 + o]);
    }
    lemma_zero_word(made, address, 324);
    lemma_empty_listed(made, address);
}

/// Whether the header block `header` holds the same two types and the
/// same name in both images.
#[verifier::opaque]
pub open spec fn spec_identity_kept(before: Seq<u8>, after: Seq<u8>, header: usize) -> bool {
    after.len() == before.len() && spec_same_identity(before, after, header)
}

/// An image holds what it holds.
pub proof fn lemma_identity_kept_refl(image: Seq<u8>, header: usize)
    ensures
        spec_identity_kept(image, image, header),
{
    reveal(spec_identity_kept);
}

/// What keeps the types and the name of a header block step by step keeps
/// them.
pub proof fn lemma_identity_kept_trans(first: Seq<u8>, second: Seq<u8>, third: Seq<u8>, header: usize)
    requires
        spec_identity_kept(first, second, header),
        spec_identity_kept(second, third, header),
    ensures
        spec_identity_kept(first, third, header),
{
    reveal(spec_identity_kept);
    lemma_identity_trans(first, second, third, header);
}

/// A header block that holds the same types and the same name in two
/// images reads as the same entry in both.
pub proof fn lemma_identity_kept_reads(before: Seq<u8>, after: Seq<u8>, header: usize)
    requires
        spec_identity_kept(before, after, header),
        before.len() % 512 == 0,
        header < spec_block_count(before),
    ensures
        spec_name_bytes(after, header) == spec_name_bytes(before, header),
        spec_block_secondary_type(after, header) == spec_block_secondary_type(before, header),
{
    reveal(spec_identity_kept);
    lemma_header_kept(before, after, header);
    lemma_slot_kept(before, after, header as int, 508);
}

/// Giving a file one more data block keeps the types and the name of its
/// header block.
pub proof fn lemma_identity_kept_pushed(
    image: Seq<u8>,
    pages: Seq<usize>,
    header: usize,
    list: Seq<FileDataBlockListEntry>,
    filesystem_type: FilesystemType,
)
    requires
        image.len() == 1760 * 512 || image.len() == 3520 * 512,
        spec_pages_valid(pages, spec_block_count(image)),
        spec_list_wf(header, list),
        spec_list_owned(image, pages, header, list),
    ensures
        spec_identity_kept(image, spec_push_data_block(image, pages, header, list, filesystem_type).0, header),
{
    reveal(spec_identity_kept);
    lemma_identity_pushed(image, pages, header, list, filesystem_type);
}

/// Taking the last data block from a file keeps the types and the name of
/// its header block.
pub proof fn lemma_identity_kept_popped(
    image: Seq<u8>,
    pages: Seq<usize>,
    header: usize,
    list: Seq<FileDataBlockListEntry>,
    filesystem_type: FilesystemType,
)
    requires
        image.len() == 1760 * 512 || image.len() == 3520 * 512,
        spec_pages_valid(pages, spec_block_count(image)),
        spec_list_wf(header, list),
        spec_list_owned(image, pages, header, list),
        list.len() > 0,
    ensures
        spec_identity_kept(image, spec_pop_data_block(image, pages, header, list, filesystem_type), header),
{
    reveal(spec_identity_kept);
    lemma_identity_popped(image, pages, header, list, filesystem_type);
}

/// A change of a block other than the header block keeps the types and the
/// name of the header block.
pub proof fn lemma_identity_kept_outside(
    first: Seq<u8>,
    before: Seq<u8>,
    after: Seq<u8>,
    header: usize,
    block: usize,
)
    requires
        spec_identity_kept(first, before, header),
        after.len() == before.len(),
        crate::fs::frame::spec_unchanged_outside(before, after, set![block as int]),
        block != header,
        header * 512 + 512 <= before.len(),
    ensures
        spec_identity_kept(first, after, header),
{
    reveal(spec_identity_kept);
    assert(spec_same_identity(before, after, header)) by {
        assert forall|i: int| header * 512 <= i < header * 512 + 512 implies #[trigger] after[i] == before[i] by {
            assert(i / 512 == header);
            assert(!set![block as int].contains(i / 512));
        }
    }
    lemma_identity_trans(first, before, after, header);
}

/// Bringing the header block of a file up to date keeps its types and its
/// name.
pub proof fn lemma_identity_kept_synced(
    first: Seq<u8>,
    image: Seq<u8>,
    header: usize,
    mode: usize,
    size: usize,
    date_time: u64,
)
    requires
        spec_identity_kept(first, image, header),
        image.len() % 512 == 0,
        header < spec_block_count(image),
    ensures
        spec_identity_kept(first, crate::fs::file_write::spec_sync_all(image, header, mode, size, date_time), header),
{
    reveal(spec_identity_kept);
    let after = crate::fs::file_write::spec_sync_all(image, header, mode, size, date_time);
    assert(spec_same_identity(image, after, header));
    lemma_identity_trans(first, image, after, header);
}

/// A data block of the old flavour that is made holds its type, the
/// header block of its file as its key, and its number in the file.
proof fn lemma_init_data_block_fields(image: Seq<u8>, address: usize, header: usize, sequence: usize)
    requires
        image.len() % 512 == 0,
        address < spec_block_count(image),
    ensures
        ({
            let after = crate::fs::file_write::spec_init_data_block(
                image,
                address,
                header,
                sequence,
                FilesystemType::OFS,
            );
            &&& spec_read_u32(after, address as int, 0) == 8
            &&& spec_read_u32(after, address as int, 4) == spec_low_u32(header)
            &&& spec_read_u32(after, address as int, 8) == spec_low_u32(sequence)
            &&& spec_read_u32(after, address as int, 12) == 0
            &&& spec_read_u32(after, address as int, 16) == 0
        }),
{
    let a = address as int;
    let after = crate::fs::file_write::spec_init_data_block(image, address, header, sequence, FilesystemType::OFS);
    crate::block::lemma_u32_be_roundtrip(8);
    crate::block::lemma_u32_be_roundtrip(spec_low_u32(header));
    crate::block::lemma_u32_be_roundtrip(spec_low_u32(sequence));
    crate::block::lemma_u32_be_roundtrip(0);
    assert(crate::block::spec_read_bytes(after, a, 0, 4) =~= crate::block::spec_u32_to_be_bytes(8));
    assert(crate::block::spec_read_bytes(after, a, 4, 4) =~= crate::block::spec_u32_to_be_bytes(
        spec_low_u32(header),
    ));
    assert(crate::block::spec_read_bytes(after, a, 8, 4) =~= crate::block::spec_u32_to_be_bytes(
        spec_low_u32(sequence),
    ));
    assert(crate::block::spec_read_bytes(after, a, 12, 4) =~= crate::block::spec_u32_to_be_bytes(0));
    assert(crate::block::spec_read_bytes(after, a, 16, 4) =~= crate::block::spec_u32_to_be_bytes(0));
}

/// A fresh data block that is made part of a file of the old flavour
/// holds its type, the header block of the file as its key, and its
/// number in the file; it holds no payload bytes yet and points at no
/// next data block; and the block that comes before it points at it.
#[verifier::spinoff_prover]
#[verifier::rlimit(100)]
pub proof fn lemma_linked_block_fields(
    image: Seq<u8>,
    header: usize,
    list: Seq<FileDataBlockListEntry>,
    entry: FileDataBlockListEntry,
)
    requires
        image.len() % 512 == 0,
        entry.data_block_address < spec_block_count(image),
        entry.extension_block_address < spec_block_count(image),
        spec_link_block(header, list) < spec_block_count(image),
        entry.extension_block_index < 72,
        entry.data_block_address != entry.extension_block_address,
        entry.data_block_address != spec_link_block(header, list),
    ensures
        ({
            let d = entry.data_block_address as int;
            let after = spec_link_data_block(image, header, list, entry, FilesystemType::OFS);
            &&& spec_read_u32(after, d, 0) == 8
            &&& spec_read_u32(after, d, 4) == spec_low_u32(header)
            &&& spec_read_u32(after, d, 8) == spec_low_u32((list.len() + 1) as usize)
            &&& spec_read_u32(after, d, 12) == 0
            &&& spec_read_u32(after, d, 16) == 0
            &&& spec_read_u32(after, spec_link_block(header, list) as int, 16) == spec_low_u32(
                entry.data_block_address,
            )
        }),
{
    let d = entry.data_block_address as int;
    let l = spec_link_block(header, list);
    let sequence = (list.len() + 1) as usize;
    let made = crate::fs::file_write::spec_init_data_block(
        image,
        entry.data_block_address,
        header,
        sequence,
        FilesystemType::OFS,
    );
    lemma_init_data_block_fields(image, entry.data_block_address, header, sequence);
    lemma_init_data_block_layout(image, entry.data_block_address, header, sequence, FilesystemType::OFS);
    lemma_set_extension_layout(made, entry);
    let listed = spec_set_extension_block_data_block(made, entry);
    let word = spec_low_u32(entry.data_block_address);
    let after = spec_link_data_block(image, header, list, entry, FilesystemType::OFS);
    assert(after == spec_write_checksum(spec_write_u32(listed, l as int, 16, word), l)) by {
        reveal(spec_link_data_block);
    }
    lemma_word_summed(listed, l, 16, word);
    lemma_slot_kept(made, listed, d, 0);
    lemma_slot_kept(made, listed, d, 4);
    lemma_slot_kept(made, listed, d, 8);
    lemma_slot_kept(made, listed, d, 12);
    lemma_slot_kept(made, listed, d, 16);
    lemma_slot_kept(listed, after, d, 0);
    lemma_slot_kept(listed, after, d, 4);
    lemma_slot_kept(listed, after, d, 8);
    lemma_slot_kept(listed, after, d, 12);
    lemma_slot_kept(listed, after, d, 16);
    crate::block::lemma_u32_be_roundtrip(word);
    assert(crate::block::spec_read_bytes(after, l as int, 16, 4) =~= crate::block::spec_u32_to_be_bytes(word));
}

/// Writing into the payload of a data block of the old flavour leaves its
/// type, its key and its number as they are, and sets its count of
/// payload bytes to hold what was written.
pub proof fn lemma_written_block_fields(image: Seq<u8>, data: usize, data_pos: usize, chunk: Seq<u8>)
    requires
        image.len() % 512 == 0,
        data < spec_block_count(image),
        24 + data_pos + chunk.len() <= 512,
    ensures
        ({
            let d = data as int;
            let after = crate::fs::file_write::spec_write_data(image, data, 24, data_pos, chunk, FilesystemType::OFS);
            &&& spec_read_u32(after, d, 0) == spec_read_u32(image, d, 0)
            &&& spec_read_u32(after, d, 4) == spec_read_u32(image, d, 4)
            &&& spec_read_u32(after, d, 8) == spec_read_u32(image, d, 8)
            &&& spec_read_u32(after, d, 16) == spec_read_u32(image, d, 16)
            &&& spec_read_u32(after, d, 12) == crate::fs::file_write::spec_max(
                spec_read_u32(image, d, 12) as int,
                data_pos + chunk.len(),
            ) as u32
        }),
{
    reveal(crate::fs::file_write::spec_write_data);
    let d = data as int;
    let after = crate::fs::file_write::spec_write_data(image, data, 24, data_pos, chunk, FilesystemType::OFS);
    let written = crate::block::spec_write_bytes(image, d, 24 + data_pos, chunk);
    let count = crate::fs::file_write::spec_max(spec_read_u32(written, d, 12) as int, data_pos + chunk.len()) as u32;
    lemma_slot_kept(image, written, d, 0);
    lemma_slot_kept(image, written, d, 4);
    lemma_slot_kept(image, written, d, 8);
    lemma_slot_kept(image, written, d, 12);
    lemma_slot_kept(image, written, d, 16);
    lemma_slot_kept(written, after, d, 0);
    lemma_slot_kept(written, after, d, 4);
    lemma_slot_kept(written, after, d, 8);
    lemma_slot_kept(written, after, d, 16);
    crate::block::lemma_u32_be_roundtrip(count);
    assert(crate::block::spec_read_bytes(after, d, 12, 4) =~= crate::block::spec_u32_to_be_bytes(count));
}

} // verus!
