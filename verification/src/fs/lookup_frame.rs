use vstd::prelude::*;

use crate::block::spec_read_u32;
use crate::errors::Error;
use crate::fs::amiga_dos::spec_to_address;
use crate::fs::block::{spec_block_count, spec_block_table_address, spec_name_bytes};
use crate::fs::boot_block::{spec_boot_block_valid, spec_boot_flags, spec_root_block_address};
use crate::fs::dir::{
    spec_check_directory, spec_dir_locate, spec_dir_lookup, spec_hash_chain_head, spec_locate_in_hash_chain,
};
use crate::fs::frame::{spec_same_block, spec_unchanged_outside};
use crate::fs::lookup::{spec_lookup, spec_lookup_from, spec_lookup_segments};

verus! {

/// Whether the search of the hash chain that starts at `addr` for the name
/// `name` passes over no block of `touched`: every block of the chain that
/// comes before the end of the search lies outside. The block that is
/// found may lie inside.
pub open spec fn spec_locate_clear(
    image: Seq<u8>,
    name: Seq<u8>,
    addr: Option<usize>,
    fuel: nat,
    touched: Set<int>,
) -> bool
    decreases fuel,
{
    match addr {
        None => true,
        Some(block) => fuel == 0 || match spec_name_bytes(image, block) {
            Err(_) => true,
            Ok(entry_name) => entry_name == name || (!touched.contains(block as int) && spec_locate_clear(
                image,
                name,
                spec_to_address(spec_read_u32(image, block as int, 496)),
                (fuel - 1) as nat,
                touched,
            )),
        },
    }
}

/// Whether the way that the names `segments` lead, from the block
/// `current` on, passes through no block of `touched`: every directory on
/// the way, and every entry that a search passes over, lies outside. The
/// block that the last name leads to may lie inside.
pub open spec fn spec_lookup_clear(image: Seq<u8>, current: usize, segments: Seq<Seq<u8>>, touched: Set<int>) -> bool
    decreases segments.len(),
{
    segments.len() == 0 || (!touched.contains(current as int) && match spec_hash_chain_head(
        image,
        current,
        segments[0],
    ) {
        Err(_) => true,
        Ok(head) => spec_locate_clear(image, segments[0], head, spec_block_count(image), touched)
            && match spec_dir_lookup(image, current, segments[0]) {
            Ok(Some(addr)) => spec_lookup_clear(image, addr, segments.drop_first(), touched),
            _ => true,
        },
    })
}

/// What is read of an entry from a block that is the same in two images,
/// or that lies in neither, is the same.
proof fn lemma_same_entry(before: Seq<u8>, after: Seq<u8>, block: usize)
    requires
        after.len() == before.len(),
        before.len() % 512 == 0,
        block < spec_block_count(before) ==> spec_same_block(before, after, block as int),
    ensures
        spec_name_bytes(after, block) == spec_name_bytes(before, block),
        spec_check_directory(after, block) == spec_check_directory(before, block),
        spec_read_u32(after, block as int, 496) == spec_read_u32(before, block as int, 496) || block
            >= spec_block_count(before),
        forall|index: usize|
            #[trigger] spec_block_table_address(after, block, index) == spec_block_table_address(
                before,
                block,
                index,
            ),
{
    if block < spec_block_count(before) {
        crate::fs::frame::lemma_same_block_reads(before, after, block as int);
        assert(crate::block::spec_read_u8(after, block as int, 432) == crate::block::spec_read_u8(
            before,
            block as int,
            432,
        )) by {
            assert(after[block * 512 + 432] == before[block * 512 + 432]);
        }
        assert forall|index: usize|
            #[trigger] spec_block_table_address(after, block, index) == spec_block_table_address(
                before,
                block,
                index,
            ) by {
            if index < 72 {
                assert(spec_read_u32(after, block as int, 24 + 4 * index) == spec_read_u32(
                    before,
                    block as int,
                    24 + 4 * index,
                ));
            }
        }
    }
}

/// A search of a hash chain that passes over no block that has changed
/// finds what it found, when the block that it found holds the name that
/// it held.
pub proof fn lemma_locate_kept(
    before: Seq<u8>,
    after: Seq<u8>,
    name: Seq<u8>,
    addr: Option<usize>,
    prev: Option<usize>,
    fuel: nat,
    touched: Set<int>,
)
    requires
        after.len() == before.len(),
        before.len() % 512 == 0,
        spec_unchanged_outside(before, after, touched),
        spec_locate_clear(before, name, addr, fuel, touched),
        spec_locate_in_hash_chain(before, name, addr, prev, fuel) matches Ok(Some((_, found))) && spec_name_bytes(
            after,
            found,
        ) == spec_name_bytes(before, found),
    ensures
        spec_locate_in_hash_chain(after, name, addr, prev, fuel) == spec_locate_in_hash_chain(
            before,
            name,
            addr,
            prev,
            fuel,
        ),
    decreases fuel,
{
    let block = addr->Some_0;
    let entry_name = spec_name_bytes(before, block)->Ok_0;
    if entry_name != name {
        if block < spec_block_count(before) {
            crate::fs::frame::lemma_untouched_block(before, after, touched, block as int);
        }
        lemma_same_entry(before, after, block);
        lemma_locate_kept(
            before,
            after,
            name,
            spec_to_address(spec_read_u32(before, block as int, 496)),
            Some(block),
            (fuel - 1) as nat,
            touched,
        );
    }
}

/// A search of a directory that has not changed, which passes over no
/// block that has changed, finds what it found, when the block that it
/// found holds the name that it held and the boot block is as it was.
pub proof fn lemma_dir_lookup_kept(
    before: Seq<u8>,
    after: Seq<u8>,
    current: usize,
    name: Seq<u8>,
    touched: Set<int>,
)
    requires
        after.len() == before.len(),
        before.len() % 512 == 0,
        spec_unchanged_outside(before, after, touched),
        spec_boot_block_valid(after) == spec_boot_block_valid(before),
        spec_boot_flags(after) == spec_boot_flags(before),
        !touched.contains(current as int),
        spec_hash_chain_head(before, current, name) matches Ok(head) && spec_locate_clear(
            before,
            name,
            head,
            spec_block_count(before),
            touched,
        ),
        spec_dir_lookup(before, current, name) matches Ok(Some(found)) && spec_name_bytes(after, found)
            == spec_name_bytes(before, found),
    ensures
        spec_dir_lookup(after, current, name) == spec_dir_lookup(before, current, name),
        spec_check_directory(after, current) == spec_check_directory(before, current),
{
    if current < spec_block_count(before) {
        crate::fs::frame::lemma_untouched_block(before, after, touched, current as int);
    }
    lemma_same_entry(before, after, current);
    let head = spec_hash_chain_head(before, current, name)->Ok_0;
    assert(spec_hash_chain_head(after, current, name) == spec_hash_chain_head(before, current, name));
    lemma_locate_kept(before, after, name, head, None, spec_block_count(before), touched);
}

/// What is read of an entry from a block that has not changed is what was
/// read of it.
pub proof fn lemma_untouched_entry(before: Seq<u8>, after: Seq<u8>, block: usize, touched: Set<int>)
    requires
        after.len() == before.len(),
        before.len() % 512 == 0,
        spec_unchanged_outside(before, after, touched),
        !touched.contains(block as int),
    ensures
        spec_name_bytes(after, block) == spec_name_bytes(before, block),
{
    if block < spec_block_count(before) {
        crate::fs::frame::lemma_untouched_block(before, after, touched, block as int);
    }
    lemma_same_entry(before, after, block);
}

/// A way through the directories that passes through no block that has
/// changed leads where it led, when the block that it leads to holds the
/// name that it held and the boot block is as it was.
pub proof fn lemma_lookup_from_kept(
    before: Seq<u8>,
    after: Seq<u8>,
    current: usize,
    segments: Seq<Seq<u8>>,
    touched: Set<int>,
)
    requires
        after.len() == before.len(),
        before.len() % 512 == 0,
        spec_unchanged_outside(before, after, touched),
        spec_boot_block_valid(after) == spec_boot_block_valid(before),
        spec_boot_flags(after) == spec_boot_flags(before),
        spec_lookup_clear(before, current, segments, touched),
        spec_lookup_from(before, current, segments) matches Ok(found) && spec_name_bytes(after, found)
            == spec_name_bytes(before, found),
    ensures
        spec_lookup_from(after, current, segments) == spec_lookup_from(before, current, segments),
    decreases segments.len(),
{
    if segments.len() > 0 {
        let name = segments[0];
        let rest = segments.drop_first();
        let next = spec_dir_lookup(before, current, name)->Ok_0->Some_0;
        if rest.len() > 0 {
            assert(spec_lookup_clear(before, next, rest, touched));
            assert(!touched.contains(next as int));
            lemma_untouched_entry(before, after, next, touched);
        }
        lemma_dir_lookup_kept(before, after, current, name, touched);
        lemma_lookup_from_kept(before, after, next, rest, touched);
    }
}

/// A path that passes through no block that has changed leads where it
/// led, when the block that it leads to holds the name that it held and
/// the boot block is as it was.
pub proof fn lemma_lookup_kept(before: Seq<u8>, after: Seq<u8>, path: Seq<u8>, touched: Set<int>)
    requires
        after.len() == before.len(),
        before.len() % 512 == 0,
        before.len() >= 1024,
        spec_unchanged_outside(before, after, touched),
        !touched.contains(0),
        !touched.contains(1),
        spec_lookup_clear(before, spec_root_block_address(before), crate::fs::path::spec_split(path), touched),
        spec_lookup(before, path) matches Ok(found) && spec_name_bytes(after, found) == spec_name_bytes(
            before,
            found,
        ),
    ensures
        spec_lookup(after, path) == spec_lookup(before, path),
{
    crate::fs::frame::lemma_untouched_block(before, after, touched, 0);
    crate::fs::frame::lemma_untouched_block(before, after, touched, 1);
    crate::fs::frame::lemma_same_boot(before, after);
    lemma_lookup_from_kept(
        before,
        after,
        spec_root_block_address(before),
        crate::fs::path::spec_split(path),
        touched,
    );
}

/// A way that passes through no block of a set passes through no block of
/// a smaller set.
pub proof fn lemma_locate_clear_less(
    image: Seq<u8>,
    name: Seq<u8>,
    addr: Option<usize>,
    fuel: nat,
    touched: Set<int>,
    less: Set<int>,
)
    requires
        spec_locate_clear(image, name, addr, fuel, touched),
        forall|a: int| less.contains(a) ==> touched.contains(a),
    ensures
        spec_locate_clear(image, name, addr, fuel, less),
    decreases fuel,
{
    if addr is Some && fuel > 0 {
        let block = addr->Some_0;
        if let Ok(entry_name) = spec_name_bytes(image, block) {
            if entry_name != name {
                lemma_locate_clear_less(
                    image,
                    name,
                    spec_to_address(spec_read_u32(image, block as int, 496)),
                    (fuel - 1) as nat,
                    touched,
                    less,
                );
            }
        }
    }
}

/// A way that passes through no block of a set passes through no block of
/// a smaller set.
pub proof fn lemma_lookup_clear_less(
    image: Seq<u8>,
    current: usize,
    segments: Seq<Seq<u8>>,
    touched: Set<int>,
    less: Set<int>,
)
    requires
        spec_lookup_clear(image, current, segments, touched),
        forall|a: int| less.contains(a) ==> touched.contains(a),
    ensures
        spec_lookup_clear(image, current, segments, less),
    decreases segments.len(),
{
    if segments.len() > 0 {
        if let Ok(head) = spec_hash_chain_head(image, current, segments[0]) {
            lemma_locate_clear_less(image, segments[0], head, spec_block_count(image), touched, less);
            if let Ok(Some(addr)) = spec_dir_lookup(image, current, segments[0]) {
                lemma_lookup_clear_less(image, addr, segments.drop_first(), touched, less);
            }
        }
    }
}

} // verus!
