use vstd::prelude::*;

use crate::block::{spec_u32_from_be_bytes, u32_from_be_bytes};

verus! {

/// The big-endian 32-bit word number `index` of `data`.
pub open spec fn spec_word(data: Seq<u8>, index: int) -> u32 {
    spec_u32_from_be_bytes(data.subrange(4 * index, 4 * index + 4))
}

/// The sum of the first `count` words of `data`, the word number `skip`
/// left out. This is the sum in the integers: nothing wraps.
pub open spec fn spec_words_sum(data: Seq<u8>, skip: int, count: nat) -> int
    decreases count,
{
    if count == 0 {
        0
    } else {
        spec_words_sum(data, skip, (count - 1) as nat) + if count - 1 == skip {
            0
        } else {
            spec_word(data, count - 1) as int
        }
    }
}

/// The checksum of `data` when its checksum word sits at byte `offset`: the
/// number that, added to the other whole words, gives zero modulo 2^32.
pub open spec fn spec_checksum(data: Seq<u8>, offset: int) -> u32 {
    ((-spec_words_sum(data, offset / 4, data.len() / 4)) % 0x1_0000_0000) as u32
}

/// Whether the checksum word stored at byte `offset` of `data` is the
/// checksum of `data`.
pub open spec fn spec_checksum_valid(data: Seq<u8>, offset: int) -> bool {
    spec_word(data, offset / 4) == spec_checksum(data, offset)
}

/// The sum changes only through the words it takes in: two byte sequences
/// that agree on the first `count` words, but for word `skip`, have the same
/// sum.
pub proof fn lemma_words_sum_agree(a: Seq<u8>, b: Seq<u8>, skip: int, count: nat)
    requires
        forall|i: int| 0 <= i < count && i != skip ==> spec_word(a, i) == spec_word(b, i),
    ensures
        spec_words_sum(a, skip, count) == spec_words_sum(b, skip, count),
    decreases count,
{
    if count > 0 {
        lemma_words_sum_agree(a, b, skip, (count - 1) as nat);
    }
}

pub fn compute_checksum(data: &[u8], offset: usize) -> (checksum: u32)
    ensures
        checksum == spec_checksum(data@, offset as int),
{
    let skip_offset: usize = offset / 4;
    let len: usize = data.len();
    let count: usize = len / 4;
    let mut checksum: u32 = 0;
    let mut i: usize = 0;
    while i < count
        invariant
            i <= count,
            len == data@.len(),
            count == len / 4,
            checksum == spec_words_sum(data@, skip_offset as int, i as nat) % 0x1_0000_0000,
        decreases count - i,
    {
        if i != skip_offset {
            let v: u32 = u32_from_be_bytes(data[4 * i], data[4 * i + 1], data[4 * i + 2], data[4 * i + 3]);
            assert(data@.subrange(4 * i, 4 * i + 4) =~= seq![
                data@[4 * i],
                data@[4 * i + 1],
                data@[4 * i + 2],
                data@[4 * i + 3],
            ]);
            checksum = checksum.wrapping_add(v);
        }
        i = i + 1;
    }
    0u32.wrapping_sub(checksum)
}

} // verus!
