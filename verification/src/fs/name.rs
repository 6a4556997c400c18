use vstd::prelude::*;
use vstd::string::StringSliceAdditionalSpecFns;

use crate::errors::Error;
use crate::fs::amiga_dos_options::InternationalMode;
use crate::fs::constants::BLOCK_TABLE_SIZE;

verus! {

/// A byte that may stand in a name: no control character, no `:`, no `/`.
pub open spec fn spec_valid_name_char(c: u8) -> bool {
    c >= 0x20 && c != 0x3a && c != 0x2f
}

/// A name is valid when each of its bytes may stand in a name.
pub open spec fn spec_valid_name(name: Seq<u8>) -> bool {
    forall|i: int| 0 <= i < name.len() ==> spec_valid_name_char(#[trigger] name[i])
}

/// The upper-case form of an ASCII letter; any other byte as it is.
pub open spec fn spec_to_upper(c: u8) -> u8 {
    if 0x61 <= c <= 0x7a {
        (c - 0x20) as u8
    } else {
        c
    }
}

/// The upper-case form of an ASCII letter or of a Latin-1 lower-case letter
/// (0xe0 to 0xfe but for the division sign 0xf7); any other byte as it is.
pub open spec fn spec_to_upper_intl(c: u8) -> u8 {
    if (0x61 <= c <= 0x7a) || (0xe0 <= c <= 0xfe && c != 0xf7) {
        (c - 0x20) as u8
    } else {
        c
    }
}

/// The upper-case form of a byte under the given mode.
pub open spec fn spec_upper(c: u8, international_mode: InternationalMode) -> u8 {
    match international_mode {
        InternationalMode::On => spec_to_upper_intl(c),
        InternationalMode::Off => spec_to_upper(c),
    }
}

/// The hash of `name` after its first `count` bytes have been folded in: it
/// starts from the length of the name, and each byte takes it to thirteen
/// times itself plus the upper-case byte, cut to eleven bits.
pub open spec fn spec_hash_fold(name: Seq<u8>, international_mode: InternationalMode, count: nat) -> nat
    decreases count,
{
    if count == 0 {
        name.len() % 0x800
    } else {
        ((spec_hash_fold(name, international_mode, (count - 1) as nat) * 13 + spec_upper(
            name[count - 1],
            international_mode,
        )) % 0x800) as nat
    }
}

/// The slot of a directory's hash table in which `name` is kept.
pub open spec fn spec_hash_name(name: Seq<u8>, international_mode: InternationalMode) -> nat {
    spec_hash_fold(name, international_mode, name.len()) % 72
}

/// A hash is always a slot of the table.
pub proof fn lemma_hash_name_in_table(name: Seq<u8>, international_mode: InternationalMode)
    ensures
        spec_hash_name(name, international_mode) < 72,
{
}

fn valid_name_char(c: u8) -> (res: bool)
    ensures
        res == spec_valid_name_char(c),
{
    c >= 0x20 && c != 0x3a && c != 0x2f
}

/// Whether each byte of `name` may stand in a name.
pub fn check_name_bytes(name: &[u8]) -> (res: Result<(), Error>)
    ensures
        spec_valid_name(name@) ==> res == Ok::<(), Error>(()),
        !spec_valid_name(name@) ==> res == Err::<(), Error>(Error::InvalidNameError),
{
    let len: usize = name.len();
    let mut i: usize = 0;
    while i < len
        invariant
            i <= len,
            len == name@.len(),
            forall|j: int| 0 <= j < i ==> spec_valid_name_char(#[trigger] name@[j]),
        decreases len - i,
    {
        if !valid_name_char(name[i]) {
            return Err(Error::InvalidNameError);
        }
        i = i + 1;
    }
    Ok(())
}

/// Checks that a directory, file or volume name is valid.
pub fn check_name(name: &str) -> (res: Result<(), Error>)
    ensures
        spec_valid_name(name.spec_bytes()) ==> res == Ok::<(), Error>(()),
        !spec_valid_name(name.spec_bytes()) ==> res == Err::<(), Error>(Error::InvalidNameError),
{
    check_name_bytes(name.as_bytes())
}

fn to_upper(c: u8) -> (upper: u8)
    ensures
        upper == spec_to_upper(c),
{
    if 0x61 <= c && c <= 0x7a {
        c - 0x20
    } else {
        c
    }
}

fn to_upper_intl(c: u8) -> (upper: u8)
    ensures
        upper == spec_to_upper_intl(c),
{
    if (0x61 <= c && c <= 0x7a) || (0xe0 <= c && c <= 0xfe && c != 0xf7) {
        c - 0x20
    } else {
        c
    }
}

/// The slot of a directory's hash table in which the name `name` is kept.
pub fn hash_name_bytes(name: &[u8], international_mode: InternationalMode) -> (hash: usize)
    ensures
        hash == spec_hash_name(name@, international_mode),
        hash < 72,
{
    let len: usize = name.len();
    let mut hash: usize = len % 0x800;
    let mut i: usize = 0;
    while i < len
        invariant
            i <= len,
            len == name@.len(),
            hash == spec_hash_fold(name@, international_mode, i as nat),
            hash < 0x800,
        decreases len - i,
    {
        let c: u8 = match international_mode {
            InternationalMode::On => to_upper_intl(name[i]),
            InternationalMode::Off => to_upper(name[i]),
        };
        hash = (hash * 13 + c as usize) % 0x800;
        i = i + 1;
    }
    hash % BLOCK_TABLE_SIZE
}

/// The slot of a directory's hash table in which `name` is kept.
pub fn hash_name(name: &str, international_mode: InternationalMode) -> (hash: usize)
    ensures
        hash == spec_hash_name(name.spec_bytes(), international_mode),
        hash < 72,
{
    hash_name_bytes(name.as_bytes(), international_mode)
}

} // verus!
