use vstd::prelude::*;
use vstd::string::StringSliceAdditionalSpecFns;

use crate::disk::{Disk, LBAAddress};
use crate::errors::Error;
use crate::fs::amiga_dos::AmigaDos;
use crate::fs::boot_block::{spec_boot_block_valid, spec_root_block_address, BootBlockReader};
use crate::fs::dir::{spec_check_directory, spec_dir_lookup, Dir};
use crate::fs::path::{spec_segments, spec_split, split};

verus! {

broadcast use Disk::lemma_len;

/// The block that the names `segments` lead to, one after the other, from
/// the block `current` on: each block on the way but the last must be a
/// directory, and each name an entry of the directory before it.
pub open spec fn spec_lookup_from(image: Seq<u8>, current: usize, segments: Seq<Seq<u8>>) -> Result<usize, Error>
    decreases segments.len(),
{
    if segments.len() == 0 {
        Ok(current)
    } else {
        match spec_check_directory(image, current) {
            Err(e) => Err(e),
            Ok(_) => match spec_dir_lookup(image, current, segments[0]) {
                Err(e) => Err(e),
                Ok(None) => Err(Error::NotFoundError),
                Ok(Some(addr)) => spec_lookup_from(image, addr, segments.drop_first()),
            },
        }
    }
}

/// The block that the names `segments` lead to from the root block of the
/// volume.
pub open spec fn spec_lookup_segments(image: Seq<u8>, segments: Seq<Seq<u8>>) -> Result<usize, Error> {
    if !spec_boot_block_valid(image) {
        Err(Error::CorruptedImageFile)
    } else {
        spec_lookup_from(image, spec_root_block_address(image), segments)
    }
}

/// The header block of the entry that a path leads to. The empty path, and
/// any path without a name in it, leads to the root block.
pub open spec fn spec_lookup(image: Seq<u8>, path: Seq<u8>) -> Result<usize, Error> {
    spec_lookup_segments(image, spec_split(path))
}

/// The names of a path lead to a block step by step: to follow all of them
/// is to follow the first ones, and the last one from where they lead.
pub proof fn lemma_lookup_from_push(image: Seq<u8>, current: usize, segments: Seq<Seq<u8>>, name: Seq<u8>)
    ensures
        spec_lookup_from(image, current, segments.push(name)) == match spec_lookup_from(
            image,
            current,
            segments,
        ) {
            Err(e) => Err::<usize, Error>(e),
            Ok(dir) => spec_lookup_from(image, dir, seq![name]),
        },
    decreases segments.len(),
{
    if segments.len() == 0 {
        assert(segments.push(name) =~= seq![name]);
    } else {
        assert(segments.push(name)[0] == segments[0]);
        assert(segments.push(name).drop_first() =~= segments.drop_first().push(name));
        if spec_check_directory(image, current) is Ok {
            match spec_dir_lookup(image, current, segments[0]) {
                Ok(Some(addr)) => {
                    lemma_lookup_from_push(image, addr, segments.drop_first(), name);
                },
                _ => {},
            }
        }
    }
}

/// Follows the names `segments` from the root block.
pub fn lookup_segments(disk: &Disk, segments: &Vec<Vec<u8>>) -> (res: Result<LBAAddress, Error>)
    requires
        disk.wf(),
    ensures
        res == spec_lookup_segments(disk@, spec_segments(segments@)),
{
    let boot_block = match BootBlockReader::try_from_disk(disk) {
        Ok(reader) => reader,
        Err(e) => {
            return Err(e);
        },
    };
    let mut current_block_addr: LBAAddress = boot_block.get_root_block_address();
    let count: usize = segments.len();
    let mut i: usize = 0;
    assert(spec_segments(segments@).skip(0) =~= spec_segments(segments@));
    while i < count
        invariant
            i <= count,
            count == segments@.len(),
            disk.wf(),
            spec_boot_block_valid(disk@),
            spec_lookup_from(disk@, current_block_addr, spec_segments(segments@).skip(i as int))
                == spec_lookup_from(disk@, spec_root_block_address(disk@), spec_segments(segments@)),
        decreases count - i,
    {
        let ghost rest = spec_segments(segments@).skip(i as int);
        assert(rest[0] == segments@[i as int]@);
        assert(rest.drop_first() =~= spec_segments(segments@).skip(i + 1));
        let dir = match Dir::try_with_block_address(disk, current_block_addr) {
            Ok(dir) => dir,
            Err(e) => {
                return Err(e);
            },
        };
        match dir.lookup(disk, segments[i].as_slice()) {
            Ok(Some(addr)) => {
                current_block_addr = addr;
            },
            Ok(None) => {
                return Err(Error::NotFoundError);
            },
            Err(e) => {
                return Err(e);
            },
        }
        i = i + 1;
    }
    assert(spec_segments(segments@).skip(count as int) =~= Seq::<Seq<u8>>::empty());
    assert(spec_segments(segments@).skip(0) =~= spec_segments(segments@));
    Ok(current_block_addr)
}

impl AmigaDos {
    /// The header block of the entry that `path` leads to.
    pub fn lookup(&self, path: &str) -> (res: Result<LBAAddress, Error>)
        requires
            self.wf(),
        ensures
            res == spec_lookup(self@, path.spec_bytes()),
    {
        let segments = split(path);
        lookup_segments(&self.inner.disk, &segments)
    }
}

} // verus!
