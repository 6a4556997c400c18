use vstd::prelude::*;
use vstd::string::StringSliceAdditionalSpecFns;

use crate::disk::{Disk, LBAAddress};
use crate::errors::Error;
use crate::fs::amiga_dos::AmigaDos;
use crate::fs::bitmap::{spec_bitmap_update, spec_tracked};
use crate::fs::datetime::system_time_now;
use crate::fs::dir::{
    check_empty_directory, spec_check_directory, spec_check_empty_directory, spec_dir_locate,
    spec_remove_entry, Dir,
};
use crate::fs::lookup::{lookup_segments, spec_lookup, spec_lookup_segments};
use crate::fs::path::{spec_basename, spec_dirname, split_parent};

verus! {

broadcast use Disk::lemma_len;

/// What taking the entry named by `path` out of its directory, and giving
/// its header block `address` back, leaves on the image, and how it ends.
/// The parent must be there and be a directory, and must hold the name.
pub open spec fn spec_unlink(image: Seq<u8>, pages: Seq<usize>, path: Seq<u8>, address: usize, date_time: u64) -> (
    Seq<u8>,
    Result<(), Error>,
) {
    match spec_dirname(path) {
        Err(e) => (image, Err(e)),
        Ok(parent_path) => match spec_lookup_segments(image, parent_path) {
            Err(e) => (image, Err(e)),
            Ok(parent) => match spec_check_directory(image, parent) {
                Err(e) => (image, Err(e)),
                Ok(_) => match spec_dir_locate(image, parent, spec_basename(path)->Ok_0) {
                    Err(e) => (image, Err(e)),
                    Ok(None) => (image, Err(Error::NotFoundError)),
                    Ok(Some((prev, found))) => {
                        let unlinked = spec_remove_entry(
                            image,
                            parent,
                            spec_basename(path)->Ok_0,
                            prev,
                            found,
                            date_time,
                        );
                        if spec_tracked(unlinked, pages, address as int) {
                            (spec_bitmap_update(unlinked, pages, address as int, true), Ok(()))
                        } else {
                            (unlinked, Err(Error::DiskInvalidLBAAddressError(address)))
                        }
                    },
                },
            },
        },
    }
}

/// What removing the directory at `path` leaves on the image, and how it
/// ends. The path must lead to a directory without entries; a directory
/// that has entries is a path that cannot be removed.
pub open spec fn spec_remove_dir(image: Seq<u8>, pages: Seq<usize>, path: Seq<u8>, date_time: u64) -> (
    Seq<u8>,
    Result<(), Error>,
) {
    match spec_lookup(image, path) {
        Err(e) => (image, Err(e)),
        Ok(address) => match spec_check_empty_directory(image, address) {
            Err(e) => (image, Err(e)),
            Ok(false) => (image, Err(Error::InvalidPathError)),
            Ok(true) => spec_unlink(image, pages, path, address, date_time),
        },
    }
}

impl AmigaDos {
    /// Takes the entry named by `path` out of its directory and gives its
    /// header block `address` back to the bitmap.
    pub fn unlink(&mut self, path: &str, address: LBAAddress, date_time: u64) -> (res: Result<(), Error>)
        requires
            old(self).wf(),
        ensures
            final(self).wf(),
            final(self).same_volume(old(self)),
            (final(self)@, res) == spec_unlink(
                old(self)@,
                old(self).inner.spec_pages(),
                path.spec_bytes(),
                address,
                date_time,
            ),
    {
        let (parent_path, name) = match split_parent(path) {
            Ok(parts) => parts,
            Err(e) => {
                return Err(e);
            },
        };
        let parent: LBAAddress = match lookup_segments(&self.inner.disk, &parent_path) {
            Ok(parent) => parent,
            Err(e) => {
                return Err(e);
            },
        };
        let parent_dir = match Dir::try_with_block_address(&self.inner.disk, parent) {
            Ok(dir) => dir,
            Err(e) => {
                return Err(e);
            },
        };
        match parent_dir.remove_entry(&mut self.inner.disk, name.as_slice(), date_time) {
            Ok(_) => {},
            Err(e) => {
                return Err(e);
            },
        }
        self.inner.free_block(address)
    }

    /// Removes the empty directory at `path`; its parent is changed last at
    /// `date_time`.
    pub fn remove_dir_at(&mut self, path: &str, date_time: u64) -> (res: Result<(), Error>)
        requires
            old(self).wf(),
        ensures
            final(self).wf(),
            final(self).same_volume(old(self)),
            (final(self)@, res) == spec_remove_dir(
                old(self)@,
                old(self).inner.spec_pages(),
                path.spec_bytes(),
                date_time,
            ),
    {
        let address: LBAAddress = match self.lookup(path) {
            Ok(address) => address,
            Err(e) => {
                return Err(e);
            },
        };
        match check_empty_directory(&self.inner.disk, address) {
            Ok(true) => {},
            Ok(false) => {
                return Err(Error::InvalidPathError);
            },
            Err(e) => {
                return Err(e);
            },
        }
        self.unlink(path, address, date_time)
    }

    /// Removes the empty directory at `path`; its parent is changed last at
    /// the time of the system clock.
    pub fn remove_dir(&mut self, path: &str) -> (res: Result<(), Error>)
        requires
            old(self).wf(),
        ensures
            final(self).wf(),
            final(self).same_volume(old(self)),
            exists|date_time: u64|
                (final(self)@, res) == spec_remove_dir(
                    old(self)@,
                    old(self).inner.spec_pages(),
                    path.spec_bytes(),
                    date_time,
                ),
    {
        let date_time: u64 = system_time_now();
        self.remove_dir_at(path, date_time)
    }
}

/// Whether neither the directory `dir` nor the block that stands before
/// the entry named `name` in its hash chain is a bitmap block. On a volume
/// that holds together no bitmap block is part of a directory.
pub open spec fn spec_entry_plain(image: Seq<u8>, pages: Seq<usize>, dir: usize, name: Seq<u8>) -> bool {
    &&& !pages.contains(dir)
    &&& spec_dir_locate(image, dir, name) matches Ok(Some((Some(before), _))) ==> !pages.contains(before)
}

/// Taking an entry out of its directory and giving its header block back
/// keeps checksums: every block that changes holds a valid checksum
/// afterwards, where no bitmap block is part of the directory.
pub proof fn lemma_unlink_sums(image: Seq<u8>, pages: Seq<usize>, path: Seq<u8>, address: usize, date_time: u64)
    requires
        image.len() == 1760 * 512 || image.len() == 3520 * 512,
        crate::fs::amiga_dos::spec_pages_valid(pages, crate::fs::block::spec_block_count(image)),
        spec_dirname(path) matches Ok(parent_path) ==> (spec_lookup_segments(image, parent_path) matches Ok(parent)
            ==> spec_entry_plain(image, pages, parent, spec_basename(path)->Ok_0)),
    ensures
        crate::fs::frame::spec_sums_kept(
            image,
            spec_unlink(image, pages, path, address, date_time).0,
            pages,
            Set::empty(),
        ),
{
    let raw = Set::<int>::empty();
    crate::fs::frame::lemma_sums_kept_refl(image, pages, raw);
    if let Ok(parent_path) = spec_dirname(path) {
        if let Ok(parent) = spec_lookup_segments(image, parent_path) {
            let name = spec_basename(path)->Ok_0;
            if spec_check_directory(image, parent) is Ok {
                if let Ok(Some((prev, found))) = spec_dir_locate(image, parent, name) {
                    crate::fs::dir::lemma_located_is_in_image(
                        image,
                        name,
                        crate::fs::dir::spec_hash_chain_head(image, parent, name)->Ok_0,
                        None,
                        crate::fs::block::spec_block_count(image),
                    );
                    let unlinked = spec_remove_entry(image, parent, name, prev, found, date_time);
                    crate::fs::dir::lemma_remove_entry_sums(image, pages, parent, name, prev, found, date_time, raw);
                    if spec_tracked(unlinked, pages, address as int) {
                        crate::fs::bitmap::lemma_bitmap_update_sums(unlinked, pages, address as int, true, raw);
                        crate::fs::frame::lemma_sums_kept_trans(
                            image,
                            unlinked,
                            spec_bitmap_update(unlinked, pages, address as int, true),
                            pages,
                            raw,
                            raw,
                            raw,
                        );
                    }
                }
            }
        }
    }
}

/// Removing a directory keeps checksums: every block that changes holds a
/// valid checksum afterwards, where no bitmap block is part of the
/// directory that held it.
pub proof fn lemma_remove_dir_sums(image: Seq<u8>, pages: Seq<usize>, path: Seq<u8>, date_time: u64)
    requires
        image.len() == 1760 * 512 || image.len() == 3520 * 512,
        crate::fs::amiga_dos::spec_pages_valid(pages, crate::fs::block::spec_block_count(image)),
        spec_dirname(path) matches Ok(parent_path) ==> (spec_lookup_segments(image, parent_path) matches Ok(parent)
            ==> spec_entry_plain(image, pages, parent, spec_basename(path)->Ok_0)),
    ensures
        crate::fs::frame::spec_sums_kept(image, spec_remove_dir(image, pages, path, date_time).0, pages, Set::empty()),
{
    crate::fs::frame::lemma_sums_kept_refl(image, pages, Set::empty());
    if let Ok(address) = spec_lookup(image, path) {
        lemma_unlink_sums(image, pages, path, address, date_time);
    }
}

/// The bitmap follows the directory when it loses an entry: taking an
/// entry out of its directory marks its header block as free, and leaves
/// the mark of every other block as it was, where the blocks of the
/// directory are neither boot blocks nor bitmap blocks.
pub proof fn lemma_unlink_marks(image: Seq<u8>, pages: Seq<usize>, path: Seq<u8>, address: usize, date_time: u64)
    requires
        image.len() == 1760 * 512 || image.len() == 3520 * 512,
        crate::fs::amiga_dos::spec_pages_valid(pages, crate::fs::block::spec_block_count(image)),
        spec_dirname(path) matches Ok(parent_path) ==> (spec_lookup_segments(image, parent_path) matches Ok(parent)
            ==> 2 <= parent && spec_entry_plain(image, pages, parent, spec_basename(path)->Ok_0) && (spec_dir_locate(
            image,
            parent,
            spec_basename(path)->Ok_0,
        ) matches Ok(Some((Some(before), _))) ==> 2 <= before)),
    ensures
        spec_unlink(image, pages, path, address, date_time).1 is Ok ==> forall|block: int|
            #[trigger] crate::fs::bitmap::spec_block_free(
                spec_unlink(image, pages, path, address, date_time).0,
                pages,
                block,
            ) == (crate::fs::bitmap::spec_block_free(image, pages, block) || block == address),
{
    if spec_unlink(image, pages, path, address, date_time).1 is Ok {
        let parent = spec_lookup_segments(image, spec_dirname(path)->Ok_0)->Ok_0;
        let name = spec_basename(path)->Ok_0;
        let (prev, found) = spec_dir_locate(image, parent, name)->Ok_0->Some_0;
        crate::fs::dir::lemma_located_is_in_image(
            image,
            name,
            crate::fs::dir::spec_hash_chain_head(image, parent, name)->Ok_0,
            None,
            crate::fs::block::spec_block_count(image),
        );
        let unlinked = spec_remove_entry(image, parent, name, prev, found, date_time);
        lemma_remove_entry_frame(image, parent, name, prev, found, date_time);
        let touched = match prev {
            Some(before) => set![parent as int, before as int],
            None => set![parent as int],
        };
        crate::fs::file_lemmas::lemma_plain_blocks_touched(image, unlinked, touched, pages, parent, Seq::empty());
        let after = spec_bitmap_update(unlinked, pages, address as int, true);
        assert forall|block: int| #[trigger] crate::fs::bitmap::spec_block_free(after, pages, block) == (
        crate::fs::bitmap::spec_block_free(image, pages, block) || block == address) by {
            crate::fs::bitmap::lemma_bitmap_update_marks(unlinked, pages, address as int, true, block);
        }
    }
}

/// Taking an entry out of a directory touches the directory block and the
/// block that came before the entry in its hash chain, and nothing else.
proof fn lemma_remove_entry_frame(
    image: Seq<u8>,
    dir: usize,
    name: Seq<u8>,
    prev: Option<usize>,
    found: usize,
    date_time: u64,
)
    requires
        image.len() % 512 == 0,
        dir < crate::fs::block::spec_block_count(image),
        prev matches Some(before) ==> before < crate::fs::block::spec_block_count(image),
    ensures
        spec_remove_entry(image, dir, name, prev, found, date_time).len() == image.len(),
        crate::fs::frame::spec_unchanged_outside(
            image,
            spec_remove_entry(image, dir, name, prev, found, date_time),
            match prev {
                Some(before) => set![dir as int, before as int],
                None => set![dir as int],
            },
        ),
{
    let after = spec_remove_entry(image, dir, name, prev, found, date_time);
    crate::fs::name::lemma_hash_name_in_table(
        name,
        crate::fs::boot_block::spec_international_mode(crate::fs::boot_block::spec_boot_flags(image)),
    );
    match prev {
        Some(before) => {
            let touched = set![dir as int, before as int];
            assert forall|i: int| 0 <= i < image.len() && !touched.contains(i / 512) implies #[trigger] after[i]
                == image[i] by {
                assert(!(dir * 512 <= i < dir * 512 + 512));
                assert(!(before * 512 <= i < before * 512 + 512));
            }
        },
        None => {
            let touched = set![dir as int];
            assert forall|i: int| 0 <= i < image.len() && !touched.contains(i / 512) implies #[trigger] after[i]
                == image[i] by {
                assert(!(dir * 512 <= i < dir * 512 + 512));
            }
        },
    }
}

/// An entry that its path leads to can be taken out of its directory: the
/// parent is there and is a directory, and it holds the name.
pub proof fn lemma_unlink_succeeds(image: Seq<u8>, pages: Seq<usize>, path: Seq<u8>, header: usize, date_time: u64)
    requires
        image.len() % 512 == 0,
        spec_lookup(image, path) == Ok::<usize, Error>(header),
        crate::fs::path::spec_split(path).len() > 0,
        spec_tracked(image, pages, header as int),
    ensures
        spec_unlink(image, pages, path, header, date_time).1 is Ok,
{
    let segments = crate::fs::path::spec_split(path);
    let parent_path = segments.drop_last();
    let name = segments.last();
    let root = crate::fs::boot_block::spec_root_block_address(image);
    assert(parent_path.push(name) =~= segments);
    crate::fs::lookup::lemma_lookup_from_push(image, root, parent_path, name);
    let parent = crate::fs::lookup::spec_lookup_from(image, root, parent_path)->Ok_0;
    assert(seq![name].drop_first() =~= Seq::<Seq<u8>>::empty());
    assert(crate::fs::lookup::spec_lookup_from(image, parent, seq![name]) == Ok::<usize, Error>(header));
    assert(seq![name][0] == name);
    let found = spec_dir_locate(image, parent, name)->Ok_0->Some_0;
    crate::fs::dir::lemma_located_is_in_image(
        image,
        name,
        crate::fs::dir::spec_hash_chain_head(image, parent, name)->Ok_0,
        None,
        crate::fs::block::spec_block_count(image),
    );
    lemma_remove_entry_frame(image, parent, name, found.0, found.1, date_time);
}

} // verus!
