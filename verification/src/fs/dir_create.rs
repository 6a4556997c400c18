use vstd::prelude::*;
use vstd::string::StringSliceAdditionalSpecFns;

use crate::block::Block;
use crate::disk::{Disk, LBAAddress};
use crate::errors::Error;
use crate::fs::amiga_dos::{AmigaDos, AmigaDosInner};
use crate::fs::bitmap::{spec_bitmap_update, spec_lowest_free};
use crate::fs::block::{spec_init_header, spec_write_name_error};
use crate::fs::block_type::BlockSecondaryType;
use crate::fs::boot_block::{spec_boot_block_valid, spec_root_block_address, BootBlockReader};
use crate::fs::datetime::system_time_now;
use crate::fs::dir::{spec_add_entry, spec_check_directory, spec_dir_lookup, Dir};
use crate::fs::lookup::{lookup_segments, spec_lookup_segments};
use crate::fs::name::check_name_bytes;
use crate::fs::path::{spec_basename, spec_dirname, spec_segments, spec_split, split, split_parent};

verus! {

broadcast use Disk::lemma_len;

/// What making a fresh entry named `name` in the directory `dir` leaves on
/// the image, and the header block of the entry. The lowest free block is
/// taken and made the header block of the entry, of the kind that
/// `secondary` gives, and put into the directory. The name must be a valid
/// one, and a block must be free. A volume whose free block turns out to be
/// part of the directory already is corrupted.
pub open spec fn spec_make_entry(
    image: Seq<u8>,
    pages: Seq<usize>,
    dir: usize,
    name: Seq<u8>,
    secondary: BlockSecondaryType,
    date_time: u64,
) -> (Seq<u8>, Result<usize, Error>) {
    match spec_write_name_error(image, dir, name) {
        Some(e) => (image, Err(e)),
        None => match spec_lowest_free(image, pages) {
            None => (image, Err(Error::NoSpaceLeft)),
            Some(address) => {
                let made = spec_init_header(
                    spec_bitmap_update(image, pages, address as int, false),
                    address,
                    secondary,
                    name,
                    date_time,
                );
                if spec_dir_lookup(made, dir, name) == Ok::<Option<usize>, Error>(None) {
                    (spec_add_entry(made, dir, name, address, date_time), Ok(address))
                } else {
                    (made, Err(Error::CorruptedImageFile))
                }
            },
        },
    }
}

/// What making the directory that `path` names leaves on the image, and
/// how it ends. The parent must be there and be a directory, and the name
/// must be new in it.
pub open spec fn spec_create_dir(image: Seq<u8>, pages: Seq<usize>, path: Seq<u8>, date_time: u64) -> (
    Seq<u8>,
    Result<(), Error>,
) {
    match spec_dirname(path) {
        Err(e) => (image, Err(e)),
        Ok(parent_path) => match spec_lookup_segments(image, parent_path) {
            Err(e) => (image, Err(e)),
            Ok(parent) => match spec_check_directory(image, parent) {
                Err(e) => (image, Err(e)),
                Ok(_) => match spec_dir_lookup(image, parent, spec_basename(path)->Ok_0) {
                    Err(e) => (image, Err(e)),
                    Ok(Some(_)) => (image, Err(Error::AlreadyExists)),
                    Ok(None) => {
                        let (made, res) = spec_make_entry(
                            image,
                            pages,
                            parent,
                            spec_basename(path)->Ok_0,
                            BlockSecondaryType::Directory,
                            date_time,
                        );
                        match res {
                            Err(e) => (made, Err(e)),
                            Ok(_) => (made, Ok(())),
                        }
                    },
                },
            },
        },
    }
}

/// What making the directories `segments`, each in the one before it and
/// the first in the directory `current`, leaves on the image, and how it
/// ends. A name that is there already must be the name of a directory; a
/// name that is not is made a directory.
pub open spec fn spec_create_dir_all_from(
    image: Seq<u8>,
    pages: Seq<usize>,
    current: usize,
    segments: Seq<Seq<u8>>,
    date_time: u64,
) -> (Seq<u8>, Result<(), Error>)
    decreases segments.len(),
{
    match spec_check_directory(image, current) {
        Err(e) => (image, Err(e)),
        Ok(_) => if segments.len() == 0 {
            (image, Ok(()))
        } else {
            match spec_dir_lookup(image, current, segments[0]) {
                Err(e) => (image, Err(e)),
                Ok(Some(addr)) => spec_create_dir_all_from(image, pages, addr, segments.drop_first(), date_time),
                Ok(None) => {
                    let (made, res) = spec_make_entry(
                        image,
                        pages,
                        current,
                        segments[0],
                        BlockSecondaryType::Directory,
                        date_time,
                    );
                    match res {
                        Err(e) => (made, Err(e)),
                        Ok(addr) => spec_create_dir_all_from(
                            made,
                            pages,
                            addr,
                            segments.drop_first(),
                            date_time,
                        ),
                    }
                },
            }
        },
    }
}

/// What making the directory that `path` names, and every directory on the
/// way to it that is missing, leaves on the image, and how it ends.
pub open spec fn spec_create_dir_all(image: Seq<u8>, pages: Seq<usize>, path: Seq<u8>, date_time: u64) -> (
    Seq<u8>,
    Result<(), Error>,
) {
    if !spec_boot_block_valid(image) {
        (image, Err(Error::CorruptedImageFile))
    } else {
        spec_create_dir_all_from(image, pages, spec_root_block_address(image), spec_split(path), date_time)
    }
}

impl AmigaDosInner {
    /// Makes a fresh entry named `name` in the directory `dir`, and gives
    /// its header block.
    pub fn make_entry(&mut self, dir: Dir, name: &[u8], secondary: BlockSecondaryType, date_time: u64) -> (res:
        Result<LBAAddress, Error>)
        requires
            old(self).wf(),
            spec_check_directory(old(self)@, dir.header_block_address) is Ok,
        ensures
            final(self).wf(),
            final(self).same_volume(old(self)),
            (final(self)@, res) == spec_make_entry(
                old(self)@,
                old(self).spec_pages(),
                dir.header_block_address,
                name@,
                secondary,
                date_time,
            ),
    {
        match check_name_bytes(name) {
            Ok(_) => {},
            Err(e) => {
                return Err(e);
            },
        }
        if name.len() > 30 {
            return Err(Error::InvalidNameLengthError(name.len()));
        }
        let address: LBAAddress = match self.reserve_block() {
            Ok(address) => address,
            Err(e) => {
                return Err(e);
            },
        };
        let r = Block::new(address).init_header(&mut self.disk, secondary, name, date_time);
        match dir.lookup(&self.disk, name) {
            Ok(None) => {},
            _ => {
                return Err(Error::CorruptedImageFile);
            },
        }
        let r = dir.add_entry(&mut self.disk, name, address, date_time);
        Ok(address)
    }
}

impl AmigaDos {
    /// Makes a new, empty directory at `path`, changed last at `date_time`.
    /// The parent of the path must be there already: `create_dir_all` makes
    /// the missing parents too.
    pub fn create_dir_at(&mut self, path: &str, date_time: u64) -> (res: Result<(), Error>)
        requires
            old(self).wf(),
        ensures
            final(self).wf(),
            final(self).same_volume(old(self)),
            (final(self)@, res) == spec_create_dir(
                old(self)@,
                old(self).inner.spec_pages(),
                path.spec_bytes(),
                date_time,
            ),
    {
        let (parent_path, name) = match split_parent(path) {
            Ok(parts) => parts,
            Err(e) => {
                return Err(e);
            },
        };
        let parent: LBAAddress = match lookup_segments(&self.inner.disk, &parent_path) {
            Ok(address) => address,
            Err(e) => {
                return Err(e);
            },
        };
        let dir = match Dir::try_with_block_address(&self.inner.disk, parent) {
            Ok(dir) => dir,
            Err(e) => {
                return Err(e);
            },
        };
        match dir.lookup(&self.inner.disk, name.as_slice()) {
            Ok(None) => {},
            Ok(Some(_)) => {
                return Err(Error::AlreadyExists);
            },
            Err(e) => {
                return Err(e);
            },
        }
        match self.inner.make_entry(dir, name.as_slice(), BlockSecondaryType::Directory, date_time) {
            Ok(_) => Ok(()),
            Err(e) => Err(e),
        }
    }

    /// Makes a new, empty directory at `path`, changed last at the time of
    /// the system clock.
    pub fn create_dir(&mut self, path: &str) -> (res: Result<(), Error>)
        requires
            old(self).wf(),
        ensures
            final(self).wf(),
            final(self).same_volume(old(self)),
            exists|date_time: u64|
                (final(self)@, res) == spec_create_dir(
                    old(self)@,
                    old(self).inner.spec_pages(),
                    path.spec_bytes(),
                    date_time,
                ),
    {
        let date_time: u64 = system_time_now();
        self.create_dir_at(path, date_time)
    }

    /// Makes the directory at `path` and every directory on the way to it
    /// that is missing, each changed last at `date_time`.
    pub fn create_dir_all_at(&mut self, path: &str, date_time: u64) -> (res: Result<(), Error>)
        requires
            old(self).wf(),
        ensures
            final(self).wf(),
            final(self).same_volume(old(self)),
            (final(self)@, res) == spec_create_dir_all(
                old(self)@,
                old(self).inner.spec_pages(),
                path.spec_bytes(),
                date_time,
            ),
    {
        let segments = split(path);
        let boot_block = match BootBlockReader::try_from_disk(&self.inner.disk) {
            Ok(reader) => reader,
            Err(e) => {
                return Err(e);
            },
        };
        let mut current: LBAAddress = boot_block.get_root_block_address();
        let count: usize = segments.len();
        let mut i: usize = 0;
        assert(spec_segments(segments@).skip(0) =~= spec_segments(segments@));
        while i < count
            invariant
                i <= count,
                count == segments@.len(),
                self.wf(),
                self.same_volume(old(self)),
                spec_create_dir_all_from(
                    self@,
                    self.inner.spec_pages(),
                    current,
                    spec_segments(segments@).skip(i as int),
                    date_time,
                ) == spec_create_dir_all(
                    old(self)@,
                    old(self).inner.spec_pages(),
                    path.spec_bytes(),
                    date_time,
                ),
            decreases count - i,
        {
            let ghost rest = spec_segments(segments@).skip(i as int);
            assert(rest[0] == segments@[i as int]@);
            assert(rest.drop_first() =~= spec_segments(segments@).skip(i + 1));
            let dir = match Dir::try_with_block_address(&self.inner.disk, current) {
                Ok(dir) => dir,
                Err(e) => {
                    return Err(e);
                },
            };
            match dir.lookup(&self.inner.disk, segments[i].as_slice()) {
                Ok(Some(addr)) => {
                    current = addr;
                },
                Ok(None) => {
                    match self.inner.make_entry(
                        dir,
                        segments[i].as_slice(),
                        BlockSecondaryType::Directory,
                        date_time,
                    ) {
                        Ok(addr) => {
                            current = addr;
                        },
                        Err(e) => {
                            return Err(e);
                        },
                    }
                },
                Err(e) => {
                    return Err(e);
                },
            }
            i = i + 1;
        }
        assert(spec_segments(segments@).skip(count as int) =~= Seq::<Seq<u8>>::empty());
        match Dir::try_with_block_address(&self.inner.disk, current) {
            Ok(_) => Ok(()),
            Err(e) => Err(e),
        }
    }

    /// Makes the directory at `path` and every directory on the way to it
    /// that is missing, each changed last at the time of the system clock.
    pub fn create_dir_all(&mut self, path: &str) -> (res: Result<(), Error>)
        requires
            old(self).wf(),
        ensures
            final(self).wf(),
            final(self).same_volume(old(self)),
            exists|date_time: u64|
                (final(self)@, res) == spec_create_dir_all(
                    old(self)@,
                    old(self).inner.spec_pages(),
                    path.spec_bytes(),
                    date_time,
                ),
    {
        let date_time: u64 = system_time_now();
        self.create_dir_all_at(path, date_time)
    }
}

/// Whether the bitmap marks its own blocks as used: a block that is taken
/// next is then no bitmap block.
pub open spec fn spec_pages_used(image: Seq<u8>, pages: Seq<usize>) -> bool {
    forall|k: int| 0 <= k < pages.len() ==> !crate::fs::bitmap::spec_block_free(image, pages, #[trigger] pages[k] as int)
}

/// An entry that is made in a directory is found there: after a fresh
/// entry named `name` has been made in the directory `dir`, the search of
/// the directory for the name gives the header block of the entry. The
/// path resolver and the listing of the directory thus agree on it.
pub proof fn lemma_make_entry_found(
    image: Seq<u8>,
    pages: Seq<usize>,
    dir: usize,
    name: Seq<u8>,
    secondary: BlockSecondaryType,
    date_time: u64,
)
    requires
        image.len() == 1760 * 512 || image.len() == 3520 * 512,
        crate::fs::amiga_dos::spec_pages_valid(pages, crate::fs::block::spec_block_count(image)),
        spec_boot_block_valid(image),
        spec_pages_used(image, pages),
        2 <= dir,
        !pages.contains(dir),
        !crate::fs::bitmap::spec_block_free(image, pages, dir as int),
        spec_check_directory(image, dir) is Ok,
        vstd::utf8::valid_utf8(name),
    ensures
        ({
            let (made, res) = spec_make_entry(image, pages, dir, name, secondary, date_time);
            res matches Ok(address) ==> spec_dir_lookup(made, dir, name) == Ok::<Option<usize>, Error>(
                Some(address),
            ) && crate::fs::block::spec_name_bytes(made, address) == Ok::<Seq<u8>, Error>(name)
                && spec_boot_block_valid(made) && spec_check_directory(made, dir) is Ok
                && crate::fs::dir::spec_hash_chain_head(made, dir, name) == Ok::<Option<usize>, Error>(
                Some(address),
            ) && address != dir
        }),
{
    let (made, res) = spec_make_entry(image, pages, dir, name, secondary, date_time);
    if res is Ok {
        crate::fs::bitmap::lemma_lowest_free(image, pages);
        let address = spec_lowest_free(image, pages)->Some_0;
        assert(crate::fs::bitmap::spec_first_free(image, pages, address as int));
        let page = crate::fs::bitmap::spec_page_of(pages, address as int);
        assert(pages[(address - 2) / 4064] == page);
        assert forall|k: int| 0 <= k < pages.len() implies #[trigger] pages[k] != address by {
            assert(!crate::fs::bitmap::spec_block_free(image, pages, pages[k] as int));
        }
        let taken = spec_bitmap_update(image, pages, address as int, false);
        crate::fs::bitmap::lemma_bitmap_update_checksum(image, pages, address as int, false);
        let headed = spec_init_header(taken, address, secondary, name, date_time);
        crate::fs::block::lemma_init_header_sums(taken, pages, address, secondary, name, date_time, Set::empty());
        crate::fs::block::lemma_init_header_reads(taken, address, secondary, name, date_time);
        lemma_entry_made(image, taken, headed, page, dir, address);
        crate::fs::dir::lemma_add_entry_found(headed, dir, name, address, date_time);
    }
}

/// What taking a block and making it a header block leaves alone: the boot
/// block and the directory.
proof fn lemma_entry_made(image: Seq<u8>, taken: Seq<u8>, headed: Seq<u8>, page: int, dir: usize, address: usize)
    requires
        image.len() == 1760 * 512 || image.len() == 3520 * 512,
        taken.len() == image.len(),
        headed.len() == image.len(),
        2 <= page < image.len() / 512,
        2 <= dir < image.len() / 512,
        2 <= address < image.len() / 512,
        dir != page,
        dir != address,
        forall|i: int|
            0 <= i < image.len() && !(page * 512 <= i < page * 512 + 512) ==> #[trigger] taken[i] == image[i],
        crate::fs::frame::spec_unchanged_outside(taken, headed, set![address as int]),
        spec_check_directory(image, dir) is Ok,
        spec_boot_block_valid(image),
    ensures
        spec_check_directory(headed, dir) is Ok,
        spec_boot_block_valid(headed),
{
    assert(crate::fs::frame::spec_unchanged_outside(image, taken, set![page])) by {
        assert forall|i: int| 0 <= i < image.len() && !set![page].contains(i / 512) implies #[trigger] taken[i]
            == image[i] by {
            assert(!(page * 512 <= i < page * 512 + 512));
        }
    }
    let both = set![page, address as int];
    crate::fs::frame::lemma_unchanged_outside_trans(image, taken, headed, set![page], set![address as int], both);
    crate::fs::frame::lemma_untouched_block(image, headed, both, 0);
    crate::fs::frame::lemma_untouched_block(image, headed, both, 1);
    crate::fs::frame::lemma_untouched_block(image, headed, both, dir as int);
    crate::fs::frame::lemma_same_boot(image, headed);
    crate::fs::dir::lemma_same_directory(image, headed, dir);
}

/// Making an entry in a directory keeps checksums: the bitmap block, the
/// header block of the entry and the directory block hold valid checksums
/// afterwards.
pub proof fn lemma_make_entry_sums(
    image: Seq<u8>,
    pages: Seq<usize>,
    dir: usize,
    name: Seq<u8>,
    secondary: BlockSecondaryType,
    date_time: u64,
)
    requires
        image.len() == 1760 * 512 || image.len() == 3520 * 512,
        crate::fs::amiga_dos::spec_pages_valid(pages, crate::fs::block::spec_block_count(image)),
        spec_pages_used(image, pages),
        dir < crate::fs::block::spec_block_count(image),
        !pages.contains(dir),
    ensures
        crate::fs::frame::spec_sums_kept(
            image,
            spec_make_entry(image, pages, dir, name, secondary, date_time).0,
            pages,
            Set::empty(),
        ),
{
    let raw = Set::<int>::empty();
    crate::fs::frame::lemma_sums_kept_refl(image, pages, raw);
    if spec_write_name_error(image, dir, name) is None {
        crate::fs::bitmap::lemma_lowest_free(image, pages);
        match spec_lowest_free(image, pages) {
            None => {},
            Some(address) => {
                assert(crate::fs::bitmap::spec_first_free(image, pages, address as int));
                if pages.contains(address) {
                    let k = choose|k: int| 0 <= k < pages.len() && pages[k] == address;
                    assert(!crate::fs::bitmap::spec_block_free(image, pages, pages[k] as int));
                }
                let taken = spec_bitmap_update(image, pages, address as int, false);
                crate::fs::bitmap::lemma_bitmap_update_sums(image, pages, address as int, false, raw);
                crate::fs::bitmap::lemma_bitmap_update_checksum(image, pages, address as int, false);
                let headed = spec_init_header(taken, address, secondary, name, date_time);
                crate::fs::block::lemma_init_header_sums(taken, pages, address, secondary, name, date_time, raw);
                crate::fs::frame::lemma_sums_kept_trans(image, taken, headed, pages, raw, raw, raw);
                crate::fs::dir::lemma_add_entry_sums(headed, pages, dir, name, address, date_time, raw);
                crate::fs::frame::lemma_sums_kept_trans(
                    image,
                    headed,
                    spec_add_entry(headed, dir, name, address, date_time),
                    pages,
                    raw,
                    raw,
                    raw,
                );
            },
        }
    }
}

/// Making a directory keeps checksums: every block that changes holds a
/// valid checksum afterwards, where the bitmap marks its own blocks as
/// used and the directory that gets the entry is no bitmap block.
pub proof fn lemma_create_dir_sums(image: Seq<u8>, pages: Seq<usize>, path: Seq<u8>, date_time: u64)
    requires
        image.len() == 1760 * 512 || image.len() == 3520 * 512,
        crate::fs::amiga_dos::spec_pages_valid(pages, crate::fs::block::spec_block_count(image)),
        spec_pages_used(image, pages),
        spec_dirname(path) matches Ok(parent_path) ==> (spec_lookup_segments(image, parent_path) matches Ok(parent)
            ==> !pages.contains(parent)),
    ensures
        crate::fs::frame::spec_sums_kept(image, spec_create_dir(image, pages, path, date_time).0, pages, Set::empty()),
{
    crate::fs::frame::lemma_sums_kept_refl(image, pages, Set::empty());
    if let Ok(parent_path) = spec_dirname(path) {
        if let Ok(parent) = spec_lookup_segments(image, parent_path) {
            if spec_check_directory(image, parent) is Ok {
                lemma_make_entry_sums(
                    image,
                    pages,
                    parent,
                    spec_basename(path)->Ok_0,
                    BlockSecondaryType::Directory,
                    date_time,
                );
            }
        }
    }
}

/// Making an entry in a directory leaves the bitmap blocks marked as used.
pub proof fn lemma_make_entry_pages_used(
    image: Seq<u8>,
    pages: Seq<usize>,
    dir: usize,
    name: Seq<u8>,
    secondary: BlockSecondaryType,
    date_time: u64,
)
    requires
        image.len() == 1760 * 512 || image.len() == 3520 * 512,
        crate::fs::amiga_dos::spec_pages_valid(pages, crate::fs::block::spec_block_count(image)),
        spec_pages_used(image, pages),
        dir < crate::fs::block::spec_block_count(image),
        !pages.contains(dir),
    ensures
        spec_make_entry(image, pages, dir, name, secondary, date_time).0.len() == image.len(),
        spec_pages_used(spec_make_entry(image, pages, dir, name, secondary, date_time).0, pages),
        spec_make_entry(image, pages, dir, name, secondary, date_time).1 matches Ok(address) ==> !pages.contains(
            address,
        ) && address < crate::fs::block::spec_block_count(image),
{
    if spec_write_name_error(image, dir, name) is None {
        crate::fs::bitmap::lemma_lowest_free(image, pages);
        match spec_lowest_free(image, pages) {
            None => {},
            Some(address) => {
                assert(crate::fs::bitmap::spec_first_free(image, pages, address as int));
                if pages.contains(address) {
                    let k = choose|k: int| 0 <= k < pages.len() && pages[k] == address;
                    assert(!crate::fs::bitmap::spec_block_free(image, pages, pages[k] as int));
                }
                let taken = spec_bitmap_update(image, pages, address as int, false);
                assert forall|k: int| 0 <= k < pages.len() implies !crate::fs::bitmap::spec_block_free(
                    taken,
                    pages,
                    #[trigger] pages[k] as int,
                ) by {
                    crate::fs::bitmap::lemma_bitmap_update_marks(image, pages, address as int, false, pages[k] as int);
                }
                crate::fs::bitmap::lemma_bitmap_update_checksum(image, pages, address as int, false);
                let headed = spec_init_header(taken, address, secondary, name, date_time);
                crate::fs::block::lemma_init_header_sums(
                    taken,
                    pages,
                    address,
                    secondary,
                    name,
                    date_time,
                    Set::empty(),
                );
                lemma_pages_used_kept(taken, headed, pages, set![address as int]);
                let added = spec_add_entry(headed, dir, name, address, date_time);
                crate::fs::dir::lemma_add_entry_frame(headed, dir, name, address, date_time);
                lemma_pages_used_kept(headed, added, pages, set![dir as int, address as int]);
            },
        }
    }
}

/// A change that touches no bitmap block leaves the bitmap blocks marked
/// as used.
pub proof fn lemma_pages_used_kept(before: Seq<u8>, after: Seq<u8>, pages: Seq<usize>, touched: Set<int>)
    requires
        after.len() == before.len(),
        before.len() % 512 == 0,
        crate::fs::amiga_dos::spec_pages_valid(pages, crate::fs::block::spec_block_count(before)),
        spec_pages_used(before, pages),
        crate::fs::frame::spec_unchanged_outside(before, after, touched),
        forall|k: int| 0 <= k < pages.len() ==> !touched.contains(#[trigger] pages[k] as int),
    ensures
        spec_pages_used(after, pages),
{
    assert forall|k: int| 0 <= k < pages.len() implies crate::fs::frame::spec_same_block(
        before,
        after,
        #[trigger] pages[k] as int,
    ) by {
        crate::fs::frame::lemma_untouched_block(before, after, touched, pages[k] as int);
    }
    assert forall|k: int| 0 <= k < pages.len() implies !crate::fs::bitmap::spec_block_free(
        after,
        pages,
        #[trigger] pages[k] as int,
    ) by {
        crate::fs::frame::lemma_same_pages_same_marks(before, after, pages, pages[k] as int);
    }
}

/// Whether none of the directories that the making of the directories
/// `segments` passes through, from the directory `current` on, is a bitmap
/// block. On a volume that holds together no bitmap block is a directory.
pub open spec fn spec_dirs_plain_from(
    image: Seq<u8>,
    pages: Seq<usize>,
    current: usize,
    segments: Seq<Seq<u8>>,
    date_time: u64,
) -> bool
    decreases segments.len(),
{
    &&& !pages.contains(current)
    &&& spec_check_directory(image, current) is Ok && segments.len() > 0 ==> match spec_dir_lookup(
        image,
        current,
        segments[0],
    ) {
        Err(_) => true,
        Ok(Some(addr)) => spec_dirs_plain_from(image, pages, addr, segments.drop_first(), date_time),
        Ok(None) => match spec_make_entry(
            image,
            pages,
            current,
            segments[0],
            BlockSecondaryType::Directory,
            date_time,
        ) {
            (made, Ok(addr)) => spec_dirs_plain_from(made, pages, addr, segments.drop_first(), date_time),
            _ => true,
        },
    }
}

/// Making the directories `segments` one in the other keeps checksums:
/// every block that changes holds a valid checksum afterwards, where the
/// bitmap marks its own blocks as used and no directory on the way is a
/// bitmap block.
pub proof fn lemma_create_dir_all_from_sums(
    image: Seq<u8>,
    pages: Seq<usize>,
    current: usize,
    segments: Seq<Seq<u8>>,
    date_time: u64,
)
    requires
        image.len() == 1760 * 512 || image.len() == 3520 * 512,
        crate::fs::amiga_dos::spec_pages_valid(pages, crate::fs::block::spec_block_count(image)),
        spec_pages_used(image, pages),
        spec_dirs_plain_from(image, pages, current, segments, date_time),
    ensures
        crate::fs::frame::spec_sums_kept(
            image,
            spec_create_dir_all_from(image, pages, current, segments, date_time).0,
            pages,
            Set::empty(),
        ),
    decreases segments.len(),
{
    let raw = Set::<int>::empty();
    crate::fs::frame::lemma_sums_kept_refl(image, pages, raw);
    if spec_check_directory(image, current) is Ok && segments.len() > 0 {
        match spec_dir_lookup(image, current, segments[0]) {
            Err(_) => {},
            Ok(Some(addr)) => {
                lemma_create_dir_all_from_sums(image, pages, addr, segments.drop_first(), date_time);
            },
            Ok(None) => {
                let (made, res) = spec_make_entry(
                    image,
                    pages,
                    current,
                    segments[0],
                    BlockSecondaryType::Directory,
                    date_time,
                );
                lemma_make_entry_sums(image, pages, current, segments[0], BlockSecondaryType::Directory, date_time);
                lemma_make_entry_pages_used(
                    image,
                    pages,
                    current,
                    segments[0],
                    BlockSecondaryType::Directory,
                    date_time,
                );
                match res {
                    Err(_) => {},
                    Ok(addr) => {
                        lemma_create_dir_all_from_sums(made, pages, addr, segments.drop_first(), date_time);
                        crate::fs::frame::lemma_sums_kept_trans(
                            image,
                            made,
                            spec_create_dir_all_from(made, pages, addr, segments.drop_first(), date_time).0,
                            pages,
                            raw,
                            raw,
                            raw,
                        );
                    },
                }
            },
        }
    }
}

/// Making a directory and every directory on the way to it keeps
/// checksums: every block that changes holds a valid checksum afterwards,
/// where the bitmap marks its own blocks as used and no directory on the
/// way is a bitmap block.
pub proof fn lemma_create_dir_all_sums(image: Seq<u8>, pages: Seq<usize>, path: Seq<u8>, date_time: u64)
    requires
        image.len() == 1760 * 512 || image.len() == 3520 * 512,
        crate::fs::amiga_dos::spec_pages_valid(pages, crate::fs::block::spec_block_count(image)),
        spec_pages_used(image, pages),
        spec_dirs_plain_from(image, pages, spec_root_block_address(image), spec_split(path), date_time),
    ensures
        crate::fs::frame::spec_sums_kept(
            image,
            spec_create_dir_all(image, pages, path, date_time).0,
            pages,
            Set::empty(),
        ),
{
    crate::fs::frame::lemma_sums_kept_refl(image, pages, Set::empty());
    if spec_boot_block_valid(image) {
        lemma_create_dir_all_from_sums(image, pages, spec_root_block_address(image), spec_split(path), date_time);
    }
}

/// The bitmap follows the directory when it gets an entry: making an entry
/// marks its header block as used, which was free, and leaves the mark of
/// every other block as it was.
pub proof fn lemma_make_entry_marks(
    image: Seq<u8>,
    pages: Seq<usize>,
    dir: usize,
    name: Seq<u8>,
    secondary: BlockSecondaryType,
    date_time: u64,
)
    requires
        image.len() == 1760 * 512 || image.len() == 3520 * 512,
        crate::fs::amiga_dos::spec_pages_valid(pages, crate::fs::block::spec_block_count(image)),
        spec_pages_used(image, pages),
        2 <= dir < crate::fs::block::spec_block_count(image),
        !pages.contains(dir),
    ensures
        ({
            let (made, res) = spec_make_entry(image, pages, dir, name, secondary, date_time);
            res matches Ok(address) ==> crate::fs::bitmap::spec_block_free(image, pages, address as int)
                && (forall|block: int|
                #[trigger] crate::fs::bitmap::spec_block_free(made, pages, block) == (
                crate::fs::bitmap::spec_block_free(image, pages, block) && block != address)) && made.len()
                == image.len() && crate::fs::boot_block::spec_root_block_address(made)
                == crate::fs::boot_block::spec_root_block_address(image)
        }),
{
    let (made, res) = spec_make_entry(image, pages, dir, name, secondary, date_time);
    if res is Ok {
        crate::fs::bitmap::lemma_lowest_free(image, pages);
        let address = spec_lowest_free(image, pages)->Some_0;
        assert(crate::fs::bitmap::spec_first_free(image, pages, address as int));
        if pages.contains(address) {
            let k = choose|k: int| 0 <= k < pages.len() && pages[k] == address;
            assert(!crate::fs::bitmap::spec_block_free(image, pages, pages[k] as int));
        }
        let taken = spec_bitmap_update(image, pages, address as int, false);
        crate::fs::bitmap::lemma_bitmap_update_checksum(image, pages, address as int, false);
        let headed = spec_init_header(taken, address, secondary, name, date_time);
        crate::fs::block::lemma_init_header_sums(taken, pages, address, secondary, name, date_time, Set::empty());
        crate::fs::dir::lemma_add_entry_frame(headed, dir, name, address, date_time);
        crate::fs::frame::lemma_unchanged_outside_trans(
            taken,
            headed,
            made,
            set![address as int],
            set![dir as int, address as int],
            set![dir as int, address as int],
        );
        crate::fs::file_lemmas::lemma_plain_blocks_touched(
            taken,
            made,
            set![dir as int, address as int],
            pages,
            dir,
            Seq::empty(),
        );
        lemma_marked_boot(image, pages, address as int, false);
        crate::fs::frame::lemma_untouched_block(taken, made, set![dir as int, address as int], 0);
        crate::fs::frame::lemma_untouched_block(taken, made, set![dir as int, address as int], 1);
        crate::fs::frame::lemma_same_boot(taken, made);
        assert forall|block: int| #[trigger] crate::fs::bitmap::spec_block_free(made, pages, block) == (
        crate::fs::bitmap::spec_block_free(image, pages, block) && block != address) by {
            crate::fs::bitmap::lemma_bitmap_update_marks(image, pages, address as int, false, block);
            assert(crate::fs::bitmap::spec_block_free(made, pages, block) == crate::fs::bitmap::spec_block_free(
                taken,
                pages,
                block,
            ));
        }
    }
}

/// Marking a block in the bitmap leaves the boot block as it is.
proof fn lemma_marked_boot(image: Seq<u8>, pages: Seq<usize>, address: int, free: bool)
    requires
        image.len() == 1760 * 512 || image.len() == 3520 * 512,
        crate::fs::amiga_dos::spec_pages_valid(pages, crate::fs::block::spec_block_count(image)),
        crate::fs::bitmap::spec_tracked(image, pages, address),
    ensures
        spec_bitmap_update(image, pages, address, free).len() == image.len(),
        crate::fs::boot_block::spec_root_block_address(spec_bitmap_update(image, pages, address, free))
            == crate::fs::boot_block::spec_root_block_address(image),
{
    let taken = spec_bitmap_update(image, pages, address, free);
    let page = crate::fs::bitmap::spec_page_of(pages, address);
    assert(pages[(address - 2) / 4064] == page);
    crate::fs::bitmap::lemma_bitmap_update_checksum(image, pages, address, free);
    assert(crate::fs::frame::spec_same_block(image, taken, 0));
    assert(crate::fs::frame::spec_same_block(image, taken, 1));
    crate::fs::frame::lemma_same_boot(image, taken);
}

} // verus!
