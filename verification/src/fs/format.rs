use vstd::prelude::*;
use vstd::string::StringSliceAdditionalSpecFns;

use crate::block::{spec_read_bytes, spec_read_u32, spec_read_u8};
use crate::disk::{spec_replace_blocks, Disk, LBAAddress};
use crate::errors::Error;
use crate::fs::amiga_dos::{spec_mount, spec_pages_valid, AmigaDos};
use crate::fs::amiga_dos_options::{CacheMode, FilesystemType, InternationalMode};
use crate::fs::bitmap::{
    spec_bitmap_block_count, spec_bitmap_init, spec_bitmap_init_error, spec_initial_pages, BitmapInitializer,
};
use crate::fs::block::{spec_block_count, spec_low_u32};
use crate::fs::boot_block::{spec_boot_block, spec_flags, spec_root_or_default, BootBlockInitializer};
use crate::fs::datetime::system_time_now;
use crate::fs::root_block::{spec_root_block_init, spec_root_block_init_error, RootBlockInitializer};

verus! {

broadcast use Disk::lemma_len;

/// The settings with which a volume is made.
#[derive(Clone, Copy, Debug)]
pub struct AmigaDosFormater {
    pub filesystem_type: FilesystemType,
    pub cache_mode: CacheMode,
    pub international_mode: InternationalMode,
    pub root_block_address: Option<LBAAddress>,
}

impl Default for AmigaDosFormater {
    fn default() -> (res: Self)
        ensures
            res == (AmigaDosFormater {
                filesystem_type: FilesystemType::OFS,
                cache_mode: CacheMode::Off,
                international_mode: InternationalMode::Off,
                root_block_address: None,
            }),
    {
        Self {
            filesystem_type: FilesystemType::OFS,
            cache_mode: CacheMode::Off,
            international_mode: InternationalMode::Off,
            root_block_address: None,
        }
    }
}

/// Why an image cannot be formatted with its root block at `root` and the
/// volume name `name`, if it cannot.
pub open spec fn spec_format_error(image: Seq<u8>, root: usize, name: Seq<u8>) -> Option<Error> {
    match spec_root_block_init_error(image, root, name) {
        Some(e) => Some(e),
        None => spec_bitmap_init_error(spec_block_count(image), root),
    }
}

/// The image of a fresh, empty volume: the boot block, the root block, and
/// the bitmap, written in this order over `image`.
#[verifier::opaque]
pub open spec fn spec_format(image: Seq<u8>, flags: u8, root: usize, name: Seq<u8>, date_time: u64) -> Seq<u8> {
    let booted = spec_replace_blocks(image, 0, 2, spec_boot_block(flags, spec_low_u32(root)));
    spec_bitmap_init(spec_root_block_init(booted, root, name, date_time), root as int)
}

impl AmigaDosFormater {
    /// The flag byte that stands for the settings.
    pub open spec fn spec_flags(&self) -> u8 {
        spec_flags(self.filesystem_type, self.international_mode, self.cache_mode)
    }

    pub fn with_filesystem_type(&mut self, filesystem_type: FilesystemType) -> (res: &mut Self)
        ensures
            *res == (AmigaDosFormater { filesystem_type, ..*old(self) }),
            *final(self) == *final(res),
    {
        self.filesystem_type = filesystem_type;
        self
    }

    pub fn with_international_mode(&mut self, international_mode: InternationalMode) -> (res: &mut Self)
        ensures
            *res == (AmigaDosFormater { international_mode, ..*old(self) }),
            *final(self) == *final(res),
    {
        self.international_mode = international_mode;
        self
    }

    pub fn with_cache_mode(&mut self, cache_mode: CacheMode) -> (res: &mut Self)
        ensures
            *res == (AmigaDosFormater { cache_mode, ..*old(self) }),
            *final(self) == *final(res),
    {
        self.cache_mode = cache_mode;
        self
    }

    pub fn with_root_block_address(&mut self, addr: Option<LBAAddress>) -> (res: &mut Self)
        ensures
            *res == (AmigaDosFormater { root_block_address: addr, ..*old(self) }),
            *final(self) == *final(res),
    {
        self.root_block_address = addr;
        self
    }

    /// Writes an empty volume named `volume_name` over the image, with
    /// `date_time` as the time of the writing. Nothing is written unless
    /// the volume can be made.
    pub fn write_volume(&self, disk: &mut Disk, volume_name: &str, date_time: u64) -> (res: Result<(), Error>)
        requires
            old(disk).wf(),
        ensures
            final(disk).wf(),
            final(disk).spec_disk_type() == old(disk).spec_disk_type(),
            ({
                let root = spec_root_or_default(self.root_block_address, old(disk).spec_block_count());
                match spec_format_error(old(disk)@, root, volume_name.spec_bytes()) {
                    Some(e) => res == Err::<(), Error>(e) && final(disk)@ == old(disk)@,
                    None => res == Ok::<(), Error>(()) && final(disk)@ == spec_format(
                        old(disk)@,
                        self.spec_flags(),
                        root,
                        volume_name.spec_bytes(),
                        date_time,
                    ),
                }
            }),
    {
        proof {
            reveal(spec_format);
        }
        let block_count: usize = disk.block_count();
        let root: LBAAddress = match self.root_block_address {
            Some(address) => address,
            None => block_count / 2,
        };
        if root >= block_count {
            return Err(Error::DiskInvalidLBAAddressError(root));
        }
        match crate::fs::name::check_name(volume_name) {
            Ok(_) => {},
            Err(e) => {
                return Err(e);
            },
        }
        if volume_name.as_bytes().len() > 30 {
            return Err(Error::InvalidNameLengthError(volume_name.as_bytes().len()));
        }
        if root + 1 >= block_count {
            return Err(Error::DiskInvalidLBAAddressError(block_count));
        }
        if root < 2 {
            return Err(Error::DiskInvalidLBAAddressError(root));
        }
        let boot = BootBlockInitializer {
            root_block_address: self.root_block_address,
            filesystem_type: self.filesystem_type,
            international_mode: self.international_mode,
            cache_mode: self.cache_mode,
        };
        let r = boot.init(disk);
        let root_block = RootBlockInitializer {
            filesystem_type: self.filesystem_type,
            volume_name: volume_name.to_owned(),
            root_block_address: self.root_block_address,
        };
        let r = root_block.init_at(disk, date_time);
        let bitmap = BitmapInitializer { root_block_address: self.root_block_address };
        bitmap.init(disk)
    }

    /// Makes an empty volume named `volume_name` on the image, with
    /// `date_time` as the time of the making, and mounts it.
    pub fn format_at(&self, disk: Disk, volume_name: &str, date_time: u64) -> (res: Result<AmigaDos, Error>)
        requires
            disk.wf(),
        ensures
            ({
                let root = spec_root_or_default(self.root_block_address, disk.spec_block_count());
                match spec_format_error(disk@, root, volume_name.spec_bytes()) {
                    Some(e) => res matches Err(err) && err == e,
                    None => res matches Ok(fs) && fs.wf() && fs.inner.disk.spec_disk_type()
                        == disk.spec_disk_type() && fs.inner.spec_pages() == spec_initial_pages(root as int, 1)
                        && fs@ == spec_format(
                        disk@,
                        self.spec_flags(),
                        root,
                        volume_name.spec_bytes(),
                        date_time,
                    ),
                }
            }),
    {
        let mut volume = disk;
        let ghost root = spec_root_or_default(self.root_block_address, disk.spec_block_count());
        match self.write_volume(&mut volume, volume_name, date_time) {
            Ok(_) => {
                proof {
                    lemma_format_mounts(disk@, self.spec_flags(), root, volume_name.spec_bytes(), date_time);
                }
                AmigaDos::try_from(volume)
            },
            Err(e) => Err(e),
        }
    }

    /// Makes an empty volume named `volume_name` on the image, with the
    /// time of the system clock as the time of the making, and mounts it.
    pub fn format(&self, disk: Disk, volume_name: &str) -> (res: Result<AmigaDos, Error>)
        requires
            disk.wf(),
        ensures
            ({
                let root = spec_root_or_default(self.root_block_address, disk.spec_block_count());
                match spec_format_error(disk@, root, volume_name.spec_bytes()) {
                    Some(e) => res matches Err(err) && err == e,
                    None => res matches Ok(fs) && fs.wf() && fs.inner.disk.spec_disk_type()
                        == disk.spec_disk_type() && fs.inner.spec_pages() == spec_initial_pages(root as int, 1)
                        && exists|date_time: u64|
                        fs@ == spec_format(disk@, self.spec_flags(), root, volume_name.spec_bytes(), date_time),
                }
            }),
    {
        let date_time: u64 = system_time_now();
        self.format_at(disk, volume_name, date_time)
    }
}


/// What the image of a fresh volume holds: the boot block as written, a
/// root block that names the volume and lists the bitmap block after it,
/// with an empty hash table and a valid checksum, and a bitmap that marks
/// every block as free but the root block and the bitmap block.
pub proof fn lemma_format_layout(image: Seq<u8>, flags: u8, root: usize, name: Seq<u8>, date_time: u64)
    requires
        image.len() == 1760 * 512 || image.len() == 3520 * 512,
        spec_format_error(image, root, name) is None,
    ensures
        ({
            let formatted = spec_format(image, flags, root, name, date_time);
            let pages = spec_initial_pages(root as int, 1);
            &&& formatted.len() == image.len()
            &&& forall|i: int| 0 <= i < 1024 ==> formatted[i] == spec_boot_block(flags, spec_low_u32(root))[i]
            &&& spec_read_u32(formatted, root as int, 0) == 2
            &&& spec_read_u32(formatted, root as int, 508) == 1
            &&& spec_read_u8(formatted, root as int, 432) == name.len()
            &&& spec_read_bytes(formatted, root as int, 433, name.len() as int) == name
            &&& forall|offset: int|
                24 <= offset <= 308 ==> #[trigger] spec_read_u32(formatted, root as int, offset) == 0
            &&& spec_read_u32(formatted, root as int, 316) == root + 1
            &&& forall|offset: int|
                320 <= offset <= 412 ==> #[trigger] spec_read_u32(formatted, root as int, offset) == 0
            &&& crate::fs::block::spec_date_at(formatted, root, 420) == crate::fs::datetime::spec_date_triplet_to_system_time(
                crate::fs::datetime::spec_date_triplet_from_system_time(date_time).0,
                crate::fs::datetime::spec_date_triplet_from_system_time(date_time).1,
                crate::fs::datetime::spec_date_triplet_from_system_time(date_time).2,
            )
            &&& crate::fs::block::spec_date_at(formatted, root, 472) == crate::fs::block::spec_date_at(
                formatted,
                root,
                420,
            )
            &&& crate::fs::block::spec_date_at(formatted, root, 484) == crate::fs::block::spec_date_at(
                formatted,
                root,
                420,
            )
            &&& crate::fs::block::spec_block_checksum_valid(formatted, root as int)
            &&& crate::fs::bitmap::spec_bitmap_checksum_valid(formatted, root + 1)
            &&& spec_pages_valid(pages, spec_block_count(image))
            &&& forall|address: int|
                crate::fs::bitmap::spec_block_free(formatted, pages, address) <==> 2 <= address
                    < spec_block_count(image) && address != root && address != root + 1
        }),
{
    reveal(spec_format);
    let booted = spec_replace_blocks(image, 0, 2, spec_boot_block(flags, spec_low_u32(root)));
    let rooted = spec_root_block_init(booted, root, name, date_time);
    let formatted = spec_format(image, flags, root, name, date_time);
    crate::fs::boot_block::lemma_boot_block_reads_back(image, flags, spec_low_u32(root));
    assert(booted.len() == image.len());
    crate::fs::root_block::lemma_root_block_init(booted, root, name, date_time);
    crate::fs::bitmap::lemma_bitmap_init(rooted, root);
    assert(spec_read_bytes(formatted, root as int, 433, name.len() as int) =~= spec_read_bytes(
        rooted,
        root as int,
        433,
        name.len() as int,
    ));
    assert forall|offset: int| 420 <= offset <= 428 || 472 <= offset <= 492 implies #[trigger] spec_read_u32(
        formatted,
        root as int,
        offset,
    ) == spec_read_u32(rooted, root as int, offset) by {
        assert(spec_read_bytes(formatted, root as int, offset, 4) =~= spec_read_bytes(
            rooted,
            root as int,
            offset,
            4,
        ));
    }
    assert forall|offset: int| 24 <= offset <= 308 implies #[trigger] spec_read_u32(
        formatted,
        root as int,
        offset,
    ) == 0 by {
        assert(spec_read_u32(rooted, root as int, offset) == 0);
        assert(spec_read_bytes(formatted, root as int, offset, 4) =~= spec_read_bytes(
            rooted,
            root as int,
            offset,
            4,
        ));
    }
    assert forall|offset: int| 320 <= offset <= 412 implies #[trigger] spec_read_u32(
        formatted,
        root as int,
        offset,
    ) == 0 by {
        assert(spec_read_u32(rooted, root as int, offset) == 0);
        assert(spec_read_bytes(formatted, root as int, offset, 4) =~= spec_read_bytes(
            rooted,
            root as int,
            offset,
            4,
        ));
    }
}

/// The boot block of a volume just made is valid, and gives the settings
/// and the root block with which the volume was made.
#[verifier::spinoff_prover]
#[verifier::rlimit(100)]
pub proof fn lemma_format_boot(image: Seq<u8>, flags: u8, root: usize, name: Seq<u8>, date_time: u64)
    requires
        image.len() == 1760 * 512 || image.len() == 3520 * 512,
        spec_format_error(image, root, name) is None,
    ensures
        crate::fs::boot_block::spec_boot_block_valid(spec_format(image, flags, root, name, date_time)),
        crate::fs::boot_block::spec_boot_flags(spec_format(image, flags, root, name, date_time)) == flags,
        crate::fs::boot_block::spec_root_block_address(spec_format(image, flags, root, name, date_time))
            == root,
{
    let formatted = spec_format(image, flags, root, name, date_time);
    let booted = spec_replace_blocks(image, 0, 2, spec_boot_block(flags, spec_low_u32(root)));
    lemma_format_layout(image, flags, root, name, date_time);
    crate::fs::boot_block::lemma_boot_block_reads_back(image, flags, spec_low_u32(root));
    assert(crate::disk::spec_blocks(formatted, 0, 2) =~= crate::disk::spec_blocks(booted, 0, 2));
    assert(spec_read_bytes(formatted, 0, 8, 4) =~= spec_read_bytes(booted, 0, 8, 4));
    assert(formatted[3] == booted[3]);
}

/// The root block of a volume just made lists one bitmap block: the block
/// after it.
pub proof fn lemma_format_lists_bitmap(image: Seq<u8>, flags: u8, root: usize, name: Seq<u8>, date_time: u64)
    requires
        image.len() == 1760 * 512 || image.len() == 3520 * 512,
        spec_format_error(image, root, name) is None,
    ensures
        crate::fs::block::spec_read_bitmap(spec_format(image, flags, root, name, date_time), root) == Ok::<
            Seq<usize>,
            Error,
        >(spec_initial_pages(root as int, 1)),
{
    let formatted = spec_format(image, flags, root, name, date_time);
    lemma_format_layout(image, flags, root, name, date_time);
    let values = crate::block::spec_read_u32s(formatted, root as int, 316, 25);
    assert forall|i: int| 1 <= i < values.len() implies values[i] == 0 by {
        assert(values[i] == spec_read_u32(formatted, root as int, 316 + 4 * i));
    }
    crate::fs::block::lemma_nonzero_addresses_first(values);
    assert(seq![values[0] as usize] =~= spec_initial_pages(root as int, 1));
    assert(seq![crate::fs::block_type::BlockPrimaryType::Header].contains(
        crate::fs::block_type::BlockPrimaryType::Header,
    )) by {
        assert(seq![crate::fs::block_type::BlockPrimaryType::Header][0]
            == crate::fs::block_type::BlockPrimaryType::Header);
    }
    assert(seq![crate::fs::block_type::BlockSecondaryType::Root].contains(
        crate::fs::block_type::BlockSecondaryType::Root,
    )) by {
        assert(seq![crate::fs::block_type::BlockSecondaryType::Root][0]
            == crate::fs::block_type::BlockSecondaryType::Root);
    }
}

/// A volume just made can be mounted: its boot block is valid and names
/// the root block, and the root block lists the one bitmap block, which
/// follows it.
pub proof fn lemma_format_mounts(image: Seq<u8>, flags: u8, root: usize, name: Seq<u8>, date_time: u64)
    requires
        image.len() == 1760 * 512 || image.len() == 3520 * 512,
        spec_format_error(image, root, name) is None,
    ensures
        spec_format(image, flags, root, name, date_time).len() == image.len(),
        spec_mount(spec_format(image, flags, root, name, date_time)) == Ok::<Seq<usize>, Error>(
            spec_initial_pages(root as int, 1),
        ),
{
    lemma_format_layout(image, flags, root, name, date_time);
    lemma_format_boot(image, flags, root, name, date_time);
    lemma_format_lists_bitmap(image, flags, root, name, date_time);
}

} // verus!
