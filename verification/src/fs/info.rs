use vstd::prelude::*;
use vstd::utf8::encode_utf8;

use crate::block::Block;
use crate::disk::{Disk, BLOCK_SIZE};
use crate::errors::Error;
use crate::fs::amiga_dos::AmigaDos;
use crate::fs::amiga_dos_options::{CacheMode, FilesystemType, InternationalMode};
use crate::fs::bitmap::spec_free_block_count;
use crate::fs::block::{
    spec_alteration_date, spec_block_count, spec_disk_alteration_date, spec_name_bytes,
    spec_root_creation_date,
};
use crate::fs::boot_block::{
    spec_boot_block_valid, spec_boot_flags, spec_cache_mode, spec_filesystem_type, spec_international_mode,
    spec_root_block_address, BootBlockReader,
};

verus! {

broadcast use Disk::lemma_len;

/// What a volume says of itself.
#[derive(Debug)]
pub struct AmigaDosInfo {
    pub volume_name: String,
    pub filesystem_type: FilesystemType,
    pub cache_mode: CacheMode,
    pub international_mode: InternationalMode,
    pub root_alteration_date: u64,
    pub root_creation_date: u64,
    pub volume_alteration_date: u64,
    pub total_block_count: usize,
    pub total_size: usize,
    pub free_block_count: usize,
    pub free_size: usize,
}

/// What a volume says of itself: the plain values that `AmigaDosInfo` holds.
pub struct AmigaDosInfoView {
    pub volume_name: Seq<u8>,
    pub filesystem_type: FilesystemType,
    pub cache_mode: CacheMode,
    pub international_mode: InternationalMode,
    pub root_alteration_date: u64,
    pub root_creation_date: u64,
    pub volume_alteration_date: u64,
    pub total_block_count: usize,
    pub total_size: usize,
    pub free_block_count: usize,
    pub free_size: usize,
}

impl View for AmigaDosInfo {
    type V = AmigaDosInfoView;

    open spec fn view(&self) -> AmigaDosInfoView {
        AmigaDosInfoView {
            volume_name: encode_utf8(self.volume_name@),
            filesystem_type: self.filesystem_type,
            cache_mode: self.cache_mode,
            international_mode: self.international_mode,
            root_alteration_date: self.root_alteration_date,
            root_creation_date: self.root_creation_date,
            volume_alteration_date: self.volume_alteration_date,
            total_block_count: self.total_block_count,
            total_size: self.total_size,
            free_block_count: self.free_block_count,
            free_size: self.free_size,
        }
    }
}

/// What the volume in an image says of itself: the settings of its boot
/// block; the name and the three dates of its root block; its size; and
/// the blocks that its bitmap, kept in the blocks `pages`, marks as free.
pub open spec fn spec_info(image: Seq<u8>, pages: Seq<usize>) -> Result<AmigaDosInfoView, Error> {
    let root = spec_root_block_address(image);
    if !spec_boot_block_valid(image) {
        Err(Error::CorruptedImageFile)
    } else {
        match spec_name_bytes(image, root) {
            Err(e) => Err(e),
            Ok(volume_name) => match spec_alteration_date(image, root) {
                Err(e) => Err(e),
                Ok(root_alteration_date) => match spec_root_creation_date(image, root) {
                    Err(e) => Err(e),
                    Ok(root_creation_date) => match spec_disk_alteration_date(image, root) {
                        Err(e) => Err(e),
                        Ok(volume_alteration_date) => Ok(
                            AmigaDosInfoView {
                                volume_name,
                                filesystem_type: spec_filesystem_type(spec_boot_flags(image)),
                                cache_mode: spec_cache_mode(spec_boot_flags(image)),
                                international_mode: spec_international_mode(spec_boot_flags(image)),
                                root_alteration_date,
                                root_creation_date,
                                volume_alteration_date,
                                total_block_count: spec_block_count(image) as usize,
                                total_size: (spec_block_count(image) * 512) as usize,
                                free_block_count: spec_free_block_count(image, pages) as usize,
                                free_size: (spec_free_block_count(image, pages) * 512) as usize,
                            },
                        ),
                    },
                },
            },
        }
    }
}

impl AmigaDos {
    /// What the volume says of itself.
    pub fn info(&self) -> (res: Result<AmigaDosInfo, Error>)
        requires
            self.wf(),
        ensures
            match spec_info(self@, self.inner.spec_pages()) {
                Err(e) => res matches Err(err) && err == e,
                Ok(view) => res matches Ok(info) && info@ == view,
            },
    {
        let boot_block = match BootBlockReader::try_from_disk(&self.inner.disk) {
            Ok(reader) => reader,
            Err(e) => {
                return Err(e);
            },
        };
        let root_block = Block::new(boot_block.get_root_block_address());
        let volume_name = match root_block.read_name(&self.inner.disk) {
            Ok(name) => name,
            Err(e) => {
                return Err(e);
            },
        };
        let root_alteration_date: u64 = match root_block.read_alteration_date(&self.inner.disk) {
            Ok(date) => date,
            Err(e) => {
                return Err(e);
            },
        };
        let root_creation_date: u64 = match root_block.read_root_creation_date(&self.inner.disk) {
            Ok(date) => date,
            Err(e) => {
                return Err(e);
            },
        };
        let volume_alteration_date: u64 = match root_block.read_disk_alteration_date(&self.inner.disk) {
            Ok(date) => date,
            Err(e) => {
                return Err(e);
            },
        };
        let total_block_count: usize = self.inner.total_block_count();
        let free_block_count: usize = self.inner.free_block_count();
        proof {
            crate::fs::bitmap::lemma_free_count_bound(
                self@,
                self.inner.spec_pages(),
                spec_block_count(self@) as int,
            );
        }
        Ok(
            AmigaDosInfo {
                filesystem_type: boot_block.get_filesystem_type(),
                cache_mode: boot_block.get_cache_mode(),
                international_mode: boot_block.get_international_mode(),
                root_alteration_date,
                root_creation_date,
                volume_alteration_date,
                volume_name,
                total_block_count,
                total_size: total_block_count * BLOCK_SIZE,
                free_block_count,
                free_size: free_block_count * BLOCK_SIZE,
            },
        )
    }
}

/// When every block after the boot blocks is free but two, the count of
/// free blocks before `end` is the count of blocks after the boot blocks and
/// before `end` that are neither of the two.
proof fn lemma_free_count_but_two(image: Seq<u8>, pages: Seq<usize>, one: int, two: int, end: int)
    requires
        2 <= end <= spec_block_count(image),
        one != two,
        forall|address: int|
            crate::fs::bitmap::spec_block_free(image, pages, address) <==> 2 <= address < spec_block_count(
                image,
            ) && address != one && address != two,
    ensures
        crate::fs::bitmap::spec_free_count(image, pages, end) == end - 2 - (if 2 <= one < end {
            1int
        } else {
            0int
        }) - (if 2 <= two < end {
            1int
        } else {
            0int
        }),
    decreases end,
{
    if end > 2 {
        lemma_free_count_but_two(image, pages, one, two, end - 1);
    }
}

/// A volume just made, mounted and asked about itself, gives back what it
/// was made with: its name, its three settings, and the time of its making
/// as all three of its dates (to the second, as the disk keeps them). It
/// has as many blocks as the image, and all of them are free but the two
/// boot blocks, the root block and the bitmap block.
pub proof fn lemma_format_info(
    image: Seq<u8>,
    filesystem_type: FilesystemType,
    international_mode: InternationalMode,
    cache_mode: CacheMode,
    root: usize,
    name: Seq<u8>,
    date_time: u64,
)
    requires
        image.len() == 1760 * 512 || image.len() == 3520 * 512,
        crate::fs::format::spec_format_error(image, root, name) is None,
        vstd::utf8::valid_utf8(name),
    ensures
        ({
            let formatted = crate::fs::format::spec_format(
                image,
                crate::fs::boot_block::spec_flags(filesystem_type, international_mode, cache_mode),
                root,
                name,
                date_time,
            );
            let stored = crate::fs::datetime::spec_date_triplet_from_system_time(date_time);
            let date = crate::fs::datetime::spec_date_triplet_to_system_time(stored.0, stored.1, stored.2);
            &&& crate::fs::amiga_dos::spec_mount(formatted) == Ok::<Seq<usize>, Error>(
                crate::fs::bitmap::spec_initial_pages(root as int, 1),
            )
            &&& spec_info(formatted, crate::fs::bitmap::spec_initial_pages(root as int, 1)) == Ok::<
                AmigaDosInfoView,
                Error,
            >(
                AmigaDosInfoView {
                    volume_name: name,
                    filesystem_type,
                    cache_mode,
                    international_mode,
                    root_alteration_date: date,
                    root_creation_date: date,
                    volume_alteration_date: date,
                    total_block_count: (image.len() / 512) as usize,
                    total_size: image.len() as usize,
                    free_block_count: (image.len() / 512 - 4) as usize,
                    free_size: ((image.len() / 512 - 4) * 512) as usize,
                },
            )
        }),
{
    let flags = crate::fs::boot_block::spec_flags(filesystem_type, international_mode, cache_mode);
    let formatted = crate::fs::format::spec_format(image, flags, root, name, date_time);
    let pages = crate::fs::bitmap::spec_initial_pages(root as int, 1);
    crate::fs::format::lemma_format_layout(image, flags, root, name, date_time);
    crate::fs::format::lemma_format_boot(image, flags, root, name, date_time);
    crate::fs::format::lemma_format_mounts(image, flags, root, name, date_time);
    crate::fs::boot_block::lemma_flags_roundtrip(filesystem_type, international_mode, cache_mode);
    lemma_free_count_but_two(formatted, pages, root as int, root + 1, spec_block_count(formatted) as int);
    lemma_root_reads(formatted, root);
}

/// The types of a root block are read as such.
proof fn lemma_root_reads(image: Seq<u8>, root: usize)
    requires
        root < spec_block_count(image),
        crate::block::spec_read_u32(image, root as int, 0) == 2,
        crate::block::spec_read_u32(image, root as int, 508) == 1,
    ensures
        crate::fs::block::spec_check_header(image, root) == Ok::<(), Error>(()),
        crate::fs::block::spec_block_secondary_type(image, root) == Ok::<
            crate::fs::block_type::BlockSecondaryType,
            Error,
        >(crate::fs::block_type::BlockSecondaryType::Root),
        crate::fs::block::spec_check_header_of(image, root, crate::fs::block_type::BlockSecondaryType::Root)
            == Ok::<(), Error>(()),
        spec_alteration_date(image, root) == Ok::<u64, Error>(crate::fs::block::spec_date_at(image, root, 420)),
{
    let primary = seq![crate::fs::block_type::BlockPrimaryType::Header];
    assert(primary[0] == crate::fs::block_type::BlockPrimaryType::Header);
    let secondary = seq![crate::fs::block_type::BlockSecondaryType::Root];
    assert(secondary[0] == crate::fs::block_type::BlockSecondaryType::Root);
    let dated = seq![
        crate::fs::block_type::BlockSecondaryType::Directory,
        crate::fs::block_type::BlockSecondaryType::File,
        crate::fs::block_type::BlockSecondaryType::HardLinkFile,
        crate::fs::block_type::BlockSecondaryType::HardLinkDirectory,
        crate::fs::block_type::BlockSecondaryType::Root,
    ];
    assert(dated[4] == crate::fs::block_type::BlockSecondaryType::Root);
}

} // verus!
