use vstd::prelude::*;
use vstd::string::StringSliceAdditionalSpecFns;

use crate::block::{spec_fill, spec_read_u32, spec_write_bytes, spec_write_u32, Block};
use crate::disk::{Disk, LBAAddress, BLOCK_SIZE};
use crate::errors::Error;
use crate::fs::amiga_dos::{AmigaDos, AmigaDosInner};
use crate::fs::amiga_dos_options::FilesystemType;
use crate::fs::bitmap::{spec_bitmap_update, spec_lowest_free};
use crate::fs::block::{low_u32, spec_block_count, spec_low_u32, spec_write_checksum, spec_write_date};
use crate::fs::block_type::{BlockPrimaryType, BlockSecondaryType};
use crate::fs::boot_block::{spec_boot_block_valid, spec_boot_flags, spec_filesystem_type};
use crate::fs::constants::{
    BLOCK_DATA_LIST_EXTENSION_OFFSET, BLOCK_DATA_LIST_HEADER_KEY_OFFSET, BLOCK_DATA_LIST_HIGH_SEQ_OFFSET,
    BLOCK_DATA_LIST_SIZE, BLOCK_DATA_OFS_HEADER_KEY_OFFSET, BLOCK_DATA_OFS_NEXT_DATA_OFFSET,
    BLOCK_DATA_OFS_SEQ_NUM_OFFSET, BLOCK_DATA_OFS_SIZE_OFFSET, BLOCK_FIRST_DATA_OFFSET, BLOCK_PARENT_OFFSET,
    BLOCK_TABLE_SIZE,
};
use crate::fs::file::{spec_test_file_mode, test_file_mode, File, FileDataBlockListEntry, FileMode};

verus! {

broadcast use Disk::lemma_len;

/// The image with the header block `header` of a file brought up to date:
/// the size of the file and its date of change are stored, and the checksum
/// follows. A file that is not open for writing leaves the image as it is.
pub open spec fn spec_sync_all(image: Seq<u8>, header: usize, mode: usize, size: usize, date_time: u64) -> Seq<u8> {
    if spec_test_file_mode(FileMode::Write, mode) {
        spec_write_checksum(
            spec_write_date(spec_write_u32(image, header as int, 324, spec_low_u32(size)), header, 420, date_time),
            header,
        )
    } else {
        image
    }
}

/// The larger of two numbers.
pub open spec fn spec_max(a: int, b: int) -> int {
    if a >= b {
        a
    } else {
        b
    }
}

/// The image with `chunk` written into the payload of the data block
/// `data`, from byte `data_pos` of the payload on. In the old flavour
/// the block's own count of payload bytes grows to hold what was written,
/// and its checksum follows.
#[verifier::opaque]
pub open spec fn spec_write_data(
    image: Seq<u8>,
    data: usize,
    block_data_offset: usize,
    data_pos: usize,
    chunk: Seq<u8>,
    filesystem_type: FilesystemType,
) -> Seq<u8> {
    let written = spec_write_bytes(image, data as int, block_data_offset + data_pos, chunk);
    match filesystem_type {
        FilesystemType::FFS => written,
        FilesystemType::OFS => spec_write_checksum(
            spec_write_u32(
                written,
                data as int,
                12,
                spec_max(spec_read_u32(written, data as int, 12) as int, data_pos + chunk.len()) as u32,
            ),
            data,
        ),
    }
}

/// The image with block `address` made a list block of the file whose
/// header block is `header`: the block is cleared, it gets its two types,
/// its own address as its key and the header block as its parent, and its
/// checksum follows.
pub open spec fn spec_init_extension_block(image: Seq<u8>, address: usize, header: usize) -> Seq<u8> {
    let a = address as int;
    let typed = spec_write_u32(spec_write_u32(spec_fill(image, a, 0, 0, 512), a, 0, 16), a, 508, 0xffff_fffd);
    spec_write_checksum(spec_write_u32(spec_write_u32(typed, a, 4, spec_low_u32(address)), a, 500, spec_low_u32(header)), address)
}

/// The image with block `address` made data block number `sequence` of the
/// file whose header block is `header`: the block is cleared, and in the
/// old flavour it gets its type, the header block as its key, its
/// number, and its checksum.
pub open spec fn spec_init_data_block(
    image: Seq<u8>,
    address: usize,
    header: usize,
    sequence: usize,
    filesystem_type: FilesystemType,
) -> Seq<u8> {
    let a = address as int;
    let cleared = spec_fill(image, a, 0, 0, 512);
    match filesystem_type {
        FilesystemType::FFS => cleared,
        FilesystemType::OFS => spec_write_checksum(
            spec_write_u32(
                spec_write_u32(spec_write_u32(cleared, a, 0, 8), a, 4, spec_low_u32(header)),
                a,
                8,
                spec_low_u32(sequence),
            ),
            address,
        ),
    }
}

/// The image with the data block `entry` put into its slot of its header
/// or list block: the slot holds the address of the data block, the count
/// of filled slots follows, and so does the checksum.
pub open spec fn spec_set_extension_block_data_block(image: Seq<u8>, entry: FileDataBlockListEntry) -> Seq<u8> {
    let e = entry.extension_block_address as int;
    spec_write_checksum(
        spec_write_u32(
            spec_write_u32(
                image,
                e,
                24 + 4 * (71 - entry.extension_block_index),
                spec_low_u32(entry.data_block_address),
            ),
            e,
            8,
            (entry.extension_block_index + 1) as u32,
        ),
        entry.extension_block_address,
    )
}

/// The image with the fresh data block `entry` made part of a file whose
/// data blocks so far are `list`: the block is made a data block, it is put
/// into its slot, and in the old flavour the data block before it, or
/// the header block for the first data block, points at it.
#[verifier::opaque]
pub open spec fn spec_link_data_block(
    image: Seq<u8>,
    header: usize,
    list: Seq<FileDataBlockListEntry>,
    entry: FileDataBlockListEntry,
    filesystem_type: FilesystemType,
) -> Seq<u8> {
    let made = spec_init_data_block(
        image,
        entry.data_block_address,
        header,
        (list.len() + 1) as usize,
        filesystem_type,
    );
    let listed = spec_set_extension_block_data_block(made, entry);
    match filesystem_type {
        FilesystemType::FFS => listed,
        FilesystemType::OFS => {
            let before = if list.len() > 0 {
                list.last().data_block_address
            } else {
                header
            };
            spec_write_checksum(
                spec_write_u32(listed, before as int, 16, spec_low_u32(entry.data_block_address)),
                before,
            )
        },
    }
}

/// What giving a file one more data block leaves on the image, and the
/// place of the block. The block goes into the next slot of the header or
/// list block that holds the last data block; when that one is full, a
/// list block is taken first and chained to it. Blocks are taken lowest
/// first. When no block is left for the data block, the list block that
/// was taken for it is given back. A file that has as many data blocks as
/// the image has blocks gets no more.
pub open spec fn spec_push_data_block(
    image: Seq<u8>,
    pages: Seq<usize>,
    header: usize,
    list: Seq<FileDataBlockListEntry>,
    filesystem_type: FilesystemType,
) -> (Seq<u8>, Result<FileDataBlockListEntry, Error>) {
    if list.len() >= spec_block_count(image) {
        (image, Err(Error::NoSpaceLeft))
    } else if list.len() == 0 || list.last().extension_block_index < 71 {
        match spec_lowest_free(image, pages) {
            None => (image, Err(Error::NoSpaceLeft)),
            Some(data) => {
                let entry = FileDataBlockListEntry {
                    data_block_address: data,
                    extension_block_address: if list.len() == 0 {
                        header
                    } else {
                        list.last().extension_block_address
                    },
                    extension_block_index: if list.len() == 0 {
                        0
                    } else {
                        (list.last().extension_block_index + 1) as usize
                    },
                };
                (
                    spec_link_data_block(
                        spec_bitmap_update(image, pages, data as int, false),
                        header,
                        list,
                        entry,
                        filesystem_type,
                    ),
                    Ok(entry),
                )
            },
        }
    } else {
        match spec_lowest_free(image, pages) {
            None => (image, Err(Error::NoSpaceLeft)),
            Some(extension) => {
                let taken = spec_bitmap_update(image, pages, extension as int, false);
                match spec_lowest_free(taken, pages) {
                    None => (spec_bitmap_update(taken, pages, extension as int, true), Err(Error::NoSpaceLeft)),
                    Some(data) => {
                        let entry = FileDataBlockListEntry {
                            data_block_address: data,
                            extension_block_address: extension,
                            extension_block_index: 0,
                        };
                        let chained = spec_chain_extension_block(
                            spec_bitmap_update(taken, pages, data as int, false),
                            extension,
                            header,
                            list.last().extension_block_address,
                        );
                        (spec_link_data_block(chained, header, list, entry, filesystem_type), Ok(entry))
                    },
                }
            },
        }
    }
}

impl File {
    /// Brings the header block of the file up to date, if the file is open
    /// for writing.
    pub(crate) fn sync_all(&self, fs: &mut AmigaDos, date_time: u64) -> (res: Result<(), Error>)
        requires
            old(fs).wf(),
            self.header_block_address < old(fs).inner.disk.spec_block_count(),
        ensures
            final(fs).wf(),
            final(fs).same_volume(old(fs)),
            res == Ok::<(), Error>(()),
            final(fs)@ == spec_sync_all(old(fs)@, self.header_block_address, self.mode, self.size, date_time),
    {
        if test_file_mode(FileMode::Write, self.mode) {
            let block = Block::new(self.header_block_address);
            let r = block.write_file_size(&mut fs.inner.disk, self.size);
            let r = block.write_alteration_date(&mut fs.inner.disk, date_time);
            let r = block.write_checksum(&mut fs.inner.disk);
        }
        Ok(())
    }

    /// Writes `buf` into the payload of the data block `data_list_entry`,
    /// from byte `data_pos` of the payload on.
    pub(crate) fn write_data(
        &self,
        fs: &mut AmigaDos,
        buf: &[u8],
        data_list_entry: &FileDataBlockListEntry,
        data_pos: usize,
        filesystem_type: FilesystemType,
    ) -> (res: Result<(), Error>)
        requires
            old(fs).wf(),
            data_list_entry.data_block_address < old(fs).inner.disk.spec_block_count(),
            self.block_data_offset + data_pos + buf@.len() <= 512,
            filesystem_type == FilesystemType::OFS ==> self.block_data_offset == 24,
        ensures
            final(fs).wf(),
            final(fs).same_volume(old(fs)),
            res == Ok::<(), Error>(()),
            final(fs)@ == spec_write_data(
                old(fs)@,
                data_list_entry.data_block_address,
                self.block_data_offset,
                data_pos,
                buf@,
                filesystem_type,
            ),
    {
        proof {
            reveal(spec_write_data);
        }
        let block = Block::new(data_list_entry.data_block_address);
        let r = block.write_u8_array(&mut fs.inner.disk, self.block_data_offset + data_pos, buf);
        match filesystem_type {
            FilesystemType::OFS => {
                let old_data_size: u32 = match block.read_u32(&fs.inner.disk, BLOCK_DATA_OFS_SIZE_OFFSET) {
                    Ok(v) => v,
                    Err(e) => {
                        return Err(e);
                    },
                };
                let written: u32 = (data_pos + buf.len()) as u32;
                let new_data_size: u32 = if old_data_size >= written {
                    old_data_size
                } else {
                    written
                };
                let r = block.write_u32(&mut fs.inner.disk, BLOCK_DATA_OFS_SIZE_OFFSET, new_data_size);
                let r = block.write_checksum(&mut fs.inner.disk);
            },
            FilesystemType::FFS => {},
        }
        Ok(())
    }

    fn init_extension_block(&self, disk: &mut Disk, ext_block_addr: LBAAddress) -> (res: Result<(), Error>)
        requires
            old(disk).wf(),
            ext_block_addr < old(disk).spec_block_count(),
        ensures
            final(disk).wf(),
            final(disk).spec_disk_type() == old(disk).spec_disk_type(),
            res == Ok::<(), Error>(()),
            final(disk)@ == spec_init_extension_block(old(disk)@, ext_block_addr, self.header_block_address),
    {
        let ext_block = Block::new(ext_block_addr);
        let r = ext_block.clear(disk);
        let r = ext_block.write_block_primary_type(disk, BlockPrimaryType::List);
        let r = ext_block.write_block_secondary_type(disk, BlockSecondaryType::File);
        let r = ext_block.write_u32(disk, BLOCK_DATA_LIST_HEADER_KEY_OFFSET, low_u32(ext_block_addr));
        let r = ext_block.write_u32(disk, BLOCK_PARENT_OFFSET, low_u32(self.header_block_address));
        ext_block.write_checksum(disk)
    }

    fn init_data_block(&self, disk: &mut Disk, block_addr: LBAAddress, filesystem_type: FilesystemType) -> (res:
        Result<(), Error>)
        requires
            old(disk).wf(),
            block_addr < old(disk).spec_block_count(),
            self.block_data_list@.len() < usize::MAX,
        ensures
            final(disk).wf(),
            final(disk).spec_disk_type() == old(disk).spec_disk_type(),
            res == Ok::<(), Error>(()),
            final(disk)@ == spec_init_data_block(
                old(disk)@,
                block_addr,
                self.header_block_address,
                (self.block_data_list@.len() + 1) as usize,
                filesystem_type,
            ),
    {
        let block = Block::new(block_addr);
        let r = block.clear(disk);
        match filesystem_type {
            FilesystemType::OFS => {
                let r = block.write_block_primary_type(disk, BlockPrimaryType::Data);
                let r = block.write_u32(disk, BLOCK_DATA_OFS_HEADER_KEY_OFFSET, low_u32(self.header_block_address));
                let r = block.write_u32(
                    disk,
                    BLOCK_DATA_OFS_SEQ_NUM_OFFSET,
                    low_u32(self.block_data_list.len() + 1),
                );
                let r = block.write_checksum(disk);
            },
            FilesystemType::FFS => {},
        }
        Ok(())
    }

    fn set_extension_block_data_block(&self, disk: &mut Disk, entry: FileDataBlockListEntry) -> (res: Result<
        (),
        Error,
    >)
        requires
            old(disk).wf(),
            entry.extension_block_address < old(disk).spec_block_count(),
            entry.extension_block_index < 72,
        ensures
            final(disk).wf(),
            final(disk).spec_disk_type() == old(disk).spec_disk_type(),
            res == Ok::<(), Error>(()),
            final(disk)@ == spec_set_extension_block_data_block(old(disk)@, entry),
    {
        let ext_block = Block::new(entry.extension_block_address);
        let r = ext_block.write_block_table_address(
            disk,
            BLOCK_TABLE_SIZE - entry.extension_block_index - 1,
            entry.data_block_address,
        );
        let r = ext_block.write_u32(
            disk,
            BLOCK_DATA_LIST_HIGH_SEQ_OFFSET,
            (entry.extension_block_index + 1) as u32,
        );
        ext_block.write_checksum(disk)
    }

    fn link_data_block(&self, disk: &mut Disk, entry: FileDataBlockListEntry, filesystem_type: FilesystemType) -> (res:
        Result<(), Error>)
        requires
            old(disk).wf(),
            entry.extension_block_address < old(disk).spec_block_count(),
            entry.data_block_address < old(disk).spec_block_count(),
            self.header_block_address < old(disk).spec_block_count(),
            entry.extension_block_index < 72,
            self.block_data_list@.len() < usize::MAX,
            self.block_data_list@.len() > 0 ==> self.block_data_list@.last().data_block_address < old(disk).spec_block_count(),
        ensures
            final(disk).wf(),
            final(disk).spec_disk_type() == old(disk).spec_disk_type(),
            res == Ok::<(), Error>(()),
            final(disk)@ == spec_link_data_block(
                old(disk)@,
                self.header_block_address,
                self.block_data_list@,
                entry,
                filesystem_type,
            ),
    {
        proof {
            reveal(spec_link_data_block);
        }
        let r = self.init_data_block(disk, entry.data_block_address, filesystem_type);
        let r = self.set_extension_block_data_block(disk, entry);
        match filesystem_type {
            FilesystemType::OFS => {
                let len: usize = self.block_data_list.len();
                let before: LBAAddress = if len > 0 {
                    self.block_data_list[len - 1].data_block_address
                } else {
                    self.header_block_address
                };
                let block = Block::new(before);
                let r = block.write_u32(disk, BLOCK_DATA_OFS_NEXT_DATA_OFFSET, low_u32(entry.data_block_address));
                let r = block.write_checksum(disk);
            },
            FilesystemType::FFS => {},
        }
        Ok(())
    }

    /// Gives the file one more data block.
    pub fn push_data_block_list_entry(&mut self, fs: &mut AmigaDos) -> (res: Result<FileDataBlockListEntry, Error>)
        requires
            old(self).wf_blocks(old(fs)),
        ensures
            final(fs).wf(),
            final(fs).same_volume(old(fs)),
            final(self).block_data_offset == old(self).block_data_offset,
            final(self).block_data_size == old(self).block_data_size,
            final(self).header_block_address == old(self).header_block_address,
            final(self).mode == old(self).mode,
            final(self).pos == old(self).pos,
            final(self).size == old(self).size,
            (final(fs)@, res) == spec_push_data_block(
                old(fs)@,
                old(fs).inner.spec_pages(),
                old(self).header_block_address,
                old(self).block_data_list@,
                spec_filesystem_type(spec_boot_flags(old(fs)@)),
            ),
            match res {
                Ok(entry) => final(self).block_data_list@ == old(self).block_data_list@.push(entry),
                Err(_) => final(self).block_data_list@ == old(self).block_data_list@,
            },
            final(self).wf_blocks(final(fs)),
            crate::fs::file_lemmas::spec_same_payloads(
                old(fs)@,
                final(fs)@,
                old(self).block_data_list@,
                old(self).block_data_offset,
            ),
            res matches Ok(entry) ==> forall|offset: int|
                old(self).block_data_offset <= offset < 512
                    ==> #[trigger] crate::fs::file_lemmas::spec_block_byte(
                    final(fs)@,
                    entry.data_block_address,
                    offset,
                ) == 0,
            crate::fs::bitmap::spec_free_block_count(final(fs)@, old(fs).inner.spec_pages())
                == crate::fs::bitmap::spec_free_block_count(old(fs)@, old(fs).inner.spec_pages()) - if res
                is Ok {
                spec_push_cost(old(self).block_data_list@)
            } else {
                0
            },
            res is Err <==> old(self).block_data_list@.len() >= spec_block_count(old(fs)@)
                || crate::fs::bitmap::spec_free_block_count(old(fs)@, old(fs).inner.spec_pages())
                < spec_push_cost(old(self).block_data_list@),
            res matches Err(e) ==> e == Error::NoSpaceLeft,
            crate::fs::frame::spec_sums_kept(
                old(fs)@,
                final(fs)@,
                old(fs).inner.spec_pages(),
                crate::fs::file_sums::spec_raw_blocks(
                    final(self).block_data_list@,
                    spec_filesystem_type(spec_boot_flags(old(fs)@)),
                ),
            ),
            crate::fs::frame::spec_unchanged_outside(
                old(fs)@,
                final(fs)@,
                crate::fs::file_frame::spec_file_touch(
                    old(fs).inner.spec_pages(),
                    old(self).header_block_address,
                    final(self).block_data_list@,
                ),
            ),
            old(self).listed(old(fs)) ==> final(self).listed(final(fs)),
            crate::fs::file_mirror::spec_identity_kept(old(fs)@, final(fs)@, old(self).header_block_address),
            crate::fs::file_marks::spec_marks_grown(
                old(fs)@,
                final(fs)@,
                old(fs).inner.spec_pages(),
                final(self).block_data_list@,
                old(self).block_data_list@.len() as int,
            ),
    {
        proof {
            crate::fs::file_mirror::lemma_identity_kept_pushed(
                fs@,
                fs.inner.spec_pages(),
                self.header_block_address,
                self.block_data_list@,
                spec_filesystem_type(spec_boot_flags(fs@)),
            );
            crate::fs::file_marks::lemma_marks_pushed(
                fs@,
                fs.inner.spec_pages(),
                self.header_block_address,
                self.block_data_list@,
                spec_filesystem_type(spec_boot_flags(fs@)),
            );
            if self.listed(fs) {
                crate::fs::file_mirror::lemma_listed_pushed(
                    fs@,
                    fs.inner.spec_pages(),
                    self.header_block_address,
                    self.block_data_list@,
                    spec_filesystem_type(spec_boot_flags(fs@)),
                );
            }
            crate::fs::file_frame::lemma_push_data_block_frame(
                fs@,
                fs.inner.spec_pages(),
                self.header_block_address,
                self.block_data_list@,
                spec_filesystem_type(spec_boot_flags(fs@)),
            );
            lemma_push_data_block(
                fs@,
                fs.inner.spec_pages(),
                self.header_block_address,
                self.block_data_list@,
                spec_filesystem_type(spec_boot_flags(fs@)),
            );
            crate::fs::file_sums::lemma_push_data_block_sums(
                fs@,
                fs.inner.spec_pages(),
                self.header_block_address,
                self.block_data_list@,
                spec_filesystem_type(spec_boot_flags(fs@)),
            );
        }
        let res = self.push_blocks(fs);
        match res {
            Ok(entry) => {
                self.block_data_list.push(entry);
            },
            Err(_) => {},
        }
        res
    }

    /// Takes the blocks that one more data block needs and writes them, but
    /// leaves the list of data blocks as it is.
    fn push_blocks(&self, fs: &mut AmigaDos) -> (res: Result<FileDataBlockListEntry, Error>)
        requires
            self.wf_blocks(old(fs)),
        ensures
            final(fs).wf(),
            final(fs).same_volume(old(fs)),
            (final(fs)@, res) == spec_push_data_block(
                old(fs)@,
                old(fs).inner.spec_pages(),
                self.header_block_address,
                self.block_data_list@,
                spec_filesystem_type(spec_boot_flags(old(fs)@)),
            ),
    {
        proof {
            reveal(spec_chain_extension_block);
        }
        let filesystem_type = match fs.get_filesystem_type() {
            Ok(filesystem_type) => filesystem_type,
            Err(e) => {
                assert(false);
                return Err(e);
            },
        };
        let len: usize = self.block_data_list.len();
        if len >= fs.inner.disk.block_count() {
            return Err(Error::NoSpaceLeft);
        }
        if len == 0 || self.block_data_list[len - 1].extension_block_index < BLOCK_DATA_LIST_SIZE - 1 {
            let data_block_address: LBAAddress = match fs.inner.reserve_block() {
                Ok(address) => address,
                Err(e) => {
                    return Err(e);
                },
            };
            let entry = FileDataBlockListEntry {
                data_block_address,
                extension_block_address: if len == 0 {
                    self.header_block_address
                } else {
                    self.block_data_list[len - 1].extension_block_address
                },
                extension_block_index: if len == 0 {
                    0
                } else {
                    self.block_data_list[len - 1].extension_block_index + 1
                },
            };
            let r = self.link_data_block(&mut fs.inner.disk, entry, filesystem_type);
            Ok(entry)
        } else {
            let last = self.block_data_list[len - 1];
            let ext_block_addr: LBAAddress = match fs.inner.reserve_block() {
                Ok(address) => address,
                Err(e) => {
                    return Err(e);
                },
            };
            let data_block_address: LBAAddress = match fs.inner.reserve_block() {
                Ok(address) => address,
                Err(e) => {
                    let r = fs.inner.free_block(ext_block_addr);
                    return Err(e);
                },
            };
            let r = self.init_extension_block(&mut fs.inner.disk, ext_block_addr);
            let prev = Block::new(last.extension_block_address);
            let r = prev.write_u32(&mut fs.inner.disk, BLOCK_DATA_LIST_EXTENSION_OFFSET, low_u32(ext_block_addr));
            let r = prev.write_checksum(&mut fs.inner.disk);
            let entry = FileDataBlockListEntry {
                data_block_address,
                extension_block_address: ext_block_addr,
                extension_block_index: 0,
            };
            let r = self.link_data_block(&mut fs.inner.disk, entry, filesystem_type);
            Ok(entry)
        }
    }
}

impl File {
    /// Writes `chunk`, which fits into what is left of one data block, into
    /// the file from its position on, and moves the position behind it. A
    /// position at the end of the last data block takes a fresh data block
    /// first.
    #[verifier::spinoff_prover]
    #[verifier::rlimit(100)]
    pub(crate) fn write_chunk(&mut self, fs: &mut AmigaDos, chunk: &[u8], filesystem_type: FilesystemType) -> (res:
        Result<(), Error>)
        requires
            old(self).wf(old(fs)),
            chunk@.len() > 0,
            old(self).pos % old(self).block_data_size + chunk@.len() <= old(self).block_data_size,
            filesystem_type == spec_filesystem_type(spec_boot_flags(old(fs)@)),
        ensures
            final(fs).wf(),
            final(fs).same_volume(old(fs)),
            final(self).wf(final(fs)),
            final(self).same_handle(old(self)),
            crate::fs::bitmap::spec_free_block_count(final(fs)@, old(fs).inner.spec_pages())
                == crate::fs::bitmap::spec_free_block_count(old(fs)@, old(fs).inner.spec_pages()) - (
            crate::fs::file::spec_block_usage(final(self).block_data_list@.len() as int)
                - crate::fs::file::spec_block_usage(old(self).block_data_list@.len() as int)),
            crate::fs::frame::spec_sums_kept(
                old(fs)@,
                final(fs)@,
                old(fs).inner.spec_pages(),
                crate::fs::file_sums::spec_raw_blocks(final(self).block_data_list@, filesystem_type),
            ),
            crate::fs::frame::spec_unchanged_outside(
                old(fs)@,
                final(fs)@,
                crate::fs::file_frame::spec_file_touch(
                    old(fs).inner.spec_pages(),
                    old(self).header_block_address,
                    final(self).block_data_list@,
                ),
            ),
            old(self).listed(old(fs)) ==> final(self).listed(final(fs)),
            crate::fs::file_mirror::spec_identity_kept(old(fs)@, final(fs)@, old(self).header_block_address),
            crate::fs::file_marks::spec_marks_grown(
                old(fs)@,
                final(fs)@,
                old(fs).inner.spec_pages(),
                final(self).block_data_list@,
                old(self).block_data_list@.len() as int,
            ),
            final(self).block_data_list@.len() >= old(self).block_data_list@.len(),
            forall|i: int|
                0 <= i < old(self).block_data_list@.len() ==> final(self).block_data_list@[i] == old(self).block_data_list@[i],
            match res {
                Ok(_) => {
                    &&& final(self).pos == old(self).pos + chunk@.len()
                    &&& final(self).size == spec_max(old(self).size as int, old(self).pos + chunk@.len())
                    &&& final(self).block_data_list@.len() >= old(self).block_data_list@.len()
                    &&& final(self).content(final(fs)) == spec_overwrite(
                        old(self).content(old(fs)),
                        old(self).pos as int,
                        chunk@,
                    )
                },
                Err(e) => {
                    &&& e == Error::NoSpaceLeft
                    &&& final(self).same_file(old(self))
                    &&& final(self).pos == old(self).pos
                    &&& final(self).content(final(fs)) == old(self).content(old(fs))
                    &&& old(self).pos == old(self).block_data_list@.len() * old(self).block_data_size
                    &&& old(self).block_data_list@.len() >= spec_block_count(old(fs)@)
                        || crate::fs::bitmap::spec_free_block_count(old(fs)@, old(fs).inner.spec_pages())
                        < crate::fs::file::spec_block_usage(old(self).block_data_list@.len() as int + 1)
                        - crate::fs::file::spec_block_usage(old(self).block_data_list@.len() as int)
                },
            },
    {
        let data_pos: usize = self.pos % self.block_data_size;
        let index: usize = self.pos / self.block_data_size;
        let ghost pages = fs.inner.spec_pages();
        let ghost listed = self.block_data_list@;
        let ghost before = fs@;
        proof {
            assert(index <= listed.len() && (index == listed.len() ==> self.pos == self.size && self.size
                == listed.len() * self.block_data_size)) by (nonlinear_arith)
                requires
                    self.pos <= self.size,
                    self.size <= listed.len() * self.block_data_size,
                    index == self.pos / self.block_data_size,
                    self.block_data_size > 0,
            ;
            lemma_block_usage_step(self.header_block_address, listed);
        }
        let entry = if index < self.block_data_list.len() {
            proof {
                crate::fs::file_marks::lemma_marks_grown_refl(before, pages, self.block_data_list@);
                crate::fs::file_mirror::lemma_identity_kept_refl(before, self.header_block_address);
                crate::fs::file_frame::lemma_file_touch_refl(
                    before,
                    pages,
                    self.header_block_address,
                    self.block_data_list@,
                );
                crate::fs::frame::lemma_sums_kept_refl(
                    before,
                    pages,
                    crate::fs::file_sums::spec_raw_blocks(self.block_data_list@, filesystem_type),
                );
            }
            self.block_data_list[index]
        } else {
            match self.push_data_block_list_entry(fs) {
                Ok(entry) => {
                    proof {
                        crate::fs::file_lemmas::lemma_same_payloads_same_content(
                            before,
                            fs@,
                            listed,
                            self.block_data_offset,
                            self.block_data_size,
                            self.size,
                        );
                        crate::fs::file_lemmas::lemma_content_of_prefix(
                            fs@,
                            listed,
                            self.block_data_list@,
                            self.block_data_offset,
                            self.block_data_size,
                            self.size,
                        );
                    }
                    entry
                },
                Err(e) => {
                    proof {
                        crate::fs::file_lemmas::lemma_same_payloads_same_content(
                            before,
                            fs@,
                            listed,
                            self.block_data_offset,
                            self.block_data_size,
                            self.size,
                        );
                    }
                    return Err(e);
                },
            }
        };
        proof {
            lemma_write_chunk(
                fs@,
                pages,
                self.header_block_address,
                self.block_data_list@,
                self.block_data_size,
                self.size,
                self.pos,
                chunk@,
                filesystem_type,
            );
            lemma_chunk_sizes(
                self.pos as int,
                self.size as int,
                chunk@.len() as int,
                self.block_data_list@.len() as int,
                self.block_data_size as int,
            );
            let raw = crate::fs::file_sums::spec_raw_blocks(self.block_data_list@, filesystem_type);
            assert(crate::fs::file::spec_owned(fs@, pages, entry.data_block_address));
            crate::fs::file_sums::lemma_owned_is_plain(fs@, pages, entry.data_block_address);
            if filesystem_type == FilesystemType::FFS {
                crate::fs::file_sums::lemma_raw_contains(self.block_data_list@, filesystem_type, index as int);
            }
            crate::fs::file_sums::lemma_write_data_sums(
                fs@,
                pages,
                entry.data_block_address,
                self.block_data_offset,
                data_pos,
                chunk@,
                filesystem_type,
                raw,
            );
            crate::fs::frame::lemma_sums_kept_trans(
                before,
                fs@,
                spec_write_data(
                    fs@,
                    entry.data_block_address,
                    self.block_data_offset,
                    data_pos,
                    chunk@,
                    filesystem_type,
                ),
                pages,
                raw,
                raw,
                raw,
            );
            lemma_write_data(fs@, entry.data_block_address, data_pos, chunk@, filesystem_type);
            assert(crate::fs::file::spec_owned(fs@, pages, self.header_block_address));
            assert(entry.data_block_address != self.header_block_address);
            crate::fs::file_mirror::lemma_identity_kept_outside(
                before,
                fs@,
                spec_write_data(
                    fs@,
                    entry.data_block_address,
                    self.block_data_offset,
                    data_pos,
                    chunk@,
                    filesystem_type,
                ),
                self.header_block_address,
                entry.data_block_address,
            );
            crate::fs::file_marks::lemma_marks_written(
                before,
                fs@,
                pages,
                self.header_block_address,
                self.block_data_list@,
                index as int,
                data_pos,
                chunk@,
                filesystem_type,
                listed.len() as int,
            );
            if self.listed(fs) {
                crate::fs::file_mirror::lemma_listed_written(
                    fs@,
                    pages,
                    self.header_block_address,
                    self.block_data_list@,
                    index as int,
                    data_pos,
                    chunk@,
                    filesystem_type,
                );
            }
            crate::fs::file_frame::lemma_file_touch_contains(
                pages,
                self.header_block_address,
                self.block_data_list@,
                index as int,
            );
            crate::fs::file_frame::lemma_file_touch_block(
                before,
                fs@,
                spec_write_data(
                    fs@,
                    entry.data_block_address,
                    self.block_data_offset,
                    data_pos,
                    chunk@,
                    filesystem_type,
                ),
                pages,
                self.header_block_address,
                self.block_data_list@,
                entry.data_block_address,
            );
        }
        let r = self.write_data(fs, chunk, &entry, data_pos, filesystem_type);
        self.pos = self.pos + chunk.len();
        if self.pos > self.size {
            self.size = self.pos;
        }
        Ok(())
    }

    /// Writes `buf` into the file, from its position on, and moves the
    /// position behind what was written; the header block of the file is
    /// changed last at `date_time`. The file grows where `buf` reaches
    /// beyond its end, and takes the blocks that it needs for that, lowest
    /// free block first. When the blocks run out, what has been written so
    /// far stays written.
    #[verifier::spinoff_prover]
    #[verifier::rlimit(100)]
    pub fn write_at(&mut self, fs: &mut AmigaDos, buf: &[u8], date_time: u64) -> (res: Result<usize, Error>)
        requires
            old(self).wf(old(fs)),
        ensures
            final(fs).wf(),
            final(fs).same_volume(old(fs)),
            final(self).wf(final(fs)),
            final(self).same_handle(old(self)),
            final(self).size >= old(self).size,
            final(self).pos >= old(self).pos,
            !spec_test_file_mode(FileMode::Write, old(self).mode) ==> res == Err::<usize, Error>(
                Error::BadFileDescriptor,
            ) && final(fs)@ == old(fs)@ && final(self).same_file(old(self)) && final(self).pos == old(self).pos,
            spec_test_file_mode(FileMode::Write, old(self).mode) ==> spec_write_outcome(
                old(self),
                old(fs),
                final(self),
                final(fs),
                buf@,
                res,
            ),
            crate::fs::frame::spec_sums_kept(
                old(fs)@,
                final(fs)@,
                old(fs).inner.spec_pages(),
                crate::fs::file_sums::spec_raw_blocks(
                    final(self).block_data_list@,
                    spec_filesystem_type(spec_boot_flags(old(fs)@)),
                ),
            ),
            crate::fs::frame::spec_unchanged_outside(
                old(fs)@,
                final(fs)@,
                crate::fs::file_frame::spec_file_touch(
                    old(fs).inner.spec_pages(),
                    old(self).header_block_address,
                    final(self).block_data_list@,
                ),
            ),
            old(self).listed(old(fs)) ==> final(self).listed(final(fs)),
            crate::fs::file_mirror::spec_identity_kept(old(fs)@, final(fs)@, old(self).header_block_address),
            crate::fs::file_marks::spec_marks_grown(
                old(fs)@,
                final(fs)@,
                old(fs).inner.spec_pages(),
                final(self).block_data_list@,
                old(self).block_data_list@.len() as int,
            ),
            old(self).listed(old(fs)) && res is Ok ==> final(self).stored(final(fs)),
            final(self).block_data_list@.len() >= old(self).block_data_list@.len(),
            forall|i: int|
                0 <= i < old(self).block_data_list@.len() ==> final(self).block_data_list@[i] == old(self).block_data_list@[i],
            res is Err ==> spec_written_so_far(old(self), old(fs), final(self), final(fs), buf@),
            spec_test_file_mode(FileMode::Write, old(self).mode) && res is Ok ==> spec_header_synced(
                final(fs)@,
                final(self).header_block_address,
                final(self).size,
            ),
    {
        if !test_file_mode(FileMode::Write, self.mode) {
            proof {
                crate::fs::file_marks::lemma_marks_grown_refl(fs@, fs.inner.spec_pages(), self.block_data_list@);
                crate::fs::file_mirror::lemma_identity_kept_refl(fs@, self.header_block_address);
                assert(buf@.subrange(0, 0) =~= Seq::<u8>::empty());
                assert(spec_overwrite(self.content(fs), self.pos as int, Seq::<u8>::empty()) =~= self.content(fs));
                assert(spec_written_upto(old(self), old(fs), self, fs, buf@, 0));
                crate::fs::file_frame::lemma_file_touch_refl(
                    fs@,
                    fs.inner.spec_pages(),
                    self.header_block_address,
                    self.block_data_list@,
                );
                crate::fs::frame::lemma_sums_kept_refl(
                    fs@,
                    fs.inner.spec_pages(),
                    crate::fs::file_sums::spec_raw_blocks(
                        self.block_data_list@,
                        spec_filesystem_type(spec_boot_flags(fs@)),
                    ),
                );
            }
            return Err(Error::BadFileDescriptor);
        }
        let filesystem_type = match fs.get_filesystem_type() {
            Ok(filesystem_type) => filesystem_type,
            Err(e) => {
                assert(false);
                return Err(e);
            },
        };
        let total: usize = buf.len();
        let mut count: usize = 0;
        let ghost content = self.content(fs);
        let ghost start = self.pos;
        let ghost free = crate::fs::bitmap::spec_free_block_count(fs@, fs.inner.spec_pages()) as int;
        let ghost len = self.block_data_list@.len() as int;
        let ghost pages = fs.inner.spec_pages();
        proof {
            assert(buf@.subrange(0, 0) =~= Seq::<u8>::empty());
            assert(spec_overwrite(content, start as int, Seq::<u8>::empty()) =~= content);
            crate::fs::bitmap::lemma_free_count_bound(fs@, pages, spec_block_count(fs@) as int);
            crate::fs::file_marks::lemma_marks_grown_refl(fs@, pages, self.block_data_list@);
            crate::fs::file_mirror::lemma_identity_kept_refl(fs@, self.header_block_address);
            crate::fs::file_frame::lemma_file_touch_refl(fs@, pages, self.header_block_address, self.block_data_list@);
            crate::fs::frame::lemma_sums_kept_refl(
                fs@,
                pages,
                crate::fs::file_sums::spec_raw_blocks(self.block_data_list@, filesystem_type),
            );
        }
        while count < total
            invariant
                total == buf@.len(),
                count <= total,
                fs.wf(),
                fs.same_volume(old(fs)),
                pages == fs.inner.spec_pages(),
                self.wf(fs),
                self.same_handle(old(self)),
                spec_test_file_mode(FileMode::Write, old(self).mode),
                filesystem_type == spec_filesystem_type(spec_boot_flags(fs@)),
                filesystem_type == spec_filesystem_type(spec_boot_flags(old(fs)@)),
                old(fs).wf(),
                pages == old(fs).inner.spec_pages(),
                start == old(self).pos,
                start <= old(self).size,
                content == old(self).content(old(fs)),
                free == crate::fs::bitmap::spec_free_block_count(old(fs)@, pages),
                len == old(self).block_data_list@.len(),
                self.pos == start + count,
                self.size == spec_max(old(self).size as int, self.pos as int),
                self.content(fs) == spec_overwrite(content, start as int, buf@.subrange(0, count as int)),
                len <= self.block_data_list@.len(),
                crate::fs::bitmap::spec_free_block_count(fs@, pages) == free - (crate::fs::file::spec_block_usage(
                    self.block_data_list@.len() as int,
                ) - crate::fs::file::spec_block_usage(len)),
                crate::fs::frame::spec_sums_kept(
                    old(fs)@,
                    fs@,
                    pages,
                    crate::fs::file_sums::spec_raw_blocks(self.block_data_list@, filesystem_type),
                ),
                crate::fs::frame::spec_unchanged_outside(
                    old(fs)@,
                    fs@,
                    crate::fs::file_frame::spec_file_touch(pages, self.header_block_address, self.block_data_list@),
                ),
                old(self).listed(old(fs)) ==> self.listed(fs),
                crate::fs::file_mirror::spec_identity_kept(old(fs)@, fs@, self.header_block_address),
                crate::fs::file_marks::spec_marks_grown(old(fs)@, fs@, pages, self.block_data_list@, len),
                forall|i: int|
                    0 <= i < old(self).block_data_list@.len() ==> self.block_data_list@[i] == old(self).block_data_list@[i],
            decreases total - count,
        {
            let ghost step_image = fs@;
            let ghost step_list = self.block_data_list@;
            let data_pos: usize = self.pos % self.block_data_size;
            let mut data_len: usize = total - count;
            if self.block_data_size - data_pos < data_len {
                data_len = self.block_data_size - data_pos;
            }
            let chunk = vstd::slice::slice_subrange(buf, count, count + data_len);
            let ghost listed = self.block_data_list@.len() as int;
            let ghost free_now = crate::fs::bitmap::spec_free_block_count(fs@, pages) as int;
            let ghost blocks = spec_block_count(fs@) as int;
            let r = self.write_chunk(fs, chunk, filesystem_type);
            proof {
                crate::fs::file_sums::lemma_sums_kept_step(
                    old(fs)@,
                    step_image,
                    fs@,
                    pages,
                    step_list,
                    self.block_data_list@,
                    filesystem_type,
                );
                crate::fs::file_frame::lemma_file_touch_step(
                    old(fs)@,
                    step_image,
                    fs@,
                    pages,
                    self.header_block_address,
                    step_list,
                    self.block_data_list@,
                );
                crate::fs::file_mirror::lemma_identity_kept_trans(
                    old(fs)@,
                    step_image,
                    fs@,
                    self.header_block_address,
                );
                crate::fs::file_marks::lemma_marks_grown_trans(
                    old(fs)@,
                    step_image,
                    fs@,
                    pages,
                    step_list,
                    self.block_data_list@,
                    len,
                );
            }
            match r {
                Ok(_) => {
                    proof {
                        lemma_overwrite_twice(content, start as int, buf@.subrange(0, count as int), chunk@);
                        assert(buf@.subrange(0, count as int) + chunk@ =~= buf@.subrange(0, count + data_len));
                    }
                },
                Err(e) => {
                    proof {
                        assert(spec_written_upto(old(self), old(fs), self, fs, buf@, count as int));
                        lemma_write_fails(
                            free,
                            len,
                            listed,
                            crate::fs::file::spec_block_usage(listed + 1) - crate::fs::file::spec_block_usage(
                                listed,
                            ),
                            free_now,
                            blocks,
                            old(self).size as int,
                            start + total,
                            self.block_data_size as int,
                        );
                    }
                    return Err(e);
                },
            }
            count = count + data_len;
        }
        let ghost written = fs@;
        proof {
            let raw = crate::fs::file_sums::spec_raw_blocks(self.block_data_list@, filesystem_type);
            assert(crate::fs::file::spec_owned(written, pages, self.header_block_address));
            crate::fs::file_sums::lemma_owned_is_plain(written, pages, self.header_block_address);
            crate::fs::file_sums::lemma_sync_all_sums(
                written,
                pages,
                self.header_block_address,
                self.mode,
                self.size,
                date_time,
                raw,
            );
            crate::fs::frame::lemma_sums_kept_trans(
                old(fs)@,
                written,
                spec_sync_all(written, self.header_block_address, self.mode, self.size, date_time),
                pages,
                raw,
                raw,
                raw,
            );
            lemma_sync_all(written, self.header_block_address, self.mode, self.size, date_time);
            assert(self.size <= 3520 * 512) by (nonlinear_arith)
                requires
                    self.size <= self.block_data_list@.len() * self.block_data_size,
                    self.block_data_list@.len() <= 3520,
                    self.block_data_size <= 512,
            ;
            lemma_header_synced(written, self.header_block_address, self.mode, self.size, date_time);
            crate::fs::file_mirror::lemma_identity_kept_synced(
                old(fs)@,
                written,
                self.header_block_address,
                self.mode,
                self.size,
                date_time,
            );
            crate::fs::file_marks::lemma_marks_synced(
                old(fs)@,
                written,
                pages,
                self.header_block_address,
                self.block_data_list@,
                self.block_data_list@,
                self.mode,
                self.size,
                date_time,
                len,
            );
            if self.listed(fs) {
                crate::fs::file_mirror::lemma_stored_synced(
                    written,
                    pages,
                    self.header_block_address,
                    self.block_data_list@,
                    self.mode,
                    self.size,
                    date_time,
                );
            }
            crate::fs::file_frame::lemma_file_touch_header(
                old(fs)@,
                written,
                spec_sync_all(written, self.header_block_address, self.mode, self.size, date_time),
                pages,
                self.header_block_address,
                self.block_data_list@,
            );
            assert(buf@.subrange(0, total as int) =~= buf@);
            lemma_synced(
                written,
                pages,
                self.header_block_address,
                self.block_data_list@,
                self.block_data_offset,
                self.block_data_size,
                self.mode,
                self.size,
                date_time,
            );
            crate::fs::bitmap::lemma_free_count_bound(written, pages, spec_block_count(written) as int);
            lemma_write_done(
                free,
                len,
                self.block_data_list@.len() as int,
                crate::fs::bitmap::spec_free_block_count(written, pages) as int,
                spec_block_count(written) as int,
                old(self).size as int,
                self.size as int,
                self.block_data_size as int,
            );
        }
        let r = self.sync_all(fs, date_time);
        Ok(count)
    }

    /// Writes `buf` into the file, from its position on; the header block
    /// of the file is changed last at the time of the system clock.
    pub fn write(&mut self, fs: &mut AmigaDos, buf: &[u8]) -> (res: Result<usize, Error>)
        requires
            old(self).wf(old(fs)),
        ensures
            final(fs).wf(),
            final(fs).same_volume(old(fs)),
            final(self).wf(final(fs)),
            final(self).same_handle(old(self)),
            final(self).size >= old(self).size,
            final(self).pos >= old(self).pos,
            !spec_test_file_mode(FileMode::Write, old(self).mode) ==> res == Err::<usize, Error>(
                Error::BadFileDescriptor,
            ) && final(fs)@ == old(fs)@ && final(self).same_file(old(self)) && final(self).pos == old(self).pos,
            spec_test_file_mode(FileMode::Write, old(self).mode) ==> spec_write_outcome(
                old(self),
                old(fs),
                final(self),
                final(fs),
                buf@,
                res,
            ),
            crate::fs::frame::spec_sums_kept(
                old(fs)@,
                final(fs)@,
                old(fs).inner.spec_pages(),
                crate::fs::file_sums::spec_raw_blocks(
                    final(self).block_data_list@,
                    spec_filesystem_type(spec_boot_flags(old(fs)@)),
                ),
            ),
            crate::fs::frame::spec_unchanged_outside(
                old(fs)@,
                final(fs)@,
                crate::fs::file_frame::spec_file_touch(
                    old(fs).inner.spec_pages(),
                    old(self).header_block_address,
                    final(self).block_data_list@,
                ),
            ),
            old(self).listed(old(fs)) ==> final(self).listed(final(fs)),
            crate::fs::file_mirror::spec_identity_kept(old(fs)@, final(fs)@, old(self).header_block_address),
            crate::fs::file_marks::spec_marks_grown(
                old(fs)@,
                final(fs)@,
                old(fs).inner.spec_pages(),
                final(self).block_data_list@,
                old(self).block_data_list@.len() as int,
            ),
            old(self).listed(old(fs)) && res is Ok ==> final(self).stored(final(fs)),
            res is Err ==> spec_written_so_far(old(self), old(fs), final(self), final(fs), buf@),
            spec_test_file_mode(FileMode::Write, old(self).mode) && res is Ok ==> spec_header_synced(
                final(fs)@,
                final(self).header_block_address,
                final(self).size,
            ),
    {
        let date_time: u64 = crate::fs::datetime::system_time_now();
        self.write_at(fs, buf, date_time)
    }
}

/// Whether the header block of a file is up to date: it holds the size of
/// the file, and its checksum is valid.
pub open spec fn spec_header_synced(image: Seq<u8>, header: usize, size: usize) -> bool {
    crate::block::spec_read_u32(image, header as int, 324) == size && crate::fs::block::spec_block_checksum_valid(
        image,
        header as int,
    )
}

/// Whether two lists of data blocks start alike: they hold the same data
/// block wherever both hold one.
pub open spec fn spec_same_start(one: Seq<FileDataBlockListEntry>, other: Seq<FileDataBlockListEntry>) -> bool {
    forall|i: int| 0 <= i < one.len() && i < other.len() ==> one[i] == other[i]
}

/// Bringing the header block of a file that is open for writing up to
/// date leaves it up to date.
pub proof fn lemma_header_synced(image: Seq<u8>, header: usize, mode: usize, size: usize, date_time: u64)
    requires
        image.len() % 512 == 0,
        header < spec_block_count(image),
        spec_test_file_mode(FileMode::Write, mode),
        size < 0x1_0000_0000,
    ensures
        spec_header_synced(spec_sync_all(image, header, mode, size, date_time), header, size),
{
    let after = spec_sync_all(image, header, mode, size, date_time);
    lemma_sync_all(image, header, mode, size, date_time);
    let sized = spec_write_u32(image, header as int, 324, spec_low_u32(size));
    crate::block::lemma_u32_be_roundtrip(spec_low_u32(size));
    assert(crate::block::spec_read_bytes(sized, header as int, 324, 4) =~= crate::block::spec_u32_to_be_bytes(
        spec_low_u32(size),
    ));
    assert(crate::block::spec_read_bytes(after, header as int, 324, 4) =~= crate::block::spec_read_bytes(
        sized,
        header as int,
        324,
        4,
    ));
}

/// Whether the file holds its old content with the first `written` of
/// `bytes` written over it from the old position on, and its position lies
/// behind them.
pub open spec fn spec_written_upto(
    before: &File,
    before_fs: &AmigaDos,
    after: &File,
    after_fs: &AmigaDos,
    bytes: Seq<u8>,
    written: int,
) -> bool {
    &&& 0 <= written <= bytes.len()
    &&& after.pos == before.pos + written
    &&& after.size == spec_max(before.size as int, after.pos as int)
    &&& after.content(after_fs) == spec_overwrite(
        before.content(before_fs),
        before.pos as int,
        bytes.subrange(0, written),
    )
}

/// What a write that fails leaves behind: what was written until the
/// blocks ran out stays written.
pub open spec fn spec_written_so_far(
    before: &File,
    before_fs: &AmigaDos,
    after: &File,
    after_fs: &AmigaDos,
    bytes: Seq<u8>,
) -> bool {
    exists|written: int| #[trigger] spec_written_upto(before, before_fs, after, after_fs, bytes, written)
}

/// Number of data blocks that a file of `size` bytes has, when the payload
/// of a data block is `block_data_size` bytes.
pub open spec fn spec_blocks_for(size: int, block_data_size: int) -> int {
    (size + block_data_size - 1) / block_data_size
}

/// Whether a file of `len` data blocks can grow to `count` data blocks on a
/// volume of `block_count` blocks of which `free` are free: the blocks that
/// it takes more must be free.
pub open spec fn spec_fits(free: int, len: int, count: int, block_count: int) -> bool {
    count <= block_count && crate::fs::file::spec_block_usage(count) - crate::fs::file::spec_block_usage(len)
        <= free
}

/// How a write of `bytes` into a file that is open for writing ends. It
/// succeeds just when the blocks that the file needs more are free. Then
/// all of the bytes are written: the content is the old content with the
/// bytes written over it from the old position on, the position lies behind
/// them, the file has the data blocks that its size needs, and as many
/// blocks less are free as it has taken. Else it fails for want of space.
pub open spec fn spec_write_outcome(
    before: &File,
    before_fs: &AmigaDos,
    after: &File,
    after_fs: &AmigaDos,
    bytes: Seq<u8>,
    res: Result<usize, Error>,
) -> bool {
    let pages = before_fs.inner.spec_pages();
    let free = crate::fs::bitmap::spec_free_block_count(before_fs@, pages) as int;
    let len = before.block_data_list@.len() as int;
    let new_size = spec_max(before.size as int, before.pos + bytes.len());
    let count = spec_blocks_for(new_size, before.block_data_size as int);
    &&& res is Ok <==> spec_fits(free, len, count, spec_block_count(before_fs@) as int)
    &&& match res {
        Ok(written) => {
            &&& written == bytes.len()
            &&& after.pos == before.pos + bytes.len()
            &&& after.size == new_size
            &&& after.block_data_list@.len() == count
            &&& after.content(after_fs) == spec_overwrite(before.content(before_fs), before.pos as int, bytes)
            &&& crate::fs::bitmap::spec_free_block_count(after_fs@, pages) == free - (
            crate::fs::file::spec_block_usage(count) - crate::fs::file::spec_block_usage(len))
        },
        Err(e) => e == Error::NoSpaceLeft,
    }
}

/// Why a write fails when a data block cannot be had: the blocks that the
/// file needs more are not all free.
proof fn lemma_write_fails(
    free: int,
    len: int,
    listed: int,
    cost: int,
    free_now: int,
    block_count: int,
    size: int,
    end: int,
    block_data_size: int,
)
    requires
        0 <= len <= listed,
        block_data_size > 0,
        free_now == free - (crate::fs::file::spec_block_usage(listed) - crate::fs::file::spec_block_usage(len)),
        cost == crate::fs::file::spec_block_usage(listed + 1) - crate::fs::file::spec_block_usage(listed),
        listed >= block_count || free_now < cost,
        end > listed * block_data_size,
    ensures
        !spec_fits(free, len, spec_blocks_for(spec_max(size, end), block_data_size), block_count),
{
    let count = spec_blocks_for(spec_max(size, end), block_data_size);
    assert(count >= listed + 1) by (nonlinear_arith)
        requires
            count == (spec_max(size, end) + block_data_size - 1) / block_data_size,
            spec_max(size, end) > listed * block_data_size,
            block_data_size > 0,
    ;
    crate::fs::file_lemmas::lemma_block_usage_monotonic(listed + 1, count);
}

/// Why a write that has come to its end fits: the file has the data blocks
/// that its size needs, and the blocks that it took were free.
proof fn lemma_write_done(
    free: int,
    len: int,
    listed: int,
    free_now: int,
    block_count: int,
    size: int,
    new_size: int,
    block_data_size: int,
)
    requires
        0 <= len <= listed <= block_count,
        block_data_size > 0,
        free_now >= 0,
        free_now == free - (crate::fs::file::spec_block_usage(listed) - crate::fs::file::spec_block_usage(len)),
        0 <= new_size <= listed * block_data_size,
        listed > 0 ==> new_size > (listed - 1) * block_data_size,
    ensures
        listed == spec_blocks_for(new_size, block_data_size),
        spec_fits(free, len, listed, block_count),
{
    assert(listed == (new_size + block_data_size - 1) / block_data_size) by (nonlinear_arith)
        requires
            0 <= new_size <= listed * block_data_size,
            listed > 0 ==> new_size > (listed - 1) * block_data_size,
            listed >= 0,
            block_data_size > 0,
    ;
}

/// How the size of a file stands to its data blocks after a chunk has been
/// written into one of them.
proof fn lemma_chunk_sizes(pos: int, size: int, chunk: int, listed: int, block_data_size: int)
    requires
        0 <= pos <= size,
        size <= listed * block_data_size,
        listed > 0 ==> size > (listed - 1) * block_data_size || (pos == size && size == (listed - 1)
            * block_data_size),
        0 < block_data_size <= 512,
        0 < chunk,
        pos % block_data_size + chunk <= block_data_size,
        pos / block_data_size < listed,
        listed <= 3520,
    ensures
        pos + chunk <= listed * block_data_size,
        spec_max(size, pos + chunk) > (listed - 1) * block_data_size,
        listed * block_data_size <= 3520 * 512,
{
    let index = pos / block_data_size;
    let data_pos = pos % block_data_size;
    assert(pos == index * block_data_size + data_pos && pos + chunk <= (index + 1) * block_data_size && (index
        + 1) * block_data_size <= listed * block_data_size) by (nonlinear_arith)
        requires
            index == pos / block_data_size,
            data_pos == pos % block_data_size,
            block_data_size > 0,
            index < listed,
            data_pos + chunk <= block_data_size,
    ;
    assert(listed * block_data_size <= 3520 * 512) by (nonlinear_arith)
        requires
            0 <= listed <= 3520,
            0 < block_data_size <= 512,
    ;
}

/// What bringing the header block of a file up to date leaves alone: the
/// standing of the blocks of the file, the count of free blocks, the boot
/// block, and the content of the file.
pub proof fn lemma_synced(
    image: Seq<u8>,
    pages: Seq<usize>,
    header: usize,
    list: Seq<FileDataBlockListEntry>,
    block_data_offset: usize,
    block_data_size: usize,
    mode: usize,
    size: usize,
    date_time: u64,
)
    requires
        image.len() == 1760 * 512 || image.len() == 3520 * 512,
        crate::fs::amiga_dos::spec_pages_valid(pages, spec_block_count(image)),
        crate::fs::file::spec_list_wf(header, list),
        crate::fs::file::spec_list_owned(image, pages, header, list),
        block_data_size > 0,
        block_data_offset + block_data_size == 512,
        size <= list.len() * block_data_size,
    ensures
        ({
            let after = spec_sync_all(image, header, mode, size, date_time);
            &&& after.len() == image.len()
            &&& crate::fs::file::spec_list_owned(after, pages, header, list)
            &&& crate::fs::bitmap::spec_free_block_count(after, pages) == crate::fs::bitmap::spec_free_block_count(
                image,
                pages,
            )
            &&& spec_boot_block_valid(after) == spec_boot_block_valid(image)
            &&& spec_boot_flags(after) == spec_boot_flags(image)
            &&& crate::fs::file::spec_content(after, list, block_data_offset, block_data_size, size)
                == crate::fs::file::spec_content(image, list, block_data_offset, block_data_size, size)
        }),
{
    let after = spec_sync_all(image, header, mode, size, date_time);
    let touched = set![header as int];
    lemma_sync_all(image, header, mode, size, date_time);
    crate::fs::file_lemmas::lemma_plain_blocks_touched(image, after, touched, pages, header, list);
    assert forall|i: int| 0 <= i < list.len() implies (#[trigger] list[i]).data_block_address * 512 + 512
        <= image.len() by {
        assert(crate::fs::file::spec_owned(image, pages, list[i].data_block_address));
    }
    crate::fs::file_lemmas::lemma_untouched_payloads(image, after, touched, list, block_data_offset);
    crate::fs::file_lemmas::lemma_same_payloads_same_content(
        image,
        after,
        list,
        block_data_offset,
        block_data_size,
        size,
    );
}

/// What bringing the header block of a file up to date changes: the header
/// block alone, whose checksum is valid afterwards.
pub proof fn lemma_sync_all(image: Seq<u8>, header: usize, mode: usize, size: usize, date_time: u64)
    requires
        image.len() % 512 == 0,
        header < spec_block_count(image),
    ensures
        spec_sync_all(image, header, mode, size, date_time).len() == image.len(),
        crate::fs::frame::spec_unchanged_outside(
            image,
            spec_sync_all(image, header, mode, size, date_time),
            set![header as int],
        ),
        spec_test_file_mode(FileMode::Write, mode) ==> crate::fs::block::spec_block_checksum_valid(
            spec_sync_all(image, header, mode, size, date_time),
            header as int,
        ),
{
    let after = spec_sync_all(image, header, mode, size, date_time);
    let touched = set![header as int];
    assert forall|i: int| 0 <= i < image.len() && !touched.contains(i / 512) implies #[trigger] after[i]
        == image[i] by {
        assert(!(header * 512 <= i < header * 512 + 512));
    }
    if spec_test_file_mode(FileMode::Write, mode) {
        crate::fs::block::lemma_write_checksum_valid(
            spec_write_date(spec_write_u32(image, header as int, 324, spec_low_u32(size)), header, 420, date_time),
            header,
        );
    }
}

/// Number of blocks that one more data block costs a file: the data block,
/// and a list block when the last header or list block is full.
pub open spec fn spec_push_cost(list: Seq<FileDataBlockListEntry>) -> int {
    if list.len() == 0 || list.last().extension_block_index < 71 {
        1
    } else {
        2
    }
}

/// Where the payload of a data block starts in each flavour.
pub open spec fn spec_payload_offset(filesystem_type: FilesystemType) -> int {
    match filesystem_type {
        FilesystemType::FFS => 0,
        FilesystemType::OFS => 24,
    }
}

/// The block that points at a fresh data block in the old flavour:
/// the last data block so far, or the header block for the first one.
pub open spec fn spec_link_block(header: usize, list: Seq<FileDataBlockListEntry>) -> usize {
    if list.len() > 0 {
        list.last().data_block_address
    } else {
        header
    }
}

/// What making a fresh data block part of a file changes: the data block,
/// whose payload is all zeros afterwards; the header or list block that
/// holds it; and the block that points at it, of which nothing changes from
/// byte 24 on.
pub proof fn lemma_link_data_block(
    image: Seq<u8>,
    header: usize,
    list: Seq<FileDataBlockListEntry>,
    entry: FileDataBlockListEntry,
    filesystem_type: FilesystemType,
)
    requires
        image.len() % 512 == 0,
        entry.data_block_address < spec_block_count(image),
        entry.extension_block_address < spec_block_count(image),
        spec_link_block(header, list) < spec_block_count(image),
        entry.extension_block_index < 72,
        entry.data_block_address != entry.extension_block_address,
        entry.data_block_address != spec_link_block(header, list),
    ensures
        ({
            let after = spec_link_data_block(image, header, list, entry, filesystem_type);
            &&& after.len() == image.len()
            &&& crate::fs::frame::spec_unchanged_outside(
                image,
                after,
                set![
                    entry.data_block_address as int,
                    entry.extension_block_address as int,
                    spec_link_block(header, list) as int,
                ],
            )
            &&& forall|offset: int|
                spec_payload_offset(filesystem_type) <= offset < 512
                    ==> #[trigger] crate::fs::file_lemmas::spec_block_byte(
                    after,
                    entry.data_block_address,
                    offset,
                ) == 0
            &&& spec_link_block(header, list) != entry.extension_block_address ==> forall|offset: int|
                spec_payload_offset(filesystem_type) <= offset < 512
                    ==> #[trigger] crate::fs::file_lemmas::spec_block_byte(
                    after,
                    spec_link_block(header, list),
                    offset,
                ) == crate::fs::file_lemmas::spec_block_byte(image, spec_link_block(header, list), offset)
        }),
{
    reveal(spec_link_data_block);
    let after = spec_link_data_block(image, header, list, entry, filesystem_type);
    let touched = set![
        entry.data_block_address as int,
        entry.extension_block_address as int,
        spec_link_block(header, list) as int,
    ];
    assert forall|i: int| 0 <= i < image.len() && !touched.contains(i / 512) implies #[trigger] after[i]
        == image[i] by {
        assert(!(entry.data_block_address * 512 <= i < entry.data_block_address * 512 + 512));
        assert(!(entry.extension_block_address * 512 <= i < entry.extension_block_address * 512 + 512));
        assert(!(spec_link_block(header, list) * 512 <= i < spec_link_block(header, list) * 512 + 512));
    }
}

/// What chaining a fresh list block to the last list block of a file
/// changes: the two blocks, and nothing else.
pub proof fn lemma_chain_extension_block(image: Seq<u8>, extension: usize, header: usize, last: usize)
    requires
        image.len() % 512 == 0,
        extension < spec_block_count(image),
        last < spec_block_count(image),
    ensures
        ({
            let after = spec_chain_extension_block(image, extension, header, last);
            &&& after.len() == image.len()
            &&& crate::fs::frame::spec_unchanged_outside(image, after, set![extension as int, last as int])
        }),
{
    reveal(spec_chain_extension_block);
    let after = spec_chain_extension_block(image, extension, header, last);
    let touched = set![extension as int, last as int];
    assert forall|i: int| 0 <= i < image.len() && !touched.contains(i / 512) implies #[trigger] after[i]
        == image[i] by {
        assert(!(extension * 512 <= i < extension * 512 + 512));
        assert(!(last * 512 <= i < last * 512 + 512));
    }
}

/// What a file gains with a fresh data block, once the block has been
/// taken and, if need be, a list block for it: the longer list is well laid
/// out and its blocks are marked as used; the payloads of the data blocks
/// that were there are as they were; the payload of the fresh block is all
/// zeros; and neither the bitmap nor the boot block has changed.
pub proof fn lemma_push_linked(
    image: Seq<u8>,
    pages: Seq<usize>,
    header: usize,
    list: Seq<FileDataBlockListEntry>,
    entry: FileDataBlockListEntry,
    filesystem_type: FilesystemType,
)
    requires
        image.len() == 1760 * 512 || image.len() == 3520 * 512,
        crate::fs::amiga_dos::spec_pages_valid(pages, spec_block_count(image)),
        crate::fs::file::spec_list_wf(header, list),
        crate::fs::file::spec_list_owned(image, pages, header, list),
        crate::fs::file::spec_owned(image, pages, entry.data_block_address),
        crate::fs::file::spec_owned(image, pages, entry.extension_block_address),
        entry.data_block_address != header,
        entry.data_block_address != entry.extension_block_address,
        forall|i: int|
            0 <= i < list.len() ==> (#[trigger] list[i]).data_block_address != entry.data_block_address
                && list[i].extension_block_address != entry.data_block_address
                && list[i].data_block_address != entry.extension_block_address,
        list.len() == 0 ==> entry.extension_block_address == header && entry.extension_block_index == 0,
        list.len() > 0 && list.last().extension_block_index < 71 ==> entry.extension_block_address
            == list.last().extension_block_address && entry.extension_block_index
            == list.last().extension_block_index + 1,
        list.len() > 0 && list.last().extension_block_index >= 71 ==> entry.extension_block_index == 0
            && entry.extension_block_address != header && forall|i: int|
            0 <= i < list.len() ==> (#[trigger] list[i]).extension_block_address
                != entry.extension_block_address,
    ensures
        ({
            let after = spec_link_data_block(image, header, list, entry, filesystem_type);
            &&& after.len() == image.len()
            &&& crate::fs::file::spec_list_wf(header, list.push(entry))
            &&& crate::fs::file::spec_list_owned(after, pages, header, list.push(entry))
            &&& crate::fs::file_lemmas::spec_same_payloads(
                image,
                after,
                list,
                spec_payload_offset(filesystem_type) as usize,
            )
            &&& forall|offset: int|
                spec_payload_offset(filesystem_type) <= offset < 512
                    ==> #[trigger] crate::fs::file_lemmas::spec_block_byte(
                    after,
                    entry.data_block_address,
                    offset,
                ) == 0
            &&& crate::fs::bitmap::spec_free_block_count(after, pages) == crate::fs::bitmap::spec_free_block_count(
                image,
                pages,
            )
            &&& spec_boot_block_valid(after) == spec_boot_block_valid(image)
            &&& spec_boot_flags(after) == spec_boot_flags(image)
        }),
{
    let after = spec_link_data_block(image, header, list, entry, filesystem_type);
    let link = spec_link_block(header, list);
    let touched = set![entry.data_block_address as int, entry.extension_block_address as int, link as int];
    if list.len() > 0 {
        assert(crate::fs::file::spec_owned(image, pages, list[list.len() - 1].data_block_address));
        assert(list[list.len() - 1].extension_block_index == (list.len() - 1) % 72);
    }
    assert(crate::fs::file::spec_owned(image, pages, link));
    lemma_link_data_block(image, header, list, entry, filesystem_type);
    crate::fs::file_lemmas::lemma_plain_blocks_touched(image, after, touched, pages, header, list);
    crate::fs::file_lemmas::lemma_list_wf_push(header, list, entry);
    let longer = list.push(entry);
    assert forall|i: int| 0 <= i < longer.len() implies crate::fs::file::spec_owned(
        after,
        pages,
        (#[trigger] longer[i]).data_block_address,
    ) && crate::fs::file::spec_owned(after, pages, longer[i].extension_block_address) by {
        if i < list.len() {
            assert(crate::fs::file::spec_owned(image, pages, list[i].data_block_address));
            assert(crate::fs::file::spec_owned(image, pages, list[i].extension_block_address));
        }
    }
    assert forall|i: int, offset: int|
        0 <= i < list.len() && spec_payload_offset(filesystem_type) <= offset
            < 512 implies #[trigger] crate::fs::file_lemmas::spec_block_byte(
        after,
        list[i].data_block_address,
        offset,
    ) == crate::fs::file_lemmas::spec_block_byte(image, list[i].data_block_address, offset) by {
        let data = list[i].data_block_address;
        if data == link {
        } else {
            assert(list[i].data_block_address != entry.data_block_address);
            assert((data * 512 + offset) / 512 == data);
            assert(!touched.contains(data as int));
        }
    }
}

/// What taking a free block and giving it back does: every block has the
/// mark that it had, so the blocks of a file are marked as used as before
/// and as many blocks are free; and nothing changes but the bitmap block.
pub proof fn lemma_block_given_back(
    image: Seq<u8>,
    pages: Seq<usize>,
    header: usize,
    list: Seq<FileDataBlockListEntry>,
    block_data_offset: usize,
    taken: usize,
)
    requires
        image.len() == 1760 * 512 || image.len() == 3520 * 512,
        crate::fs::amiga_dos::spec_pages_valid(pages, spec_block_count(image)),
        crate::fs::file::spec_list_owned(image, pages, header, list),
        crate::fs::bitmap::spec_first_free(image, pages, taken as int),
    ensures
        ({
            let after = spec_bitmap_update(spec_bitmap_update(image, pages, taken as int, false), pages, taken as int, true);
            &&& after.len() == image.len()
            &&& crate::fs::file::spec_list_owned(after, pages, header, list)
            &&& crate::fs::bitmap::spec_free_block_count(after, pages) == crate::fs::bitmap::spec_free_block_count(
                image,
                pages,
            )
            &&& crate::fs::file_lemmas::spec_same_payloads(image, after, list, block_data_offset)
            &&& spec_boot_block_valid(after) == spec_boot_block_valid(image)
            &&& spec_boot_flags(after) == spec_boot_flags(image)
        }),
{
    let middle = spec_bitmap_update(image, pages, taken as int, false);
    let after = spec_bitmap_update(middle, pages, taken as int, true);
    let page = crate::fs::bitmap::spec_page_of(pages, taken as int);
    let touched = set![page];
    crate::fs::file_lemmas::lemma_block_taken(image, pages, header, list, block_data_offset, taken);
    assert(crate::fs::bitmap::spec_tracked(middle, pages, taken as int));
    lemma_given_back_frame(middle, pages, taken);
    crate::fs::frame::lemma_unchanged_outside_trans(image, middle, after, touched, touched, touched);
    lemma_given_back_marks(image, pages, taken);
    assert forall|k: int| 0 <= k < pages.len() implies #[trigger] pages[k] != taken by {
        assert(!crate::fs::bitmap::spec_block_free(image, pages, pages[k] as int));
    }
    lemma_pages_touched(image, after, pages, header, list, block_data_offset, page);
}

/// Giving a block back changes nothing but its bitmap block.
proof fn lemma_given_back_frame(image: Seq<u8>, pages: Seq<usize>, taken: usize)
    requires
        image.len() == 1760 * 512 || image.len() == 3520 * 512,
        crate::fs::amiga_dos::spec_pages_valid(pages, spec_block_count(image)),
        crate::fs::bitmap::spec_tracked(image, pages, taken as int),
    ensures
        crate::fs::frame::spec_unchanged_outside(
            image,
            spec_bitmap_update(image, pages, taken as int, true),
            set![crate::fs::bitmap::spec_page_of(pages, taken as int)],
        ),
{
    let after = spec_bitmap_update(image, pages, taken as int, true);
    let page = crate::fs::bitmap::spec_page_of(pages, taken as int);
    let touched = set![page];
    crate::fs::bitmap::lemma_bitmap_update_checksum(image, pages, taken as int, true);
    assert forall|i: int| 0 <= i < image.len() && !touched.contains(i / 512) implies #[trigger] after[i]
        == image[i] by {
        assert(!(page * 512 <= i < page * 512 + 512));
    }
}

/// A free block taken and given back leaves every mark as it was, and the
/// count of free blocks.
proof fn lemma_given_back_marks(image: Seq<u8>, pages: Seq<usize>, taken: usize)
    requires
        image.len() == 1760 * 512 || image.len() == 3520 * 512,
        crate::fs::amiga_dos::spec_pages_valid(pages, spec_block_count(image)),
        crate::fs::bitmap::spec_first_free(image, pages, taken as int),
    ensures
        ({
            let after = spec_bitmap_update(spec_bitmap_update(image, pages, taken as int, false), pages, taken as int, true);
            &&& forall|address: int|
                crate::fs::bitmap::spec_block_free(after, pages, address) == crate::fs::bitmap::spec_block_free(
                    image,
                    pages,
                    address,
                )
            &&& crate::fs::bitmap::spec_free_block_count(after, pages) == crate::fs::bitmap::spec_free_block_count(
                image,
                pages,
            )
        }),
{
    let middle = spec_bitmap_update(image, pages, taken as int, false);
    let after = spec_bitmap_update(middle, pages, taken as int, true);
    crate::fs::bitmap::lemma_bitmap_update_marks(image, pages, taken as int, false, taken as int);
    crate::fs::bitmap::lemma_bitmap_update_marks(middle, pages, taken as int, true, taken as int);
    crate::fs::bitmap::lemma_bitmap_update_count(image, pages, taken as int, false, spec_block_count(image) as int);
    crate::fs::bitmap::lemma_bitmap_update_count(middle, pages, taken as int, true, spec_block_count(image) as int);
    assert forall|address: int| crate::fs::bitmap::spec_block_free(after, pages, address)
        == crate::fs::bitmap::spec_block_free(image, pages, address) by {
        crate::fs::bitmap::lemma_bitmap_update_marks(image, pages, taken as int, false, address);
        crate::fs::bitmap::lemma_bitmap_update_marks(middle, pages, taken as int, true, address);
    }
}

/// What stays as it is when an image changes in one bitmap block, and the
/// marks of the bitmap stay as they are: the standing of the blocks of a
/// file, the payloads of its data blocks, and what the boot block says.
proof fn lemma_pages_touched(
    image: Seq<u8>,
    after: Seq<u8>,
    pages: Seq<usize>,
    header: usize,
    list: Seq<FileDataBlockListEntry>,
    block_data_offset: usize,
    page: int,
)
    requires
        image.len() == 1760 * 512 || image.len() == 3520 * 512,
        crate::fs::amiga_dos::spec_pages_valid(pages, spec_block_count(image)),
        crate::fs::file::spec_list_owned(image, pages, header, list),
        crate::fs::frame::spec_unchanged_outside(image, after, set![page]),
        exists|k: int| 0 <= k < pages.len() && pages[k] == page,
        forall|address: int|
            crate::fs::bitmap::spec_block_free(after, pages, address) == crate::fs::bitmap::spec_block_free(
                image,
                pages,
                address,
            ),
    ensures
        crate::fs::file::spec_list_owned(after, pages, header, list),
        crate::fs::file_lemmas::spec_same_payloads(image, after, list, block_data_offset),
        spec_boot_block_valid(after) == spec_boot_block_valid(image),
        spec_boot_flags(after) == spec_boot_flags(image),
{
    let touched = set![page];
    crate::fs::frame::lemma_untouched_block(image, after, touched, 0);
    crate::fs::frame::lemma_untouched_block(image, after, touched, 1);
    crate::fs::frame::lemma_same_boot(image, after);
    assert forall|i: int, offset: int|
        0 <= i < list.len() && block_data_offset <= offset
            < 512 implies #[trigger] crate::fs::file_lemmas::spec_block_byte(
        after,
        list[i].data_block_address,
        offset,
    ) == crate::fs::file_lemmas::spec_block_byte(image, list[i].data_block_address, offset) by {
        let data = list[i].data_block_address;
        assert(crate::fs::file::spec_owned(image, pages, data));
        assert(data != page);
        assert((data * 512 + offset) / 512 == data);
    }
}

/// How many blocks more a file takes with one more data block: the data
/// block, and a list block when the last header or list block is full.
pub proof fn lemma_block_usage_step(header: usize, list: Seq<FileDataBlockListEntry>)
    requires
        crate::fs::file::spec_list_wf(header, list),
    ensures
        crate::fs::file::spec_block_usage(list.len() as int + 1) - crate::fs::file::spec_block_usage(
            list.len() as int,
        ) == spec_push_cost(list),
{
    if list.len() > 0 {
        assert(list[list.len() - 1].extension_block_index == (list.len() - 1) % 72);
    }
}

/// What one more data block does to a file that is well laid out and whose
/// blocks are marked as used, as `spec_push_data_block` gives it. The file
/// stays so with the longer list; the payloads of its data blocks are as
/// they were and the payload of the fresh one is all zeros; the count of
/// free blocks goes down by what the block costs; the boot block is as it
/// was. It fails just when fewer blocks are free than the block costs, and
/// then leaves the count of free blocks as it was.
pub proof fn lemma_push_data_block(
    image: Seq<u8>,
    pages: Seq<usize>,
    header: usize,
    list: Seq<FileDataBlockListEntry>,
    filesystem_type: FilesystemType,
)
    requires
        image.len() == 1760 * 512 || image.len() == 3520 * 512,
        crate::fs::amiga_dos::spec_pages_valid(pages, spec_block_count(image)),
        crate::fs::file::spec_list_wf(header, list),
        crate::fs::file::spec_list_owned(image, pages, header, list),
    ensures
        ({
            let (after, res) = spec_push_data_block(image, pages, header, list, filesystem_type);
            let offset = spec_payload_offset(filesystem_type) as usize;
            &&& after.len() == image.len()
            &&& spec_boot_block_valid(after) == spec_boot_block_valid(image)
            &&& spec_boot_flags(after) == spec_boot_flags(image)
            &&& crate::fs::file_lemmas::spec_same_payloads(image, after, list, offset)
            &&& res is Err <==> list.len() >= spec_block_count(image)
                || crate::fs::bitmap::spec_free_block_count(image, pages) < spec_push_cost(list)
            &&& match res {
                Ok(entry) => {
                    &&& crate::fs::file::spec_list_wf(header, list.push(entry))
                    &&& crate::fs::file::spec_list_owned(after, pages, header, list.push(entry))
                    &&& forall|o: int|
                        offset <= o < 512 ==> #[trigger] crate::fs::file_lemmas::spec_block_byte(
                            after,
                            entry.data_block_address,
                            o,
                        ) == 0
                    &&& crate::fs::bitmap::spec_free_block_count(after, pages)
                        == crate::fs::bitmap::spec_free_block_count(image, pages) - spec_push_cost(list)
                },
                Err(e) => {
                    &&& e == Error::NoSpaceLeft
                    &&& crate::fs::file::spec_list_owned(after, pages, header, list)
                    &&& crate::fs::bitmap::spec_free_block_count(after, pages)
                        == crate::fs::bitmap::spec_free_block_count(image, pages)
                },
            }
        }),
{
    let offset = spec_payload_offset(filesystem_type) as usize;
    crate::fs::bitmap::lemma_lowest_free(image, pages);
    crate::fs::bitmap::lemma_no_free_count(image, pages);
    crate::fs::bitmap::lemma_free_count_bound(image, pages, spec_block_count(image) as int);
    if list.len() >= spec_block_count(image) {
    } else if list.len() == 0 || list.last().extension_block_index < 71 {
        match spec_lowest_free(image, pages) {
            None => {},
            Some(data) => {
                let entry = FileDataBlockListEntry {
                    data_block_address: data,
                    extension_block_address: if list.len() == 0 {
                        header
                    } else {
                        list.last().extension_block_address
                    },
                    extension_block_index: if list.len() == 0 {
                        0
                    } else {
                        (list.last().extension_block_index + 1) as usize
                    },
                };
                let taken = spec_bitmap_update(image, pages, data as int, false);
                crate::fs::file_lemmas::lemma_block_taken(image, pages, header, list, offset, data);
                if list.len() > 0 {
                    assert(crate::fs::file::spec_owned(
                        image,
                        pages,
                        list[list.len() - 1].extension_block_address,
                    ));
                }
                lemma_push_linked(taken, pages, header, list, entry, filesystem_type);
                let after = spec_link_data_block(taken, header, list, entry, filesystem_type);
                lemma_same_payloads_trans(image, taken, after, list, offset);
            },
        }
    } else {
        lemma_push_data_block_chained(image, pages, header, list, filesystem_type);
    }
}

/// The payloads that two steps leave alone are left alone by both.
pub proof fn lemma_same_payloads_trans(
    first: Seq<u8>,
    second: Seq<u8>,
    third: Seq<u8>,
    list: Seq<FileDataBlockListEntry>,
    offset: usize,
)
    requires
        crate::fs::file_lemmas::spec_same_payloads(first, second, list, offset),
        crate::fs::file_lemmas::spec_same_payloads(second, third, list, offset),
    ensures
        crate::fs::file_lemmas::spec_same_payloads(first, third, list, offset),
{
    assert forall|i: int, o: int|
        0 <= i < list.len() && offset <= o < 512 implies #[trigger] crate::fs::file_lemmas::spec_block_byte(
        third,
        list[i].data_block_address,
        o,
    ) == crate::fs::file_lemmas::spec_block_byte(first, list[i].data_block_address, o) by {
        assert(crate::fs::file_lemmas::spec_block_byte(second, list[i].data_block_address, o)
            == crate::fs::file_lemmas::spec_block_byte(first, list[i].data_block_address, o));
    }
}

/// The image with the fresh list block `extension` chained to the list
/// block `last` of the file whose header block is `header`.
#[verifier::opaque]
pub open spec fn spec_chain_extension_block(image: Seq<u8>, extension: usize, header: usize, last: usize) -> Seq<
    u8,
> {
    spec_write_checksum(
        spec_write_u32(spec_init_extension_block(image, extension, header), last as int, 504, spec_low_u32(extension)),
        last,
    )
}

/// What chaining a fresh list block to the last list block of a file
/// leaves alone: the bitmap, the boot block, and the payloads of the data
/// blocks of the file.
proof fn lemma_chain_effects(
    image: Seq<u8>,
    pages: Seq<usize>,
    header: usize,
    list: Seq<FileDataBlockListEntry>,
    extension: usize,
    offset: usize,
)
    requires
        image.len() == 1760 * 512 || image.len() == 3520 * 512,
        crate::fs::amiga_dos::spec_pages_valid(pages, spec_block_count(image)),
        crate::fs::file::spec_list_wf(header, list),
        crate::fs::file::spec_list_owned(image, pages, header, list),
        crate::fs::file::spec_owned(image, pages, extension),
        list.len() > 0,
        forall|i: int| 0 <= i < list.len() ==> (#[trigger] list[i]).data_block_address != extension,
    ensures
        ({
            let after = spec_chain_extension_block(image, extension, header, list.last().extension_block_address);
            &&& after.len() == image.len()
            &&& crate::fs::file::spec_list_owned(after, pages, header, list)
            &&& forall|address: usize|
                crate::fs::file::spec_owned(image, pages, address) ==> crate::fs::file::spec_owned(
                    after,
                    pages,
                    address,
                )
            &&& crate::fs::file_lemmas::spec_same_payloads(image, after, list, offset)
            &&& crate::fs::bitmap::spec_free_block_count(after, pages) == crate::fs::bitmap::spec_free_block_count(
                image,
                pages,
            )
            &&& spec_boot_block_valid(after) == spec_boot_block_valid(image)
            &&& spec_boot_flags(after) == spec_boot_flags(image)
        }),
{
    let last = list[list.len() - 1].extension_block_address;
    let after = spec_chain_extension_block(image, extension, header, last);
    assert(crate::fs::file::spec_owned(image, pages, last));
    lemma_chain_extension_block(image, extension, header, last);
    let touched = set![extension as int, last as int];
    crate::fs::file_lemmas::lemma_plain_blocks_touched(image, after, touched, pages, header, list);
    assert forall|i: int, o: int|
        0 <= i < list.len() && offset <= o < 512 implies #[trigger] crate::fs::file_lemmas::spec_block_byte(
        after,
        list[i].data_block_address,
        o,
    ) == crate::fs::file_lemmas::spec_block_byte(image, list[i].data_block_address, o) by {
        let d = list[i].data_block_address;
        assert(list[i].data_block_address != list[list.len() - 1].extension_block_address);
        assert((d * 512 + o) / 512 == d);
        assert(!touched.contains(d as int));
    }
}

/// The case of `lemma_push_data_block` in which the last header or list
/// block is full, so that a list block is taken before the data block.
#[verifier::rlimit(60)]
proof fn lemma_push_data_block_chained(
    image: Seq<u8>,
    pages: Seq<usize>,
    header: usize,
    list: Seq<FileDataBlockListEntry>,
    filesystem_type: FilesystemType,
)
    requires
        image.len() == 1760 * 512 || image.len() == 3520 * 512,
        crate::fs::amiga_dos::spec_pages_valid(pages, spec_block_count(image)),
        crate::fs::file::spec_list_wf(header, list),
        crate::fs::file::spec_list_owned(image, pages, header, list),
        list.len() < spec_block_count(image),
        list.len() > 0,
        list.last().extension_block_index >= 71,
    ensures
        ({
            let (after, res) = spec_push_data_block(image, pages, header, list, filesystem_type);
            let offset = spec_payload_offset(filesystem_type) as usize;
            &&& after.len() == image.len()
            &&& spec_boot_block_valid(after) == spec_boot_block_valid(image)
            &&& spec_boot_flags(after) == spec_boot_flags(image)
            &&& crate::fs::file_lemmas::spec_same_payloads(image, after, list, offset)
            &&& res is Err <==> crate::fs::bitmap::spec_free_block_count(image, pages) < 2
            &&& match res {
                Ok(entry) => {
                    &&& crate::fs::file::spec_list_wf(header, list.push(entry))
                    &&& crate::fs::file::spec_list_owned(after, pages, header, list.push(entry))
                    &&& forall|o: int|
                        offset <= o < 512 ==> #[trigger] crate::fs::file_lemmas::spec_block_byte(
                            after,
                            entry.data_block_address,
                            o,
                        ) == 0
                    &&& crate::fs::bitmap::spec_free_block_count(after, pages)
                        == crate::fs::bitmap::spec_free_block_count(image, pages) - 2
                },
                Err(e) => {
                    &&& e == Error::NoSpaceLeft
                    &&& crate::fs::file::spec_list_owned(after, pages, header, list)
                    &&& crate::fs::bitmap::spec_free_block_count(after, pages)
                        == crate::fs::bitmap::spec_free_block_count(image, pages)
                },
            }
        }),
{
    let offset = spec_payload_offset(filesystem_type) as usize;
    let last = list[list.len() - 1];
    crate::fs::bitmap::lemma_lowest_free(image, pages);
    crate::fs::bitmap::lemma_no_free_count(image, pages);
    crate::fs::bitmap::lemma_free_count_bound(image, pages, spec_block_count(image) as int);
    match spec_lowest_free(image, pages) {
        None => {},
        Some(extension) => {
            let taken = spec_bitmap_update(image, pages, extension as int, false);
            crate::fs::file_lemmas::lemma_block_taken(image, pages, header, list, offset, extension);
            crate::fs::bitmap::lemma_lowest_free(taken, pages);
            crate::fs::bitmap::lemma_no_free_count(taken, pages);
            crate::fs::bitmap::lemma_free_count_bound(taken, pages, spec_block_count(taken) as int);
            match spec_lowest_free(taken, pages) {
                None => {
                    lemma_block_given_back(image, pages, header, list, offset, extension);
                },
                Some(data) => {
                    let both = spec_bitmap_update(taken, pages, data as int, false);
                    crate::fs::file_lemmas::lemma_block_taken(taken, pages, header, list, offset, data);
                    assert(crate::fs::file::spec_owned(image, pages, last.extension_block_address));
                    assert(crate::fs::file::spec_owned(both, pages, extension));
                    let chained = spec_chain_extension_block(both, extension, header, last.extension_block_address);
                    lemma_chain_effects(both, pages, header, list, extension, offset);
                    let entry = FileDataBlockListEntry {
                        data_block_address: data,
                        extension_block_address: extension,
                        extension_block_index: 0,
                    };
                    lemma_push_linked(chained, pages, header, list, entry, filesystem_type);
                    let after = spec_link_data_block(chained, header, list, entry, filesystem_type);
                    lemma_same_payloads_trans(image, taken, both, list, offset);
                    lemma_same_payloads_trans(image, both, chained, list, offset);
                    lemma_same_payloads_trans(image, chained, after, list, offset);
                },
            }
        },
    }
}

/// The content `content` with `bytes` written over it from byte `pos` on:
/// the bytes take the place of what was there, and make the content longer
/// where they reach beyond its end.
pub open spec fn spec_overwrite(content: Seq<u8>, pos: int, bytes: Seq<u8>) -> Seq<u8> {
    Seq::new(
        spec_max(content.len() as int, pos + bytes.len()) as nat,
        |i: int|
            if pos <= i < pos + bytes.len() {
                bytes[i - pos]
            } else {
                content[i]
            },
    )
}

/// To write bytes, and then more bytes behind them, is to write all of the
/// bytes at once.
pub proof fn lemma_overwrite_twice(content: Seq<u8>, pos: int, first: Seq<u8>, second: Seq<u8>)
    requires
        0 <= pos <= content.len(),
    ensures
        spec_overwrite(spec_overwrite(content, pos, first), pos + first.len(), second) == spec_overwrite(
            content,
            pos,
            first + second,
        ),
{
    assert(spec_overwrite(spec_overwrite(content, pos, first), pos + first.len(), second) =~= spec_overwrite(
        content,
        pos,
        first + second,
    ));
}

/// What writing a chunk into the payload of a data block changes: that
/// block alone, and of its payload the bytes of the chunk alone.
pub proof fn lemma_write_data(
    image: Seq<u8>,
    data: usize,
    data_pos: usize,
    chunk: Seq<u8>,
    filesystem_type: FilesystemType,
)
    requires
        image.len() % 512 == 0,
        data < spec_block_count(image),
        spec_payload_offset(filesystem_type) + data_pos + chunk.len() <= 512,
    ensures
        ({
            let offset = spec_payload_offset(filesystem_type);
            let after = spec_write_data(image, data, offset as usize, data_pos, chunk, filesystem_type);
            &&& after.len() == image.len()
            &&& crate::fs::frame::spec_unchanged_outside(image, after, set![data as int])
            &&& forall|o: int|
                offset <= o < 512 ==> #[trigger] crate::fs::file_lemmas::spec_block_byte(after, data, o) == if offset
                    + data_pos <= o < offset + data_pos + chunk.len() {
                    chunk[o - offset - data_pos]
                } else {
                    crate::fs::file_lemmas::spec_block_byte(image, data, o)
                }
        }),
{
    reveal(spec_write_data);
    let offset = spec_payload_offset(filesystem_type);
    let after = spec_write_data(image, data, offset as usize, data_pos, chunk, filesystem_type);
    let touched = set![data as int];
    assert forall|i: int| 0 <= i < image.len() && !touched.contains(i / 512) implies #[trigger] after[i]
        == image[i] by {
        assert(!(data * 512 <= i < data * 512 + 512));
    }
}

/// What writing a chunk into the payload of one data block of a file does:
/// the content of the file is the old content with the chunk written over
/// it; the blocks of the file are marked as used as before; and neither the
/// bitmap nor the boot block changes.
pub proof fn lemma_write_chunk(
    image: Seq<u8>,
    pages: Seq<usize>,
    header: usize,
    list: Seq<FileDataBlockListEntry>,
    block_data_size: usize,
    size: usize,
    pos: usize,
    chunk: Seq<u8>,
    filesystem_type: FilesystemType,
)
    requires
        image.len() == 1760 * 512 || image.len() == 3520 * 512,
        crate::fs::amiga_dos::spec_pages_valid(pages, spec_block_count(image)),
        crate::fs::file::spec_list_wf(header, list),
        crate::fs::file::spec_list_owned(image, pages, header, list),
        block_data_size == 512 - spec_payload_offset(filesystem_type),
        pos <= size,
        size <= list.len() * block_data_size,
        list.len() <= spec_block_count(image),
        pos / block_data_size < list.len(),
        pos % block_data_size + chunk.len() <= block_data_size,
    ensures
        ({
            let offset = spec_payload_offset(filesystem_type) as usize;
            let after = spec_write_data(
                image,
                list[(pos / block_data_size) as int].data_block_address,
                offset,
                (pos % block_data_size) as usize,
                chunk,
                filesystem_type,
            );
            let new_size = spec_max(size as int, pos + chunk.len()) as usize;
            &&& after.len() == image.len()
            &&& new_size <= list.len() * block_data_size
            &&& crate::fs::file::spec_list_owned(after, pages, header, list)
            &&& crate::fs::bitmap::spec_free_block_count(after, pages) == crate::fs::bitmap::spec_free_block_count(
                image,
                pages,
            )
            &&& spec_boot_block_valid(after) == spec_boot_block_valid(image)
            &&& spec_boot_flags(after) == spec_boot_flags(image)
            &&& crate::fs::file::spec_content(after, list, offset, block_data_size, new_size) == spec_overwrite(
                crate::fs::file::spec_content(image, list, offset, block_data_size, size),
                pos as int,
                chunk,
            )
        }),
{
    let offset = spec_payload_offset(filesystem_type) as usize;
    let index = (pos / block_data_size) as int;
    let data_pos = (pos % block_data_size) as int;
    let data = list[index].data_block_address;
    let after = spec_write_data(image, data, offset, data_pos as usize, chunk, filesystem_type);
    let new_size = spec_max(size as int, pos + chunk.len()) as usize;
    let ds = block_data_size as int;
    assert(crate::fs::file::spec_owned(image, pages, data));
    assert(pos == index * ds + data_pos && pos + chunk.len() <= (index + 1) * ds && (index + 1) * ds
        <= list.len() * ds) by (nonlinear_arith)
        requires
            index == pos / block_data_size,
            data_pos == pos % block_data_size,
            ds == block_data_size,
            ds > 0,
            index < list.len(),
            data_pos + chunk.len() <= ds,
    ;
    let touched = set![data as int];
    lemma_write_data(image, data, data_pos as usize, chunk, filesystem_type);
    crate::fs::file_lemmas::lemma_plain_blocks_touched(image, after, touched, pages, header, list);
    assert forall|i: int| 0 <= i < list.len() implies (#[trigger] list[i]).data_block_address
        < spec_block_count(image) by {
        assert(crate::fs::file::spec_owned(image, pages, list[i].data_block_address));
    }
    lemma_chunk_content(image, after, list, offset, block_data_size, size, pos, chunk);
}

/// The content of a file after a chunk has been written into the payload
/// of one of its data blocks, given what the writing changed: of the image
/// that block alone, and of its payload the bytes of the chunk alone.
proof fn lemma_chunk_content(
    image: Seq<u8>,
    after: Seq<u8>,
    list: Seq<FileDataBlockListEntry>,
    offset: usize,
    block_data_size: usize,
    size: usize,
    pos: usize,
    chunk: Seq<u8>,
)
    requires
        image.len() % 512 == 0,
        forall|i: int, j: int|
            0 <= i < list.len() && 0 <= j < list.len() && i != j ==> (#[trigger] list[i]).data_block_address != (
            #[trigger] list[j]).data_block_address,
        forall|i: int| 0 <= i < list.len() ==> (#[trigger] list[i]).data_block_address < spec_block_count(image),
        block_data_size > 0,
        offset + block_data_size == 512,
        pos <= size,
        size <= list.len() * block_data_size,
        list.len() <= 3520,
        pos / block_data_size < list.len(),
        pos % block_data_size + chunk.len() <= block_data_size,
        after.len() == image.len(),
        crate::fs::frame::spec_unchanged_outside(
            image,
            after,
            set![list[(pos / block_data_size) as int].data_block_address as int],
        ),
        forall|o: int|
            offset <= o < 512 ==> #[trigger] crate::fs::file_lemmas::spec_block_byte(
                after,
                list[(pos / block_data_size) as int].data_block_address,
                o,
            ) == if offset + pos % block_data_size <= o < offset + pos % block_data_size + chunk.len() {
                chunk[o - offset - pos % block_data_size]
            } else {
                crate::fs::file_lemmas::spec_block_byte(
                    image,
                    list[(pos / block_data_size) as int].data_block_address,
                    o,
                )
            },
    ensures
        spec_max(size as int, pos + chunk.len()) <= list.len() * block_data_size,
        crate::fs::file::spec_content(
            after,
            list,
            offset,
            block_data_size,
            spec_max(size as int, pos + chunk.len()) as usize,
        ) == spec_overwrite(
            crate::fs::file::spec_content(image, list, offset, block_data_size, size),
            pos as int,
            chunk,
        ),
{
    let index = (pos / block_data_size) as int;
    let data_pos = (pos % block_data_size) as int;
    let data = list[index].data_block_address;
    let ds = block_data_size as int;
    assert(list.len() * ds <= 3520 * 512) by (nonlinear_arith)
        requires
            list.len() <= 3520,
            0 < ds <= 512,
    ;
    let new_size = spec_max(size as int, pos + chunk.len()) as usize;
    assert(pos == index * ds + data_pos && pos + chunk.len() <= (index + 1) * ds && (index + 1) * ds
        <= list.len() * ds) by (nonlinear_arith)
        requires
            index == pos / block_data_size,
            data_pos == pos % block_data_size,
            ds == block_data_size,
            ds > 0,
            index < list.len(),
            data_pos + chunk.len() <= ds,
    ;
    let touched = set![data as int];
    let before_content = crate::fs::file::spec_content(image, list, offset, block_data_size, size);
    let after_content = crate::fs::file::spec_content(after, list, offset, block_data_size, new_size);
    let wanted = spec_overwrite(before_content, pos as int, chunk);
    assert forall|p: int| 0 <= p < new_size implies after_content[p] == wanted[p] by {
        let i = p / ds;
        let r = p % ds;
        assert(0 <= i < list.len() && 0 <= r < ds && p == i * ds + r) by (nonlinear_arith)
            requires
                0 <= p < new_size,
                new_size <= list.len() * ds,
                ds > 0,
                i == p / ds,
                r == p % ds,
        ;
        let block = list[i].data_block_address;
        assert(after_content[p] == crate::fs::file_lemmas::spec_block_byte(after, block, offset + r));
        if pos <= p < pos + chunk.len() {
            assert(i == index && r == data_pos + (p - pos)) by (nonlinear_arith)
                requires
                    pos <= p < pos + chunk.len(),
                    pos == index * ds + data_pos,
                    data_pos + chunk.len() <= ds,
                    0 <= data_pos,
                    p == i * ds + r,
                    0 <= r < ds,
                    ds > 0,
            ;
        } else {
            assert(p < size);
            assert(before_content[p] == crate::fs::file_lemmas::spec_block_byte(image, block, offset + r));
            if i == index {
                assert(r < data_pos || r >= data_pos + chunk.len()) by (nonlinear_arith)
                    requires
                        !(pos <= p < pos + chunk.len()),
                        pos == index * ds + data_pos,
                        p == i * ds + r,
                        i == index,
                ;
            } else {
                assert(list[i].data_block_address != list[index].data_block_address);
                assert((block * 512 + offset + r) / 512 == block);
                assert(!touched.contains(block as int));
            }
        }
    }
    assert(after_content =~= wanted);
}

/// Whether the path leads to the file whose header block is `header` in
/// the image `start`, on a way that passes through none of the blocks that
/// a change of the file may touch: no directory on the way, and no entry
/// that a search passes over, is a bitmap block, a block of the file or a
/// block that the bitmap marks as free.
pub open spec fn spec_path_clear(
    start: Seq<u8>,
    pages: Seq<usize>,
    path: Seq<u8>,
    header: usize,
    list: Seq<FileDataBlockListEntry>,
) -> bool {
    &&& crate::fs::lookup::spec_lookup(start, path) == Ok::<usize, Error>(header)
    &&& crate::fs::lookup_frame::spec_lookup_clear(
        start,
        crate::fs::boot_block::spec_root_block_address(start),
        crate::fs::path::spec_split(path),
        crate::fs::file_frame::spec_may_touch(start, pages, header, list),
    )
}

/// The blocks of a file that can be opened, or that has been made, are
/// marked as used.
pub proof fn lemma_start_owned(image: Seq<u8>, pages: Seq<usize>, path: Seq<u8>, date_time: u64)
    ensures
        crate::fs::metadata::spec_exists(image, path) == Ok::<bool, Error>(true) ==> (crate::fs::file::spec_open(
            image,
            pages,
            path,
        ) matches Ok((header, _, list)) ==> crate::fs::file::spec_list_owned(image, pages, header, list)),
        crate::fs::metadata::spec_exists(image, path) == Ok::<bool, Error>(false) ==> (
        crate::fs::file::spec_create_file(image, pages, path, date_time) matches (made, Ok(header))
            ==> crate::fs::file::spec_list_owned(made, pages, header, Seq::empty())),
{
    reveal(crate::fs::file::spec_open);
    reveal(crate::fs::file::spec_create_file);
}

/// How writing `data` as the whole content of the file whose header block
/// is `header` ends, when `free` blocks are free once the file is empty.
/// It succeeds just when the blocks that the data need are free; then the
/// file holds the data, in as many data blocks as they need, and as many
/// blocks less are free; where the image held the file before, which
/// `kept` says, it holds the file with the data; the header block of the
/// file is up to date; nothing has changed since the file was there or
/// was made, in the image `start`, but what `spec_file_kept` allows; and
/// the path leads to the file, where the way to it is clear of the blocks
/// that the write may touch. Else it fails for want of space.
pub open spec fn spec_written(
    after: &AmigaDos,
    header: usize,
    data: Seq<u8>,
    free: int,
    kept: bool,
    start: (Seq<u8>, Seq<FileDataBlockListEntry>),
    path: Seq<u8>,
    res: Result<(), Error>,
) -> bool {
    let block_data_size = crate::fs::file::spec_data_block_info(spec_filesystem_type(spec_boot_flags(after@))).1;
    let count = spec_blocks_for(data.len() as int, block_data_size as int);
    if spec_fits(free, 0, count, spec_block_count(after@) as int) {
        res is Ok && exists|file: File|
            #[trigger] file.wf(after) && file.header_block_address == header && file.size == data.len()
                && file.content(after) == data && file.block_data_list@.len() == count
                && crate::fs::bitmap::spec_free_block_count(after@, after.inner.spec_pages()) == free
                - crate::fs::file::spec_block_usage(count) && (kept ==> file.stored(after))
                && spec_header_synced(after@, header, file.size) && crate::fs::file_frame::spec_file_kept(
                start.0,
                after@,
                after.inner.spec_pages(),
                header,
                start.1,
            ) && (spec_path_clear(start.0, after.inner.spec_pages(), path, header, start.1)
                ==> crate::fs::lookup::spec_lookup(after@, path) == Ok::<usize, Error>(header))
    } else {
        res == Err::<(), Error>(Error::NoSpaceLeft)
    }
}

/// How writing `data` as the whole content of the file at `path` ends. A
/// path that cannot be followed is an error, and so is a path that leads
/// to something that cannot be opened as a file; nothing changes then. A
/// file that is there is emptied, which gives its blocks back; a file that
/// is not there is made, and what keeps it from being made is an error.
/// Then the data are written as `spec_written` says.
pub open spec fn spec_write_file(
    before: &AmigaDos,
    after: &AmigaDos,
    path: Seq<u8>,
    data: Seq<u8>,
    date_time: u64,
    res: Result<(), Error>,
) -> bool {
    let pages = before.inner.spec_pages();
    match crate::fs::metadata::spec_exists(before@, path) {
        Err(e) => res == Err::<(), Error>(e) && after@ == before@,
        Ok(true) => match crate::fs::file::spec_open(before@, pages, path) {
            Err(e) => res == Err::<(), Error>(e) && after@ == before@,
            Ok((header, size, list)) => spec_written(
                after,
                header,
                data,
                crate::fs::bitmap::spec_free_block_count(before@, pages) + crate::fs::file::spec_block_usage(
                    list.len() as int,
                ),
                crate::fs::file::spec_kept_at_open(before@, pages, path, date_time),
                crate::fs::file::spec_start(before@, pages, path, date_time),
                path,
                res,
            ),
        },
        Ok(false) => match crate::fs::file::spec_create_file(before@, pages, path, date_time) {
            (made, Err(e)) => res == Err::<(), Error>(e) && after@ == made,
            (made, Ok(header)) => spec_written(
                after,
                header,
                data,
                crate::fs::bitmap::spec_free_block_count(made, pages) as int,
                crate::fs::file::spec_kept_at_open(before@, pages, path, date_time),
                crate::fs::file::spec_start(before@, pages, path, date_time),
                path,
                res,
            ),
        },
    }
}

impl AmigaDos {
    /// Writes `data` as the whole content of the file at `path`: the file
    /// is made if it is not there, and emptied first if it is. The volume
    /// is changed last at `date_time`.
    pub fn write_at(&mut self, path: &str, data: &[u8], date_time: u64) -> (res: Result<(), Error>)
        requires
            old(self).wf(),
        ensures
            final(self).wf(),
            final(self).same_volume(old(self)),
            spec_write_file(old(self), final(self), path.spec_bytes(), data@, date_time, res),
    {
        let options = crate::fs::file_open::OpenOptions {
            read: false,
            write: true,
            append: false,
            truncate: true,
            create: true,
            create_new: false,
        };
        proof {
            crate::fs::file_open::lemma_mode_bits(false, true);
        }
        let mut output = match options.open_at(self, path, date_time) {
            Ok(file) => file,
            Err(e) => {
                return Err(e);
            },
        };
        let ghost empty = output.content(self);
        let ghost opened = output;
        proof {
            assert(output.block_data_list@.len() == 0) by (nonlinear_arith)
                requires
                    output.size == 0,
                    output.block_data_size > 0,
                    output.block_data_list@.len() > 0 ==> output.size > (output.block_data_list@.len() - 1)
                        * output.block_data_size,
            ;
        }
        let ghost opened_image = self@;
        match output.write_at(self, data, date_time) {
            Ok(_) => {
                proof {
                    assert(empty.len() == 0);
                    assert(spec_overwrite(empty, 0, data@) =~= data@);
                    assert(output.wf(self));
                    let pages = self.inner.spec_pages();
                    let header = output.header_block_address;
                    let start = crate::fs::file::spec_start(old(self)@, pages, path.spec_bytes(), date_time);
                    crate::fs::file_frame::lemma_file_kept_grown(
                        start.0,
                        opened_image,
                        self@,
                        pages,
                        header,
                        start.1,
                        output.block_data_list@,
                    );
                    lemma_start_owned(old(self)@, pages, path.spec_bytes(), date_time);
                    if spec_path_clear(start.0, pages, path.spec_bytes(), header, start.1) {
                        crate::fs::file_frame::lemma_file_kept_path(
                            start.0,
                            self@,
                            pages,
                            path.spec_bytes(),
                            header,
                            start.1,
                        );
                    }
                }
                Ok(())
            },
            Err(e) => Err(e),
        }
    }

    /// Writes `data` as the whole content of the file at `path`; the volume
    /// is changed last at the time of the system clock.
    pub fn write(&mut self, path: &str, data: &[u8]) -> (res: Result<(), Error>)
        requires
            old(self).wf(),
        ensures
            final(self).wf(),
            final(self).same_volume(old(self)),
            exists|date_time: u64| spec_write_file(old(self), final(self), path.spec_bytes(), data@, date_time, res),
    {
        let date_time: u64 = crate::fs::datetime::system_time_now();
        self.write_at(path, data, date_time)
    }
}

} // verus!
