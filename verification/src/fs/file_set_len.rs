use vstd::prelude::*;

use crate::block::{spec_read_u32, spec_write_u32, Block};
use crate::disk::{Disk, LBAAddress};
use crate::errors::Error;
use crate::fs::amiga_dos::AmigaDos;
use crate::fs::amiga_dos_options::FilesystemType;
use crate::fs::bitmap::{spec_bitmap_update, spec_free_block_count};
use crate::fs::block::{spec_block_count, spec_write_checksum};
use crate::fs::boot_block::{spec_boot_block_valid, spec_boot_flags, spec_filesystem_type};
use crate::fs::constants::{
    BLOCK_DATA_LIST_EXTENSION_OFFSET, BLOCK_DATA_LIST_HIGH_SEQ_OFFSET, BLOCK_DATA_OFS_NEXT_DATA_OFFSET,
    BLOCK_DATA_OFS_SIZE_OFFSET, BLOCK_TABLE_SIZE,
};
use crate::fs::file::{
    spec_block_usage, spec_content, spec_list_owned, spec_list_wf, spec_owned, spec_test_file_mode,
    test_file_mode, File, FileDataBlockListEntry, FileMode,
};
use crate::fs::file_lemmas::{spec_block_byte, spec_same_payloads};
use crate::fs::file_write::{spec_payload_offset, spec_push_cost};
use crate::fs::frame::spec_unchanged_outside;

verus! {

broadcast use Disk::lemma_len;

/// The image with the data block `entry` taken out of its slot of its
/// header or list block: the slot is emptied, the count of filled slots
/// follows, and so does the checksum.
#[verifier::opaque]
pub open spec fn spec_unset_extension_block_data_block(image: Seq<u8>, entry: FileDataBlockListEntry) -> Seq<
    u8,
> {
    let e = entry.extension_block_address as int;
    spec_write_checksum(
        spec_write_u32(
            spec_write_u32(image, e, 24 + 4 * (71 - entry.extension_block_index), 0),
            e,
            8,
            entry.extension_block_index as u32,
        ),
        entry.extension_block_address,
    )
}

/// The image with the link to what came after cleared in block `address`,
/// at byte `offset`, and the checksum of the block brought up to date.
#[verifier::opaque]
pub open spec fn spec_clear_link(image: Seq<u8>, address: usize, offset: int) -> Seq<u8> {
    spec_write_checksum(spec_write_u32(image, address as int, offset, 0), address)
}

/// The image with the last data block of a file given back and taken out
/// of its slot. A list block that held nothing else is given back too, and
/// the list block before it chains to nothing any more.
pub open spec fn spec_pop_release(image: Seq<u8>, pages: Seq<usize>, list: Seq<FileDataBlockListEntry>) -> Seq<
    u8,
> {
    let last = list.last();
    let freed = spec_bitmap_update(image, pages, last.data_block_address as int, true);
    let unset = spec_unset_extension_block_data_block(freed, last);
    if last.extension_block_index == 0 && list.len() > 1 {
        spec_clear_link(
            spec_bitmap_update(unset, pages, last.extension_block_address as int, true),
            list[list.len() - 2].extension_block_address,
            504,
        )
    } else {
        unset
    }
}

/// What taking the last data block from a file leaves on the image. The
/// block is given back and taken out of its slot. A list block that held
/// nothing else is given back too, and the list block before it chains to
/// nothing any more. In the old flavour the data block that is last
/// now, or the header block when none is left, points at nothing any more.
pub open spec fn spec_pop_data_block(
    image: Seq<u8>,
    pages: Seq<usize>,
    header: usize,
    list: Seq<FileDataBlockListEntry>,
    filesystem_type: FilesystemType,
) -> Seq<u8> {
    let released = spec_pop_release(image, pages, list);
    match filesystem_type {
        FilesystemType::FFS => released,
        FilesystemType::OFS => if list.len() > 1 {
            spec_clear_link(released, list[list.len() - 2].data_block_address, 16)
        } else {
            spec_clear_link(released, header, 16)
        },
    }
}

impl File {
    fn clear_link(disk: &mut Disk, address: LBAAddress, offset: usize)
        requires
            old(disk).wf(),
            address < old(disk).spec_block_count(),
            offset + 4 <= 512,
        ensures
            final(disk).wf(),
            final(disk).spec_disk_type() == old(disk).spec_disk_type(),
            final(disk)@ == spec_clear_link(old(disk)@, address, offset as int),
    {
        proof {
            reveal(spec_clear_link);
        }
        let block = Block::new(address);
        let r = block.write_u32(disk, offset, 0);
        let r = block.write_checksum(disk);
    }

    fn unset_extension_block_data_block(disk: &mut Disk, entry: FileDataBlockListEntry)
        requires
            old(disk).wf(),
            entry.extension_block_address < old(disk).spec_block_count(),
            entry.extension_block_index < 72,
        ensures
            final(disk).wf(),
            final(disk).spec_disk_type() == old(disk).spec_disk_type(),
            final(disk)@ == spec_unset_extension_block_data_block(old(disk)@, entry),
    {
        proof {
            reveal(spec_unset_extension_block_data_block);
        }
        let ext_block = Block::new(entry.extension_block_address);
        let r = ext_block.write_block_table_address(disk, BLOCK_TABLE_SIZE - entry.extension_block_index - 1, 0);
        let r = ext_block.write_u32(disk, BLOCK_DATA_LIST_HIGH_SEQ_OFFSET, entry.extension_block_index as u32);
        let r = ext_block.write_checksum(disk);
    }

    /// Gives back the blocks that the last data block of the file takes,
    /// but leaves the list of data blocks as it is.
    fn pop_blocks(&self, fs: &mut AmigaDos)
        requires
            self.wf_blocks(old(fs)),
            self.block_data_list@.len() > 0,
        ensures
            final(fs).wf(),
            final(fs).same_volume(old(fs)),
            final(fs)@ == spec_pop_data_block(
                old(fs)@,
                old(fs).inner.spec_pages(),
                self.header_block_address,
                self.block_data_list@,
                spec_filesystem_type(spec_boot_flags(old(fs)@)),
            ),
    {
        let filesystem_type = match fs.get_filesystem_type() {
            Ok(filesystem_type) => filesystem_type,
            Err(_) => {
                assert(false);
                FilesystemType::OFS
            },
        };
        let len: usize = self.block_data_list.len();
        let last = self.block_data_list[len - 1];
        proof {
            assert(spec_owned(fs@, fs.inner.spec_pages(), last.data_block_address));
            assert(spec_owned(fs@, fs.inner.spec_pages(), last.extension_block_address));
            assert(last.extension_block_index == (len - 1) % 72);
            if len > 1 {
                assert(spec_owned(fs@, fs.inner.spec_pages(), self.block_data_list@[len - 2].data_block_address));
                assert(spec_owned(
                    fs@,
                    fs.inner.spec_pages(),
                    self.block_data_list@[len - 2].extension_block_address,
                ));
            }
            crate::fs::bitmap::lemma_bitmap_update_checksum(
                fs@,
                fs.inner.spec_pages(),
                last.data_block_address as int,
                true,
            );
        }
        let r = fs.inner.free_block(last.data_block_address);
        Self::unset_extension_block_data_block(&mut fs.inner.disk, last);
        if last.extension_block_index == 0 && len > 1 {
            let r = fs.inner.free_block(last.extension_block_address);
            Self::clear_link(
                &mut fs.inner.disk,
                self.block_data_list[len - 2].extension_block_address,
                BLOCK_DATA_LIST_EXTENSION_OFFSET,
            );
        }
        match filesystem_type {
            FilesystemType::OFS => {
                if len > 1 {
                    Self::clear_link(
                        &mut fs.inner.disk,
                        self.block_data_list[len - 2].data_block_address,
                        BLOCK_DATA_OFS_NEXT_DATA_OFFSET,
                    );
                } else {
                    Self::clear_link(&mut fs.inner.disk, self.header_block_address, BLOCK_DATA_OFS_NEXT_DATA_OFFSET);
                }
            },
            FilesystemType::FFS => {},
        }
    }
}

/// Whether the last data block of a file of the old flavour that does not
/// end with a full block holds the count of the bytes of the file that lie
/// in it.
pub open spec fn spec_last_block_counts(
    image: Seq<u8>,
    list: Seq<FileDataBlockListEntry>,
    filesystem_type: FilesystemType,
    block_data_size: usize,
    size: usize,
) -> bool {
    filesystem_type == FilesystemType::OFS && block_data_size > 0 && size % block_data_size > 0 && list.len() > 0
        ==> spec_read_u32(image, list.last().data_block_address as int, 12) == size % block_data_size
}

/// A data block whose count of payload bytes is set holds that count.
pub proof fn lemma_sync_block_count(image: Seq<u8>, data: usize, count: usize)
    requires
        image.len() % 512 == 0,
        data < spec_block_count(image),
        count <= 512,
    ensures
        spec_read_u32(spec_sync_block(image, data, count), data as int, 12) == count,
{
    reveal(spec_sync_block);
    let after = spec_sync_block(image, data, count);
    crate::block::lemma_u32_be_roundtrip(count as u32);
    assert(crate::block::spec_read_bytes(after, data as int, 12, 4) =~= crate::block::spec_u32_to_be_bytes(
        count as u32,
    ));
}

/// A change of the header block of a file leaves the count of payload
/// bytes that its last data block holds as it is.
pub proof fn lemma_last_block_counts_kept(
    before: Seq<u8>,
    after: Seq<u8>,
    pages: Seq<usize>,
    header: usize,
    list: Seq<FileDataBlockListEntry>,
    filesystem_type: FilesystemType,
    block_data_size: usize,
    size: usize,
)
    requires
        before.len() % 512 == 0,
        spec_list_wf(header, list),
        spec_list_owned(before, pages, header, list),
        spec_unchanged_outside(before, after, set![header as int]),
        spec_last_block_counts(before, list, filesystem_type, block_data_size, size),
    ensures
        spec_last_block_counts(after, list, filesystem_type, block_data_size, size),
{
    if list.len() > 0 {
        let data = list[list.len() - 1].data_block_address;
        assert(spec_owned(before, pages, data));
        assert(data != header);
        crate::fs::frame::lemma_untouched_block(before, after, set![header as int], data as int);
        crate::fs::frame::lemma_same_block_reads(before, after, data as int);
    }
}

/// The image once the last data block of a file that ends at `new_size`
/// says how many payload bytes it holds. In the old flavour the last data
/// block of a file that does not end with a full block gets that count,
/// the bytes of the file that lie in it, and its checksum follows. A file
/// that ends with a full block, and any file of the fast flavour, whose
/// data blocks keep no count, leaves the image as it is.
pub open spec fn spec_sync_last_block(
    image: Seq<u8>,
    list: Seq<FileDataBlockListEntry>,
    filesystem_type: FilesystemType,
    block_data_size: usize,
    new_size: usize,
) -> Seq<u8> {
    if filesystem_type == FilesystemType::OFS && block_data_size > 0 && new_size % block_data_size > 0
        && list.len() > 0 {
        spec_sync_block(image, list.last().data_block_address, (new_size % block_data_size) as usize)
    } else {
        image
    }
}

/// The image with the count of payload bytes of the data block `data` set
/// to `count`, and the checksum of the block brought up to date.
#[verifier::opaque]
pub open spec fn spec_sync_block(image: Seq<u8>, data: usize, count: usize) -> Seq<u8> {
    spec_write_checksum(spec_write_u32(image, data as int, 12, count as u32), data)
}

/// What setting the count of payload bytes of a data block changes: that
/// block alone, and nothing of it from byte 24 on.
pub proof fn lemma_sync_block_frame(image: Seq<u8>, data: usize, count: usize)
    requires
        image.len() % 512 == 0,
        data < spec_block_count(image),
    ensures
        spec_unchanged_outside(image, spec_sync_block(image, data, count), set![data as int]),
        forall|o: int|
            24 <= o < 512 ==> #[trigger] spec_block_byte(spec_sync_block(image, data, count), data, o)
                == spec_block_byte(image, data, o),
{
    reveal(spec_sync_block);
    let after = spec_sync_block(image, data, count);
    let touched = set![data as int];
    assert forall|i: int| 0 <= i < image.len() && !touched.contains(i / 512) implies #[trigger] after[i]
        == image[i] by {
        assert(!(data * 512 <= i < data * 512 + 512));
    }
}

/// The smaller of two numbers.
pub open spec fn spec_min(a: int, b: int) -> int {
    if a <= b {
        a
    } else {
        b
    }
}

/// How setting the size of a file that is open for writing ends. To make
/// the file shorter always succeeds; to make it longer succeeds just when
/// the blocks that it needs more are free. Then the file has the new size
/// and the data blocks that the size needs; its content is the start of the
/// old content, or the old content with zeros after it; its position lies
/// in it; and as many blocks less, or more, are free as it has taken, or
/// given back. Else it fails for want of space.
pub open spec fn spec_set_len_outcome(
    before: &File,
    before_fs: &AmigaDos,
    after: &File,
    after_fs: &AmigaDos,
    new_size: usize,
    res: Result<(), Error>,
) -> bool {
    let pages = before_fs.inner.spec_pages();
    let free = spec_free_block_count(before_fs@, pages) as int;
    let len = before.block_data_list@.len() as int;
    let count = crate::fs::file_write::spec_blocks_for(new_size as int, before.block_data_size as int);
    &&& res is Ok <==> new_size <= before.size || crate::fs::file_write::spec_fits(
        free,
        len,
        count,
        spec_block_count(before_fs@) as int,
    )
    &&& match res {
        Ok(_) => {
            &&& after.size == new_size
            &&& after.pos == spec_min(before.pos as int, new_size as int)
            &&& after.block_data_list@.len() == count
            &&& after.content(after_fs) == if new_size <= before.size {
                before.content(before_fs).take(new_size as int)
            } else {
                before.content(before_fs) + Seq::new((new_size - before.size) as nat, |i: int| 0u8)
            }
            &&& spec_free_block_count(after_fs@, pages) == free - (spec_block_usage(count) - spec_block_usage(
                len,
            ))
        },
        Err(e) => e == Error::NoSpaceLeft,
    }
}

impl File {
    /// Takes the last data block from the file, which must have one: the
    /// file ends where that block started.
    pub fn pop_data_block_list_entry(&mut self, fs: &mut AmigaDos)
        requires
            old(self).wf(old(fs)),
            old(self).block_data_list@.len() > 0,
        ensures
            final(fs).wf(),
            final(fs).same_volume(old(fs)),
            final(self).wf(final(fs)),
            final(self).same_handle(old(self)),
            final(self).block_data_list@ == old(self).block_data_list@.drop_last(),
            final(self).size == (old(self).block_data_list@.len() - 1) * old(self).block_data_size,
            final(self).pos == spec_min(old(self).pos as int, final(self).size as int),
            final(self).content(final(fs)) == old(self).content(old(fs)).take(final(self).size as int),
            spec_free_block_count(final(fs)@, old(fs).inner.spec_pages()) == spec_free_block_count(
                old(fs)@,
                old(fs).inner.spec_pages(),
            ) + spec_push_cost(final(self).block_data_list@),
            final(fs)@ == spec_pop_data_block(
                old(fs)@,
                old(fs).inner.spec_pages(),
                old(self).header_block_address,
                old(self).block_data_list@,
                spec_filesystem_type(spec_boot_flags(old(fs)@)),
            ),
            crate::fs::frame::spec_sums_kept(
                old(fs)@,
                final(fs)@,
                old(fs).inner.spec_pages(),
                crate::fs::file_sums::spec_raw_blocks(
                    old(self).block_data_list@,
                    spec_filesystem_type(spec_boot_flags(old(fs)@)),
                ),
            ),
            crate::fs::frame::spec_unchanged_outside(
                old(fs)@,
                final(fs)@,
                crate::fs::file_frame::spec_file_touch(
                    old(fs).inner.spec_pages(),
                    old(self).header_block_address,
                    old(self).block_data_list@,
                ),
            ),
            old(self).listed(old(fs)) ==> final(self).listed(final(fs)),
            crate::fs::file_mirror::spec_identity_kept(old(fs)@, final(fs)@, old(self).header_block_address),
            crate::fs::file_marks::spec_marks_shrunk(
                old(fs)@,
                final(fs)@,
                old(fs).inner.spec_pages(),
                old(self).block_data_list@,
                old(self).block_data_list@.len() - 1,
            ),
    {
        let ghost image = fs@;
        let ghost pages = fs.inner.spec_pages();
        let ghost list = self.block_data_list@;
        let ghost size = self.size;
        proof {
            lemma_pop_data_block(
                image,
                pages,
                self.header_block_address,
                list,
                spec_filesystem_type(spec_boot_flags(image)),
            );
            crate::fs::file_sums::lemma_pop_data_block_sums(
                image,
                pages,
                self.header_block_address,
                list,
                spec_filesystem_type(spec_boot_flags(image)),
            );
            crate::fs::file_mirror::lemma_identity_kept_popped(
                image,
                pages,
                self.header_block_address,
                list,
                spec_filesystem_type(spec_boot_flags(image)),
            );
            crate::fs::file_marks::lemma_marks_popped(
                image,
                pages,
                self.header_block_address,
                list,
                spec_filesystem_type(spec_boot_flags(image)),
            );
            if self.listed(fs) {
                crate::fs::file_mirror::lemma_listed_popped(
                    image,
                    pages,
                    self.header_block_address,
                    list,
                    spec_filesystem_type(spec_boot_flags(image)),
                );
            }
            crate::fs::file_frame::lemma_pop_data_block_frame(
                image,
                pages,
                self.header_block_address,
                list,
                spec_filesystem_type(spec_boot_flags(image)),
            );
        }
        self.pop_blocks(fs);
        let popped = self.block_data_list.pop();
        let block_data_offset: usize = self.size % self.block_data_size;
        proof {
            assert(self.block_data_list@ =~= list.drop_last());
            lemma_popped_size(size as int, list.len() as int, self.block_data_size as int);
        }
        if block_data_offset == 0 {
            self.size = self.size - self.block_data_size;
        } else {
            self.size = self.size - block_data_offset;
        }
        if self.pos > self.size {
            self.pos = self.size;
        }
        proof {
            let shorter = list.drop_last();
            crate::fs::file_lemmas::lemma_same_payloads_same_content(
                image,
                fs@,
                shorter,
                self.block_data_offset,
                self.block_data_size,
                self.size,
            );
            crate::fs::file_lemmas::lemma_content_of_prefix(
                image,
                shorter,
                list,
                self.block_data_offset,
                self.block_data_size,
                self.size,
            );
            assert(spec_content(image, list, self.block_data_offset, self.block_data_size, size).take(
                self.size as int,
            ) =~= spec_content(image, list, self.block_data_offset, self.block_data_size, self.size));
        }
    }

    /// Sets the count of payload bytes that a data block of the old
    /// flavour keeps of itself.
    fn sync_block(disk: &mut Disk, data: LBAAddress, block_size: usize)
        requires
            old(disk).wf(),
            data < old(disk).spec_block_count(),
            block_size <= 512,
        ensures
            final(disk).wf(),
            final(disk).spec_disk_type() == old(disk).spec_disk_type(),
            final(disk)@ == spec_sync_block(old(disk)@, data, block_size),
    {
        proof {
            reveal(spec_sync_block);
        }
        let block = Block::new(data);
        let r = block.write_u32(disk, BLOCK_DATA_OFS_SIZE_OFFSET, block_size as u32);
        let r = block.write_checksum(disk);
    }

    /// Sets the count of payload bytes of the last data block of a file of
    /// the old flavour that is about to end at `new_size`, if that
    /// block is not full.
    #[verifier::spinoff_prover]
    fn sync_last_block(&self, fs: &mut AmigaDos, new_size: usize)
        requires
            self.wf(old(fs)),
            new_size <= self.size,
            self.block_data_list@.len() == crate::fs::file_write::spec_blocks_for(
                new_size as int,
                self.block_data_size as int,
            ),
        ensures
            final(fs).wf(),
            final(fs).same_volume(old(fs)),
            self.wf(final(fs)),
            self.content(final(fs)) == self.content(old(fs)),
            spec_free_block_count(final(fs)@, old(fs).inner.spec_pages()) == spec_free_block_count(
                old(fs)@,
                old(fs).inner.spec_pages(),
            ),
            crate::fs::frame::spec_sums_kept(
                old(fs)@,
                final(fs)@,
                old(fs).inner.spec_pages(),
                crate::fs::file_sums::spec_raw_blocks(
                    self.block_data_list@,
                    spec_filesystem_type(spec_boot_flags(old(fs)@)),
                ),
            ),
            crate::fs::frame::spec_unchanged_outside(
                old(fs)@,
                final(fs)@,
                crate::fs::file_frame::spec_file_touch(
                    old(fs).inner.spec_pages(),
                    self.header_block_address,
                    self.block_data_list@,
                ),
            ),
            self.listed(old(fs)) ==> self.listed(final(fs)),
            crate::fs::file_mirror::spec_identity_kept(old(fs)@, final(fs)@, self.header_block_address),
            spec_read_u32(final(fs)@, self.header_block_address as int, 324) == spec_read_u32(
                old(fs)@,
                self.header_block_address as int,
                324,
            ),
            final(fs)@ == spec_sync_last_block(
                old(fs)@,
                self.block_data_list@,
                spec_filesystem_type(spec_boot_flags(old(fs)@)),
                self.block_data_size,
                new_size,
            ),
            spec_last_block_counts(
                final(fs)@,
                self.block_data_list@,
                spec_filesystem_type(spec_boot_flags(old(fs)@)),
                self.block_data_size,
                new_size,
            ),
    {
        let filesystem_type = match fs.get_filesystem_type() {
            Ok(filesystem_type) => filesystem_type,
            Err(_) => {
                assert(false);
                FilesystemType::OFS
            },
        };
        let block_size: usize = new_size % self.block_data_size;
        let ghost image = fs@;
        let ghost pages = fs.inner.spec_pages();
        let ghost raw = crate::fs::file_sums::spec_raw_blocks(self.block_data_list@, filesystem_type);
        proof {
            crate::fs::frame::lemma_sums_kept_refl(image, pages, raw);
            crate::fs::file_frame::lemma_file_touch_refl(image, pages, self.header_block_address, self.block_data_list@);
            crate::fs::file_mirror::lemma_identity_kept_refl(image, self.header_block_address);
        }
        match filesystem_type {
            FilesystemType::OFS => {
                if block_size > 0 {
                    proof {
                        lemma_shrunk_size(
                            new_size as int,
                            self.block_data_list@.len() as int,
                            self.block_data_size as int,
                        );
                    }
                    let last = self.block_data_list[self.block_data_list.len() - 1];
                    proof {
                        lemma_sync_last_block(
                            image,
                            pages,
                            self.header_block_address,
                            self.block_data_list@,
                            self.block_data_offset,
                            self.block_data_size,
                            self.size,
                            block_size,
                            raw,
                        );
                    }
                    proof {
                        assert(spec_owned(image, pages, last.data_block_address));
                        lemma_sync_block_count(image, last.data_block_address, block_size);
                        lemma_sync_block_frame(image, last.data_block_address, block_size);
                        assert(spec_owned(image, pages, self.header_block_address));
                        assert(last.data_block_address != self.header_block_address);
                        crate::fs::file_mirror::lemma_identity_kept_outside(
                            image,
                            image,
                            spec_sync_block(image, last.data_block_address, block_size),
                            self.header_block_address,
                            last.data_block_address,
                        );
                        if self.listed(fs) {
                            crate::fs::file_mirror::lemma_listed_block_synced(
                                image,
                                pages,
                                self.header_block_address,
                                self.block_data_list@,
                                block_size,
                            );
                        }
                    }
                    Self::sync_block(&mut fs.inner.disk, last.data_block_address, block_size);
                }
            },
            FilesystemType::FFS => {},
        }
    }

    /// Makes the file shorter: it keeps the start of its content, and gives
    /// back the data blocks that it needs no more.
    #[verifier::spinoff_prover]
    #[verifier::rlimit(100)]
    fn shrink(&mut self, fs: &mut AmigaDos, new_size: usize)
        requires
            old(self).wf(old(fs)),
            new_size < old(self).size,
        ensures
            final(fs).wf(),
            final(fs).same_volume(old(fs)),
            final(self).wf(final(fs)),
            final(self).same_handle(old(self)),
            final(self).size == new_size,
            final(self).pos == spec_min(old(self).pos as int, new_size as int),
            final(self).block_data_list@.len() == crate::fs::file_write::spec_blocks_for(
                new_size as int,
                old(self).block_data_size as int,
            ),
            final(self).content(final(fs)) == old(self).content(old(fs)).take(new_size as int),
            spec_free_block_count(final(fs)@, old(fs).inner.spec_pages()) == spec_free_block_count(
                old(fs)@,
                old(fs).inner.spec_pages(),
            ) + (spec_block_usage(old(self).block_data_list@.len() as int) - spec_block_usage(
                final(self).block_data_list@.len() as int,
            )),
            crate::fs::frame::spec_sums_kept(
                old(fs)@,
                final(fs)@,
                old(fs).inner.spec_pages(),
                crate::fs::file_sums::spec_raw_blocks(
                    old(self).block_data_list@,
                    spec_filesystem_type(spec_boot_flags(old(fs)@)),
                ),
            ),
            crate::fs::frame::spec_unchanged_outside(
                old(fs)@,
                final(fs)@,
                crate::fs::file_frame::spec_file_touch(
                    old(fs).inner.spec_pages(),
                    old(self).header_block_address,
                    old(self).block_data_list@,
                ),
            ),
            old(self).listed(old(fs)) ==> final(self).listed(final(fs)),
            crate::fs::file_mirror::spec_identity_kept(old(fs)@, final(fs)@, old(self).header_block_address),
            crate::fs::file_marks::spec_marks_shrunk(
                old(fs)@,
                final(fs)@,
                old(fs).inner.spec_pages(),
                old(self).block_data_list@,
                final(self).block_data_list@.len() as int,
            ),
            final(self).block_data_list@.len() <= old(self).block_data_list@.len(),
            spec_last_block_counts(
                final(fs)@,
                final(self).block_data_list@,
                spec_filesystem_type(spec_boot_flags(old(fs)@)),
                old(self).block_data_size,
                new_size,
            ),
            forall|i: int|
                0 <= i < final(self).block_data_list@.len() ==> final(self).block_data_list@[i] == old(self).block_data_list@[i],
    {
        let target: usize = if new_size == 0 {
            0
        } else {
            (new_size - 1) / self.block_data_size + 1
        };
        let ghost content = self.content(fs);
        let ghost pages = fs.inner.spec_pages();
        let ghost free = spec_free_block_count(fs@, pages) as int;
        let ghost len = self.block_data_list@.len() as int;
        let ghost flavour = spec_filesystem_type(spec_boot_flags(fs@));
        let ghost raw = crate::fs::file_sums::spec_raw_blocks(self.block_data_list@, flavour);
        proof {
            lemma_shrink_target(new_size as int, self.size as int, len, self.block_data_size as int);
            assert(content.take(self.size as int) =~= content);
            crate::fs::frame::lemma_sums_kept_refl(fs@, pages, raw);
            crate::fs::file_frame::lemma_file_touch_refl(fs@, pages, self.header_block_address, self.block_data_list@);
            crate::fs::file_marks::lemma_marks_shrunk_refl(fs@, pages, self.block_data_list@);
            crate::fs::file_mirror::lemma_identity_kept_refl(fs@, self.header_block_address);
        }
        while self.block_data_list.len() > target
            invariant
                fs.wf(),
                old(fs).wf(),
                fs.same_volume(old(fs)),
                pages == fs.inner.spec_pages(),
                self.wf(fs),
                self.same_handle(old(self)),
                target == crate::fs::file_write::spec_blocks_for(new_size as int, self.block_data_size as int),
                target <= self.block_data_list@.len() <= len,
                len == old(self).block_data_list@.len(),
                new_size <= self.size <= old(self).size,
                self.block_data_list@.len() < len ==> self.size == self.block_data_list@.len()
                    * self.block_data_size,
                self.pos == spec_min(old(self).pos as int, self.size as int),
                content.len() == old(self).size,
                self.content(fs) == content.take(self.size as int),
                spec_free_block_count(fs@, pages) == free + (spec_block_usage(len) - spec_block_usage(
                    self.block_data_list@.len() as int,
                )),
                flavour == spec_filesystem_type(spec_boot_flags(fs@)),
                raw == crate::fs::file_sums::spec_raw_blocks(old(self).block_data_list@, flavour),
                crate::fs::frame::spec_sums_kept(old(fs)@, fs@, pages, raw),
                spec_unchanged_outside(
                    old(fs)@,
                    fs@,
                    crate::fs::file_frame::spec_file_touch(
                        pages,
                        old(self).header_block_address,
                        old(self).block_data_list@,
                    ),
                ),
                old(self).listed(old(fs)) ==> self.listed(fs),
                crate::fs::file_mirror::spec_identity_kept(old(fs)@, fs@, self.header_block_address),
                crate::fs::file_marks::spec_marks_shrunk(
                    old(fs)@,
                    fs@,
                    pages,
                    old(self).block_data_list@,
                    self.block_data_list@.len() as int,
                ),
                forall|i: int|
                    0 <= i < self.block_data_list@.len() ==> self.block_data_list@[i] == old(self).block_data_list@[i],
            decreases self.block_data_list@.len(),
        {
            let ghost listed = self.block_data_list@;
            let ghost size = self.size;
            let ghost step = fs@;
            proof {
                crate::fs::file_write::lemma_block_usage_step(self.header_block_address, listed.drop_last());
                crate::fs::file_lemmas::lemma_list_wf_pop(self.header_block_address, listed);
                lemma_shrink_step(new_size as int, listed.len() as int, self.block_data_size as int);
                crate::disk::Disk::lemma_len(&fs.inner.disk);
            }
            self.pop_data_block_list_entry(fs);
            proof {
                assert(content.take(size as int).take(self.size as int) =~= content.take(self.size as int));
                crate::fs::file_sums::lemma_raw_blocks_of_prefix(listed, old(self).block_data_list@, flavour);
                crate::fs::file_frame::lemma_file_touch_step_back(
                    old(fs)@,
                    step,
                    fs@,
                    pages,
                    self.header_block_address,
                    listed,
                    old(self).block_data_list@,
                );
                crate::fs::file_mirror::lemma_identity_kept_trans(
                    old(fs)@,
                    step,
                    fs@,
                    self.header_block_address,
                );
                crate::fs::file_marks::lemma_marks_shrunk_trans(
                    old(fs)@,
                    step,
                    fs@,
                    pages,
                    old(self).block_data_list@,
                    listed,
                    listed.len() - 1,
                );
                crate::fs::frame::lemma_sums_kept_trans(
                    old(fs)@,
                    step,
                    fs@,
                    pages,
                    raw,
                    crate::fs::file_sums::spec_raw_blocks(listed, flavour),
                    raw,
                );
            }
        }
        let ghost popped = fs@;
        let ghost size = self.size;
        proof {
            crate::fs::file_sums::lemma_raw_blocks_of_prefix(
                self.block_data_list@,
                old(self).block_data_list@,
                flavour,
            );
        }
        proof {
            crate::fs::file_marks::lemma_marks_block_synced(
                old(fs)@,
                popped,
                pages,
                self.header_block_address,
                self.block_data_list@,
                old(self).block_data_list@,
                flavour,
                self.block_data_size,
                new_size,
                self.block_data_list@.len() as int,
            );
        }
        self.sync_last_block(fs, new_size);
        proof {
            crate::fs::file_mirror::lemma_identity_kept_trans(old(fs)@, popped, fs@, self.header_block_address);
        }
        self.size = new_size;
        if self.pos > self.size {
            self.pos = self.size;
        }
        proof {
            crate::fs::frame::lemma_sums_kept_trans(
                old(fs)@,
                popped,
                fs@,
                pages,
                raw,
                crate::fs::file_sums::spec_raw_blocks(self.block_data_list@, flavour),
                raw,
            );
            crate::fs::file_frame::lemma_file_touch_step_back(
                old(fs)@,
                popped,
                fs@,
                pages,
                self.header_block_address,
                self.block_data_list@,
                old(self).block_data_list@,
            );
            assert(spec_content(
                fs@,
                self.block_data_list@,
                self.block_data_offset,
                self.block_data_size,
                size,
            ).take(new_size as int) =~= spec_content(
                fs@,
                self.block_data_list@,
                self.block_data_offset,
                self.block_data_size,
                new_size,
            ));
            assert(content.take(size as int).take(new_size as int) =~= content.take(new_size as int));
            lemma_shrunk_size(new_size as int, target as int, self.block_data_size as int);
        }
    }
}

impl File {
    /// Makes the file longer, which must be open for writing: zeros follow
    /// its content up to the new size, which must be larger than the old
    /// one. The header block of the file is changed last at `date_time`.
    pub fn grow_at(&mut self, fs: &mut AmigaDos, new_size: usize, date_time: u64) -> (res: Result<(), Error>)
        requires
            old(self).wf(old(fs)),
            new_size > old(self).size,
            spec_test_file_mode(FileMode::Write, old(self).mode),
        ensures
            final(fs).wf(),
            final(fs).same_volume(old(fs)),
            final(self).wf(final(fs)),
            final(self).same_handle(old(self)),
            spec_set_len_outcome(old(self), old(fs), final(self), final(fs), new_size, res),
            crate::fs::frame::spec_sums_kept(
                old(fs)@,
                final(fs)@,
                old(fs).inner.spec_pages(),
                crate::fs::file_sums::spec_raw_blocks(
                    old(self).block_data_list@,
                    spec_filesystem_type(spec_boot_flags(old(fs)@)),
                ) + crate::fs::file_sums::spec_raw_blocks(
                    final(self).block_data_list@,
                    spec_filesystem_type(spec_boot_flags(old(fs)@)),
                ),
            ),
            crate::fs::frame::spec_unchanged_outside(
                old(fs)@,
                final(fs)@,
                crate::fs::file_frame::spec_file_touch(
                    old(fs).inner.spec_pages(),
                    old(self).header_block_address,
                    final(self).block_data_list@,
                ),
            ),
            old(self).listed(old(fs)) ==> final(self).listed(final(fs)),
            crate::fs::file_mirror::spec_identity_kept(old(fs)@, final(fs)@, old(self).header_block_address),
            crate::fs::file_marks::spec_marks_grown(
                old(fs)@,
                final(fs)@,
                old(fs).inner.spec_pages(),
                final(self).block_data_list@,
                old(self).block_data_list@.len() as int,
            ),
            old(self).listed(old(fs)) && res is Ok ==> final(self).stored(final(fs)),
            res is Ok ==> crate::fs::file_write::spec_header_synced(
                final(fs)@,
                final(self).header_block_address,
                final(self).size,
            ),
            crate::fs::file_write::spec_same_start(old(self).block_data_list@, final(self).block_data_list@),
    {
        let block_count: usize = fs.inner.disk.block_count();
        let ghost flavour = spec_filesystem_type(spec_boot_flags(fs@));
        let ghost listed = self.block_data_list@;
        if new_size > block_count * 512 {
            proof {
                lemma_too_large(new_size as int, block_count as int, self.block_data_size as int);
                crate::fs::file_marks::lemma_marks_grown_refl(fs@, fs.inner.spec_pages(), listed);
                crate::fs::file_mirror::lemma_identity_kept_refl(fs@, self.header_block_address);
                crate::fs::file_frame::lemma_file_touch_refl(
                    fs@,
                    fs.inner.spec_pages(),
                    self.header_block_address,
                    listed,
                );
                crate::fs::frame::lemma_sums_kept_refl(
                    fs@,
                    fs.inner.spec_pages(),
                    crate::fs::file_sums::spec_raw_blocks(listed, flavour)
                        + crate::fs::file_sums::spec_raw_blocks(listed, flavour),
                );
            }
            return Err(Error::NoSpaceLeft);
        }
        let more: usize = new_size - self.size;
        let mut zeros: Vec<u8> = Vec::new();
        let mut i: usize = 0;
        while i < more
            invariant
                i <= more,
                zeros@ == Seq::new(i as nat, |k: int| 0u8),
            decreases more - i,
        {
            zeros.push(0u8);
            assert(zeros@ =~= Seq::new((i + 1) as nat, |k: int| 0u8));
            i = i + 1;
        }
        let saved: usize = self.pos;
        let ghost content = self.content(fs);
        self.pos = self.size;
        proof {
            assert(crate::fs::file_write::spec_overwrite(content, self.size as int, zeros@) =~= content + zeros@);
        }
        let ghost image = fs@;
        let r = self.write_at(fs, zeros.as_slice(), date_time);
        proof {
            crate::fs::file_sums::lemma_sums_kept_more_raw(
                image,
                fs@,
                fs.inner.spec_pages(),
                crate::fs::file_sums::spec_raw_blocks(self.block_data_list@, flavour),
                crate::fs::file_sums::spec_raw_blocks(listed, flavour) + crate::fs::file_sums::spec_raw_blocks(
                    self.block_data_list@,
                    flavour,
                ),
            );
        }
        match r {
            Ok(_) => {
                self.pos = saved;
                Ok(())
            },
            Err(e) => {
                self.pos = saved;
                Err(e)
            },
        }
    }

    /// Makes the file longer; the header block of the file is changed last
    /// at the time of the system clock.
    pub fn grow(&mut self, fs: &mut AmigaDos, new_size: usize) -> (res: Result<(), Error>)
        requires
            old(self).wf(old(fs)),
            new_size > old(self).size,
            spec_test_file_mode(FileMode::Write, old(self).mode),
        ensures
            final(fs).wf(),
            final(fs).same_volume(old(fs)),
            final(self).wf(final(fs)),
            final(self).same_handle(old(self)),
            spec_set_len_outcome(old(self), old(fs), final(self), final(fs), new_size, res),
            crate::fs::frame::spec_sums_kept(
                old(fs)@,
                final(fs)@,
                old(fs).inner.spec_pages(),
                crate::fs::file_sums::spec_raw_blocks(
                    old(self).block_data_list@,
                    spec_filesystem_type(spec_boot_flags(old(fs)@)),
                ) + crate::fs::file_sums::spec_raw_blocks(
                    final(self).block_data_list@,
                    spec_filesystem_type(spec_boot_flags(old(fs)@)),
                ),
            ),
            crate::fs::frame::spec_unchanged_outside(
                old(fs)@,
                final(fs)@,
                crate::fs::file_frame::spec_file_touch(
                    old(fs).inner.spec_pages(),
                    old(self).header_block_address,
                    final(self).block_data_list@,
                ),
            ),
            old(self).listed(old(fs)) ==> final(self).listed(final(fs)),
            crate::fs::file_mirror::spec_identity_kept(old(fs)@, final(fs)@, old(self).header_block_address),
            crate::fs::file_marks::spec_marks_grown(
                old(fs)@,
                final(fs)@,
                old(fs).inner.spec_pages(),
                final(self).block_data_list@,
                old(self).block_data_list@.len() as int,
            ),
            old(self).listed(old(fs)) && res is Ok ==> final(self).stored(final(fs)),
            res is Ok ==> crate::fs::file_write::spec_header_synced(
                final(fs)@,
                final(self).header_block_address,
                final(self).size,
            ),
            crate::fs::file_write::spec_same_start(old(self).block_data_list@, final(self).block_data_list@),
    {
        let date_time: u64 = crate::fs::datetime::system_time_now();
        self.grow_at(fs, new_size, date_time)
    }

    /// Sets the size of the file. A file made shorter keeps the start of
    /// its content; a file made longer gets zeros after its content. The
    /// header block of the file is changed last at `date_time`.
    pub fn set_len_at(&mut self, fs: &mut AmigaDos, size: usize, date_time: u64) -> (res: Result<(), Error>)
        requires
            old(self).wf(old(fs)),
        ensures
            final(fs).wf(),
            final(fs).same_volume(old(fs)),
            final(self).wf(final(fs)),
            final(self).same_handle(old(self)),
            !spec_test_file_mode(FileMode::Write, old(self).mode) ==> res == Err::<(), Error>(
                Error::BadFileDescriptor,
            ) && final(fs)@ == old(fs)@ && final(self).same_file(old(self)) && final(self).pos == old(self).pos,
            spec_test_file_mode(FileMode::Write, old(self).mode) ==> spec_set_len_outcome(
                old(self),
                old(fs),
                final(self),
                final(fs),
                size,
                res,
            ),
            spec_test_file_mode(FileMode::Write, old(self).mode) && size == old(self).size ==> final(fs)@
                == crate::fs::file_write::spec_sync_all(
                old(fs)@,
                old(self).header_block_address,
                old(self).mode,
                size,
                date_time,
            ),
            crate::fs::frame::spec_sums_kept(
                old(fs)@,
                final(fs)@,
                old(fs).inner.spec_pages(),
                crate::fs::file_sums::spec_raw_blocks(
                    old(self).block_data_list@,
                    spec_filesystem_type(spec_boot_flags(old(fs)@)),
                ) + crate::fs::file_sums::spec_raw_blocks(
                    final(self).block_data_list@,
                    spec_filesystem_type(spec_boot_flags(old(fs)@)),
                ),
            ),
            crate::fs::frame::spec_unchanged_outside(
                old(fs)@,
                final(fs)@,
                crate::fs::file_frame::spec_file_touch(
                    old(fs).inner.spec_pages(),
                    old(self).header_block_address,
                    old(self).block_data_list@,
                ) + crate::fs::file_frame::spec_file_touch(
                    old(fs).inner.spec_pages(),
                    old(self).header_block_address,
                    final(self).block_data_list@,
                ),
            ),
            old(self).listed(old(fs)) ==> final(self).listed(final(fs)),
            crate::fs::file_mirror::spec_identity_kept(old(fs)@, final(fs)@, old(self).header_block_address),
            size >= old(self).size ==> crate::fs::file_marks::spec_marks_grown(
                old(fs)@,
                final(fs)@,
                old(fs).inner.spec_pages(),
                final(self).block_data_list@,
                old(self).block_data_list@.len() as int,
            ),
            size <= old(self).size ==> crate::fs::file_marks::spec_marks_shrunk(
                old(fs)@,
                final(fs)@,
                old(fs).inner.spec_pages(),
                old(self).block_data_list@,
                final(self).block_data_list@.len() as int,
            ),
            old(self).listed(old(fs)) && res is Ok ==> final(self).stored(final(fs)),
            res is Ok ==> crate::fs::file_write::spec_header_synced(
                final(fs)@,
                final(self).header_block_address,
                final(self).size,
            ),
            crate::fs::file_write::spec_same_start(old(self).block_data_list@, final(self).block_data_list@),
            size == old(self).size ==> final(self).block_data_list@ == old(self).block_data_list@,
            res is Ok && size < old(self).size ==> spec_last_block_counts(
                final(fs)@,
                final(self).block_data_list@,
                spec_filesystem_type(spec_boot_flags(old(fs)@)),
                old(self).block_data_size,
                size,
            ),
    {
        let ghost flavour = spec_filesystem_type(spec_boot_flags(fs@));
        let ghost listed = self.block_data_list@;
        let ghost both = crate::fs::file_sums::spec_raw_blocks(listed, flavour);
        let ghost image = fs@;
        if !test_file_mode(FileMode::Write, self.mode) {
            proof {
                crate::fs::frame::lemma_sums_kept_refl(fs@, fs.inner.spec_pages(), both + both);
                crate::fs::file_marks::lemma_marks_grown_refl(fs@, fs.inner.spec_pages(), listed);
                crate::fs::file_marks::lemma_marks_shrunk_refl(fs@, fs.inner.spec_pages(), listed);
                crate::fs::file_mirror::lemma_identity_kept_refl(fs@, self.header_block_address);
                crate::fs::file_frame::lemma_file_touch_refl(
                    fs@,
                    fs.inner.spec_pages(),
                    self.header_block_address,
                    listed,
                );
                crate::fs::file_frame::lemma_file_touch_either(
                    fs@,
                    fs@,
                    fs.inner.spec_pages(),
                    self.header_block_address,
                    listed,
                    listed,
                );
            }
            return Err(Error::BadFileDescriptor);
        }
        if size > self.size {
            let r = self.grow_at(fs, size, date_time);
            proof {
                crate::fs::file_frame::lemma_file_touch_either(
                    image,
                    fs@,
                    fs.inner.spec_pages(),
                    self.header_block_address,
                    self.block_data_list@,
                    listed,
                );
            }
            return r;
        }
        let ghost content = self.content(fs);
        let ghost pages = fs.inner.spec_pages();
        if size < self.size {
            self.shrink(fs, size);
        } else {
            proof {
                assert(content.take(size as int) =~= content);
                lemma_shrunk_same(size as int, self.block_data_list@.len() as int, self.block_data_size as int);
                crate::fs::frame::lemma_sums_kept_refl(fs@, pages, both);
                crate::fs::file_frame::lemma_file_touch_refl(fs@, pages, self.header_block_address, listed);
                crate::fs::file_marks::lemma_marks_shrunk_refl(fs@, pages, listed);
                crate::fs::file_marks::lemma_marks_grown_refl(fs@, pages, listed);
                crate::fs::file_mirror::lemma_identity_kept_refl(fs@, self.header_block_address);
            }
        }
        proof {
            let shrunk = fs@;
            let synced = crate::fs::file_write::spec_sync_all(
                shrunk,
                self.header_block_address,
                self.mode,
                self.size,
                date_time,
            );
            crate::fs::file_write::lemma_sync_all(shrunk, self.header_block_address, self.mode, self.size, date_time);
            assert(self.size <= 3520 * 512) by (nonlinear_arith)
                requires
                    self.size <= self.block_data_list@.len() * self.block_data_size,
                    self.block_data_list@.len() <= 3520,
                    self.block_data_size <= 512,
            ;
            if size < old(self).size {
                lemma_last_block_counts_kept(
                    shrunk,
                    synced,
                    pages,
                    self.header_block_address,
                    self.block_data_list@,
                    flavour,
                    self.block_data_size,
                    size,
                );
            }
            crate::fs::file_mirror::lemma_identity_kept_synced(
                image,
                shrunk,
                self.header_block_address,
                self.mode,
                self.size,
                date_time,
            );
            crate::fs::file_marks::lemma_marks_synced(
                image,
                shrunk,
                pages,
                self.header_block_address,
                self.block_data_list@,
                listed,
                self.mode,
                self.size,
                date_time,
                self.block_data_list@.len() as int,
            );
            crate::fs::file_write::lemma_header_synced(
                shrunk,
                self.header_block_address,
                self.mode,
                self.size,
                date_time,
            );
            if self.listed(fs) {
                crate::fs::file_mirror::lemma_stored_synced(
                    shrunk,
                    pages,
                    self.header_block_address,
                    self.block_data_list@,
                    self.mode,
                    self.size,
                    date_time,
                );
            }
            crate::fs::file_frame::lemma_file_touch_header(
                image,
                shrunk,
                synced,
                pages,
                self.header_block_address,
                listed,
            );
            crate::fs::file_frame::lemma_file_touch_either(
                image,
                synced,
                pages,
                self.header_block_address,
                listed,
                self.block_data_list@,
            );
            assert(spec_owned(shrunk, pages, self.header_block_address));
            crate::fs::file_sums::lemma_owned_is_plain(shrunk, pages, self.header_block_address);
            crate::fs::file_sums::lemma_sync_all_sums(
                shrunk,
                pages,
                self.header_block_address,
                self.mode,
                self.size,
                date_time,
                both,
            );
            crate::fs::frame::lemma_sums_kept_trans(
                image,
                shrunk,
                crate::fs::file_write::spec_sync_all(
                    shrunk,
                    self.header_block_address,
                    self.mode,
                    self.size,
                    date_time,
                ),
                pages,
                both,
                both,
                both + crate::fs::file_sums::spec_raw_blocks(self.block_data_list@, flavour),
            );
        }
        proof {
            crate::fs::file_write::lemma_synced(
                fs@,
                pages,
                self.header_block_address,
                self.block_data_list@,
                self.block_data_offset,
                self.block_data_size,
                self.mode,
                self.size,
                date_time,
            );
        }
        let r = self.sync_all(fs, date_time);
        Ok(())
    }

    /// Sets the size of the file; the header block of the file is changed
    /// last at the time of the system clock.
    pub fn set_len(&mut self, fs: &mut AmigaDos, size: usize) -> (res: Result<(), Error>)
        requires
            old(self).wf(old(fs)),
        ensures
            final(fs).wf(),
            final(fs).same_volume(old(fs)),
            final(self).wf(final(fs)),
            final(self).same_handle(old(self)),
            !spec_test_file_mode(FileMode::Write, old(self).mode) ==> res == Err::<(), Error>(
                Error::BadFileDescriptor,
            ) && final(fs)@ == old(fs)@ && final(self).same_file(old(self)) && final(self).pos == old(self).pos,
            spec_test_file_mode(FileMode::Write, old(self).mode) ==> spec_set_len_outcome(
                old(self),
                old(fs),
                final(self),
                final(fs),
                size,
                res,
            ),
            spec_test_file_mode(FileMode::Write, old(self).mode) && size == old(self).size ==> exists|
                date_time: u64,
            |
                final(fs)@ == crate::fs::file_write::spec_sync_all(
                    old(fs)@,
                    old(self).header_block_address,
                    old(self).mode,
                    size,
                    date_time,
                ),
            crate::fs::frame::spec_sums_kept(
                old(fs)@,
                final(fs)@,
                old(fs).inner.spec_pages(),
                crate::fs::file_sums::spec_raw_blocks(
                    old(self).block_data_list@,
                    spec_filesystem_type(spec_boot_flags(old(fs)@)),
                ) + crate::fs::file_sums::spec_raw_blocks(
                    final(self).block_data_list@,
                    spec_filesystem_type(spec_boot_flags(old(fs)@)),
                ),
            ),
            crate::fs::frame::spec_unchanged_outside(
                old(fs)@,
                final(fs)@,
                crate::fs::file_frame::spec_file_touch(
                    old(fs).inner.spec_pages(),
                    old(self).header_block_address,
                    old(self).block_data_list@,
                ) + crate::fs::file_frame::spec_file_touch(
                    old(fs).inner.spec_pages(),
                    old(self).header_block_address,
                    final(self).block_data_list@,
                ),
            ),
            old(self).listed(old(fs)) ==> final(self).listed(final(fs)),
            crate::fs::file_mirror::spec_identity_kept(old(fs)@, final(fs)@, old(self).header_block_address),
            size >= old(self).size ==> crate::fs::file_marks::spec_marks_grown(
                old(fs)@,
                final(fs)@,
                old(fs).inner.spec_pages(),
                final(self).block_data_list@,
                old(self).block_data_list@.len() as int,
            ),
            size <= old(self).size ==> crate::fs::file_marks::spec_marks_shrunk(
                old(fs)@,
                final(fs)@,
                old(fs).inner.spec_pages(),
                old(self).block_data_list@,
                final(self).block_data_list@.len() as int,
            ),
            old(self).listed(old(fs)) && res is Ok ==> final(self).stored(final(fs)),
            res is Ok ==> crate::fs::file_write::spec_header_synced(
                final(fs)@,
                final(self).header_block_address,
                final(self).size,
            ),
            crate::fs::file_write::spec_same_start(old(self).block_data_list@, final(self).block_data_list@),
            size == old(self).size ==> final(self).block_data_list@ == old(self).block_data_list@,
            res is Ok && size < old(self).size ==> spec_last_block_counts(
                final(fs)@,
                final(self).block_data_list@,
                spec_filesystem_type(spec_boot_flags(old(fs)@)),
                old(self).block_data_size,
                size,
            ),
    {
        let date_time: u64 = crate::fs::datetime::system_time_now();
        self.set_len_at(fs, size, date_time)
    }
}

/// A size that the whole image could not hold needs more data blocks than
/// the image has blocks.
proof fn lemma_too_large(new_size: int, block_count: int, block_data_size: int)
    requires
        new_size > block_count * 512,
        0 < block_data_size <= 512,
        block_count >= 0,
    ensures
        crate::fs::file_write::spec_blocks_for(new_size, block_data_size) > block_count,
{
    let count = crate::fs::file_write::spec_blocks_for(new_size, block_data_size);
    assert(count > block_count) by (nonlinear_arith)
        requires
            count == (new_size + block_data_size - 1) / block_data_size,
            new_size > block_count * 512,
            0 < block_data_size <= 512,
            block_count >= 0,
    ;
}

/// A file whose size stays as it is has the data blocks that the size
/// needs.
proof fn lemma_shrunk_same(size: int, listed: int, block_data_size: int)
    requires
        0 <= size <= listed * block_data_size,
        listed > 0 ==> size > (listed - 1) * block_data_size,
        listed >= 0,
        block_data_size > 0,
    ensures
        listed == crate::fs::file_write::spec_blocks_for(size, block_data_size),
{
    assert(listed == (size + block_data_size - 1) / block_data_size) by (nonlinear_arith)
        requires
            0 <= size <= listed * block_data_size,
            listed > 0 ==> size > (listed - 1) * block_data_size,
            listed >= 0,
            block_data_size > 0,
    ;
}

/// What setting the count of payload bytes of the last data block of a file
/// leaves alone: the standing of the blocks of the file, the count of free
/// blocks, the boot block, the content of the file, and the checksums.
proof fn lemma_sync_last_block(
    image: Seq<u8>,
    pages: Seq<usize>,
    header: usize,
    list: Seq<FileDataBlockListEntry>,
    block_data_offset: usize,
    block_data_size: usize,
    size: usize,
    count: usize,
    raw: Set<int>,
)
    requires
        image.len() == 1760 * 512 || image.len() == 3520 * 512,
        crate::fs::amiga_dos::spec_pages_valid(pages, spec_block_count(image)),
        spec_list_wf(header, list),
        spec_list_owned(image, pages, header, list),
        list.len() > 0,
        block_data_offset == 24,
        block_data_size == 488,
        size <= list.len() * block_data_size,
    ensures
        ({
            let after = spec_sync_block(image, list.last().data_block_address, count);
            &&& after.len() == image.len()
            &&& spec_list_owned(after, pages, header, list)
            &&& spec_free_block_count(after, pages) == spec_free_block_count(image, pages)
            &&& spec_boot_block_valid(after) == spec_boot_block_valid(image)
            &&& spec_boot_flags(after) == spec_boot_flags(image)
            &&& spec_content(after, list, block_data_offset, block_data_size, size) == spec_content(
                image,
                list,
                block_data_offset,
                block_data_size,
                size,
            )
            &&& crate::fs::frame::spec_sums_kept(image, after, pages, raw)
            &&& spec_unchanged_outside(image, after, crate::fs::file_frame::spec_file_touch(pages, header, list))
            &&& spec_read_u32(after, header as int, 324) == spec_read_u32(image, header as int, 324)
        }),
{
    let last = list[list.len() - 1];
    let after = spec_sync_block(image, last.data_block_address, count);
    assert(spec_owned(image, pages, last.data_block_address));
    crate::fs::file_sums::lemma_owned_is_plain(image, pages, last.data_block_address);
    lemma_sync_block_frame(image, last.data_block_address, count);
    lemma_plain_block_written(image, after, pages, header, list, block_data_offset, last.data_block_address);
    crate::fs::file_lemmas::lemma_same_payloads_same_content(
        image,
        after,
        list,
        block_data_offset,
        block_data_size,
        size,
    );
    crate::fs::file_sums::lemma_sync_block_sums(image, pages, last.data_block_address, count, raw);
    crate::fs::file_frame::lemma_file_touch_contains(pages, header, list, list.len() - 1);
    crate::fs::file_frame::lemma_unchanged_outside_more(
        image,
        after,
        set![last.data_block_address as int],
        crate::fs::file_frame::spec_file_touch(pages, header, list),
    );
    assert(last.data_block_address != header);
    assert(spec_owned(image, pages, header));
    crate::fs::frame::lemma_untouched_block(image, after, set![last.data_block_address as int], header as int);
    crate::fs::frame::lemma_same_block_reads(image, after, header as int);
}

/// The size of a file once its last data block is gone: where that block
/// started.
proof fn lemma_popped_size(size: int, listed: int, block_data_size: int)
    requires
        listed > 0,
        block_data_size > 0,
        (listed - 1) * block_data_size < size <= listed * block_data_size,
    ensures
        size % block_data_size == 0 ==> size - block_data_size == (listed - 1) * block_data_size,
        size % block_data_size != 0 ==> size - size % block_data_size == (listed - 1) * block_data_size,
{
    assert(size % block_data_size == 0 ==> size - block_data_size == (listed - 1) * block_data_size)
        by (nonlinear_arith)
        requires
            (listed - 1) * block_data_size < size <= listed * block_data_size,
            block_data_size > 0,
    ;
    assert(size % block_data_size != 0 ==> size - size % block_data_size == (listed - 1) * block_data_size)
        by (nonlinear_arith)
        requires
            (listed - 1) * block_data_size < size <= listed * block_data_size,
            block_data_size > 0,
    ;
}

/// The count of data blocks that a shorter file keeps.
proof fn lemma_shrink_target(new_size: int, size: int, listed: int, block_data_size: int)
    requires
        0 <= new_size < size,
        block_data_size > 0,
        size <= listed * block_data_size,
    ensures
        crate::fs::file_write::spec_blocks_for(new_size, block_data_size) == if new_size == 0 {
            0
        } else {
            (new_size - 1) / block_data_size + 1
        },
        crate::fs::file_write::spec_blocks_for(new_size, block_data_size) <= listed,
{
    let count = crate::fs::file_write::spec_blocks_for(new_size, block_data_size);
    assert(count == if new_size == 0 {
        0
    } else {
        (new_size - 1) / block_data_size + 1
    } && count <= listed) by (nonlinear_arith)
        requires
            count == (new_size + block_data_size - 1) / block_data_size,
            0 <= new_size < size,
            size <= listed * block_data_size,
            block_data_size > 0,
    ;
}

/// A file that has more data blocks than its new size needs still holds
/// the new size once its last data block is gone.
proof fn lemma_shrink_step(new_size: int, listed: int, block_data_size: int)
    requires
        0 <= new_size,
        block_data_size > 0,
        listed > crate::fs::file_write::spec_blocks_for(new_size, block_data_size),
    ensures
        new_size <= (listed - 1) * block_data_size,
{
    let count = crate::fs::file_write::spec_blocks_for(new_size, block_data_size);
    assert(new_size <= (listed - 1) * block_data_size) by (nonlinear_arith)
        requires
            count == (new_size + block_data_size - 1) / block_data_size,
            listed > count,
            0 <= new_size,
            block_data_size > 0,
    ;
}

/// A file that has the data blocks that its new size needs has a size that
/// fits them.
proof fn lemma_shrunk_size(new_size: int, listed: int, block_data_size: int)
    requires
        0 <= new_size,
        block_data_size > 0,
        listed == crate::fs::file_write::spec_blocks_for(new_size, block_data_size),
    ensures
        new_size <= listed * block_data_size,
        listed > 0 ==> new_size > (listed - 1) * block_data_size,
{
    assert(new_size <= listed * block_data_size && (listed > 0 ==> new_size > (listed - 1) * block_data_size))
        by (nonlinear_arith)
        requires
            listed == (new_size + block_data_size - 1) / block_data_size,
            0 <= new_size,
            block_data_size > 0,
    ;
}

/// What giving back a block that a file owns no more does: the blocks that
/// the file still owns are marked as used as before; one block more is
/// free; and nothing changes but the bitmap block.
pub proof fn lemma_block_freed(
    image: Seq<u8>,
    pages: Seq<usize>,
    header: usize,
    list: Seq<FileDataBlockListEntry>,
    block_data_offset: usize,
    freed: usize,
)
    requires
        image.len() == 1760 * 512 || image.len() == 3520 * 512,
        crate::fs::amiga_dos::spec_pages_valid(pages, spec_block_count(image)),
        spec_list_owned(image, pages, header, list),
        spec_owned(image, pages, freed),
        freed != header,
        forall|i: int|
            0 <= i < list.len() ==> (#[trigger] list[i]).data_block_address != freed
                && list[i].extension_block_address != freed,
    ensures
        ({
            let after = spec_bitmap_update(image, pages, freed as int, true);
            &&& after.len() == image.len()
            &&& spec_list_owned(after, pages, header, list)
            &&& spec_free_block_count(after, pages) == spec_free_block_count(image, pages) + 1
            &&& spec_same_payloads(image, after, list, block_data_offset)
            &&& spec_boot_block_valid(after) == spec_boot_block_valid(image)
            &&& spec_boot_flags(after) == spec_boot_flags(image)
            &&& forall|address: usize|
                address != freed && spec_owned(image, pages, address) ==> spec_owned(after, pages, address)
        }),
{
    let after = spec_bitmap_update(image, pages, freed as int, true);
    let page = crate::fs::bitmap::spec_page_of(pages, freed as int);
    let touched = set![page];
    crate::fs::bitmap::lemma_bitmap_update_checksum(image, pages, freed as int, true);
    crate::fs::bitmap::lemma_bitmap_update_count(image, pages, freed as int, true, spec_block_count(image) as int);
    assert forall|address: int| crate::fs::bitmap::spec_block_free(after, pages, address) == (address == freed
        || crate::fs::bitmap::spec_block_free(image, pages, address)) by {
        crate::fs::bitmap::lemma_bitmap_update_marks(image, pages, freed as int, true, address);
    }
    assert(spec_unchanged_outside(image, after, touched)) by {
        assert forall|i: int| 0 <= i < image.len() && !touched.contains(i / 512) implies #[trigger] after[i]
            == image[i] by {
            assert(!(page * 512 <= i < page * 512 + 512));
        }
    }
    crate::fs::frame::lemma_untouched_block(image, after, touched, 0);
    crate::fs::frame::lemma_untouched_block(image, after, touched, 1);
    crate::fs::frame::lemma_same_boot(image, after);
    assert forall|i: int, offset: int|
        0 <= i < list.len() && block_data_offset <= offset < 512 implies #[trigger] spec_block_byte(
        after,
        list[i].data_block_address,
        offset,
    ) == spec_block_byte(image, list[i].data_block_address, offset) by {
        let data = list[i].data_block_address;
        assert(spec_owned(image, pages, data));
        assert(data != page);
        assert((data * 512 + offset) / 512 == data);
    }
    assert forall|k: int| 0 <= k < pages.len() implies !crate::fs::bitmap::spec_block_free(
        after,
        pages,
        #[trigger] pages[k] as int,
    ) by {
        assert(pages[k] != freed);
    }
}

/// What a write into one block that is neither a boot block nor a bitmap
/// block leaves alone, when the payloads of the data blocks of a file are
/// not written: the standing of the blocks of the file, the count of free
/// blocks, the boot block, and the payloads.
pub proof fn lemma_plain_block_written(
    image: Seq<u8>,
    after: Seq<u8>,
    pages: Seq<usize>,
    header: usize,
    list: Seq<FileDataBlockListEntry>,
    block_data_offset: usize,
    written: usize,
)
    requires
        image.len() == 1760 * 512 || image.len() == 3520 * 512,
        crate::fs::amiga_dos::spec_pages_valid(pages, spec_block_count(image)),
        spec_list_owned(image, pages, header, list),
        spec_owned(image, pages, written),
        spec_unchanged_outside(image, after, set![written as int]),
        forall|offset: int|
            block_data_offset <= offset < 512 ==> #[trigger] spec_block_byte(after, written, offset)
                == spec_block_byte(image, written, offset) || forall|i: int|
                0 <= i < list.len() ==> (#[trigger] list[i]).data_block_address != written,
    ensures
        after.len() == image.len(),
        spec_list_owned(after, pages, header, list),
        spec_free_block_count(after, pages) == spec_free_block_count(image, pages),
        spec_same_payloads(image, after, list, block_data_offset),
        spec_boot_block_valid(after) == spec_boot_block_valid(image),
        spec_boot_flags(after) == spec_boot_flags(image),
        forall|address: usize| spec_owned(image, pages, address) ==> spec_owned(after, pages, address),
{
    let touched = set![written as int];
    crate::fs::file_lemmas::lemma_plain_blocks_touched(image, after, touched, pages, header, list);
    assert forall|i: int, offset: int|
        0 <= i < list.len() && block_data_offset <= offset < 512 implies #[trigger] spec_block_byte(
        after,
        list[i].data_block_address,
        offset,
    ) == spec_block_byte(image, list[i].data_block_address, offset) by {
        let data = list[i].data_block_address;
        assert(spec_owned(image, pages, data));
        if data == written {
            assert(spec_block_byte(after, written, offset) == spec_block_byte(image, written, offset));
        } else {
            assert((data * 512 + offset) / 512 == data);
            assert(!touched.contains(data as int));
        }
    }
}

/// What emptying a slot of a header or list block changes: that block
/// alone.
pub proof fn lemma_unset_frame(image: Seq<u8>, entry: FileDataBlockListEntry)
    requires
        image.len() % 512 == 0,
        entry.extension_block_address < spec_block_count(image),
        entry.extension_block_index < 72,
    ensures
        spec_unchanged_outside(
            image,
            spec_unset_extension_block_data_block(image, entry),
            set![entry.extension_block_address as int],
        ),
{
    reveal(spec_unset_extension_block_data_block);
    let after = spec_unset_extension_block_data_block(image, entry);
    let touched = set![entry.extension_block_address as int];
    assert forall|i: int| 0 <= i < image.len() && !touched.contains(i / 512) implies #[trigger] after[i]
        == image[i] by {
        assert(!(entry.extension_block_address * 512 <= i < entry.extension_block_address * 512 + 512));
    }
}

/// What clearing a link changes: its block alone, and of that block, when
/// the link lies before byte 24, nothing from byte 24 on.
pub proof fn lemma_clear_link_frame(image: Seq<u8>, address: usize, offset: int)
    requires
        image.len() % 512 == 0,
        address < spec_block_count(image),
        0 <= offset <= 508,
    ensures
        spec_unchanged_outside(image, spec_clear_link(image, address, offset), set![address as int]),
        offset + 4 <= 24 ==> forall|o: int|
            24 <= o < 512 ==> #[trigger] spec_block_byte(spec_clear_link(image, address, offset), address, o)
                == spec_block_byte(image, address, o),
{
    reveal(spec_clear_link);
    let after = spec_clear_link(image, address, offset);
    let touched = set![address as int];
    assert forall|i: int| 0 <= i < image.len() && !touched.contains(i / 512) implies #[trigger] after[i]
        == image[i] by {
        assert(!(address * 512 <= i < address * 512 + 512));
    }
}

/// What a file keeps when its last data block is given back: the shorter
/// list is well laid out and its blocks are marked as used; the payloads of
/// its data blocks are as they were; the count of free blocks goes up by
/// what the block had cost; the boot block is as it was.
pub open spec fn spec_popped(
    image: Seq<u8>,
    after: Seq<u8>,
    pages: Seq<usize>,
    header: usize,
    list: Seq<FileDataBlockListEntry>,
    block_data_offset: usize,
) -> bool {
    &&& after.len() == image.len()
    &&& spec_list_wf(header, list.drop_last())
    &&& spec_list_owned(after, pages, header, list.drop_last())
    &&& spec_same_payloads(image, after, list.drop_last(), block_data_offset)
    &&& spec_free_block_count(after, pages) == spec_free_block_count(image, pages) + spec_push_cost(
        list.drop_last(),
    )
    &&& spec_boot_block_valid(after) == spec_boot_block_valid(image)
    &&& spec_boot_flags(after) == spec_boot_flags(image)
}

/// The first step of `lemma_pop_data_block`: the data block is given back
/// and taken out of its slot.
proof fn lemma_pop_unset(
    image: Seq<u8>,
    pages: Seq<usize>,
    header: usize,
    list: Seq<FileDataBlockListEntry>,
    block_data_offset: usize,
)
    requires
        image.len() == 1760 * 512 || image.len() == 3520 * 512,
        crate::fs::amiga_dos::spec_pages_valid(pages, spec_block_count(image)),
        spec_list_wf(header, list),
        spec_list_owned(image, pages, header, list),
        list.len() > 0,
    ensures
        ({
            let last = list.last();
            let shorter = list.drop_last();
            let after = spec_unset_extension_block_data_block(
                spec_bitmap_update(image, pages, last.data_block_address as int, true),
                last,
            );
            &&& after.len() == image.len()
            &&& spec_list_wf(header, shorter)
            &&& spec_list_owned(after, pages, header, shorter)
            &&& spec_same_payloads(image, after, shorter, block_data_offset)
            &&& spec_free_block_count(after, pages) == spec_free_block_count(image, pages) + 1
            &&& spec_boot_block_valid(after) == spec_boot_block_valid(image)
            &&& spec_boot_flags(after) == spec_boot_flags(image)
            &&& spec_owned(after, pages, last.extension_block_address)
        }),
{
    let n = list.len() as int;
    let last = list[n - 1];
    let shorter = list.drop_last();
    let freed = spec_bitmap_update(image, pages, last.data_block_address as int, true);
    let after = spec_unset_extension_block_data_block(freed, last);
    crate::fs::file_lemmas::lemma_list_wf_pop(header, list);
    assert(spec_owned(image, pages, last.data_block_address));
    assert(spec_owned(image, pages, last.extension_block_address));
    assert(last.extension_block_index == (n - 1) % 72);
    assert forall|i: int| 0 <= i < shorter.len() implies (#[trigger] shorter[i]).data_block_address
        != last.data_block_address && shorter[i].extension_block_address != last.data_block_address by {
        assert(shorter[i] == list[i]);
        assert(list[i].data_block_address != list[n - 1].data_block_address);
        assert(list[n - 1].data_block_address != list[i].extension_block_address);
    }
    assert(spec_list_owned(image, pages, header, shorter)) by {
        assert forall|i: int| 0 <= i < shorter.len() implies spec_owned(
            image,
            pages,
            (#[trigger] shorter[i]).data_block_address,
        ) && spec_owned(image, pages, shorter[i].extension_block_address) by {
            assert(shorter[i] == list[i]);
            assert(spec_owned(image, pages, list[i].data_block_address));
            assert(spec_owned(image, pages, list[i].extension_block_address));
        }
    }
    assert(list[n - 1].data_block_address != list[n - 1].extension_block_address);
    lemma_block_freed(image, pages, header, shorter, block_data_offset, last.data_block_address);
    lemma_unset_frame(freed, last);
    assert forall|i: int| 0 <= i < shorter.len() implies (#[trigger] shorter[i]).data_block_address
        != last.extension_block_address by {
        assert(shorter[i] == list[i]);
        assert(list[i].data_block_address != list[n - 1].extension_block_address);
    }
    lemma_plain_block_written(
        freed,
        after,
        pages,
        header,
        shorter,
        block_data_offset,
        last.extension_block_address,
    );
    crate::fs::file_write::lemma_same_payloads_trans(image, freed, after, shorter, block_data_offset);
}

/// The second step of `lemma_pop_data_block`: a list block that holds
/// nothing any more is given back, and the list block before it chains to
/// nothing any more.
proof fn lemma_pop_release(
    image: Seq<u8>,
    pages: Seq<usize>,
    header: usize,
    list: Seq<FileDataBlockListEntry>,
    block_data_offset: usize,
)
    requires
        image.len() == 1760 * 512 || image.len() == 3520 * 512,
        crate::fs::amiga_dos::spec_pages_valid(pages, spec_block_count(image)),
        spec_list_wf(header, list),
        spec_list_owned(image, pages, header, list),
        list.len() > 0,
    ensures
        spec_popped(image, spec_pop_release(image, pages, list), pages, header, list, block_data_offset),
{
    let n = list.len() as int;
    let last = list[n - 1];
    let shorter = list.drop_last();
    let unset = spec_unset_extension_block_data_block(
        spec_bitmap_update(image, pages, last.data_block_address as int, true),
        last,
    );
    lemma_pop_unset(image, pages, header, list, block_data_offset);
    assert(last.extension_block_index == (n - 1) % 72);
    if n > 1 {
        assert(shorter[n - 2] == list[n - 2]);
        assert(list[n - 2].extension_block_index == (n - 2) % 72);
    }
    if last.extension_block_index == 0 && n > 1 {
        let extension = last.extension_block_address;
        let before = list[n - 2].extension_block_address;
        assert(extension != header);
        assert forall|i: int| 0 <= i < shorter.len() implies (#[trigger] shorter[i]).data_block_address
            != extension && shorter[i].extension_block_address != extension by {
            assert(shorter[i] == list[i]);
            assert(list[i].data_block_address != list[n - 1].extension_block_address);
            assert(i / 72 != (n - 1) / 72);
            assert(list[i].extension_block_address != list[n - 1].extension_block_address);
        }
        let given = spec_bitmap_update(unset, pages, extension as int, true);
        lemma_block_freed(unset, pages, header, shorter, block_data_offset, extension);
        assert(spec_owned(unset, pages, shorter[n - 2].extension_block_address));
        assert(before != extension);
        let after = spec_clear_link(given, before, 504);
        lemma_clear_link_frame(given, before, 504);
        assert forall|i: int| 0 <= i < shorter.len() implies (#[trigger] shorter[i]).data_block_address
            != before by {
            assert(shorter[i] == list[i]);
            assert(list[i].data_block_address != list[n - 2].extension_block_address);
        }
        lemma_plain_block_written(given, after, pages, header, shorter, block_data_offset, before);
        crate::fs::file_write::lemma_same_payloads_trans(image, unset, given, shorter, block_data_offset);
        crate::fs::file_write::lemma_same_payloads_trans(image, given, after, shorter, block_data_offset);
    }
}

/// What taking the last data block from a file does, as
/// `spec_pop_data_block` gives it: the file keeps what `spec_popped` says.
pub proof fn lemma_pop_data_block(
    image: Seq<u8>,
    pages: Seq<usize>,
    header: usize,
    list: Seq<FileDataBlockListEntry>,
    filesystem_type: FilesystemType,
)
    requires
        image.len() == 1760 * 512 || image.len() == 3520 * 512,
        crate::fs::amiga_dos::spec_pages_valid(pages, spec_block_count(image)),
        spec_list_wf(header, list),
        spec_list_owned(image, pages, header, list),
        list.len() > 0,
    ensures
        spec_popped(
            image,
            spec_pop_data_block(image, pages, header, list, filesystem_type),
            pages,
            header,
            list,
            spec_payload_offset(filesystem_type) as usize,
        ),
{
    let offset = spec_payload_offset(filesystem_type) as usize;
    let n = list.len() as int;
    let shorter = list.drop_last();
    let released = spec_pop_release(image, pages, list);
    lemma_pop_release(image, pages, header, list, offset);
    match filesystem_type {
        FilesystemType::FFS => {},
        FilesystemType::OFS => {
            let link = if n > 1 {
                list[n - 2].data_block_address
            } else {
                header
            };
            if n > 1 {
                assert(shorter[n - 2] == list[n - 2]);
                assert(spec_owned(released, pages, shorter[n - 2].data_block_address));
            }
            let after = spec_clear_link(released, link, 16);
            lemma_clear_link_frame(released, link, 16);
            if n <= 1 {
                assert forall|i: int| 0 <= i < shorter.len() implies (#[trigger] shorter[i]).data_block_address
                    != link by {}
            }
            lemma_plain_block_written(released, after, pages, header, shorter, offset, link);
            crate::fs::file_write::lemma_same_payloads_trans(image, released, after, shorter, offset);
        },
    }
}

} // verus!
