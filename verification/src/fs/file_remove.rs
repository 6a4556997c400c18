use vstd::prelude::*;
use vstd::string::StringSliceAdditionalSpecFns;

use crate::disk::Disk;
use crate::errors::Error;
use crate::fs::amiga_dos::AmigaDos;
use crate::fs::bitmap::spec_free_block_count;
use crate::fs::dir_remove::spec_unlink;
use crate::fs::file::{spec_block_usage, spec_open, File};

verus! {

broadcast use Disk::lemma_len;

/// How removing the file at `path` ends. A path that does not lead to a
/// file that can be opened is an error, and nothing changes. Else the file
/// is emptied first: that gives its data blocks and list blocks back,
/// which the bitmap marks as free then and no others; it changes nothing
/// but the bitmap blocks and the blocks of the file, and keeps the types
/// and the name of the header block; and every block that it changes
/// holds a valid checksum afterwards. Then the file is taken out of its
/// directory as `spec_unlink` says.
pub open spec fn spec_remove_file(
    before: &AmigaDos,
    after: &AmigaDos,
    path: Seq<u8>,
    date_time: u64,
    res: Result<(), Error>,
) -> bool {
    let pages = before.inner.spec_pages();
    match spec_open(before@, pages, path) {
        Err(e) => res == Err::<(), Error>(e) && after@ == before@,
        Ok((header, size, list)) => exists|emptied: Seq<u8>|
            #[trigger] spec_free_block_count(emptied, pages) == spec_free_block_count(before@, pages)
                + spec_block_usage(list.len() as int) && crate::fs::frame::spec_sums_kept(
                before@,
                emptied,
                pages,
                crate::fs::file_sums::spec_raw_blocks(
                    list,
                    crate::fs::boot_block::spec_filesystem_type(crate::fs::boot_block::spec_boot_flags(before@)),
                ),
            ) && crate::fs::frame::spec_unchanged_outside(
                before@,
                emptied,
                crate::fs::file_frame::spec_file_touch(pages, header, list),
            ) && crate::fs::file_frame::spec_file_kept(before@, emptied, pages, header, list)
                && crate::fs::file_marks::spec_marks_shrunk(before@, emptied, pages, list, 0) && (after@, res)
                == spec_unlink(emptied, pages, path, header, date_time),
    }
}

impl AmigaDos {
    /// Removes the file at `path`: the file is emptied, which gives its
    /// data blocks and list blocks back; then it is taken out of its
    /// directory, and its header block is given back. The volume is changed
    /// last at `date_time`.
    pub fn remove_file_at(&mut self, path: &str, date_time: u64) -> (res: Result<(), Error>)
        requires
            old(self).wf(),
        ensures
            final(self).wf(),
            final(self).same_volume(old(self)),
            spec_remove_file(old(self), final(self), path.spec_bytes(), date_time, res),
    {
        proof {
            crate::fs::file_open::lemma_mode_bits(false, true);
        }
        let mut file = match File::try_open(self, path, 0x02) {
            Ok(file) => file,
            Err(e) => {
                return Err(e);
            },
        };
        let ghost list = file.block_data_list@;
        let ghost flavour = crate::fs::boot_block::spec_filesystem_type(
            crate::fs::boot_block::spec_boot_flags(self@),
        );
        proof {
            crate::fs::file_lemmas::lemma_block_usage_monotonic(0, file.block_data_list@.len() as int);
        }
        match file.set_len_at(self, 0, date_time) {
            Ok(_) => {},
            Err(e) => {
                assert(false);
                return Err(e);
            },
        }
        proof {
            let touch = crate::fs::file_frame::spec_file_touch(
                self.inner.spec_pages(),
                file.header_block_address,
                list,
            );
            crate::fs::file_frame::lemma_file_touch_of_prefix(
                self.inner.spec_pages(),
                file.header_block_address,
                file.block_data_list@,
                list,
            );
            crate::fs::file_frame::lemma_unchanged_outside_more(
                old(self)@,
                self@,
                touch + crate::fs::file_frame::spec_file_touch(
                    self.inner.spec_pages(),
                    file.header_block_address,
                    file.block_data_list@,
                ),
                touch,
            );
            crate::fs::file_frame::lemma_file_kept_shrunk(
                old(self)@,
                self@,
                self.inner.spec_pages(),
                file.header_block_address,
                list,
                file.block_data_list@,
            );
            assert(file.block_data_list@.len() == 0);
            crate::fs::file_sums::lemma_sums_kept_more_raw(
                old(self)@,
                self@,
                self.inner.spec_pages(),
                crate::fs::file_sums::spec_raw_blocks(list, flavour) + crate::fs::file_sums::spec_raw_blocks(
                    file.block_data_list@,
                    flavour,
                ),
                crate::fs::file_sums::spec_raw_blocks(list, flavour),
            );
        }
        self.unlink(path, file.header_block_address, date_time)
    }

    /// Removes the file at `path`; the volume is changed last at the time
    /// of the system clock.
    pub fn remove_file(&mut self, path: &str) -> (res: Result<(), Error>)
        requires
            old(self).wf(),
        ensures
            final(self).wf(),
            final(self).same_volume(old(self)),
            exists|date_time: u64| spec_remove_file(old(self), final(self), path.spec_bytes(), date_time, res),
    {
        let date_time: u64 = crate::fs::datetime::system_time_now();
        self.remove_file_at(path, date_time)
    }
}

} // verus!
