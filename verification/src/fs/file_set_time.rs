use vstd::prelude::*;

use crate::block::Block;
use crate::disk::Disk;
use crate::errors::Error;
use crate::fs::amiga_dos::AmigaDos;
use crate::fs::block::{spec_block_count, spec_write_checksum, spec_write_date};
use crate::fs::file::{spec_test_file_mode, test_file_mode, File, FileMode};
use crate::fs::frame::spec_unchanged_outside;

verus! {

broadcast use Disk::lemma_len;

/// The image with the date of change of the header block `header` set to
/// `date_time`, and the checksum of the block brought up to date.
pub open spec fn spec_set_time(image: Seq<u8>, header: usize, date_time: u64) -> Seq<u8> {
    spec_write_checksum(spec_write_date(image, header, 420, date_time), header)
}

/// What setting the date of change of a file changes: its header block
/// alone, whose checksum is valid afterwards.
pub proof fn lemma_set_time(image: Seq<u8>, header: usize, date_time: u64)
    requires
        image.len() % 512 == 0,
        header < spec_block_count(image),
    ensures
        spec_unchanged_outside(image, spec_set_time(image, header, date_time), set![header as int]),
        crate::fs::block::spec_block_checksum_valid(spec_set_time(image, header, date_time), header as int),
{
    let after = spec_set_time(image, header, date_time);
    let touched = set![header as int];
    assert forall|i: int| 0 <= i < image.len() && !touched.contains(i / 512) implies #[trigger] after[i]
        == image[i] by {
        assert(!(header * 512 <= i < header * 512 + 512));
    }
    crate::fs::block::lemma_write_checksum_valid(spec_write_date(image, header, 420, date_time), header);
}

impl File {
    /// Sets the date at which the file was changed last. The file must be
    /// open for writing.
    pub fn set_time(&mut self, fs: &mut AmigaDos, datetime: u64) -> (res: Result<(), Error>)
        requires
            old(self).wf(old(fs)),
        ensures
            final(fs).wf(),
            final(fs).same_volume(old(fs)),
            final(self).wf(final(fs)),
            final(self).same_file(old(self)),
            final(self).pos == old(self).pos,
            final(self).content(final(fs)) == old(self).content(old(fs)),
            !spec_test_file_mode(FileMode::Write, old(self).mode) ==> res == Err::<(), Error>(
                Error::BadFileDescriptor,
            ) && final(fs)@ == old(fs)@,
            spec_test_file_mode(FileMode::Write, old(self).mode) ==> res == Ok::<(), Error>(()) && final(fs)@
                == spec_set_time(old(fs)@, old(self).header_block_address, datetime),
            crate::fs::frame::spec_sums_kept(old(fs)@, final(fs)@, old(fs).inner.spec_pages(), Set::empty()),
            old(self).listed(old(fs)) ==> final(self).listed(final(fs)),
            old(self).stored(old(fs)) ==> final(self).stored(final(fs)),
    {
        if !test_file_mode(FileMode::Write, self.mode) {
            proof {
                crate::fs::frame::lemma_sums_kept_refl(fs@, fs.inner.spec_pages(), Set::empty());
            }
            return Err(Error::BadFileDescriptor);
        }
        proof {
            assert(crate::fs::file::spec_owned(fs@, fs.inner.spec_pages(), self.header_block_address));
            crate::fs::file_sums::lemma_owned_is_plain(fs@, fs.inner.spec_pages(), self.header_block_address);
            crate::fs::file_sums::lemma_set_time_sums(
                fs@,
                fs.inner.spec_pages(),
                self.header_block_address,
                datetime,
                Set::empty(),
            );
        }
        proof {
            if self.listed(fs) {
                crate::fs::file_mirror::lemma_stored_dated(
                    fs@,
                    fs.inner.spec_pages(),
                    self.header_block_address,
                    self.block_data_list@,
                    datetime,
                );
            }
        }
        proof {
            let after = spec_set_time(fs@, self.header_block_address, datetime);
            lemma_set_time(fs@, self.header_block_address, datetime);
            assert(crate::fs::file::spec_owned(fs@, fs.inner.spec_pages(), self.header_block_address));
            crate::fs::file_set_len::lemma_plain_block_written(
                fs@,
                after,
                fs.inner.spec_pages(),
                self.header_block_address,
                self.block_data_list@,
                self.block_data_offset,
                self.header_block_address,
            );
            crate::fs::file_lemmas::lemma_same_payloads_same_content(
                fs@,
                after,
                self.block_data_list@,
                self.block_data_offset,
                self.block_data_size,
                self.size,
            );
        }
        let block = Block::new(self.header_block_address);
        let r = block.write_alteration_date(&mut fs.inner.disk, datetime);
        let r = block.write_checksum(&mut fs.inner.disk);
        Ok(())
    }
}

} // verus!
