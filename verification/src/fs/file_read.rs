use vstd::prelude::*;
use vstd::string::StringSliceAdditionalSpecFns;

use crate::disk::{Disk, BLOCK_SIZE};
use crate::errors::Error;
use crate::fs::amiga_dos::AmigaDos;
use crate::fs::file::{spec_test_file_mode, test_file_mode, File, FileDataBlockListEntry, FileMode};

verus! {

broadcast use Disk::lemma_len;

/// Number of bytes that a read into a buffer of `len` bytes gives, from a
/// file of `size` bytes read from byte `pos` on.
pub open spec fn spec_read_count(len: nat, size: usize, pos: usize) -> usize {
    if len <= size - pos {
        len as usize
    } else {
        (size - pos) as usize
    }
}

impl File {
    pub fn get_data_block_list_entry(&self, pos: usize) -> (res: Option<FileDataBlockListEntry>)
        requires
            self.block_data_size > 0,
        ensures
            pos / self.block_data_size < self.block_data_list@.len() ==> res == Some(
                self.block_data_list@[(pos / self.block_data_size) as int],
            ),
            pos / self.block_data_size >= self.block_data_list@.len() ==> res is None,
    {
        let index: usize = pos / self.block_data_size;
        if index < self.block_data_list.len() {
            Some(self.block_data_list[index])
        } else {
            None
        }
    }

    /// Reads from the file, from its position on, as many bytes as `buf`
    /// takes or as the file still has, and moves the position behind them.
    /// The bytes read fill the start of `buf`; the rest of `buf` stays as
    /// it is.
    pub fn read(&mut self, fs: &AmigaDos, buf: &mut [u8]) -> (res: Result<usize, Error>)
        requires
            old(self).readable(fs),
        ensures
            final(self).readable(fs),
            old(self).wf(fs) ==> final(self).wf(fs),
            final(self).same_file(old(self)),
            final(buf)@.len() == old(buf)@.len(),
            !spec_test_file_mode(FileMode::Read, old(self).mode) ==> res == Err::<usize, Error>(
                Error::BadFileDescriptor,
            ) && final(self).pos == old(self).pos && final(buf)@ == old(buf)@,
            spec_test_file_mode(FileMode::Read, old(self).mode) ==> res == Ok::<usize, Error>(
                spec_read_count(old(buf)@.len(), old(self).size, old(self).pos),
            ) && final(self).pos == old(self).pos + res->Ok_0 && final(buf)@ == old(self).content(fs).subrange(
                old(self).pos as int,
                old(self).pos + res->Ok_0,
            ) + old(buf)@.subrange(res->Ok_0 as int, old(buf)@.len() as int),
    {
        if !test_file_mode(FileMode::Read, self.mode) {
            return Err(Error::BadFileDescriptor);
        }
        let total: usize = buf.len();
        let mut count: usize = 0;
        let ghost content = self.content(fs);
        let ghost start = self.pos;
        let ghost before = buf@;
        while count < total && self.pos < self.size
            invariant
                self.readable(fs),
                old(self).wf(fs) ==> self.wf(fs),
                total == buf@.len(),
                before.len() == total,
                count <= total,
                self.pos == start + count,
                self.size == old(self).size,
                self.mode == old(self).mode,
                self.block_data_list@ == old(self).block_data_list@,
                self.header_block_address == old(self).header_block_address,
                self.block_data_offset == old(self).block_data_offset,
                self.block_data_size == old(self).block_data_size,
                content == self.content(fs),
                forall|k: int| 0 <= k < count ==> #[trigger] buf@[k] == content[start + k],
                forall|k: int| count <= k < total ==> #[trigger] buf@[k] == before[k],
            decreases total - count,
        {
            let data_pos: usize = self.pos % self.block_data_size;
            let index: usize = self.pos / self.block_data_size;
            let mut data_len: usize = total - count;
            if self.size - self.pos < data_len {
                data_len = self.size - self.pos;
            }
            if self.block_data_size - data_pos < data_len {
                data_len = self.block_data_size - data_pos;
            }
            assert(index < self.block_data_list@.len()) by (nonlinear_arith)
                requires
                    self.pos < self.size,
                    self.size <= self.block_data_list@.len() * self.block_data_size,
                    index == self.pos / self.block_data_size,
                    self.block_data_size > 0,
            ;
            let entry = self.block_data_list[index];
            match fs.disk().blocks(entry.data_block_address, 1) {
                Ok(data) => {
                    let offset: usize = self.block_data_offset + data_pos;
                    let ghost done = count;
                    let ghost filled = buf@;
                    assert(forall|j: int| 0 <= j < done ==> #[trigger] filled[j] == content[start + j]);
                    assert(forall|j: int| done <= j < total ==> #[trigger] filled[j] == before[j]);
                    let mut k: usize = 0;
                    while k < data_len
                        invariant
                            k <= data_len,
                            buf@.len() == total,
                            filled.len() == total,
                            done + data_len <= total,
                            offset + data_len <= 512,
                            data@.len() == 512,
                            forall|j: int| 0 <= j < done ==> #[trigger] buf@[j] == filled[j],
                            forall|j: int| done <= j < done + k ==> #[trigger] buf@[j] == data@[offset + j - done],
                            forall|j: int| done + k <= j < total ==> #[trigger] buf@[j] == filled[j],
                            done == count,
                        decreases data_len - k,
                    {
                        buf[count + k] = data[offset + k];
                        k = k + 1;
                    }
                    proof {
                        assert forall|j: int| done <= j < done + data_len implies #[trigger] buf@[j]
                            == content[start + j] by {
                            let p = start + j;
                            assert(p / (self.block_data_size as int) == index && p % (
                            self.block_data_size as int) == data_pos + (j - done)) by (nonlinear_arith)
                                requires
                                    p == self.pos + (j - done),
                                    0 <= j - done < data_len,
                                    data_len <= self.block_data_size - data_pos,
                                    data_pos == self.pos % self.block_data_size,
                                    index == self.pos / self.block_data_size,
                                    self.block_data_size > 0,
                            ;
                            assert(content[p] == fs@[entry.data_block_address * 512 + self.block_data_offset
                                + data_pos + (j - done)]);
                            assert(data@[offset + j - done] == fs@[entry.data_block_address * 512 + offset + j
                                - done]);
                        }
                    }
                    count = count + data_len;
                    self.pos = self.pos + data_len;
                },
                Err(_) => {
                    assert(false);
                },
            }
        }
        proof {
            assert(buf@ =~= content.subrange(start as int, start + count) + before.subrange(
                count as int,
                total as int,
            ));
        }
        Ok(count)
    }
}

impl AmigaDos {
    /// Reads the whole content of the file at `path`. The bitmap is not
    /// asked: a file whose blocks it does not mark as used is read all the
    /// same.
    pub fn read(&self, path: &str) -> (res: Result<Vec<u8>, Error>)
        requires
            self.wf(),
        ensures
            match crate::fs::file::spec_open_read(self@, path.spec_bytes()) {
                Err(e) => res matches Err(err) && err == e,
                Ok((header, size, list)) => res matches Ok(bytes) && bytes@ == crate::fs::file::spec_content(
                    self@,
                    list,
                    crate::fs::file::spec_data_block_info(
                        crate::fs::boot_block::spec_filesystem_type(crate::fs::boot_block::spec_boot_flags(self@)),
                    ).0,
                    crate::fs::file::spec_data_block_info(
                        crate::fs::boot_block::spec_filesystem_type(crate::fs::boot_block::spec_boot_flags(self@)),
                    ).1,
                    size,
                ),
            },
    {
        proof {
            crate::fs::file_open::lemma_mode_bits(true, false);
        }
        let mut input = match File::try_open(self, path, 0x01) {
            Ok(file) => file,
            Err(e) => {
                return Err(e);
            },
        };
        let mut buf: Vec<u8> = Vec::new();
        let mut i: usize = 0;
        while i < BLOCK_SIZE
            invariant
                i <= 512,
                buf@.len() == i,
            decreases 512 - i,
        {
            buf.push(0u8);
            i = i + 1;
        }
        let mut output: Vec<u8> = Vec::new();
        let ghost content = input.content(self);
        let ghost opened = input;
        loop
            invariant
                self.wf(),
                input.readable(self),
                input.same_file(&opened),
                crate::fs::file::spec_open_read(self@, path.spec_bytes()) == Ok::<
                    (usize, usize, Seq<FileDataBlockListEntry>),
                    Error,
                >((input.header_block_address, input.size, input.block_data_list@)),
                spec_test_file_mode(FileMode::Read, input.mode),
                buf@.len() == 512,
                content == input.content(self),
                output@ == content.subrange(0, input.pos as int),
            decreases input.size - input.pos,
        {
            let ghost before = input.pos;
            let count: usize = match input.read(self, buf.as_mut_slice()) {
                Ok(count) => count,
                Err(e) => {
                    assert(false);
                    return Err(e);
                },
            };
            if count == 0 {
                assert(output@ =~= content);
                return Ok(output);
            }
            let ghost read = buf@.subrange(0, count as int);
            let ghost out = output@;
            let mut k: usize = 0;
            while k < count
                invariant
                    k <= count <= 512,
                    buf@.len() == 512,
                    output@ == out + buf@.subrange(0, k as int),
                decreases count - k,
            {
                output.push(buf[k]);
                assert(buf@.subrange(0, k + 1) =~= buf@.subrange(0, k as int).push(buf@[k as int]));
                assert(output@ =~= out + buf@.subrange(0, k + 1));
                k = k + 1;
            }
            assert(output@ =~= content.subrange(0, input.pos as int));
        }
    }
}

} // verus!
