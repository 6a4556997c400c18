use vstd::prelude::*;

use crate::block::Block;
use crate::disk::{Disk, LBAAddress};
use crate::errors::Error;
use crate::fs::amiga_dos::{spec_pages_valid, AmigaDos};
use crate::fs::bitmap::{spec_block_free, spec_tracked};
use crate::fs::block::spec_block_count;
use crate::fs::constants::BITMAP_BLOCK_BIT_COUNT;
use crate::fs::file::{spec_list_owned, spec_list_wf, spec_owned, File, FileDataBlockListEntry};

verus! {

broadcast use Disk::lemma_len;

/// What `spec_list_wf` asks of one data block of a list.
pub open spec fn spec_entry_ok(header: usize, list: Seq<FileDataBlockListEntry>, i: int) -> bool {
    &&& list[i].extension_block_index == i % 72
    &&& i < 72 ==> list[i].extension_block_address == header
    &&& i >= 72 ==> list[i].extension_block_address != header
    &&& list[i].data_block_address != header
}

/// What `spec_list_wf` asks of two data blocks of a list.
pub open spec fn spec_pair_ok(list: Seq<FileDataBlockListEntry>, i: int, j: int) -> bool {
    &&& i / 72 == j / 72 ==> list[i].extension_block_address == list[j].extension_block_address
    &&& i / 72 != j / 72 ==> list[i].extension_block_address != list[j].extension_block_address
    &&& i != j ==> list[i].data_block_address != list[j].data_block_address
    &&& list[i].data_block_address != list[j].extension_block_address
}

/// A list is well laid out just when each of its data blocks and each pair
/// of them is.
pub proof fn lemma_list_wf_by_pairs(header: usize, list: Seq<FileDataBlockListEntry>)
    ensures
        spec_list_wf(header, list) <==> (forall|i: int| 0 <= i < list.len() ==> spec_entry_ok(header, list, i))
            && (forall|i: int, j: int|
            0 <= i < list.len() && 0 <= j < list.len() ==> spec_pair_ok(list, i, j)),
{
    if spec_list_wf(header, list) {
        assert forall|i: int| 0 <= i < list.len() implies spec_entry_ok(header, list, i) by {
            let e = list[i];
        }
        assert forall|i: int, j: int| 0 <= i < list.len() && 0 <= j < list.len() implies spec_pair_ok(
            list,
            i,
            j,
        ) by {
            let a = list[i];
            let b = list[j];
        }
    }
    if (forall|i: int| 0 <= i < list.len() ==> spec_entry_ok(header, list, i)) && (forall|i: int, j: int|
        0 <= i < list.len() && 0 <= j < list.len() ==> spec_pair_ok(list, i, j)) {
        assert forall|i: int| 0 <= i < list.len() implies (#[trigger] list[i]).extension_block_index == i
            % 72 by {
            assert(spec_entry_ok(header, list, i));
        }
        assert forall|i: int| 0 <= i < list.len() && i < 72 implies (
        #[trigger] list[i]).extension_block_address == header by {
            assert(spec_entry_ok(header, list, i));
        }
        assert forall|i: int| 72 <= i < list.len() implies (#[trigger] list[i]).extension_block_address
            != header by {
            assert(spec_entry_ok(header, list, i));
        }
        assert forall|i: int| 0 <= i < list.len() implies (#[trigger] list[i]).data_block_address != header by {
            assert(spec_entry_ok(header, list, i));
        }
        assert forall|i: int, j: int|
            0 <= i < list.len() && 0 <= j < list.len() && i / 72 == j / 72 implies (
        #[trigger] list[i]).extension_block_address == (#[trigger] list[j]).extension_block_address by {
            assert(spec_pair_ok(list, i, j));
        }
        assert forall|i: int, j: int|
            0 <= i < list.len() && 0 <= j < list.len() && i / 72 != j / 72 implies (
        #[trigger] list[i]).extension_block_address != (#[trigger] list[j]).extension_block_address by {
            assert(spec_pair_ok(list, i, j));
        }
        assert forall|i: int, j: int| 0 <= i < list.len() && 0 <= j < list.len() && i != j implies (
        #[trigger] list[i]).data_block_address != (#[trigger] list[j]).data_block_address by {
            assert(spec_pair_ok(list, i, j));
        }
        assert forall|i: int, j: int| 0 <= i < list.len() && 0 <= j < list.len() implies (
        #[trigger] list[i]).data_block_address != (#[trigger] list[j]).extension_block_address by {
            assert(spec_pair_ok(list, i, j));
        }
    }
}

/// Whether the list of data blocks is well laid out.
pub fn check_list_wf(header: LBAAddress, list: &Vec<FileDataBlockListEntry>) -> (res: bool)
    ensures
        res == spec_list_wf(header, list@),
{
    proof {
        lemma_list_wf_by_pairs(header, list@);
    }
    let len: usize = list.len();
    let mut i: usize = 0;
    while i < len
        invariant
            i <= len,
            len == list@.len(),
            forall|k: int| 0 <= k < i ==> spec_entry_ok(header, list@, k),
            forall|k: int, j: int| 0 <= k < i && 0 <= j < len ==> spec_pair_ok(list@, k, j),
        decreases len - i,
    {
        let a = list[i];
        if a.extension_block_index != i % 72 || (i < 72 && a.extension_block_address != header) || (i >= 72
            && a.extension_block_address == header) || a.data_block_address == header {
            assert(!spec_entry_ok(header, list@, i as int));
            return false;
        }
        let mut j: usize = 0;
        while j < len
            invariant
                j <= len,
                i < len,
                len == list@.len(),
                a == list@[i as int],
                forall|k: int| 0 <= k < j ==> spec_pair_ok(list@, i as int, k),
            decreases len - j,
        {
            let b = list[j];
            if (i / 72 == j / 72 && a.extension_block_address != b.extension_block_address) || (i / 72 != j / 72
                && a.extension_block_address == b.extension_block_address) || (i != j && a.data_block_address
                == b.data_block_address) || a.data_block_address == b.extension_block_address {
                assert(!spec_pair_ok(list@, i as int, j as int));
                return false;
            }
            j = j + 1;
        }
        i = i + 1;
    }
    true
}

/// Whether block `address` is marked as free.
fn block_free(disk: &Disk, pages: &Vec<LBAAddress>, address: LBAAddress) -> (res: bool)
    requires
        disk.wf(),
        spec_pages_valid(pages@, disk.spec_block_count()),
    ensures
        res == spec_block_free(disk@, pages@, address as int),
{
    if address < 2 || address >= disk.block_count() || (address - 2) / BITMAP_BLOCK_BIT_COUNT >= pages.len() {
        return false;
    }
    let index: usize = address - 2;
    let page = Block::new(pages[index / BITMAP_BLOCK_BIT_COUNT]);
    let offset: usize = 4 + 4 * (index % BITMAP_BLOCK_BIT_COUNT / 32);
    let bit: u32 = (index % 32) as u32;
    match page.read_u32(disk, offset) {
        Ok(word) => (word >> bit) & 1 == 1,
        Err(_) => false,
    }
}

/// Whether block `address` can be a block of a file.
pub fn check_owned(disk: &Disk, pages: &Vec<LBAAddress>, address: LBAAddress) -> (res: bool)
    requires
        disk.wf(),
        spec_pages_valid(pages@, disk.spec_block_count()),
    ensures
        res == spec_owned(disk@, pages@, address),
{
    if address < 2 || address >= disk.block_count() || (address - 2) / BITMAP_BLOCK_BIT_COUNT >= pages.len() {
        return false;
    }
    let count: usize = pages.len();
    let mut k: usize = 0;
    while k < count
        invariant
            k <= count,
            count == pages@.len(),
            forall|i: int| 0 <= i < k ==> #[trigger] pages@[i] != address,
        decreases count - k,
    {
        if pages[k] == address {
            return false;
        }
        k = k + 1;
    }
    !block_free(disk, pages, address)
}

/// Whether the blocks of a file, and the bitmap blocks, are marked as used.
pub fn check_list_owned(disk: &Disk, pages: &Vec<LBAAddress>, header: LBAAddress, list: &Vec<FileDataBlockListEntry>) -> (res:
    bool)
    requires
        disk.wf(),
        spec_pages_valid(pages@, disk.spec_block_count()),
    ensures
        res == spec_list_owned(disk@, pages@, header, list@),
{
    if !check_owned(disk, pages, header) {
        return false;
    }
    let len: usize = list.len();
    let mut i: usize = 0;
    while i < len
        invariant
            i <= len,
            len == list@.len(),
            disk.wf(),
            spec_pages_valid(pages@, disk.spec_block_count()),
            forall|k: int|
                0 <= k < i ==> spec_owned(disk@, pages@, (#[trigger] list@[k]).data_block_address) && spec_owned(
                    disk@,
                    pages@,
                    list@[k].extension_block_address,
                ),
        decreases len - i,
    {
        if !check_owned(disk, pages, list[i].data_block_address) || !check_owned(
            disk,
            pages,
            list[i].extension_block_address,
        ) {
            assert(!(spec_owned(disk@, pages@, list@[i as int].data_block_address) && spec_owned(
                disk@,
                pages@,
                list@[i as int].extension_block_address,
            )));
            return false;
        }
        i = i + 1;
    }
    let count: usize = pages.len();
    let mut k: usize = 0;
    while k < count
        invariant
            k <= count,
            count == pages@.len(),
            disk.wf(),
            spec_pages_valid(pages@, disk.spec_block_count()),
            forall|i: int| 0 <= i < k ==> !spec_block_free(disk@, pages@, #[trigger] pages@[i] as int),
        decreases count - k,
    {
        if block_free(disk, pages, pages[k]) {
            return false;
        }
        k = k + 1;
    }
    true
}

/// Whether a file of `size` bytes with the data blocks `list` is a file
/// of the volume in `image`: it has no more data blocks than the image has
/// blocks, and as many as its size needs; they are well laid out; and they
/// are marked as used.
pub open spec fn spec_file_valid(
    image: Seq<u8>,
    pages: Seq<usize>,
    header: usize,
    list: Seq<FileDataBlockListEntry>,
    size: usize,
    block_data_size: usize,
) -> bool {
    &&& list.len() <= spec_block_count(image)
    &&& size <= list.len() * block_data_size
    &&& list.len() > 0 ==> size > (list.len() - 1) * block_data_size
    &&& spec_list_wf(header, list)
    &&& spec_list_owned(image, pages, header, list)
}

impl File {
    /// Whether the file can be read on the volume `fs`, as
    /// `spec_file_readable` says.
    pub fn check_readable(&self, fs: &AmigaDos) -> (res: bool)
        requires
            fs.wf(),
            0 < self.block_data_size <= 512,
        ensures
            res == crate::fs::file::spec_file_readable(
                fs@,
                self.block_data_list@,
                self.size,
                self.block_data_size,
            ),
    {
        let len: usize = self.block_data_list.len();
        let block_count: usize = fs.inner.disk.block_count();
        if len > block_count {
            return false;
        }
        assert(len * self.block_data_size <= 3520 * 512) by (nonlinear_arith)
            requires
                len <= 3520,
                self.block_data_size <= 512,
        ;
        let total: usize = len * self.block_data_size;
        if self.size > total {
            return false;
        }
        assert((len - 1) * self.block_data_size == len * self.block_data_size - self.block_data_size)
            by (nonlinear_arith);
        if len > 0 && self.size + self.block_data_size <= total {
            return false;
        }
        let mut i: usize = 0;
        while i < len
            invariant
                i <= len,
                len == self.block_data_list@.len(),
                block_count == spec_block_count(fs@),
                forall|k: int| 0 <= k < i ==> (#[trigger] self.block_data_list@[k]).data_block_address < block_count,
            decreases len - i,
        {
            if self.block_data_list[i].data_block_address >= block_count {
                return false;
            }
            i = i + 1;
        }
        true
    }

    /// Whether the file is a file of the volume `fs`, as `spec_file_valid`
    /// says.
    pub fn check(&self, fs: &AmigaDos) -> (res: bool)
        requires
            fs.wf(),
            0 < self.block_data_size <= 512,
        ensures
            res == spec_file_valid(
                fs@,
                fs.inner.spec_pages(),
                self.header_block_address,
                self.block_data_list@,
                self.size,
                self.block_data_size,
            ),
    {
        let len: usize = self.block_data_list.len();
        if len > fs.inner.disk.block_count() {
            return false;
        }
        assert(len * self.block_data_size <= 3520 * 512) by (nonlinear_arith)
            requires
                len <= 3520,
                self.block_data_size <= 512,
        ;
        let total: usize = len * self.block_data_size;
        if self.size > total {
            return false;
        }
        assert((len - 1) * self.block_data_size == len * self.block_data_size - self.block_data_size)
            by (nonlinear_arith);
        if len > 0 && self.size + self.block_data_size <= total {
            return false;
        }
        if !check_list_wf(self.header_block_address, &self.block_data_list) {
            return false;
        }
        check_list_owned(
            &fs.inner.disk,
            &fs.inner.bitmap_block_addresses,
            self.header_block_address,
            &self.block_data_list,
        )
    }
}

} // verus!
