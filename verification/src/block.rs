use vstd::prelude::*;
use vstd::string::StringSliceAdditionalSpecFns;
use vstd::utf8::{decode_utf8, valid_utf8};

use crate::disk::{Disk, LBAAddress, BLOCK_SIZE};
use crate::errors::Error;

verus! {

broadcast use Disk::lemma_len;

/// The number that four bytes spell in big-endian order.
pub open spec fn spec_u32_from_be_bytes(bytes: Seq<u8>) -> u32
    recommends
        bytes.len() == 4,
{
    (bytes[0] * 0x100_0000 + bytes[1] * 0x1_0000 + bytes[2] * 0x100 + bytes[3]) as u32
}

/// The four bytes that spell `value` in big-endian order.
pub open spec fn spec_u32_to_be_bytes(value: u32) -> Seq<u8> {
    seq![
        (value / 0x100_0000) as u8,
        (value / 0x1_0000 % 0x100) as u8,
        (value / 0x100 % 0x100) as u8,
        (value % 0x100) as u8,
    ]
}

/// Spelling a number and reading it back gives the number again.
pub broadcast proof fn lemma_u32_be_roundtrip(value: u32)
    ensures
        #[trigger] spec_u32_from_be_bytes(spec_u32_to_be_bytes(value)) == value,
        spec_u32_to_be_bytes(value).len() == 4,
{
}

/// Reading four bytes as a number and spelling it gives the bytes again.
pub broadcast proof fn lemma_u32_be_bytes_roundtrip(bytes: Seq<u8>)
    requires
        bytes.len() == 4,
    ensures
        #[trigger] spec_u32_to_be_bytes(spec_u32_from_be_bytes(bytes)) == bytes,
{
    let b0: u8 = bytes[0];
    let b1: u8 = bytes[1];
    let b2: u8 = bytes[2];
    let b3: u8 = bytes[3];
    let value: u32 = spec_u32_from_be_bytes(bytes);
    assert(value == (b0 as u32) * 0x100_0000 + (b1 as u32) * 0x1_0000 + (b2 as u32) * 0x100 + (b3 as u32));
    assert(value / 0x100_0000 == b0 && value / 0x1_0000 % 0x100 == b1 && value / 0x100 % 0x100 == b2
        && value % 0x100 == b3) by (bit_vector)
        requires
            value == (b0 as u32) * 0x100_0000 + (b1 as u32) * 0x1_0000 + (b2 as u32) * 0x100 + (b3 as u32),
    ;
    assert(spec_u32_to_be_bytes(value) =~= bytes);
}

pub fn u32_from_be_bytes(b0: u8, b1: u8, b2: u8, b3: u8) -> (value: u32)
    ensures
        value == spec_u32_from_be_bytes(seq![b0, b1, b2, b3]),
{
    (b0 as u32) * 0x100_0000 + (b1 as u32) * 0x1_0000 + (b2 as u32) * 0x100 + (b3 as u32)
}

pub fn u32_to_be_bytes(value: u32) -> (bytes: [u8; 4])
    ensures
        bytes@ == spec_u32_to_be_bytes(value),
{
    let bytes: [u8; 4] = [
        (value / 0x100_0000) as u8,
        (value / 0x1_0000 % 0x100) as u8,
        (value / 0x100 % 0x100) as u8,
        (value % 0x100) as u8,
    ];
    assert(bytes@ =~= spec_u32_to_be_bytes(value));
    bytes
}

/// The `len` bytes at offset `offset` of block `address` of the image.
pub open spec fn spec_read_bytes(image: Seq<u8>, address: int, offset: int, len: int) -> Seq<u8> {
    image.subrange(address * 512 + offset, address * 512 + offset + len)
}

/// The byte at offset `offset` of block `address` of the image.
pub open spec fn spec_read_u8(image: Seq<u8>, address: int, offset: int) -> u8 {
    image[address * 512 + offset]
}

/// The big-endian number at offset `offset` of block `address` of the image.
pub open spec fn spec_read_u32(image: Seq<u8>, address: int, offset: int) -> u32 {
    spec_u32_from_be_bytes(spec_read_bytes(image, address, offset, 4))
}

/// The image with `bytes` written at offset `offset` of block `address`.
pub open spec fn spec_write_bytes(image: Seq<u8>, address: int, offset: int, bytes: Seq<u8>) -> Seq<u8> {
    Seq::new(
        image.len(),
        |i: int|
            if address * 512 + offset <= i < address * 512 + offset + bytes.len() {
                bytes[i - (address * 512 + offset)]
            } else {
                image[i]
            },
    )
}

/// The image with the byte `value` written at offset `offset` of block
/// `address`.
pub open spec fn spec_write_u8(image: Seq<u8>, address: int, offset: int, value: u8) -> Seq<u8> {
    spec_write_bytes(image, address, offset, seq![value])
}

/// The image with `value` written as a big-endian number at offset `offset`
/// of block `address`.
pub open spec fn spec_write_u32(image: Seq<u8>, address: int, offset: int, value: u32) -> Seq<u8> {
    spec_write_bytes(image, address, offset, spec_u32_to_be_bytes(value))
}

/// The image with the bytes `from..to` of block `address` set to `value`.
pub open spec fn spec_fill(image: Seq<u8>, address: int, value: u8, from: int, to: int) -> Seq<u8> {
    spec_write_bytes(image, address, from, Seq::new((to - from) as nat, |i: int| value))
}

/// Why an access to `len` bytes at offset `offset` of block `address` is
/// refused, if it is: the block must lie in the image, and the bytes in the
/// block.
pub open spec fn spec_access_error(block_count: nat, address: usize, offset: usize, len: usize) -> Option<
    Error,
> {
    if address >= block_count {
        Some(Error::DiskInvalidLBAAddressError(address))
    } else if offset + len > 512 {
        Some(Error::DiskInvalidBlockOffsetError(offset))
    } else {
        None
    }
}

/// The `count` big-endian numbers at offset `offset` of block `address`.
pub open spec fn spec_read_u32s(image: Seq<u8>, address: int, offset: int, count: nat) -> Seq<u32> {
    Seq::new(count, |i: int| spec_read_u32(image, address, offset + 4 * i))
}

/// Why an access to `count` numbers at offset `offset` of block `address`
/// is refused, if it is.
pub open spec fn spec_access_error_u32s(block_count: nat, address: usize, offset: usize, count: usize) -> Option<
    Error,
> {
    if address >= block_count {
        Some(Error::DiskInvalidLBAAddressError(address))
    } else if offset + 4 * count > 512 {
        Some(Error::DiskInvalidBlockOffsetError(offset))
    } else {
        None
    }
}

/// Why filling the bytes `from..to` of block `address` is refused, if it is.
pub open spec fn spec_fill_error(block_count: nat, address: usize, from: usize, to: usize) -> Option<Error> {
    if address >= block_count {
        Some(Error::DiskInvalidLBAAddressError(address))
    } else if to > 512 {
        Some(Error::DiskInvalidBlockOffsetError(to))
    } else if from > to {
        Some(Error::DiskInvalidBlockOffsetError(from))
    } else {
        None
    }
}

/// Decodes bytes as UTF-8 text: std's `String::from_utf8` gives the text
/// when the bytes are valid UTF-8 and refuses them otherwise.
#[verifier::external_body]
pub(crate) fn string_from_utf8(bytes: Vec<u8>) -> (text: Option<String>)
    ensures
        valid_utf8(bytes@) <==> text is Some,
        text matches Some(s) ==> s@ == decode_utf8(bytes@),
{
    String::from_utf8(bytes).ok()
}

/// One block of an image, named by its address. Every access names the
/// image it works on.
pub struct Block {
    pub address: LBAAddress,
}

impl Block {
    pub fn new(address: LBAAddress) -> (block: Block)
        ensures
            block.address == address,
    {
        Self { address }
    }

    /// The 512 bytes of the block.
    fn bytes<'a>(&self, disk: &'a Disk) -> (res: Result<&'a [u8], Error>)
        requires
            disk.wf(),
        ensures
            self.address < disk.spec_block_count() ==> res is Ok && res->Ok_0@.len() == 512 && res->Ok_0@
                == spec_read_bytes(disk@, self.address as int, 0, 512),
            self.address >= disk.spec_block_count() ==> res == Err::<&[u8], Error>(
                Error::DiskInvalidLBAAddressError(self.address),
            ),
    {
        disk.blocks(self.address, 1)
    }

    pub fn read_u8(&self, disk: &Disk, offset: usize) -> (res: Result<u8, Error>)
        requires
            disk.wf(),
        ensures
            res == match spec_access_error(disk.spec_block_count(), self.address, offset, 1) {
                Some(e) => Err::<u8, Error>(e),
                None => Ok(spec_read_u8(disk@, self.address as int, offset as int)),
            },
    {
        match self.bytes(disk) {
            Ok(disk_data) => {
                if offset < disk_data.len() {
                    Ok(disk_data[offset])
                } else {
                    Err(Error::DiskInvalidBlockOffsetError(offset))
                }
            },
            Err(e) => Err(e),
        }
    }

    /// Fills `data` with the bytes of the block from `offset` on.
    pub fn read_u8_array(&self, disk: &Disk, offset: usize, data: &mut [u8]) -> (res: Result<(), Error>)
        requires
            disk.wf(),
        ensures
            final(data)@.len() == old(data)@.len(),
            res == match spec_access_error(disk.spec_block_count(), self.address, offset, old(data).len()) {
                Some(e) => Err::<(), Error>(e),
                None => Ok(()),
            },
            res is Ok ==> final(data)@ == spec_read_bytes(
                disk@,
                self.address as int,
                offset as int,
                old(data)@.len() as int,
            ),
            res is Err ==> final(data)@ == old(data)@,
    {
        match self.bytes(disk) {
            Ok(disk_data) => {
                let len: usize = data.len();
                if offset <= disk_data.len() && len <= disk_data.len() - offset {
                    let mut i: usize = 0;
                    while i < len
                        invariant
                            i <= len,
                            len == data@.len(),
                            disk_data@.len() == 512,
                            offset + len <= 512,
                            forall|j: int| 0 <= j < i ==> data@[j] == disk_data@[offset + j],
                        decreases len - i,
                    {
                        data[i] = disk_data[offset + i];
                        i = i + 1;
                    }
                    assert(data@ =~= spec_read_bytes(disk@, self.address as int, offset as int, len as int));
                    Ok(())
                } else {
                    Err(Error::DiskInvalidBlockOffsetError(offset))
                }
            },
            Err(e) => Err(e),
        }
    }

    pub fn read_u8_vector(&self, disk: &Disk, offset: usize, len: usize) -> (res: Result<Vec<u8>, Error>)
        requires
            disk.wf(),
        ensures
            match spec_access_error(disk.spec_block_count(), self.address, offset, len) {
                Some(e) => res == Err::<Vec<u8>, Error>(e),
                None => res is Ok && res->Ok_0@ == spec_read_bytes(
                    disk@,
                    self.address as int,
                    offset as int,
                    len as int,
                ),
            },
    {
        match self.bytes(disk) {
            Ok(disk_data) => {
                if offset <= disk_data.len() && len <= disk_data.len() - offset {
                    let mut v: Vec<u8> = Vec::new();
                    let mut i: usize = 0;
                    while i < len
                        invariant
                            i <= len,
                            v@.len() == i,
                            disk_data@.len() == 512,
                            offset + len <= 512,
                            forall|j: int| 0 <= j < i ==> v@[j] == disk_data@[offset + j],
                        decreases len - i,
                    {
                        v.push(disk_data[offset + i]);
                        i = i + 1;
                    }
                    assert(v@ =~= spec_read_bytes(disk@, self.address as int, offset as int, len as int));
                    Ok(v)
                } else {
                    Err(Error::DiskInvalidBlockOffsetError(offset))
                }
            },
            Err(e) => Err(e),
        }
    }

    pub fn write_u8(&self, disk: &mut Disk, offset: usize, value: u8) -> (res: Result<(), Error>)
        requires
            old(disk).wf(),
        ensures
            final(disk).wf(),
            final(disk).spec_disk_type() == old(disk).spec_disk_type(),
            match spec_access_error(old(disk).spec_block_count(), self.address, offset, 1) {
                Some(e) => res == Err::<(), Error>(e) && final(disk)@ == old(disk)@,
                None => res == Ok::<(), Error>(()) && final(disk)@ == spec_write_u8(
                    old(disk)@,
                    self.address as int,
                    offset as int,
                    value,
                ),
            },
    {
        match disk.blocks_mut(self.address, 1) {
            Ok(disk_data) => {
                if offset < disk_data.len() {
                    disk_data[offset] = value;
                    proof {
                        assert(final(disk)@ =~= spec_write_u8(
                            old(disk)@,
                            self.address as int,
                            offset as int,
                            value,
                        ));
                    }
                    Ok(())
                } else {
                    proof {
                        assert(final(disk)@ =~= old(disk)@);
                    }
                    Err(Error::DiskInvalidBlockOffsetError(offset))
                }
            },
            Err(e) => Err(e),
        }
    }

    /// Writes `values` into the block from `offset` on.
    pub fn write_u8_array(&self, disk: &mut Disk, offset: usize, values: &[u8]) -> (res: Result<(), Error>)
        requires
            old(disk).wf(),
        ensures
            final(disk).wf(),
            final(disk).spec_disk_type() == old(disk).spec_disk_type(),
            match spec_access_error(old(disk).spec_block_count(), self.address, offset, values.len()) {
                Some(e) => res == Err::<(), Error>(e) && final(disk)@ == old(disk)@,
                None => res == Ok::<(), Error>(()) && final(disk)@ == spec_write_bytes(
                    old(disk)@,
                    self.address as int,
                    offset as int,
                    values@,
                ),
            },
    {
        match disk.blocks_mut(self.address, 1) {
            Ok(disk_data) => {
                let size: usize = values.len();
                let ghost before: Seq<u8> = disk_data@;
                if offset <= disk_data.len() && size <= disk_data.len() - offset {
                    let mut i: usize = 0;
                    while i < size
                        invariant
                            i <= size,
                            size == values@.len(),
                            disk_data@.len() == 512,
                            before.len() == 512,
                            offset + size <= 512,
                            forall|j: int|
                                0 <= j < 512 ==> disk_data@[j] == if offset <= j < offset + i {
                                    values@[j - offset]
                                } else {
                                    before[j]
                                },
                        decreases size - i,
                    {
                        disk_data[offset + i] = values[i];
                        i = i + 1;
                    }
                    proof {
                        assert(final(disk)@ =~= spec_write_bytes(
                            old(disk)@,
                            self.address as int,
                            offset as int,
                            values@,
                        ));
                    }
                    Ok(())
                } else {
                    proof {
                        assert(final(disk)@ =~= old(disk)@);
                    }
                    Err(Error::DiskInvalidBlockOffsetError(offset))
                }
            },
            Err(e) => Err(e),
        }
    }

    pub fn read_u32(&self, disk: &Disk, offset: usize) -> (res: Result<u32, Error>)
        requires
            disk.wf(),
        ensures
            res == match spec_access_error(disk.spec_block_count(), self.address, offset, 4) {
                Some(e) => Err::<u32, Error>(e),
                None => Ok(spec_read_u32(disk@, self.address as int, offset as int)),
            },
    {
        match self.bytes(disk) {
            Ok(disk_data) => {
                if offset <= disk_data.len() && 4 <= disk_data.len() - offset {
                    let value: u32 = u32_from_be_bytes(
                        disk_data[offset],
                        disk_data[offset + 1],
                        disk_data[offset + 2],
                        disk_data[offset + 3],
                    );
                    assert(spec_read_bytes(disk@, self.address as int, offset as int, 4) =~= seq![
                        disk_data@[offset as int],
                        disk_data@[offset + 1],
                        disk_data@[offset + 2],
                        disk_data@[offset + 3],
                    ]);
                    Ok(value)
                } else {
                    Err(Error::DiskInvalidBlockOffsetError(offset))
                }
            },
            Err(e) => Err(e),
        }
    }

    pub fn write_u32(&self, disk: &mut Disk, offset: usize, value: u32) -> (res: Result<(), Error>)
        requires
            old(disk).wf(),
        ensures
            final(disk).wf(),
            final(disk).spec_disk_type() == old(disk).spec_disk_type(),
            match spec_access_error(old(disk).spec_block_count(), self.address, offset, 4) {
                Some(e) => res == Err::<(), Error>(e) && final(disk)@ == old(disk)@,
                None => res == Ok::<(), Error>(()) && final(disk)@ == spec_write_u32(
                    old(disk)@,
                    self.address as int,
                    offset as int,
                    value,
                ),
            },
    {
        let bytes: [u8; 4] = u32_to_be_bytes(value);
        self.write_u8_array(disk, offset, bytes.as_slice())
    }

    /// Sets the bytes `from..to` of the block to `value`.
    pub fn fill(&self, disk: &mut Disk, value: u8, from: usize, to: usize) -> (res: Result<(), Error>)
        requires
            old(disk).wf(),
        ensures
            final(disk).wf(),
            final(disk).spec_disk_type() == old(disk).spec_disk_type(),
            match spec_fill_error(old(disk).spec_block_count(), self.address, from, to) {
                Some(e) => res == Err::<(), Error>(e) && final(disk)@ == old(disk)@,
                None => res == Ok::<(), Error>(()) && final(disk)@ == spec_fill(
                    old(disk)@,
                    self.address as int,
                    value,
                    from as int,
                    to as int,
                ),
            },
    {
        match disk.blocks_mut(self.address, 1) {
            Ok(disk_data) => {
                let ghost before: Seq<u8> = disk_data@;
                if to > disk_data.len() {
                    proof {
                        assert(final(disk)@ =~= old(disk)@);
                    }
                    Err(Error::DiskInvalidBlockOffsetError(to))
                } else if from > to {
                    proof {
                        assert(final(disk)@ =~= old(disk)@);
                    }
                    Err(Error::DiskInvalidBlockOffsetError(from))
                } else {
                    let mut i: usize = from;
                    while i < to
                        invariant
                            from <= i <= to,
                            disk_data@.len() == 512,
                            before.len() == 512,
                            to <= 512,
                            forall|j: int|
                                0 <= j < 512 ==> disk_data@[j] == if from <= j < i {
                                    value
                                } else {
                                    before[j]
                                },
                        decreases to - i,
                    {
                        disk_data[i] = value;
                        i = i + 1;
                    }
                    proof {
                        assert(final(disk)@ =~= spec_fill(
                            old(disk)@,
                            self.address as int,
                            value,
                            from as int,
                            to as int,
                        ));
                    }
                    Ok(())
                }
            },
            Err(e) => Err(e),
        }
    }

    /// Sets every byte of the block to zero.
    pub fn clear(&self, disk: &mut Disk) -> (res: Result<(), Error>)
        requires
            old(disk).wf(),
        ensures
            final(disk).wf(),
            final(disk).spec_disk_type() == old(disk).spec_disk_type(),
            self.address >= old(disk).spec_block_count() ==> res == Err::<(), Error>(
                Error::DiskInvalidLBAAddressError(self.address),
            ) && final(disk)@ == old(disk)@,
            self.address < old(disk).spec_block_count() ==> res == Ok::<(), Error>(()) && final(disk)@
                == spec_fill(old(disk)@, self.address as int, 0, 0, 512),
    {
        self.fill(disk, 0, 0, BLOCK_SIZE)
    }

    /// Fills `values` with the big-endian numbers of the block from `offset`
    /// on.
    pub fn read_u32_array(&self, disk: &Disk, offset: usize, values: &mut [u32]) -> (res: Result<(), Error>)
        requires
            disk.wf(),
        ensures
            final(values)@.len() == old(values)@.len(),
            res == match spec_access_error_u32s(disk.spec_block_count(), self.address, offset, old(values).len()) {
                Some(e) => Err::<(), Error>(e),
                None => Ok(()),
            },
            res is Ok ==> final(values)@ == spec_read_u32s(
                disk@,
                self.address as int,
                offset as int,
                old(values)@.len(),
            ),
            res is Err ==> final(values)@ == old(values)@,
    {
        if self.address >= disk.block_count() {
            return Err(Error::DiskInvalidLBAAddressError(self.address));
        }
        let len: usize = values.len();
        if offset > BLOCK_SIZE || len > (BLOCK_SIZE - offset) / 4 {
            return Err(Error::DiskInvalidBlockOffsetError(offset));
        }
        let mut i: usize = 0;
        while i < len
            invariant
                i <= len,
                len == values@.len(),
                disk.wf(),
                self.address < disk.spec_block_count(),
                offset + 4 * len <= 512,
                forall|j: int| 0 <= j < i ==> values@[j] == spec_read_u32(disk@, self.address as int, offset + 4 * j),
            decreases len - i,
        {
            match self.read_u32(disk, offset + 4 * i) {
                Ok(value) => {
                    values[i] = value;
                },
                Err(_) => {
                    assert(false);
                },
            }
            i = i + 1;
        }
        assert(values@ =~= spec_read_u32s(disk@, self.address as int, offset as int, len as nat));
        Ok(())
    }

    pub fn read_u32_vector(&self, disk: &Disk, offset: usize, len: usize) -> (res: Result<Vec<u32>, Error>)
        requires
            disk.wf(),
        ensures
            match spec_access_error_u32s(disk.spec_block_count(), self.address, offset, len) {
                Some(e) => res == Err::<Vec<u32>, Error>(e),
                None => res is Ok && res->Ok_0@ == spec_read_u32s(
                    disk@,
                    self.address as int,
                    offset as int,
                    len as nat,
                ),
            },
    {
        if self.address >= disk.block_count() {
            return Err(Error::DiskInvalidLBAAddressError(self.address));
        }
        if offset > BLOCK_SIZE || len > (BLOCK_SIZE - offset) / 4 {
            return Err(Error::DiskInvalidBlockOffsetError(offset));
        }
        let mut v: Vec<u32> = Vec::new();
        let mut i: usize = 0;
        while i < len
            invariant
                i <= len,
                v@.len() == i,
                disk.wf(),
                self.address < disk.spec_block_count(),
                offset + 4 * len <= 512,
                forall|j: int| 0 <= j < i ==> v@[j] == spec_read_u32(disk@, self.address as int, offset + 4 * j),
            decreases len - i,
        {
            match self.read_u32(disk, offset + 4 * i) {
                Ok(value) => {
                    v.push(value);
                },
                Err(_) => {
                    assert(false);
                },
            }
            i = i + 1;
        }
        assert(v@ =~= spec_read_u32s(disk@, self.address as int, offset as int, len as nat));
        Ok(v)
    }

    /// The `len` bytes at `offset`, as UTF-8 text.
    pub fn read_string(&self, disk: &Disk, offset: usize, len: usize) -> (res: Result<String, Error>)
        requires
            disk.wf(),
        ensures
            match spec_access_error(disk.spec_block_count(), self.address, offset, len) {
                Some(e) => res == Err::<String, Error>(e),
                None => {
                    let bytes = spec_read_bytes(disk@, self.address as int, offset as int, len as int);
                    if valid_utf8(bytes) {
                        res is Ok && res->Ok_0@ == decode_utf8(bytes)
                    } else {
                        res == Err::<String, Error>(Error::InvalidStringError)
                    }
                },
            },
    {
        match self.read_u8_vector(disk, offset, len) {
            Ok(bytes) => {
                match string_from_utf8(bytes) {
                    Some(s) => Ok(s),
                    None => Err(Error::InvalidStringError),
                }
            },
            Err(e) => Err(e),
        }
    }

    /// Writes the UTF-8 bytes of `s` into the block from `offset` on.
    pub fn write_string(&self, disk: &mut Disk, offset: usize, s: &str) -> (res: Result<(), Error>)
        requires
            old(disk).wf(),
        ensures
            final(disk).wf(),
            final(disk).spec_disk_type() == old(disk).spec_disk_type(),
            match spec_access_error(old(disk).spec_block_count(), self.address, offset, s.spec_bytes().len() as usize) {
                Some(e) => res == Err::<(), Error>(e) && final(disk)@ == old(disk)@,
                None => res == Ok::<(), Error>(()) && final(disk)@ == spec_write_bytes(
                    old(disk)@,
                    self.address as int,
                    offset as int,
                    s.spec_bytes(),
                ),
            },
    {
        self.write_u8_array(disk, offset, s.as_bytes())
    }
}

} // verus!
