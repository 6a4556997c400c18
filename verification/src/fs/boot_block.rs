use vstd::prelude::*;

use crate::block::{spec_read_u32, spec_u32_from_be_bytes, spec_u32_to_be_bytes, u32_from_be_bytes, u32_to_be_bytes};
use crate::disk::{spec_blocks, spec_replace_blocks, Disk, LBAAddress};
use crate::errors::Error;
use crate::fs::amiga_dos_options::{CacheMode, FilesystemType, InternationalMode};
use crate::fs::block::spec_low_u32;
use crate::fs::block::low_u32;
use crate::fs::checksum::{spec_word, spec_words_sum};
use crate::fs::constants::{BOOT_BLOCK_CHECKSUM_OFFSET, BOOT_BLOCK_FLAGS_OFFSET, BOOT_BLOCK_ROOT_BLOCK_OFFSET};

verus! {

broadcast use Disk::lemma_len;

/// The sum of the first `count` words of `data`, the checksum word (the
/// second word) left out, as 32 bits hold it: a carry out of the top bit
/// is lost.
#[verifier::opaque]
pub open spec fn spec_boot_sum(data: Seq<u8>, count: nat) -> u32 {
    (spec_words_sum(data, 1, count) % 0x1_0000_0000) as u32
}

/// The checksum of a boot block, given as the bytes of its two sectors: the
/// complement of the sum of its other words.
pub open spec fn spec_boot_checksum(data: Seq<u8>) -> u32 {
    (0xffff_ffff - spec_boot_sum(data, data.len() / 4)) as u32
}

/// The sum leaves the checksum word out, so changing that word does not
/// change the checksum.
pub proof fn lemma_boot_sum_agree(a: Seq<u8>, b: Seq<u8>, count: nat)
    requires
        forall|i: int| 0 <= i < count && i != 1 ==> spec_word(a, i) == spec_word(b, i),
    ensures
        spec_boot_sum(a, count) == spec_boot_sum(b, count),
{
    reveal(spec_boot_sum);
    crate::fs::checksum::lemma_words_sum_agree(a, b, 1, count);
}

fn compute_checksum(data: &[u8]) -> (checksum: u32)
    ensures
        checksum == spec_boot_checksum(data@),
{
    let len: usize = data.len();
    let count: usize = len / 4;
    let mut checksum: u32 = 0;
    let mut i: usize = 0;
    while i < count
        invariant
            i <= count,
            len == data@.len(),
            count == len / 4,
            checksum == spec_words_sum(data@, 1, i as nat) % 0x1_0000_0000,
        decreases count - i,
    {
        if i != BOOT_BLOCK_CHECKSUM_OFFSET / 4 {
            let v: u32 = u32_from_be_bytes(data[4 * i], data[4 * i + 1], data[4 * i + 2], data[4 * i + 3]);
            assert(data@.subrange(4 * i, 4 * i + 4) =~= seq![
                data@[4 * i],
                data@[4 * i + 1],
                data@[4 * i + 2],
                data@[4 * i + 3],
            ]);
            checksum = checksum.wrapping_add(v);
        }
        i = i + 1;
    }
    proof {
        reveal(spec_boot_sum);
    }
    u32::MAX - checksum
}

/// Whether the image starts with a boot block: the letters `DOS`, and a
/// checksum word that is zero (unchecked) or the checksum of the two
/// sectors.
pub open spec fn spec_boot_block_valid(image: Seq<u8>) -> bool {
    let data = spec_blocks(image, 0, 2);
    &&& data[0] == 0x44 && data[1] == 0x4f && data[2] == 0x53
    &&& (spec_word(data, 1) == 0 || spec_word(data, 1) == spec_boot_checksum(data))
}

/// The flag byte of the boot block.
pub open spec fn spec_boot_flags(image: Seq<u8>) -> u8 {
    image[3]
}

/// The address of the root block, as the boot block gives it.
pub open spec fn spec_root_block_address(image: Seq<u8>) -> usize {
    spec_read_u32(image, 0, 8) as usize
}

/// The flavour that a flag byte stands for.
pub open spec fn spec_filesystem_type(flags: u8) -> FilesystemType {
    if flags & 0x01 != 0 {
        FilesystemType::FFS
    } else {
        FilesystemType::OFS
    }
}

/// The international mode that a flag byte stands for.
pub open spec fn spec_international_mode(flags: u8) -> InternationalMode {
    if flags & 0x02 != 0 {
        InternationalMode::On
    } else {
        InternationalMode::Off
    }
}

/// The cache mode that a flag byte stands for.
pub open spec fn spec_cache_mode(flags: u8) -> CacheMode {
    if flags & 0x04 != 0 {
        CacheMode::On
    } else {
        CacheMode::Off
    }
}

/// The flag byte that stands for the three settings.
pub open spec fn spec_flags(
    filesystem_type: FilesystemType,
    international_mode: InternationalMode,
    cache_mode: CacheMode,
) -> u8 {
    cache_mode.spec_flag() | filesystem_type.spec_flag() | international_mode.spec_flag()
}

/// Each setting is read back from the flag byte that stands for it.
pub proof fn lemma_flags_roundtrip(
    filesystem_type: FilesystemType,
    international_mode: InternationalMode,
    cache_mode: CacheMode,
)
    ensures
        spec_filesystem_type(spec_flags(filesystem_type, international_mode, cache_mode)) == filesystem_type,
        spec_international_mode(spec_flags(filesystem_type, international_mode, cache_mode))
            == international_mode,
        spec_cache_mode(spec_flags(filesystem_type, international_mode, cache_mode)) == cache_mode,
{
    let f: u8 = filesystem_type.spec_flag();
    let i: u8 = international_mode.spec_flag();
    let c: u8 = cache_mode.spec_flag();
    assert((((c | f | i) & 0x01 != 0) <==> f == 0x01) && (((c | f | i) & 0x02 != 0) <==> i == 0x02) && (((c | f
        | i) & 0x04 != 0) <==> c == 0x04)) by (bit_vector)
        requires
            f == 0 || f == 0x01,
            i == 0 || i == 0x02,
            c == 0 || c == 0x04,
    ;
}

/// What the boot block of an image says, read once the block has been
/// checked.
#[derive(Clone, Copy, Debug)]
pub struct BootBlockReader {
    flags: u8,
    root_block_address: LBAAddress,
}

impl BootBlockReader {
    /// The flag byte that was read.
    pub closed spec fn spec_flags(&self) -> u8 {
        self.flags
    }

    /// The root block address that was read.
    pub closed spec fn spec_root_block_address(&self) -> usize {
        self.root_block_address
    }

    /// Reads the boot block of an image, or fails if the image does not
    /// start with a valid one.
    pub fn try_from_disk(disk: &Disk) -> (res: Result<BootBlockReader, Error>)
        requires
            disk.wf(),
        ensures
            match res {
                Ok(reader) => spec_boot_block_valid(disk@) && reader.spec_flags() == spec_boot_flags(disk@)
                    && reader.spec_root_block_address() == spec_root_block_address(disk@),
                Err(e) => !spec_boot_block_valid(disk@) && e == Error::CorruptedImageFile,
            },
    {
        match disk.blocks(0, 2) {
            Ok(data) => {
                if data[0] != 0x44 || data[1] != 0x4f || data[2] != 0x53 {
                    return Err(Error::CorruptedImageFile);
                }
                let checksum: u32 = compute_checksum(data);
                let expected: u32 = u32_from_be_bytes(data[4], data[5], data[6], data[7]);
                assert(data@.subrange(4, 8) =~= seq![data@[4], data@[5], data@[6], data@[7]]);
                if expected != 0 && checksum != expected {
                    return Err(Error::CorruptedImageFile);
                }
                let root: u32 = u32_from_be_bytes(data[8], data[9], data[10], data[11]);
                assert(disk@.subrange(8, 12) =~= seq![data@[8], data@[9], data@[10], data@[11]]);
                Ok(BootBlockReader { flags: data[BOOT_BLOCK_FLAGS_OFFSET], root_block_address: root as usize })
            },
            Err(_) => Err(Error::CorruptedImageFile),
        }
    }

    pub fn get_filesystem_type(&self) -> (res: FilesystemType)
        ensures
            res == spec_filesystem_type(self.spec_flags()),
    {
        if self.flags & 0x01 != 0 {
            FilesystemType::FFS
        } else {
            FilesystemType::OFS
        }
    }

    pub fn get_international_mode(&self) -> (res: InternationalMode)
        ensures
            res == spec_international_mode(self.spec_flags()),
    {
        if self.flags & 0x02 != 0 {
            InternationalMode::On
        } else {
            InternationalMode::Off
        }
    }

    pub fn get_cache_mode(&self) -> (res: CacheMode)
        ensures
            res == spec_cache_mode(self.spec_flags()),
    {
        if self.flags & 0x04 != 0 {
            CacheMode::On
        } else {
            CacheMode::Off
        }
    }

    pub fn get_root_block_address(&self) -> (res: LBAAddress)
        ensures
            res == self.spec_root_block_address(),
    {
        self.root_block_address
    }
}

/// The two sectors of a boot block without boot code: the letters `DOS`,
/// the flag byte, the checksum, the address of the root block, and zeros.
#[verifier::opaque]
pub open spec fn spec_boot_block(flags: u8, root_block_address: u32) -> Seq<u8> {
    let root = spec_u32_to_be_bytes(root_block_address);
    let unsummed = Seq::new(
        1024,
        |i: int|
            if i == 0 {
                0x44u8
            } else if i == 1 {
                0x4fu8
            } else if i == 2 {
                0x53u8
            } else if i == 3 {
                flags
            } else if 8 <= i < 12 {
                root[i - 8]
            } else {
                0u8
            },
    );
    let checksum = spec_u32_to_be_bytes(spec_boot_checksum(unsummed));
    Seq::new(
        1024,
        |i: int|
            if 4 <= i < 8 {
                checksum[i - 4]
            } else {
                unsummed[i]
            },
    )
}

/// The address at which the root block is put: the one asked for, or the
/// middle of the disk.
pub open spec fn spec_root_or_default(root_block_address: Option<LBAAddress>, block_count: nat) -> usize {
    match root_block_address {
        Some(address) => address,
        None => (block_count / 2) as usize,
    }
}

/// Writes the boot block of a volume.
#[derive(Clone, Copy, Debug)]
pub struct BootBlockInitializer {
    pub root_block_address: Option<LBAAddress>,
    pub filesystem_type: FilesystemType,
    pub international_mode: InternationalMode,
    pub cache_mode: CacheMode,
}

impl Default for BootBlockInitializer {
    fn default() -> (res: Self)
        ensures
            res == (BootBlockInitializer {
                root_block_address: None,
                filesystem_type: FilesystemType::OFS,
                international_mode: InternationalMode::Off,
                cache_mode: CacheMode::Off,
            }),
    {
        Self {
            root_block_address: None,
            filesystem_type: FilesystemType::OFS,
            cache_mode: CacheMode::Off,
            international_mode: InternationalMode::Off,
        }
    }
}

impl BootBlockInitializer {
    pub fn with_root_block_address(&mut self, addr: Option<LBAAddress>) -> (res: &mut Self)
        ensures
            *res == (BootBlockInitializer { root_block_address: addr, ..*old(self) }),
            *final(self) == *final(res),
    {
        self.root_block_address = addr;
        self
    }

    pub fn with_filesystem_type(&mut self, filesystem_type: FilesystemType) -> (res: &mut Self)
        ensures
            *res == (BootBlockInitializer { filesystem_type, ..*old(self) }),
            *final(self) == *final(res),
    {
        self.filesystem_type = filesystem_type;
        self
    }

    pub fn with_international_mode(&mut self, international_mode: InternationalMode) -> (res: &mut Self)
        ensures
            *res == (BootBlockInitializer { international_mode, ..*old(self) }),
            *final(self) == *final(res),
    {
        self.international_mode = international_mode;
        self
    }

    pub fn with_cache_mode(&mut self, cache_mode: CacheMode) -> (res: &mut Self)
        ensures
            *res == (BootBlockInitializer { cache_mode, ..*old(self) }),
            *final(self) == *final(res),
    {
        self.cache_mode = cache_mode;
        self
    }

    /// Writes the boot block over the first two blocks of the image.
    pub fn init(&self, disk: &mut Disk) -> (res: Result<(), Error>)
        requires
            old(disk).wf(),
        ensures
            final(disk).wf(),
            final(disk).spec_disk_type() == old(disk).spec_disk_type(),
            res == Ok::<(), Error>(()),
            final(disk)@ == spec_replace_blocks(
                old(disk)@,
                0,
                2,
                spec_boot_block(
                    spec_flags(self.filesystem_type, self.international_mode, self.cache_mode),
                    spec_low_u32(spec_root_or_default(self.root_block_address, old(disk).spec_block_count())),
                ),
            ),
    {
        proof {
            reveal(spec_boot_block);
        }
        let root_block_address: u32 = low_u32(
            match self.root_block_address {
                Some(address) => address,
                None => disk.block_count() / 2,
            },
        );
        let flags: u8 = self.cache_mode.flag() | self.filesystem_type.flag() | self.international_mode.flag();
        let root: [u8; 4] = u32_to_be_bytes(root_block_address);
        match disk.blocks_mut(0, 2) {
            Ok(data) => {
                let mut i: usize = 0;
                while i < 1024
                    invariant
                        i <= 1024,
                        data@.len() == 1024,
                        forall|j: int| 0 <= j < i ==> data@[j] == 0u8,
                    decreases 1024 - i,
                {
                    data[i] = 0;
                    i = i + 1;
                }
                data[0] = 0x44;
                data[1] = 0x4f;
                data[2] = 0x53;
                data[BOOT_BLOCK_FLAGS_OFFSET] = flags;
                data[BOOT_BLOCK_ROOT_BLOCK_OFFSET] = root[0];
                data[BOOT_BLOCK_ROOT_BLOCK_OFFSET + 1] = root[1];
                data[BOOT_BLOCK_ROOT_BLOCK_OFFSET + 2] = root[2];
                data[BOOT_BLOCK_ROOT_BLOCK_OFFSET + 3] = root[3];
                let ghost unsummed = data@;
                let checksum: [u8; 4] = u32_to_be_bytes(compute_checksum(data));
                data[BOOT_BLOCK_CHECKSUM_OFFSET] = checksum[0];
                data[BOOT_BLOCK_CHECKSUM_OFFSET + 1] = checksum[1];
                data[BOOT_BLOCK_CHECKSUM_OFFSET + 2] = checksum[2];
                data[BOOT_BLOCK_CHECKSUM_OFFSET + 3] = checksum[3];
                proof {
                    let model = Seq::new(
                        1024,
                        |i: int|
                            if i == 0 {
                                0x44u8
                            } else if i == 1 {
                                0x4fu8
                            } else if i == 2 {
                                0x53u8
                            } else if i == 3 {
                                flags
                            } else if 8 <= i < 12 {
                                spec_u32_to_be_bytes(root_block_address)[i - 8]
                            } else {
                                0u8
                            },
                    );
                    assert(unsummed =~= model);
                    assert(data@ =~= spec_boot_block(flags, root_block_address));
                }
                Ok(())
            },
            Err(e) => Err(e),
        }
    }
}

/// A boot block just written is a valid boot block, and what is read back
/// from it is what was written.
pub proof fn lemma_boot_block_reads_back(image: Seq<u8>, flags: u8, root_block_address: u32)
    requires
        image.len() >= 1024,
    ensures
        ({
            let written = spec_replace_blocks(image, 0, 2, spec_boot_block(flags, root_block_address));
            &&& spec_boot_block_valid(written)
            &&& spec_boot_flags(written) == flags
            &&& spec_root_block_address(written) == root_block_address
            &&& spec_boot_block(flags, root_block_address).len() == 1024
        }),
{
    reveal(spec_boot_block);
    let block = spec_boot_block(flags, root_block_address);
    let written = spec_replace_blocks(image, 0, 2, block);
    let root = spec_u32_to_be_bytes(root_block_address);
    let unsummed = Seq::new(
        1024,
        |i: int|
            if i == 0 {
                0x44u8
            } else if i == 1 {
                0x4fu8
            } else if i == 2 {
                0x53u8
            } else if i == 3 {
                flags
            } else if 8 <= i < 12 {
                root[i - 8]
            } else {
                0u8
            },
    );
    assert(spec_blocks(written, 0, 2) =~= block);
    assert forall|i: int| 0 <= i < 256 && i != 1 implies spec_word(block, i) == spec_word(unsummed, i) by {
        assert(block.subrange(4 * i, 4 * i + 4) =~= unsummed.subrange(4 * i, 4 * i + 4));
    }
    lemma_boot_sum_agree(block, unsummed, 256);
    assert(block.subrange(4, 8) =~= spec_u32_to_be_bytes(spec_boot_checksum(unsummed)));
    crate::block::lemma_u32_be_roundtrip(spec_boot_checksum(unsummed));
    assert(written.subrange(8, 12) =~= root);
    crate::block::lemma_u32_be_roundtrip(root_block_address);
}

} // verus!
