use nr_adf_lib::block::Block;
use nr_adf_lib::disk::{Disk, DiskType};
use nr_adf_lib::errors::Error;
use nr_adf_lib::fs::amiga_dos::AmigaDos;
use nr_adf_lib::fs::amiga_dos_options::{CacheMode, FilesystemType, InternationalMode};
use nr_adf_lib::fs::boot_block::BootBlockReader;
use nr_adf_lib::fs::checksum::compute_checksum;
use nr_adf_lib::fs::datetime::{date_triplet_from_system_time, date_triplet_to_system_time};
use nr_adf_lib::fs::format::AmigaDosFormater;
use nr_adf_lib::fs::metadata::FileType;

fn fresh(disk_type: DiskType, filesystem_type: FilesystemType) -> AmigaDos {
    AmigaDosFormater::default()
        .with_filesystem_type(filesystem_type)
        .format_at(Disk::create(disk_type), "TEST", 252460800 + 86400 + 61)
        .unwrap()
}

fn names(fs: &AmigaDos, path: &str) -> Vec<String> {
    let mut listing = fs.read_dir(path).unwrap();
    let mut names = Vec::new();
    while let Some(entry) = listing.next(fs) {
        names.push(entry.unwrap().name().to_string());
    }
    names
}

#[test]
fn fresh_dd_image() {
    let fs = fresh(DiskType::DoubleDensity, FilesystemType::OFS);
    let info = fs.info().unwrap();

    assert_eq!(info.volume_name, "TEST");
    assert_eq!(info.total_block_count, 1760);
    assert_eq!(info.total_size, 1760 * 512);
    assert_eq!(info.free_block_count, 1756);
    assert_eq!(info.free_size, 1756 * 512);
    assert_eq!(info.filesystem_type, FilesystemType::OFS);
    assert_eq!(info.international_mode, InternationalMode::Off);
    assert_eq!(info.cache_mode, CacheMode::Off);
    assert_eq!(info.root_alteration_date, 252460800 + 86400 + 61);
    assert_eq!(info.root_creation_date, 252460800 + 86400 + 61);
    assert_eq!(info.volume_alteration_date, 252460800 + 86400 + 61);
    assert!(names(&fs, "/").is_empty());
}

#[test]
fn fresh_hd_image_with_every_flag() {
    let fs = AmigaDosFormater::default()
        .with_filesystem_type(FilesystemType::FFS)
        .with_international_mode(InternationalMode::On)
        .with_cache_mode(CacheMode::On)
        .format(Disk::create(DiskType::HighDensity), "Workbench")
        .unwrap();
    let info = fs.info().unwrap();

    assert_eq!(info.volume_name, "Workbench");
    assert_eq!(info.total_block_count, 3520);
    assert_eq!(info.free_block_count, 3516);
    assert_eq!(info.filesystem_type, FilesystemType::FFS);
    assert_eq!(info.international_mode, InternationalMode::On);
    assert_eq!(info.cache_mode, CacheMode::On);
    assert_eq!(fs.disk().data()[3], 0x07);
}

#[test]
fn format_dump_mount_round_trip() {
    let fs = fresh(DiskType::DoubleDensity, FilesystemType::FFS);
    let image = fs.disk().data().to_vec();

    let again = AmigaDos::try_from(Disk::try_create_with_data(image).unwrap()).unwrap();
    let info = again.info().unwrap();

    assert_eq!(info.volume_name, "TEST");
    assert_eq!(info.filesystem_type, FilesystemType::FFS);
    assert_eq!(info.free_block_count, 1756);
    assert_eq!(again.inner.get_bitmap_block_addresses(), vec![881]);
}

#[test]
fn format_writes_the_expected_bytes() {
    let fs = fresh(DiskType::DoubleDensity, FilesystemType::OFS);
    let data = fs.disk().data();

    // Boot block: "DOS", flags, checksum, root block address 880.
    assert_eq!(&data[0..4], &[0x44, 0x4f, 0x53, 0x00]);
    assert_eq!(&data[8..12], &[0x00, 0x00, 0x03, 0x70]);
    // 0x444f5300 + 0x00000370 = 0x444f5670, and its complement.
    assert_eq!(&data[4..8], &[0xbb, 0xb0, 0xa9, 0x8f]);

    // Root block at 880: types, hash table size, bitmap flag, first bitmap block.
    let root = &data[880 * 512..881 * 512];
    assert_eq!(&root[0..4], &[0, 0, 0, 2]);
    assert_eq!(&root[508..512], &[0, 0, 0, 1]);
    assert_eq!(&root[12..16], &[0, 0, 0, 72]);
    assert_eq!(&root[312..316], &[0xff, 0xff, 0xff, 0xff]);
    assert_eq!(&root[316..320], &[0x00, 0x00, 0x03, 0x71]);
    assert_eq!(root[432], 4);
    assert_eq!(&root[433..437], b"TEST");
    // One day and 61 seconds after the first of January 1978.
    assert_eq!(&root[420..432], &[0, 0, 0, 1, 0, 0, 0, 1, 0, 0, 0, 50]);
    assert_eq!(compute_checksum(root, 20), u32::from_be_bytes([root[20], root[21], root[22], root[23]]));

    // Bitmap block at 881: blocks 880 and 881 are used, which are bits 878 and 879.
    let bitmap = &data[881 * 512..882 * 512];
    assert_eq!(&bitmap[4..8], &[0xff, 0xff, 0xff, 0xff]);
    let word = 4 + 4 * (878 / 32);
    assert_eq!(&bitmap[word..word + 4], &[0xff, 0xff, 0x3f, 0xff]);
    assert_eq!(compute_checksum(bitmap, 0), u32::from_be_bytes([bitmap[0], bitmap[1], bitmap[2], bitmap[3]]));
}

#[test]
fn format_rejects_bad_names_and_roots() {
    let formater = AmigaDosFormater::default();
    assert_eq!(
        formater.format(Disk::create(DiskType::DoubleDensity), "a/b").err(),
        Some(Error::InvalidNameError)
    );
    assert_eq!(
        formater.format(Disk::create(DiskType::DoubleDensity), "a:b").err(),
        Some(Error::InvalidNameError)
    );
    assert_eq!(
        formater
            .format(Disk::create(DiskType::DoubleDensity), "0123456789012345678901234567890")
            .err(),
        Some(Error::InvalidNameLengthError(31))
    );
    assert!(formater
        .format(Disk::create(DiskType::DoubleDensity), "012345678901234567890123456789")
        .is_ok());

    let mut far = AmigaDosFormater::default();
    far.with_root_block_address(Some(5000));
    assert_eq!(
        far.format(Disk::create(DiskType::DoubleDensity), "X").err(),
        Some(Error::DiskInvalidLBAAddressError(5000))
    );
    let mut last = AmigaDosFormater::default();
    last.with_root_block_address(Some(1759));
    assert_eq!(
        last.format(Disk::create(DiskType::DoubleDensity), "X").err(),
        Some(Error::DiskInvalidLBAAddressError(1760))
    );
    let mut boot = AmigaDosFormater::default();
    boot.with_root_block_address(Some(1));
    assert_eq!(
        boot.format(Disk::create(DiskType::DoubleDensity), "X").err(),
        Some(Error::DiskInvalidLBAAddressError(1))
    );
}

#[test]
fn mount_rejects_what_is_no_volume() {
    assert_eq!(
        AmigaDos::try_from(Disk::create(DiskType::DoubleDensity)).err(),
        Some(Error::CorruptedImageFile)
    );

    // A boot block with a wrong checksum.
    let fs = fresh(DiskType::DoubleDensity, FilesystemType::OFS);
    let mut image = fs.disk().data().to_vec();
    image[7] ^= 0x01;
    assert_eq!(
        AmigaDos::try_from(Disk::try_create_with_data(image).unwrap()).err(),
        Some(Error::CorruptedImageFile)
    );

    // A checksum of zero is not checked.
    let mut image = fs.disk().data().to_vec();
    image[4..8].copy_from_slice(&[0, 0, 0, 0]);
    assert!(AmigaDos::try_from(Disk::try_create_with_data(image).unwrap()).is_ok());

    // A root block of an unknown primary type.
    let mut image = fs.disk().data().to_vec();
    image[880 * 512 + 3] = 5;
    assert_eq!(
        AmigaDos::try_from(Disk::try_create_with_data(image).unwrap()).err(),
        Some(Error::InvalidFilesystemBlockPrimaryTypeError(5))
    );

    // A root block of another primary type.
    let mut image = fs.disk().data().to_vec();
    image[880 * 512 + 3] = 8;
    assert_eq!(
        AmigaDos::try_from(Disk::try_create_with_data(image).unwrap()).err(),
        Some(Error::UnexpectedFilesystemBlockPrimaryTypeError(8))
    );

    // A root block of another secondary type.
    let mut image = fs.disk().data().to_vec();
    image[880 * 512 + 511] = 2;
    assert_eq!(
        AmigaDos::try_from(Disk::try_create_with_data(image).unwrap()).err(),
        Some(Error::UnexpectedFilesystemBlockSecondaryTypeError(2))
    );
    let mut image = fs.disk().data().to_vec();
    image[880 * 512 + 511] = 9;
    assert_eq!(
        AmigaDos::try_from(Disk::try_create_with_data(image).unwrap()).err(),
        Some(Error::InvalidFilesystemBlockSecondaryTypeError(9))
    );

    // A bitmap block beyond the image.
    let mut image = fs.disk().data().to_vec();
    image[880 * 512 + 316..880 * 512 + 320].copy_from_slice(&[0, 0, 0x10, 0]);
    assert_eq!(
        AmigaDos::try_from(Disk::try_create_with_data(image).unwrap()).err(),
        Some(Error::CorruptedImageFile)
    );
}

#[test]
fn boot_block_reader_reads_the_flags() {
    let fs = AmigaDosFormater::default()
        .with_filesystem_type(FilesystemType::FFS)
        .with_cache_mode(CacheMode::On)
        .format(Disk::create(DiskType::DoubleDensity), "B")
        .unwrap();
    let reader = BootBlockReader::try_from_disk(fs.disk()).unwrap();

    assert_eq!(reader.get_filesystem_type(), FilesystemType::FFS);
    assert_eq!(reader.get_international_mode(), InternationalMode::Off);
    assert_eq!(reader.get_cache_mode(), CacheMode::On);
    assert_eq!(reader.get_root_block_address(), 880);
}

#[test]
fn boot_checksum_is_the_complement_of_the_wrapping_sum() {
    // Two words that overflow 32 bits: 0x444f5300 + 0xffffffff wraps to 0x444f52ff.
    let mut image = vec![0u8; 1760 * 512];
    image[0..4].copy_from_slice(&[0x44, 0x4f, 0x53, 0x00]);
    image[12..16].copy_from_slice(&[0xff, 0xff, 0xff, 0xff]);
    // The complement of 0x444f52ff is 0xbbb0ad00.
    image[4..8].copy_from_slice(&[0xbb, 0xb0, 0xad, 0x00]);
    let disk = Disk::try_create_with_data(image.clone()).unwrap();
    assert!(BootBlockReader::try_from_disk(&disk).is_ok());

    // A carry that is added back in gives another word, which is refused.
    image[4..8].copy_from_slice(&[0xbb, 0xb0, 0xac, 0xff]);
    let disk = Disk::try_create_with_data(image.clone()).unwrap();
    assert_eq!(BootBlockReader::try_from_disk(&disk).err(), Some(Error::CorruptedImageFile));

    // A checksum word of zero is not checked.
    image[4..8].copy_from_slice(&[0, 0, 0, 0]);
    let disk = Disk::try_create_with_data(image).unwrap();
    assert!(BootBlockReader::try_from_disk(&disk).is_ok());
}

#[test]
fn block_accessors_check_offsets() {
    let mut disk = Disk::create(DiskType::DoubleDensity);
    let block = Block::new(10);

    assert_eq!(block.write_u32(&mut disk, 8, 0x01020304), Ok(()));
    assert_eq!(block.read_u32(&disk, 8), Ok(0x01020304));
    assert_eq!(block.read_u8(&disk, 8), Ok(1));
    assert_eq!(block.read_u8(&disk, 11), Ok(4));
    assert_eq!(disk.data()[10 * 512 + 9], 2);
    assert_eq!(block.read_u32(&disk, 509), Err(Error::DiskInvalidBlockOffsetError(509)));
    assert_eq!(block.read_u32(&disk, 508), Ok(0));
    assert_eq!(block.read_u8(&disk, 512), Err(Error::DiskInvalidBlockOffsetError(512)));
    assert_eq!(block.write_u8(&mut disk, 512, 1), Err(Error::DiskInvalidBlockOffsetError(512)));
    assert_eq!(
        block.write_u8_array(&mut disk, 510, &[1, 2, 3]),
        Err(Error::DiskInvalidBlockOffsetError(510))
    );
    assert_eq!(block.write_u8_array(&mut disk, 509, &[1, 2, 3]), Ok(()));
    assert_eq!(block.read_u8_vector(&disk, 509, 3), Ok(vec![1, 2, 3]));
    assert_eq!(block.read_u32_vector(&disk, 8, 2), Ok(vec![0x01020304, 0]));
    assert_eq!(
        block.read_u32_vector(&disk, 508, 2),
        Err(Error::DiskInvalidBlockOffsetError(508))
    );
    let mut words = [9u32; 2];
    assert_eq!(block.read_u32_array(&disk, 8, &mut words), Ok(()));
    assert_eq!(words, [0x01020304, 0]);
    let mut bytes = [0u8; 4];
    assert_eq!(block.read_u8_array(&disk, 8, &mut bytes), Ok(()));
    assert_eq!(bytes, [1, 2, 3, 4]);

    assert_eq!(block.fill(&mut disk, 0xee, 4, 8), Ok(()));
    assert_eq!(block.read_u32(&disk, 4), Ok(0xeeeeeeee));
    assert_eq!(block.read_u32(&disk, 8), Ok(0x01020304));
    assert_eq!(block.fill(&mut disk, 0, 8, 4), Err(Error::DiskInvalidBlockOffsetError(8)));
    assert_eq!(block.fill(&mut disk, 0, 0, 513), Err(Error::DiskInvalidBlockOffsetError(513)));
    assert_eq!(block.clear(&mut disk), Ok(()));
    assert_eq!(block.read_u32(&disk, 4), Ok(0));

    let beyond = Block::new(1760);
    assert_eq!(beyond.read_u8(&disk, 0), Err(Error::DiskInvalidLBAAddressError(1760)));
    assert_eq!(beyond.write_u32(&mut disk, 0, 1), Err(Error::DiskInvalidLBAAddressError(1760)));
    assert_eq!(beyond.clear(&mut disk), Err(Error::DiskInvalidLBAAddressError(1760)));
}

#[test]
fn block_strings_must_be_utf8() {
    let mut disk = Disk::create(DiskType::DoubleDensity);
    let block = Block::new(10);

    assert_eq!(block.write_string(&mut disk, 100, "h\u{e9}llo"), Ok(()));
    assert_eq!(block.read_string(&disk, 100, 6), Ok(String::from("h\u{e9}llo")));
    // Cut in the middle of the two bytes of the second letter.
    assert_eq!(block.read_string(&disk, 100, 2), Err(Error::InvalidStringError));
    assert_eq!(block.write_u8(&mut disk, 200, 0xff), Ok(()));
    assert_eq!(block.read_string(&disk, 200, 1), Err(Error::InvalidStringError));
}

#[test]
fn checksum_is_the_negated_sum() {
    let mut data = vec![0u8; 512];
    data[0..4].copy_from_slice(&[0, 0, 0, 2]);
    data[4..8].copy_from_slice(&[0, 0, 0, 5]);
    data[20..24].copy_from_slice(&[0xde, 0xad, 0xbe, 0xef]);
    // The word at byte 20 is left out: -(2 + 5) = 0xfffffff9.
    assert_eq!(compute_checksum(&data, 20), 0xfffffff9);
    // With nothing left out the word at byte 20 counts.
    assert_eq!(compute_checksum(&data, 512), 0u32.wrapping_sub(7u32.wrapping_add(0xdeadbeef)));
    assert_eq!(compute_checksum(&[], 0), 0);
    // Bytes after the last whole word are not summed.
    assert_eq!(compute_checksum(&[0, 0, 0, 1, 0xff], 512), 0xffffffff);
}

#[test]
fn dates_are_kept_as_triplets() {
    assert_eq!(date_triplet_from_system_time(0), (0, 0, 0));
    assert_eq!(date_triplet_from_system_time(252460800), (0, 0, 0));
    assert_eq!(date_triplet_from_system_time(252460800 + 86400 + 3600 + 59), (1, 60, 59 * 50));
    assert_eq!(date_triplet_to_system_time(1, 60, 59 * 50), 252460800 + 86400 + 3600 + 59);
    assert_eq!(date_triplet_to_system_time(0, 0, 49), 252460800);
    assert_eq!(
        date_triplet_to_system_time(u32::MAX, u32::MAX, u32::MAX),
        ((u32::MAX as u64) * 1440 + (u32::MAX as u64)) * 60 + (u32::MAX as u64) / 50 + 252460800
    );
}

#[test]
fn file_type_letters() {
    assert_eq!(FileType::Dir.to_char(), 'd');
    assert_eq!(FileType::File.to_char(), ' ');
    assert_eq!(FileType::Link.to_char(), 'l');
}

#[test]
fn options_are_parsed_from_text() {
    assert_eq!(FilesystemType::from_str("ofs"), Ok(FilesystemType::OFS));
    assert_eq!(FilesystemType::from_str("FFS"), Ok(FilesystemType::FFS));
    assert_eq!(FilesystemType::from_str("fat"), Err(Error::InvalidFilesystemTypeError));
    assert_eq!(InternationalMode::from_str("On"), Ok(InternationalMode::On));
    assert_eq!(InternationalMode::from_str("yes"), Ok(InternationalMode::On));
    assert_eq!(InternationalMode::from_str("no"), Ok(InternationalMode::Off));
    assert_eq!(InternationalMode::from_str("maybe"), Err(Error::InvalidInternationalModeError));
    assert_eq!(CacheMode::from_str("OFF"), Ok(CacheMode::Off));
    assert_eq!(CacheMode::from_str("on"), Ok(CacheMode::On));
    assert_eq!(CacheMode::from_str(""), Err(Error::InvalidCacheModeError));
    assert_eq!(FilesystemType::FFS.to_string(), "FFS");
    assert_eq!(InternationalMode::On.to_string(), "INTL-ON");
    assert_eq!(CacheMode::Off.to_string(), "CACHE-OFF");
}
