use nr_adf_lib::disk::{Disk, DiskType};
use nr_adf_lib::errors::Error;
use nr_adf_lib::fs::amiga_dos::AmigaDos;
use nr_adf_lib::fs::amiga_dos_options::FilesystemType;
use nr_adf_lib::fs::checksum::compute_checksum;
use nr_adf_lib::fs::file::File;
use nr_adf_lib::fs::file_open::OpenOptions;
use nr_adf_lib::fs::format::AmigaDosFormater;
use nr_adf_lib::fs::metadata::{FileType, Permissions};

fn fresh(filesystem_type: FilesystemType) -> AmigaDos {
    AmigaDosFormater::default()
        .with_filesystem_type(filesystem_type)
        .format(Disk::create(DiskType::DoubleDensity), "TEST")
        .unwrap()
}

fn pattern(count: usize) -> Vec<u8> {
    (0..count).map(|i| (i * 7 + i / 251) as u8).collect()
}

fn checksum_ok(fs: &AmigaDos, address: usize) -> bool {
    let block = &fs.disk().data()[address * 512..(address + 1) * 512];
    compute_checksum(block, 20) == u32::from_be_bytes([block[20], block[21], block[22], block[23]])
}

#[test]
fn ofs_write_of_one_full_data_block() {
    let mut fs = fresh(FilesystemType::OFS);
    fs.write("/data", &vec![42u8; 488]).unwrap();

    assert_eq!(fs.read("/data").unwrap(), vec![42u8; 488]);
    assert_eq!(fs.metadata("/data").unwrap().size(), 488);
    let file = File::options().read(true).open(&mut fs, "/data").unwrap();
    assert_eq!(file.block_data_list.len(), 1);
    // Header block and one data block.
    assert_eq!(fs.info().unwrap().free_block_count, 1754);
}

#[test]
fn ofs_write_that_needs_a_second_data_block() {
    let mut fs = fresh(FilesystemType::OFS);
    fs.write("/data", &vec![42u8; 489]).unwrap();

    assert_eq!(fs.read("/data").unwrap(), vec![42u8; 489]);
    assert_eq!(fs.metadata("/data").unwrap().size(), 489);
    let file = File::options().read(true).open(&mut fs, "/data").unwrap();
    assert_eq!(file.block_data_list.len(), 2);
}

#[test]
fn ofs_write_of_32_data_blocks_stays_in_the_header() {
    let mut fs = fresh(FilesystemType::OFS);
    fs.write("/data", &vec![42u8; 15129]).unwrap();

    let file = File::options().read(true).open(&mut fs, "/data").unwrap();
    assert_eq!(file.block_data_list.len(), 32);
    assert!(file.block_data_list.iter().all(|e| e.extension_block_address == file.header_block_address));
    assert_eq!(fs.read("/data").unwrap(), vec![42u8; 15129]);
}

#[test]
fn ofs_write_that_needs_a_list_block() {
    let mut fs = fresh(FilesystemType::OFS);
    let before = fs.info().unwrap().free_block_count;
    fs.write("/data", &vec![42u8; 35137]).unwrap();

    let mut file = File::options().read(true).write(true).open(&mut fs, "/data").unwrap();
    assert_eq!(file.block_data_list.len(), 73);
    assert_eq!(file.block_data_list[71].extension_block_address, file.header_block_address);
    assert_eq!(file.block_data_list[71].extension_block_index, 71);
    assert_ne!(file.block_data_list[72].extension_block_address, file.header_block_address);
    assert_eq!(file.block_data_list[72].extension_block_index, 0);
    // Header block, 73 data blocks, one list block.
    assert_eq!(fs.info().unwrap().free_block_count, before - 75);
    assert!(checksum_ok(&fs, file.header_block_address));
    assert!(checksum_ok(&fs, file.block_data_list[72].extension_block_address));
    assert!(checksum_ok(&fs, file.block_data_list[0].data_block_address));
    assert!(checksum_ok(&fs, file.block_data_list[72].data_block_address));

    file.set_len(&mut fs, 0).unwrap();
    assert_eq!(fs.info().unwrap().free_block_count, before - 1);
    assert_eq!(fs.read("/data").unwrap(), Vec::<u8>::new());
}

#[test]
fn ofs_data_blocks_are_linked() {
    let mut fs = fresh(FilesystemType::OFS);
    fs.write("/data", &pattern(1000)).unwrap();
    let file = File::options().read(true).open(&mut fs, "/data").unwrap();
    let header = file.header_block_address;
    let first = file.block_data_list[0].data_block_address;
    let second = file.block_data_list[1].data_block_address;
    let third = file.block_data_list[2].data_block_address;
    let word = |address: usize, offset: usize| {
        let at = address * 512 + offset;
        let data = fs.disk().data();
        u32::from_be_bytes([data[at], data[at + 1], data[at + 2], data[at + 3]])
    };

    // The header: types, own key, count of data blocks, first data block, size, table from the end.
    assert_eq!(word(header, 0), 2);
    assert_eq!(word(header, 508), 0xfffffffd);
    assert_eq!(word(header, 4), header as u32);
    assert_eq!(word(header, 8), 3);
    assert_eq!(word(header, 16), first as u32);
    assert_eq!(word(header, 324), 1000);
    assert_eq!(word(header, 24 + 4 * 71), first as u32);
    assert_eq!(word(header, 24 + 4 * 70), second as u32);
    assert_eq!(word(header, 24 + 4 * 69), third as u32);
    assert_eq!(word(header, 24 + 4 * 68), 0);
    assert_eq!(word(header, 500), 880);

    // The data blocks: type, key, number, count of bytes, next.
    assert_eq!(word(first, 0), 8);
    assert_eq!(word(first, 4), header as u32);
    assert_eq!(word(first, 8), 1);
    assert_eq!(word(first, 12), 488);
    assert_eq!(word(first, 16), second as u32);
    assert_eq!(word(second, 8), 2);
    assert_eq!(word(second, 16), third as u32);
    assert_eq!(word(third, 8), 3);
    assert_eq!(word(third, 12), 24);
    assert_eq!(word(third, 16), 0);
    assert_eq!(fs.disk().data()[first * 512 + 24], pattern(1)[0]);
    assert_eq!(fs.disk().data()[second * 512 + 24], pattern(489)[488]);
}

#[test]
fn ffs_round_trip_across_list_blocks() {
    let mut fs = fresh(FilesystemType::FFS);
    let data = pattern(512 * 150 + 17);
    let before = fs.info().unwrap().free_block_count;

    fs.write("/big", &data).unwrap();

    assert_eq!(fs.read("/big").unwrap(), data);
    let file = File::options().read(true).open(&mut fs, "/big").unwrap();
    assert_eq!(file.block_data_list.len(), 151);
    assert_eq!(file.block_data_offset, 0);
    assert_eq!(file.block_data_size, 512);
    // Header block, 151 data blocks, two list blocks.
    assert_eq!(fs.info().unwrap().free_block_count, before - 154);
    // The data blocks are all payload.
    let first = file.block_data_list[0].data_block_address;
    assert_eq!(&fs.disk().data()[first * 512..first * 512 + 4], &data[0..4]);
    // The header does not point at the first data block in this flavour.
    let header = file.header_block_address;
    assert_eq!(&fs.disk().data()[header * 512 + 16..header * 512 + 20], &[0, 0, 0, 0]);

    fs.remove_file("/big").unwrap();
    assert_eq!(fs.info().unwrap().free_block_count, before);
    assert_eq!(fs.try_exists("/big"), Ok(false));
}

#[test]
fn empty_write_makes_an_empty_file() {
    let mut fs = fresh(FilesystemType::OFS);
    fs.write("/empty", &[]).unwrap();
    assert_eq!(fs.read("/empty").unwrap(), Vec::<u8>::new());
    assert_eq!(fs.metadata("/empty").unwrap().size(), 0);
    assert_eq!(fs.info().unwrap().free_block_count, 1755);
}

#[test]
fn write_replaces_the_content() {
    let mut fs = fresh(FilesystemType::OFS);
    fs.write("/f", &pattern(2000)).unwrap();
    fs.write("/f", b"short").unwrap();
    assert_eq!(fs.read("/f").unwrap(), b"short".to_vec());
    assert_eq!(fs.info().unwrap().free_block_count, 1754);
}

#[test]
fn reads_and_writes_move_the_position() {
    let mut fs = fresh(FilesystemType::OFS);
    let mut file = File::options().read(true).write(true).create(true).open(&mut fs, "/f").unwrap();
    assert_eq!(file.write(&mut fs, &pattern(1000)), Ok(1000));
    assert_eq!(file.pos, 1000);
    assert_eq!(file.size, 1000);

    let mut buf = [0u8; 16];
    assert_eq!(file.read(&fs, &mut buf), Ok(0));

    let mut again = File::options().read(true).write(true).open(&mut fs, "/f").unwrap();
    assert_eq!(again.pos, 0);
    let mut buf = vec![0u8; 600];
    assert_eq!(again.read(&fs, &mut buf), Ok(600));
    assert_eq!(buf, pattern(1000)[..600].to_vec());
    assert_eq!(again.pos, 600);
    // Overwrite in the middle, across a block boundary.
    assert_eq!(again.write(&mut fs, &[0xaa; 10]), Ok(10));
    assert_eq!(again.size, 1000);
    let mut buf = vec![0u8; 600];
    assert_eq!(again.read(&fs, &mut buf), Ok(390));
    assert_eq!(&buf[..390], &pattern(1000)[610..]);

    let mut expected = pattern(1000);
    expected[600..610].copy_from_slice(&[0xaa; 10]);
    assert_eq!(fs.read("/f").unwrap(), expected);
}

#[test]
fn append_starts_at_the_end() {
    let mut fs = fresh(FilesystemType::FFS);
    fs.write("/log", b"one").unwrap();
    let mut file = File::options().append(true).open(&mut fs, "/log").unwrap();
    assert_eq!(file.pos, 3);
    file.write(&mut fs, b"two").unwrap();
    assert_eq!(fs.read("/log").unwrap(), b"onetwo".to_vec());
}

#[test]
fn grow_fills_with_zeros() {
    let mut fs = fresh(FilesystemType::OFS);
    let mut file = File::options().read(true).write(true).create(true).open(&mut fs, "/f").unwrap();
    file.write(&mut fs, &[1, 2, 3]).unwrap();
    file.set_len(&mut fs, 1000).unwrap();
    assert_eq!(file.size, 1000);
    assert_eq!(file.pos, 3);
    assert_eq!(file.block_data_list.len(), 3);
    let mut expected = vec![0u8; 1000];
    expected[..3].copy_from_slice(&[1, 2, 3]);
    assert_eq!(fs.read("/f").unwrap(), expected);

    // Shrinking and growing again shows zeros where content was.
    file.write(&mut fs, &[9; 500]).unwrap();
    file.set_len(&mut fs, 100).unwrap();
    assert_eq!(file.pos, 100);
    file.grow(&mut fs, 600).unwrap();
    let content = fs.read("/f").unwrap();
    assert_eq!(content.len(), 600);
    assert_eq!(&content[..3], &[1, 2, 3]);
    assert!(content[3..100].iter().all(|b| *b == 9));
    assert!(content[100..].iter().all(|b| *b == 0));
}

#[test]
fn set_len_twice_changes_nothing_the_second_time() {
    let mut fs = fresh(FilesystemType::OFS);
    let mut file = File::options().write(true).create(true).open(&mut fs, "/f").unwrap();
    file.write(&mut fs, &pattern(5000)).unwrap();
    file.set_len(&mut fs, 1234).unwrap();
    let bitmap = fs.inner.get_bitmap();
    file.set_len(&mut fs, 1234).unwrap();
    assert_eq!(file.size, 1234);
    assert_eq!(fs.inner.get_bitmap(), bitmap);
}

#[test]
fn shrink_then_grow_restores_the_free_count() {
    let mut fs = fresh(FilesystemType::OFS);
    let mut file = File::options().write(true).create(true).open(&mut fs, "/f").unwrap();
    file.write(&mut fs, &pattern(40000)).unwrap();
    let free = fs.info().unwrap().free_block_count;
    file.set_len(&mut fs, 100).unwrap();
    assert_eq!(fs.info().unwrap().free_block_count, free + 82);
    file.set_len(&mut fs, 40000).unwrap();
    assert_eq!(fs.info().unwrap().free_block_count, free);
}

#[test]
fn a_full_volume_refuses_to_grow() {
    let mut fs = fresh(FilesystemType::FFS);
    let mut file = File::options().write(true).create(true).open(&mut fs, "/f").unwrap();
    // 1755 blocks are free: 1755 = 1731 data blocks + 24 list blocks.
    assert_eq!(file.set_len(&mut fs, 1732 * 512), Err(Error::NoSpaceLeft));
    assert!(file.size < 1732 * 512);
    file.set_len(&mut fs, 0).unwrap();
    assert_eq!(fs.info().unwrap().free_block_count, 1755);
    assert_eq!(file.set_len(&mut fs, 1731 * 512), Ok(()));
    assert_eq!(fs.info().unwrap().free_block_count, 0);
    assert_eq!(file.write(&mut fs, &[1]).err(), None);
    assert_eq!(file.set_len(&mut fs, usize::MAX), Err(Error::NoSpaceLeft));
    assert_eq!(fs.write("/g", b"x"), Err(Error::NoSpaceLeft));
}

#[test]
fn open_options_are_checked() {
    let mut fs = fresh(FilesystemType::OFS);
    fs.write("/f", b"data").unwrap();

    assert_eq!(OpenOptions::new().open(&mut fs, "/f").err(), Some(Error::InvalidFileModeError));
    assert_eq!(
        OpenOptions::new().append(true).truncate(true).open(&mut fs, "/f").err(),
        Some(Error::InvalidFileModeError)
    );
    let mut create_only = OpenOptions::new();
    create_only.read(true).create(true);
    assert_eq!(create_only.open(&mut fs, "/f").err(), Some(Error::InvalidFileModeError));
    assert_eq!(
        OpenOptions::new().write(true).create_new(true).open(&mut fs, "/f").err(),
        Some(Error::AlreadyExists)
    );
    assert_eq!(
        OpenOptions::new().read(true).open(&mut fs, "/nope").err(),
        Some(Error::NotFoundError)
    );
    assert_eq!(OpenOptions::new().read(true).open(&mut fs, "/").err(), Some(Error::NotAFileError));
    assert_eq!(
        OpenOptions::new().write(true).create(true).open(&mut fs, "/").err(),
        Some(Error::NotAFileError)
    );
    assert_eq!(
        OpenOptions::new().write(true).create(true).open(&mut fs, "/no/where").err(),
        Some(Error::NotFoundError)
    );

    let mut reader = OpenOptions::new().read(true).open(&mut fs, "/f").unwrap();
    assert_eq!(reader.write(&mut fs, b"x"), Err(Error::BadFileDescriptor));
    assert_eq!(reader.set_len(&mut fs, 0), Err(Error::BadFileDescriptor));
    assert_eq!(reader.set_time(&mut fs, 0), Err(Error::BadFileDescriptor));
    let mut writer = OpenOptions::new().write(true).open(&mut fs, "/f").unwrap();
    let mut buf = [0u8; 4];
    assert_eq!(writer.read(&fs, &mut buf), Err(Error::BadFileDescriptor));

    let truncated = OpenOptions::new().write(true).truncate(true).open(&mut fs, "/f").unwrap();
    assert_eq!(truncated.size, 0);
    assert_eq!(fs.read("/f").unwrap(), Vec::<u8>::new());

    let unset = OpenOptions::new().write(true).truncate(true).append(true).write(false).clone();
    assert!(!unset.write && !unset.truncate && !unset.append);
    let undone = OpenOptions::new().create_new(true).create(false).clone();
    assert!(!undone.create && !undone.create_new);
}

#[test]
fn set_time_changes_the_date() {
    let mut fs = fresh(FilesystemType::OFS);
    fs.write("/f", b"data").unwrap();
    let mut file = File::options().write(true).open(&mut fs, "/f").unwrap();
    file.set_time(&mut fs, 252460800 + 3 * 86400 + 7 * 60 + 9).unwrap();
    assert_eq!(
        fs.metadata("/f").unwrap().alteration_date(),
        252460800 + 3 * 86400 + 7 * 60 + 9
    );
    assert!(checksum_ok(&fs, file.header_block_address));
    assert_eq!(fs.read("/f").unwrap(), b"data".to_vec());
}

#[test]
fn a_file_whose_blocks_are_marked_free_is_read_and_not_written() {
    let mut fs = fresh(FilesystemType::OFS);
    fs.write("/f", &pattern(600)).unwrap();
    let file = File::options().read(true).open(&mut fs, "/f").unwrap();
    let data = file.block_data_list[1].data_block_address;
    fs.inner.free_block(data).unwrap();

    // The bitmap is not asked when the file is read.
    let again = File::options().read(true).open(&mut fs, "/f").unwrap();
    assert_eq!(again.size, 600);
    assert_eq!(fs.read("/f").unwrap(), pattern(600));

    // To write it, the file must hold the blocks that it lists.
    assert_eq!(
        File::options().write(true).open(&mut fs, "/f").err(),
        Some(Error::CorruptedImageFile)
    );
    assert_eq!(fs.write("/f", b"x"), Err(Error::CorruptedImageFile));
    assert_eq!(fs.remove_file("/f"), Err(Error::CorruptedImageFile));
}

#[test]
fn a_file_with_a_data_block_outside_the_image_is_refused() {
    let mut fs = fresh(FilesystemType::OFS);
    fs.write("/f", &pattern(100)).unwrap();
    let header = fs.lookup("/f").unwrap();
    let mut image = fs.into_disk().data().to_vec();
    let block = &mut image[header * 512..(header + 1) * 512];
    // Slot 0 of the table is its last word.
    block[308..312].copy_from_slice(&5000u32.to_be_bytes());
    block[20..24].copy_from_slice(&[0, 0, 0, 0]);
    let sum = compute_checksum(block, 20);
    block[20..24].copy_from_slice(&sum.to_be_bytes());
    let fs = AmigaDos::try_from(Disk::try_create_with_data(image).unwrap()).unwrap();
    assert_eq!(fs.read("/f").err(), Some(Error::CorruptedImageFile));
}

#[test]
fn a_file_is_reopened_as_the_handle_left_it() {
    for filesystem_type in [FilesystemType::OFS, FilesystemType::FFS] {
        let mut fs = fresh(filesystem_type);
        let payload = match filesystem_type {
            FilesystemType::OFS => 488,
            FilesystemType::FFS => 512,
        };
        let data = pattern(200 * payload + 17);
        let mut file = File::options().write(true).create(true).open(&mut fs, "/f").unwrap();
        file.write(&mut fs, &data).unwrap();
        // 72 data blocks fill the header block: the second list block goes.
        for size in [145 * payload, 144 * payload, 72 * payload + 1, 72 * payload, 10, 0, 73 * payload] {
            file.set_len(&mut fs, size).unwrap();
            let again = File::options().read(true).open(&mut fs, "/f").unwrap();
            assert_eq!(again.size, file.size);
            assert_eq!(again.block_data_list.len(), file.block_data_list.len());
            for (one, other) in again.block_data_list.iter().zip(file.block_data_list.iter()) {
                assert_eq!(one.data_block_address, other.data_block_address);
                assert_eq!(one.extension_block_address, other.extension_block_address);
                assert_eq!(one.extension_block_index, other.extension_block_index);
            }
            assert_eq!(fs.read("/f").unwrap().len(), size);
        }
    }
}

#[test]
fn a_failed_write_keeps_what_was_written() {
    let mut fs = fresh(FilesystemType::FFS);
    let mut file = File::options().read(true).write(true).create(true).open(&mut fs, "/f").unwrap();
    // 1755 blocks are free: room for 1731 data blocks and their 24 list blocks.
    let data = pattern(1732 * 512);
    assert_eq!(file.write(&mut fs, &data), Err(Error::NoSpaceLeft));
    assert_eq!(file.size, 1731 * 512);
    assert_eq!(file.pos, 1731 * 512);
    assert_eq!(fs.info().unwrap().free_block_count, 0);
    file.pos = 0;
    let mut back = vec![0u8; 1731 * 512];
    let mut count = 0;
    while count < back.len() {
        let read = file.read(&fs, &mut back[count..]).unwrap();
        assert!(read > 0);
        count += read;
    }
    assert_eq!(back[..], data[..1731 * 512]);
}

#[test]
fn a_write_leaves_other_files_alone() {
    let mut fs = fresh(FilesystemType::OFS);
    fs.create_dir("/d").unwrap();
    fs.write("/d/one", &pattern(40000)).unwrap();
    fs.write("/two", &vec![7u8; 1000]).unwrap();
    let mut two = File::options().write(true).open(&mut fs, "/two").unwrap();
    two.set_len(&mut fs, 50000).unwrap();
    two.set_len(&mut fs, 3).unwrap();
    assert_eq!(fs.read("/d/one").unwrap(), pattern(40000));
    assert_eq!(fs.read("/two").unwrap(), vec![7u8; 3]);
    fs.remove_file("/two").unwrap();
    assert_eq!(fs.read("/d/one").unwrap(), pattern(40000));
    assert_eq!(fs.read("/two"), Err(Error::NotFoundError));
}

fn make_soft_link(fs: AmigaDos, path: &str) -> AmigaDos {
    // A soft link is a header block of secondary type 3.
    let header = fs.lookup(path).unwrap();
    let mut image = fs.into_disk().data().to_vec();
    let block = &mut image[header * 512..(header + 1) * 512];
    block[508..512].copy_from_slice(&3u32.to_be_bytes());
    block[20..24].copy_from_slice(&[0, 0, 0, 0]);
    let sum = compute_checksum(block, 20);
    block[20..24].copy_from_slice(&sum.to_be_bytes());
    AmigaDos::try_from(Disk::try_create_with_data(image).unwrap()).unwrap()
}

#[test]
fn a_soft_link_has_metadata_and_is_no_file() {
    let mut fs = fresh(FilesystemType::OFS);
    fs.write("/link", b"").unwrap();
    let mut fs = make_soft_link(fs, "/link");

    let metadata = fs.metadata("/link").unwrap();
    assert_eq!(metadata.file_type(), FileType::Link);
    assert_eq!(metadata.size(), 0);
    assert_eq!(metadata.name(), "link");
    assert_eq!(fs.read("/link"), Err(Error::NotAFileError));
    assert_eq!(File::options().read(true).open(&mut fs, "/link").err(), Some(Error::NotAFileError));
    assert_eq!(fs.remove_file("/link"), Err(Error::NotAFileError));
}

#[test]
fn a_directory_is_no_file() {
    let mut fs = fresh(FilesystemType::OFS);
    fs.create_dir("/d").unwrap();
    assert_eq!(fs.read("/d"), Err(Error::NotAFileError));
    assert_eq!(fs.read("/"), Err(Error::NotAFileError));
    assert_eq!(fs.write("/d", b"x"), Err(Error::NotAFileError));
}

#[test]
fn truncate_without_create_empties_the_file_that_is_there() {
    let mut fs = fresh(FilesystemType::OFS);
    let free = fs.info().unwrap().free_block_count;
    assert_eq!(
        File::options().write(true).truncate(true).open(&mut fs, "/f").err(),
        Some(Error::NotFoundError)
    );
    assert_eq!(fs.info().unwrap().free_block_count, free);
    fs.write("/f", &pattern(40000)).unwrap();
    let file = File::options().write(true).truncate(true).open(&mut fs, "/f").unwrap();
    assert_eq!(file.size, 0);
    assert_eq!(file.block_data_list.len(), 0);
    // The header block stays.
    assert_eq!(fs.info().unwrap().free_block_count, free - 1);
    assert_eq!(fs.read("/f").unwrap(), Vec::<u8>::new());
}

#[test]
fn permissions_are_shown_as_letters() {
    assert_eq!(Permissions(0).to_string(), "rwed--------");
    assert_eq!(Permissions(0x0000000f).to_string(), "------------");
    assert_eq!(Permissions(0x0000ff05).to_string(), "r-e-rwedrwed");
    assert_eq!(Permissions(0x00008100).to_string(), "rwed---dr---");
}

#[test]
fn a_shrunk_file_of_the_old_flavour_counts_the_bytes_of_its_last_block() {
    let mut fs = fresh(FilesystemType::OFS);
    let mut file = File::options().write(true).create(true).open(&mut fs, "/f").unwrap();
    file.write(&mut fs, &pattern(2000)).unwrap();
    file.set_len(&mut fs, 500).unwrap();
    let last = file.block_data_list[1].data_block_address;
    let block = &fs.disk().data()[last * 512..(last + 1) * 512];
    assert_eq!(u32::from_be_bytes([block[12], block[13], block[14], block[15]]), 12);
    assert!(checksum_ok(&fs, last));
    let header = file.header_block_address;
    let block = &fs.disk().data()[header * 512..(header + 1) * 512];
    assert_eq!(u32::from_be_bytes([block[324], block[325], block[326], block[327]]), 500);
    assert!(checksum_ok(&fs, header));
}
