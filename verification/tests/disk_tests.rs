use nr_adf_lib::disk::{Disk, DiskType, BLOCK_SIZE, DD_BLOCK_COUNT, HD_BLOCK_COUNT};
use nr_adf_lib::errors::Error;

#[test]
fn disk_dd_floppy_is_ok() {
    let disk = Disk::create(DiskType::DoubleDensity);

    assert_eq!(disk.block_count(), DD_BLOCK_COUNT);
    assert_eq!(disk.size(), DD_BLOCK_COUNT * BLOCK_SIZE);
}

#[test]
fn disk_hd_floppy_is_ok() {
    let disk = Disk::create(DiskType::HighDensity);

    assert_eq!(disk.block_count(), HD_BLOCK_COUNT);
    assert_eq!(disk.size(), HD_BLOCK_COUNT * BLOCK_SIZE);
}

#[test]
fn lib_dd_floppy_is_ok() {
    let disk = Disk::create(DiskType::DoubleDensity);

    assert_eq!(disk.block_count(), DD_BLOCK_COUNT);
    assert_eq!(disk.size(), DD_BLOCK_COUNT * BLOCK_SIZE);
}

#[test]
fn lib_hd_floppy_is_ok() {
    let disk = Disk::create(DiskType::HighDensity);

    assert_eq!(disk.block_count(), HD_BLOCK_COUNT);
    assert_eq!(disk.size(), HD_BLOCK_COUNT * BLOCK_SIZE);
}

#[test]
fn disk_create_is_all_zeros() {
    let disk = Disk::create(DiskType::DoubleDensity);

    assert_eq!(disk.data().len(), 1760 * 512);
    assert!(disk.data().iter().all(|b| *b == 0));
    assert_eq!(disk.disk_type(), DiskType::DoubleDensity);
}

#[test]
fn disk_try_create_with_data_checks_the_size() {
    let dd = Disk::try_create_with_data(vec![7u8; 1760 * 512]).unwrap();
    assert_eq!(dd.disk_type(), DiskType::DoubleDensity);
    assert_eq!(dd.data()[12345], 7);

    let hd = Disk::try_create_with_data(vec![0u8; 3520 * 512]).unwrap();
    assert_eq!(hd.disk_type(), DiskType::HighDensity);

    assert_eq!(
        Disk::try_create_with_data(vec![0u8; 1000]).err(),
        Some(Error::DiskInvalidSizeError(1000))
    );
    assert_eq!(
        Disk::try_create_with_data(Vec::new()).err(),
        Some(Error::DiskInvalidSizeError(0))
    );
}

#[test]
fn disk_blocks_are_bounds_checked() {
    let mut data = vec![0u8; 1760 * 512];
    data[3 * 512] = 0xaa;
    data[5 * 512 - 1] = 0xbb;
    let mut disk = Disk::try_create_with_data(data).unwrap();

    let window = disk.blocks(3, 2).unwrap();
    assert_eq!(window.len(), 1024);
    assert_eq!(window[0], 0xaa);
    assert_eq!(window[1023], 0xbb);

    assert_eq!(disk.blocks(1759, 1).unwrap().len(), 512);
    assert_eq!(disk.blocks(1760, 1).err(), Some(Error::DiskInvalidLBAAddressError(1760)));
    assert_eq!(disk.blocks(1759, 2).err(), Some(Error::DiskInvalidLBAAddressError(1759)));
    assert_eq!(
        disk.blocks(usize::MAX, 2).err(),
        Some(Error::DiskInvalidLBAAddressError(usize::MAX))
    );

    {
        let window = disk.blocks_mut(4, 1).unwrap();
        window[0] = 0xcc;
    }
    assert_eq!(disk.data()[4 * 512], 0xcc);
    assert_eq!(disk.data()[3 * 512], 0xaa);
    assert!(disk.blocks_mut(1760, 1).is_err());

    disk.data_mut()[0] = 1;
    assert_eq!(disk.data()[0], 1);
}

#[test]
fn disk_type_sizes() {
    assert_eq!(DiskType::DoubleDensity.size(), 901120);
    assert_eq!(DiskType::HighDensity.size(), 1802240);
    assert_eq!(DiskType::DoubleDensity.block_count(), 1760);
    assert_eq!(DiskType::HighDensity.block_count(), 3520);
}
