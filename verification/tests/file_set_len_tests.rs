use nr_adf_lib::disk::{Disk, DiskType};
use nr_adf_lib::fs::amiga_dos::AmigaDos;
use nr_adf_lib::fs::amiga_dos_options::{CacheMode, FilesystemType, InternationalMode};
use nr_adf_lib::fs::constants::BLOCK_DATA_OFS_SIZE;
use nr_adf_lib::fs::file::File;
use nr_adf_lib::fs::format::AmigaDosFormater;

fn init_fs() -> AmigaDos {
    let disk = Disk::create(DiskType::DoubleDensity);
    AmigaDosFormater::default()
        .with_cache_mode(CacheMode::Off)
        .with_filesystem_type(FilesystemType::OFS)
        .with_international_mode(InternationalMode::Off)
        .format(disk, "TEST")
        .unwrap()
}

fn create_file(fs: &mut AmigaDos) -> File {
    File::options().create(true).write(true).open(fs, "/data").unwrap()
}

#[test]
fn set_len_ofs_shrink_488_to_0() {
    let mut fs = init_fs();

    let data_in = vec![42u8; BLOCK_DATA_OFS_SIZE];
    let mut file = create_file(&mut fs);

    let bitmap1 = fs.inner.get_bitmap();

    file.write(&mut fs, &data_in).unwrap();
    file.set_len(&mut fs, 0).unwrap();

    let bitmap2 = fs.inner.get_bitmap();

    assert_eq!(file.size, 0);
    assert_eq!(bitmap1, bitmap2);
}

#[test]
fn set_len_ofs_shrink_512_to_0() {
    let mut fs = init_fs();

    let data_in = vec![42u8; BLOCK_DATA_OFS_SIZE];
    let mut file = create_file(&mut fs);

    let bitmap1 = fs.inner.get_bitmap();

    file.write(&mut fs, &data_in).unwrap();
    file.set_len(&mut fs, 0).unwrap();

    let bitmap2 = fs.inner.get_bitmap();

    assert_eq!(file.size, 0);
    assert_eq!(bitmap1, bitmap2);
}

#[test]
fn set_len_ofs_shrink_15128_to_0() {
    let mut fs = init_fs();

    let data_in = vec![42u8; 15128];
    let mut file = create_file(&mut fs);

    let bitmap1 = fs.inner.get_bitmap();

    file.write(&mut fs, &data_in).unwrap();
    file.set_len(&mut fs, 0).unwrap();

    let bitmap2 = fs.inner.get_bitmap();

    assert_eq!(file.size, 0);
    assert_eq!(bitmap1, bitmap2);
}

#[test]
fn set_len_ofs_shrink_15129_to_0() {
    let mut fs = init_fs();

    let data_in = vec![42u8; 15129];
    let mut file = create_file(&mut fs);

    let bitmap1 = fs.inner.get_bitmap();

    file.write(&mut fs, &data_in).unwrap();
    file.set_len(&mut fs, 0).unwrap();

    let bitmap2 = fs.inner.get_bitmap();

    assert_eq!(file.size, 0);
    assert_eq!(bitmap1, bitmap2);
}

#[test]
fn set_len_ofs_shrink_35136_to_0() {
    let mut fs = init_fs();

    let data_in = vec![42u8; 35136];
    let mut file = create_file(&mut fs);

    let bitmap1 = fs.inner.get_bitmap();

    file.write(&mut fs, &data_in).unwrap();
    file.set_len(&mut fs, 0).unwrap();

    let bitmap2 = fs.inner.get_bitmap();

    assert_eq!(file.size, 0);
    assert_eq!(bitmap1, bitmap2);
}

#[test]
fn set_len_ofs_shrink_35137_to_0() {
    let mut fs = init_fs();

    let data_in = vec![42u8; 35137];
    let mut file = create_file(&mut fs);

    let bitmap1 = fs.inner.get_bitmap();

    file.write(&mut fs, &data_in).unwrap();
    file.set_len(&mut fs, 0).unwrap();

    let bitmap2 = fs.inner.get_bitmap();

    assert_eq!(file.size, 0);
    assert_eq!(bitmap1, bitmap2);
}

#[test]
fn set_len_ofs_shrink_488_to_32() {
    let mut fs = init_fs();

    let data_in = vec![42u8; BLOCK_DATA_OFS_SIZE];
    let mut file = create_file(&mut fs);

    file.write(&mut fs, &data_in[..32]).unwrap();

    let bitmap1 = fs.inner.get_bitmap();

    file.write(&mut fs, &data_in[32..]).unwrap();
    file.set_len(&mut fs, 32).unwrap();

    let bitmap2 = fs.inner.get_bitmap();

    assert_eq!(file.size, 32);
    assert_eq!(bitmap1, bitmap2);
}

#[test]
fn set_len_ofs_shrink_512_to_32() {
    let mut fs = init_fs();

    let data_in = vec![42u8; 512];
    let mut file = create_file(&mut fs);

    file.write(&mut fs, &data_in[..32]).unwrap();

    let bitmap1 = fs.inner.get_bitmap();

    file.write(&mut fs, &data_in[32..]).unwrap();
    file.set_len(&mut fs, 32).unwrap();

    let bitmap2 = fs.inner.get_bitmap();

    assert_eq!(file.size, 32);
    assert_eq!(bitmap1, bitmap2);
}

#[test]
fn set_len_ofs_shrink_15128_to_32() {
    let mut fs = init_fs();

    let data_in = vec![42u8; 15128];
    let mut file = create_file(&mut fs);

    file.write(&mut fs, &data_in[..32]).unwrap();

    let bitmap1 = fs.inner.get_bitmap();

    file.write(&mut fs, &data_in[32..]).unwrap();
    file.set_len(&mut fs, 32).unwrap();

    let bitmap2 = fs.inner.get_bitmap();

    assert_eq!(file.size, 32);
    assert_eq!(bitmap1, bitmap2);
}
