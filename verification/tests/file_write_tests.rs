use nr_adf_lib::disk::{Disk, DiskType};
use nr_adf_lib::fs::amiga_dos_options::{CacheMode, FilesystemType, InternationalMode};
use nr_adf_lib::fs::format::AmigaDosFormater;

fn write_ofs(count: usize) {
    let data_in = vec![42u8; count];

    let disk = Disk::create(DiskType::DoubleDensity);
    let mut fs = AmigaDosFormater::default()
        .with_cache_mode(CacheMode::Off)
        .with_filesystem_type(FilesystemType::OFS)
        .with_international_mode(InternationalMode::Off)
        .format(disk, "TEST")
        .unwrap();

    fs.write("/data", &data_in).unwrap();

    let data_out = fs.read("/data").unwrap();

    assert_eq!(&data_in, &data_out);
}

#[test]
fn write_ofs_less_than_488_bytes() {
    write_ofs(488)
}

#[test]
fn write_ofs_more_than_488_bytes() {
    write_ofs(489)
}

#[test]
fn write_ofs_less_than_15128_bytes() {
    write_ofs(15128)
}

#[test]
fn write_ofs_more_than_15129_bytes() {
    write_ofs(15129)
}

#[test]
fn write_ofs_less_than_35136_bytes() {
    write_ofs(35136)
}

#[test]
fn write_ofs_more_than_35136_bytes() {
    write_ofs(35137)
}
