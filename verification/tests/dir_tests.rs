use nr_adf_lib::disk::{Disk, DiskType};
use nr_adf_lib::errors::Error;
use nr_adf_lib::fs::amiga_dos::AmigaDos;
use nr_adf_lib::fs::amiga_dos_options::FilesystemType;
use nr_adf_lib::fs::checksum::compute_checksum;
use nr_adf_lib::fs::format::AmigaDosFormater;
use nr_adf_lib::fs::metadata::FileType;
use nr_adf_lib::fs::name::hash_name;
use nr_adf_lib::fs::amiga_dos_options::InternationalMode;
use nr_adf_lib::fs::path::split;

fn fresh() -> AmigaDos {
    AmigaDosFormater::default()
        .with_filesystem_type(FilesystemType::OFS)
        .format(Disk::create(DiskType::DoubleDensity), "TEST")
        .unwrap()
}

fn names(fs: &AmigaDos, path: &str) -> Vec<String> {
    let mut listing = fs.read_dir(path).unwrap();
    let mut names = Vec::new();
    while let Some(entry) = listing.next(fs) {
        names.push(entry.unwrap().name().to_string());
    }
    names
}

fn checksum_ok(fs: &AmigaDos, address: usize) -> bool {
    let block = &fs.disk().data()[address * 512..(address + 1) * 512];
    compute_checksum(block, 20) == u32::from_be_bytes([block[20], block[21], block[22], block[23]])
}

#[test]
fn path_split_drops_empty_segments() {
    assert_eq!(split(""), Vec::<Vec<u8>>::new());
    assert_eq!(split("/"), Vec::<Vec<u8>>::new());
    assert_eq!(split("//foo"), vec![b"foo".to_vec()]);
    assert_eq!(split("foo"), vec![b"foo".to_vec()]);
    assert_eq!(split("/a//b/c/"), vec![b"a".to_vec(), b"b".to_vec(), b"c".to_vec()]);
}

#[test]
fn directory_create_enumerate_remove() {
    let mut fs = fresh();
    let bitmap = fs.inner.get_bitmap();

    fs.create_dir_all("/a/b/c").unwrap();

    assert_eq!(names(&fs, "/"), vec!["a"]);
    assert_eq!(names(&fs, "/a"), vec!["b"]);
    assert_eq!(names(&fs, "/a/b"), vec!["c"]);
    assert!(names(&fs, "/a/b/c").is_empty());
    assert_eq!(fs.info().unwrap().free_block_count, 1753);

    fs.remove_dir("/a/b/c").unwrap();
    fs.remove_dir("/a/b").unwrap();
    fs.remove_dir("/a").unwrap();

    assert!(names(&fs, "/").is_empty());
    assert_eq!(fs.inner.get_bitmap(), bitmap);
}

#[test]
fn lookup_finds_what_read_dir_lists() {
    let mut fs = fresh();
    for name in ["foo", "bar", "Baz", "qux", "a", "b", "c"] {
        fs.create_dir(&format!("/{}", name)).unwrap();
    }
    let mut listing = fs.read_dir("/").unwrap();
    let mut count = 0;
    while let Some(entry) = listing.next(&fs) {
        let entry = entry.unwrap();
        assert_eq!(entry.file_type(), FileType::Dir);
        assert_eq!(fs.lookup(entry.path()), Ok(entry.metadata().header_block_address()));
        assert_eq!(entry.path(), format!("/{}", entry.name()));
        count += 1;
    }
    assert_eq!(count, 7);
    assert_eq!(fs.lookup(""), Ok(880));
    assert_eq!(fs.lookup("/"), Ok(880));
    assert_eq!(fs.lookup("/foo/"), fs.lookup("foo"));
    assert_eq!(fs.lookup("/nope"), Err(Error::NotFoundError));
    assert_eq!(fs.lookup("/foo/nope"), Err(Error::NotFoundError));
}

#[test]
fn names_that_share_a_slot_are_chained() {
    let mut fs = fresh();
    // Find two names with the same hash.
    let mut same = Vec::new();
    let wanted = hash_name("n0", InternationalMode::Off);
    for i in 0..2000 {
        let name = format!("n{}", i);
        if hash_name(&name, InternationalMode::Off) == wanted {
            same.push(name);
        }
        if same.len() == 3 {
            break;
        }
    }
    assert_eq!(same.len(), 3);
    for name in &same {
        fs.create_dir(&format!("/{}", name)).unwrap();
    }
    // The last one put in is the head of the chain.
    assert_eq!(names(&fs, "/"), vec![same[2].clone(), same[1].clone(), same[0].clone()]);
    for name in &same {
        assert!(fs.try_exists(&format!("/{}", name)).unwrap());
    }

    // Take the middle one out, then the head, then the last.
    fs.remove_dir(&format!("/{}", same[1])).unwrap();
    assert_eq!(names(&fs, "/"), vec![same[2].clone(), same[0].clone()]);
    fs.remove_dir(&format!("/{}", same[2])).unwrap();
    assert_eq!(names(&fs, "/"), vec![same[0].clone()]);
    assert!(fs.try_exists(&format!("/{}", same[0])).unwrap());
    fs.remove_dir(&format!("/{}", same[0])).unwrap();
    assert!(names(&fs, "/").is_empty());
    assert_eq!(fs.info().unwrap().free_block_count, 1756);
}

#[test]
fn directory_errors() {
    let mut fs = fresh();
    fs.create_dir("/a").unwrap();
    fs.write("/a/file", b"x").unwrap();

    assert_eq!(fs.create_dir("/a"), Err(Error::AlreadyExists));
    assert_eq!(fs.create_dir("/missing/b"), Err(Error::NotFoundError));
    assert_eq!(fs.create_dir("/"), Err(Error::InvalidPathError));
    assert_eq!(fs.create_dir("/a/file/b"), Err(Error::NotADirectoryError));
    assert_eq!(fs.create_dir_all("/a/file/b"), Err(Error::NotADirectoryError));
    assert_eq!(fs.create_dir_all("/a/file"), Err(Error::NotADirectoryError));
    assert_eq!(fs.create_dir("/a/b:c"), Err(Error::InvalidNameError));
    assert_eq!(
        fs.create_dir("/a/0123456789012345678901234567890"),
        Err(Error::InvalidNameLengthError(31))
    );
    assert_eq!(fs.create_dir_all("/a"), Ok(()));
    assert_eq!(fs.create_dir_all("/"), Ok(()));

    assert!(fs.read_dir("/a/file").is_err());
    assert_eq!(fs.read_dir("/a/file").err(), Some(Error::NotADirectoryError));
    assert_eq!(fs.read_dir("/nope").err(), Some(Error::NotFoundError));

    assert_eq!(fs.remove_dir("/a"), Err(Error::InvalidPathError));
    assert_eq!(fs.remove_dir("/a/file"), Err(Error::NotADirectoryError));
    assert_eq!(fs.remove_dir("/nope"), Err(Error::NotFoundError));
    assert_eq!(fs.remove_dir("/"), Err(Error::InvalidPathError));
    assert_eq!(fs.remove_file("/a"), Err(Error::NotAFileError));
    assert_eq!(fs.remove_file("/nope"), Err(Error::NotFoundError));

    fs.remove_file("/a/file").unwrap();
    fs.remove_dir("/a").unwrap();
    assert_eq!(fs.info().unwrap().free_block_count, 1756);
}

#[test]
fn metadata_of_entries() {
    let mut fs = fresh();
    fs.create_dir_at("/dir", 252460800 + 120).unwrap();
    fs.write_at("/dir/file", &[1, 2, 3], 252460800 + 180).unwrap();

    let root = fs.metadata("/").unwrap();
    assert!(root.is_dir());
    assert_eq!(root.name(), "TEST");
    assert_eq!(root.size(), 0);
    assert_eq!(root.header_block_address(), 880);

    let dir = fs.metadata("/dir").unwrap();
    assert!(dir.is_dir());
    assert!(!dir.is_file());
    assert!(!dir.is_symlink());
    assert_eq!(dir.file_type(), FileType::Dir);
    assert_eq!(dir.name(), "dir");
    // Putting the file into the directory changed the directory.
    assert_eq!(dir.alteration_date(), 252460800 + 180);

    let file = fs.metadata("/dir/file").unwrap();
    assert!(file.is_file());
    assert_eq!(file.name(), "file");
    assert_eq!(file.size(), 3);
    assert_eq!(file.alteration_date(), 252460800 + 180);
    assert!(file.permissions().owner_readable());
    assert!(file.permissions().owner_writable());
    assert!(file.permissions().owner_executable());
    assert!(file.permissions().owner_deletable());
    assert!(!file.permissions().group_readable());
    assert!(!file.permissions().other_writable());

    assert_eq!(fs.try_exists("/dir/file"), Ok(true));
    assert_eq!(fs.try_exists("/dir/nope"), Ok(false));
    assert_eq!(fs.try_exists("/dir/file/deeper"), Err(Error::NotADirectoryError));
    assert_eq!(fs.metadata("/nope").err(), Some(Error::NotFoundError));
}

#[test]
fn checksums_hold_after_directory_changes() {
    let mut fs = fresh();
    fs.create_dir_all("/x/y").unwrap();
    let x = fs.lookup("/x").unwrap();
    let y = fs.lookup("/x/y").unwrap();
    assert!(checksum_ok(&fs, 880));
    assert!(checksum_ok(&fs, x));
    assert!(checksum_ok(&fs, y));
    fs.remove_dir("/x/y").unwrap();
    assert!(checksum_ok(&fs, 880));
    assert!(checksum_ok(&fs, x));
    let bitmap = &fs.disk().data()[881 * 512..882 * 512];
    assert_eq!(
        compute_checksum(bitmap, 0),
        u32::from_be_bytes([bitmap[0], bitmap[1], bitmap[2], bitmap[3]])
    );
    // The parent link of an entry names its directory.
    let parent = &fs.disk().data()[x * 512 + 500..x * 512 + 504];
    assert_eq!(parent, &[0x00, 0x00, 0x03, 0x70]);
}

#[test]
fn blocks_are_taken_lowest_first() {
    let mut fs = fresh();
    assert_eq!(fs.inner.reserve_block(), Ok(2));
    assert_eq!(fs.inner.reserve_block(), Ok(3));
    assert_eq!(fs.inner.free_block(2), Ok(()));
    assert_eq!(fs.inner.reserve_block(), Ok(2));
    assert_eq!(fs.inner.free_block_count(), 1754);
    assert_eq!(fs.inner.total_block_count(), 1760);
    assert_eq!(fs.inner.free_block(1), Err(Error::DiskInvalidLBAAddressError(1)));
    assert_eq!(fs.inner.free_block(1760), Err(Error::DiskInvalidLBAAddressError(1760)));

    // Fill the volume.
    let mut taken = 0;
    while fs.inner.reserve_block().is_ok() {
        taken += 1;
    }
    assert_eq!(taken, 1754);
    assert_eq!(fs.inner.reserve_block(), Err(Error::NoSpaceLeft));
    assert_eq!(fs.inner.free_block_count(), 0);
    assert_eq!(fs.create_dir("/full"), Err(Error::NoSpaceLeft));
    assert_eq!(fs.inner.free_block(1759), Ok(()));
    assert_eq!(fs.inner.reserve_block(), Ok(1759));
}
