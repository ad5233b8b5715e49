use freemkv::archive::{is_archive_member, zip_files};
use std::io::Read;

#[test]
fn earlier_archive_is_not_packed_again() {
    assert!(!is_archive_member("profile.zip"));
    assert!(is_archive_member("drive.toml"));
    assert!(is_archive_member("profile.zip.bak"));
}

#[test]
fn archive_lists_the_packed_files() {
    let files = vec![
        ("inquiry.bin".to_string(), vec![0u8, 1, 2, 3]),
        ("drive.toml".to_string(), b"[drive]\nproduct = \"X\"\n".to_vec()),
        ("empty.bin".to_string(), Vec::new()),
    ];
    let bytes = match zip_files(&files) {
        Ok(b) => b,
        Err(e) => panic!("packing failed: {e:?}"),
    };
    let mut archive = zip::ZipArchive::new(std::io::Cursor::new(bytes)).unwrap();
    assert_eq!(archive.len(), files.len());
    for (i, (name, data)) in files.iter().enumerate() {
        let mut f = archive.by_index(i).unwrap();
        assert_eq!(f.name().unwrap().as_ref(), name.as_str());
        let mut got = Vec::new();
        f.read_to_end(&mut got).unwrap();
        assert_eq!(&got, data);
    }
}

#[test]
fn empty_archive_lists_nothing() {
    let bytes = zip_files(&Vec::new()).unwrap();
    let archive = zip::ZipArchive::new(std::io::Cursor::new(bytes)).unwrap();
    assert_eq!(archive.len(), 0);
}

#[test]
fn duplicate_names_are_refused_by_the_writer() {
    let files = vec![
        ("a.bin".to_string(), vec![1u8]),
        ("a.bin".to_string(), vec![2u8]),
    ];
    assert!(zip_files(&files).is_err());
}
