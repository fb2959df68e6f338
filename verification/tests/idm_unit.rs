//! Unit tests of the archive listing reader.

use ldoce5viewer_tui::data::idm::{
    archive_dirs, archive_rel_path, build_dir_path, field_type_size, find_file_location, parse_cft, read_int,
    required_files, ArchiveError, ArchiveReader, FileEntry,
};
use std::io::Write;

#[test]
fn test_archive_dir_names() {
    let dirs = archive_dirs();
    let names: Vec<&str> = dirs.iter().map(|&(n, _)| n).collect();
    assert!(names.contains(&"fs"));
    assert!(names.contains(&"us_hwd_pron"));
    assert!(names.contains(&"gb_hwd_pron"));
    assert!(names.contains(&"activator_section"));
}

#[test]
fn test_list_files_unknown_archive() {
    let err = archive_rel_path("no_such_archive");
    assert!(matches!(err, Err(ArchiveError::UnknownArchive(_))));
}

#[test]
fn test_read_int() {
    let data = [0xAB, 0xCD, 0xEF, 0x01];
    assert_eq!(read_int(&data, 0, 1), 0xAB);
    assert_eq!(read_int(&data, 0, 2), 0xCDAB);
    assert_eq!(read_int(&data, 0, 3), 0xEFCDAB);
    assert_eq!(read_int(&data, 0, 4), 0x01EFCDAB);
}

#[test]
fn test_build_dir_path_root() {
    let dirs = vec![("root".to_string(), 0)];
    let path = build_dir_path(&dirs, 0);
    assert!(path.is_empty());
}

#[test]
fn test_build_dir_path_nested() {
    let dirs = vec![("root".to_string(), 0), ("child".to_string(), 0), ("grandchild".to_string(), 1)];
    let path = build_dir_path(&dirs, 2);
    assert_eq!(path, vec!["child", "grandchild"]);
}

#[test]
fn test_parse_cft_basic() {
    let (fields, rsize) = parse_cft("[DAT]\n$content = U24\n$a_dirs = USHORT\n");
    assert_eq!(fields.get("$content"), Some((0, 3)));
    assert_eq!(fields.get("$a_dirs"), Some((3, 2)));
    assert_eq!(rsize, 5);
}

#[test]
fn idm_field_type_sizes() {
    assert_eq!(field_type_size("UBYTE"), Some(1));
    assert_eq!(field_type_size("U24"), Some(3));
    assert_eq!(field_type_size("nonsense"), None);
}

#[test]
fn idm_archive_rel_path_known() {
    assert_eq!(archive_rel_path("fs").unwrap(), "fs.skn");
}

#[test]
fn idm_required_files_layout() {
    let files = required_files("/data");
    assert_eq!(files.len(), 32);
    assert_eq!(files[0], "/data/fs.skn/dirs.skn/config.cft");
    assert_eq!(files[31], "/data/sound.skn/files.skn/CONTENT.tda.tdz");
}

#[test]
fn find_file_location_takes_first_match() {
    let e = |name: &str, a: u64| FileEntry { dir_path: vec![], name: name.to_owned(), location: (a, 1, 2, 3) };
    let entries = vec![e("a.mp3", 10), e("b.mp3", 20), e("a.mp3", 30)];
    assert_eq!(find_file_location(&entries, "a.mp3"), Some((10, 1, 2, 3)));
    assert_eq!(find_file_location(&entries, "b.mp3"), Some((20, 1, 2, 3)));
    assert_eq!(find_file_location(&entries, "c.mp3"), None);
    assert_eq!(find_file_location(&[], "a.mp3"), None);
}

fn zlib(data: &[u8]) -> Vec<u8> {
    let mut e = flate2::write::ZlibEncoder::new(Vec::new(), flate2::Compression::default());
    e.write_all(data).unwrap();
    e.finish().unwrap()
}

#[test]
fn archive_cache_never_changes_results() {
    let a = zlib(b"hello world");
    let b = zlib(b"second block");
    let mut kept = ArchiveReader::new("x/CONTENT.tda".to_owned());
    let reads = [((0u64, 1u64, 0u64, 5u64), &a), ((0, 1, 6, 5), &a), ((100, 1, 0, 6), &b), ((0, 1, 2, 3), &a)];
    for (loc, stored) in reads {
        let mut fresh = ArchiveReader::new("x/CONTENT.tda".to_owned());
        let x = kept.read(loc, Some(stored.clone())).unwrap();
        let y = fresh.read(loc, Some(stored.clone())).unwrap();
        assert_eq!(x, y);
    }
    assert_eq!(kept.read((0, 1, 6, 5), None).unwrap(), b"world".to_vec());
    assert!(kept.read((0, 1, 6, 99), None).is_err());
}
