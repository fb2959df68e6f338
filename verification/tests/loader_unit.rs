//! Tests of page loading by content address.

use ldoce5viewer_tui::config::AutoPronLanguage;
use ldoce5viewer_tui::content::types::ContentType;
use ldoce5viewer_tui::data::cdb::{CDBMaker, CDBReader};
use ldoce5viewer_tui::loader::{
    archive_for_type, decode_location, filemap_key, load_target, lookup_location, pron_key, sanitize_for_pron,
};

#[test]
fn loader_archives() {
    assert_eq!(archive_for_type(ContentType::Entry), Some("fs"));
    assert_eq!(archive_for_type(ContentType::WordSets), Some("word_sets"));
    assert_eq!(archive_for_type(ContentType::Sound), None);
}

#[test]
fn loader_filemap_key_is_md5_prefix() {
    let digest = md5::compute(b"fs:3.4.6.2");
    assert_eq!(filemap_key("fs", "3.4.6.2"), digest.0[..10].to_vec());
}

#[test]
fn loader_decode_location() {
    let v16 = [1u8, 0, 0, 0, 2, 0, 0, 0, 3, 0, 0, 0, 4, 1, 0, 0];
    assert_eq!(decode_location(&v16), Some((1, 2, 3, 260)));
    let v10 = [0u8, 1, 0, 0, 5, 0, 6, 0, 7, 1];
    assert_eq!(decode_location(&v10), Some((256, 5, 6, 263)));
    assert_eq!(decode_location(&[1, 2, 3]), None);
}

#[test]
fn loader_pronunciation_names() {
    assert_eq!(sanitize_for_pron("3.4.6.2"), "3_4_6_2");
    assert_eq!(pron_key(AutoPronLanguage::GB, "1.2"), Some("gb_hwd_pron/1_2.mp3".to_string()));
    assert_eq!(pron_key(AutoPronLanguage::US, "1.2"), Some("us_hwd_pron/1_2.mp3".to_string()));
    assert_eq!(pron_key(AutoPronLanguage::Off, "1.2"), None);
}

#[test]
fn loader_target_errors() {
    assert_eq!(load_target(&None, "/fs/1").err().unwrap(), "No LDOCE5 data directory configured.");
    let dd = Some("/data".to_string());
    assert_eq!(load_target(&dd, "nonsense").err().unwrap(), "Unknown path: nonsense");
    assert_eq!(
        load_target(&dd, "/gb_hwd_pron/a.mp3").err().unwrap(),
        "Content type AudioPronunciation not directly loadable via path"
    );
    let t = load_target(&dd, "/fs/3.4.6.2").ok().unwrap();
    assert_eq!(t.archive, "fs");
    assert_eq!(t.id, "3.4.6.2");
    assert_eq!(t.key, filemap_key("fs", "3.4.6.2"));
}

#[test]
fn loader_lookup_location() {
    let dd = Some("/data".to_string());
    let t = load_target(&dd, "/fs/3.4.6.2").ok().unwrap();
    let mut maker = CDBMaker::new();
    maker.add(&t.key, &[9, 0, 0, 0, 8, 0, 7, 0, 6, 0]);
    let reader = CDBReader::open(maker.finalize()).unwrap();
    assert_eq!(lookup_location(&reader, &t), Ok((9, 8, 7, 6)));
    let other = load_target(&dd, "/fs/9.9").ok().unwrap();
    assert_eq!(lookup_location(&reader, &other), Err("Entry not found: 9.9".to_string()));
}
