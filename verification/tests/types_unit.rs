//! Unit tests of content types and content addresses.

use ldoce5viewer_tui::content::types::{ContentId, ContentType};

#[test]
fn test_from_path_entry() {
    let cid = ContentId::from_path("/fs/3.4.6.2").unwrap();
    assert_eq!(cid.content_type, ContentType::Entry);
    assert_eq!(cid.id, "3.4.6.2");
    assert!(cid.anchor.is_none());
}

#[test]
fn test_from_path_with_anchor() {
    let cid = ContentId::from_path("/fs/3.4.6.2#s1").unwrap();
    assert_eq!(cid.id, "3.4.6.2");
    assert_eq!(cid.anchor, Some("s1".to_owned()));
}

#[test]
fn test_from_path_audio() {
    let cid = ContentId::from_path("/gb_hwd_pron/able_g.mp3").unwrap();
    assert_eq!(cid.content_type, ContentType::AudioPronunciation);
    assert_eq!(cid.id, "able_g.mp3");
}

#[test]
fn test_from_path_unknown() {
    assert!(ContentId::from_path("/unknowntype/foo").is_none());
}

#[test]
fn test_content_type_display() {
    assert_eq!(ContentType::Entry.to_string(), "entry");
    assert_eq!(ContentType::Thesaurus.to_string(), "thesaurus");
    assert_eq!(ContentType::Activator.to_string(), "activator");
}

#[test]
fn whitespace_matches_std() {
    for v in 0u32..0x3100 {
        if let Some(c) = char::from_u32(v) {
            assert_eq!(ldoce5viewer_tui::text::char_is_whitespace(c), c.is_whitespace(), "U+{v:04X}");
        }
    }
}
