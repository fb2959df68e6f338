//! Unit tests of the settings.

use ldoce5viewer_tui::config::{data_dir_candidates, AutoPronLanguage, Config};

#[test]
fn test_default_config() {
    let cfg = Config::default();
    assert_eq!(cfg.auto_pron, AutoPronLanguage::Off);
    assert!(!cfg.monitor_clipboard);
    assert!(cfg.data_dir.is_none());
    assert!(cfg.content_wrap);
}

#[test]
fn data_dir_candidates_in_order() {
    assert_eq!(
        data_dir_candidates(Some("/work"), Some("/home/u/")),
        vec![
            "/work/ldoce5.data",
            "/home/u/ldoce5.data",
            "/home/u/Downloads/ldoce5.data",
            "/usr/share/ldoce5/ldoce5.data",
            "/usr/local/share/ldoce5/ldoce5.data",
            "/opt/Longman/ldoce5/ldoce5.data",
        ]
    );
    assert_eq!(data_dir_candidates(None, None).len(), 3);
}
