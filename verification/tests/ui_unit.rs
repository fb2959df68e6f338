//! Unit tests of the helpers behind the content view and the result list.

use ldoce5viewer_tui::labels::{path_to_title, strip_markup};

#[test]
fn test_path_to_title() {
    assert_eq!(path_to_title("/fs/3.4.6.2"), "3.4.6.2");
    assert_eq!(path_to_title("entry"), "entry");
    assert_eq!(path_to_title(""), "");
}

#[test]
fn test_strip_markup() {
    assert_eq!(strip_markup("Hello <b>World</b>!"), "Hello World!");
    assert_eq!(strip_markup("<hw>run</hw>  <pos>verb</pos>"), "run  verb");
    assert_eq!(strip_markup("plain text"), "plain text");
}
