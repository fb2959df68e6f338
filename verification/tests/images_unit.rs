//! Tests of terminal picture support.

use ldoce5viewer_tui::images::{
    capability_for, kitty_sequences, load_image, render_kitty, render_placeholder, Picture, TerminalCapability,
};

#[test]
fn test_detect_capability_does_not_panic() {
    let _cap = capability_for("xterm-256color", "", false);
}

#[test]
fn test_detect_returns_valid_variant() {
    let cap = capability_for("", "", false);
    assert!(matches!(cap, TerminalCapability::Kitty | TerminalCapability::Sixel | TerminalCapability::TextOnly));
}

#[test]
fn images_capability_rules() {
    assert_eq!(capability_for("xterm-kitty", "", false), TerminalCapability::Kitty);
    assert_eq!(capability_for("dumb", "KiTTy", false), TerminalCapability::Kitty);
    assert_eq!(capability_for("dumb", "", true), TerminalCapability::Kitty);
    assert_eq!(capability_for("xterm-256color", "", false), TerminalCapability::Sixel);
    assert_eq!(capability_for("dumb", "iTerm.app", false), TerminalCapability::Sixel);
    assert_eq!(capability_for("dumb", "", false), TerminalCapability::TextOnly);
}

#[test]
fn test_load_image_invalid_data() {
    let result = load_image(b"not an image");
    assert!(result.is_err());
}

#[test]
fn test_load_image_valid_png() {
    let img = image::DynamicImage::new_rgb8(1, 1);
    let mut buf = std::io::Cursor::new(Vec::new());
    img.write_to(&mut buf, image::ImageFormat::Png).unwrap();
    let png_bytes = buf.into_inner();
    let result = load_image(&png_bytes);
    assert!(result.is_ok(), "1x1 PNG should load: {:?}", result.err());
    assert_eq!(result.unwrap(), Picture { width: 1, height: 1, rgba: vec![0, 0, 0, 255] });
}

#[test]
fn test_render_placeholder() {
    let mut buf = Vec::new();
    render_placeholder(&mut buf, "test.jpg").unwrap();
    let s = String::from_utf8(buf).unwrap();
    assert!(s.contains("test.jpg"));
}

#[test]
fn test_kitty_render_produces_escape_codes() {
    let img = Picture { width: 2, height: 2, rgba: vec![0; 16] };
    let mut buf = Vec::new();
    render_kitty(&mut buf, &img, 20, 5).unwrap();
    let s = String::from_utf8(buf).unwrap();
    assert!(s.contains("\x1b_G"), "missing Kitty escape sequence");
    assert!(s.contains("\x1b\\"), "missing Kitty string terminator");
}

#[test]
fn images_kitty_exact_bytes() {
    let mut buf = Vec::new();
    kitty_sequences(&mut buf, &[0, 0, 0], 1, 1, 20, 5);
    assert_eq!(String::from_utf8(buf).unwrap(), "\x1b_Ga=T,f=32,s=1,v=1,c=20,r=5,m=0;AAAA\x1b\\");
}

#[test]
fn images_kitty_chunks_of_4096() {
    let mut buf = Vec::new();
    // 3072 bytes encode to exactly 4096 base64 characters; one more byte
    // makes a second chunk.
    kitty_sequences(&mut buf, &vec![0u8; 3073], 2, 3, 4, 5);
    let s = String::from_utf8(buf).unwrap();
    assert!(s.starts_with("\x1b_Ga=T,f=32,s=2,v=3,c=4,r=5,m=1;"));
    assert!(s.contains("\x1b\\\x1b_Gm=0;AA==\x1b\\"));
}

#[test]
fn images_render_kitty_exact() {
    let mut buf = b"x".to_vec();
    render_kitty(&mut buf, &Picture { width: 2, height: 2, rgba: vec![0; 16] }, 20, 5).unwrap();
    assert_eq!(String::from_utf8(buf).unwrap(), "x\x1b_Ga=T,f=32,s=2,v=2,c=20,r=5,m=0;AAAAAAAAAAAAAAAAAAAAAA==\x1b\\");
}
