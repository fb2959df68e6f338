//! Pictures in the terminal: which image protocol the terminal speaks, the
//! Kitty graphics escape sequences of a picture, and the text placeholder
//! for terminals without one.

use vstd::prelude::*;

use base64::engine::Engine;

use crate::app::{chars_contain, contains_chars};
use crate::search::incremental::{decimal_string, spec_decimal};
use crate::text::{chars_of, spec_str_lowercase, str_from_utf8, str_lowercase};

verus! {

/// A decoded picture: its width and height in pixels and its pixels as
/// RGBA bytes, row by row.
#[derive(Debug, Clone, PartialEq, Eq)]
pub struct Picture {
    pub width: u32,
    pub height: u32,
    pub rgba: Vec<u8>,
}

/// How a picture can be shown in the terminal.
#[derive(Debug, Clone, Copy, PartialEq, Eq, Structural)]
pub enum TerminalCapability {
    Kitty,
    Sixel,
    TextOnly,
}

/// Why a picture could not be shown.
#[derive(Debug, Clone, PartialEq, Eq)]
pub enum ImageError {
    /// The bytes are no picture the image crate reads; its message.
    Decode(String),
    /// Writing failed; the message of the I/O error.
    Io(String),
}

/// The capability of a terminal from `$TERM`, `$TERM_PROGRAM` and whether
/// `$KITTY_WINDOW_ID` is set: Kitty when either name mentions kitty
/// (ignoring case) or the window id is set; Sixel for xterm and VTE
/// terminals and iTerm; else text only.
pub open spec fn capability_of(term: Seq<char>, term_program: Seq<char>, kitty_window: bool) -> TerminalCapability {
    if contains_chars(spec_str_lowercase(term_program), "kitty"@) || contains_chars(spec_str_lowercase(term), "kitty"@)
        || kitty_window {
        TerminalCapability::Kitty
    } else if contains_chars(term, "xterm"@) || contains_chars(term, "vte"@) || contains_chars(
        spec_str_lowercase(term_program),
        "iterm"@,
    ) {
        TerminalCapability::Sixel
    } else {
        TerminalCapability::TextOnly
    }
}

/// Whether `s` contains `q`.
fn has(s: &str, q: &str) -> (r: bool)
    ensures
        r == contains_chars(s@, q@),
{
    let sc = chars_of(s);
    let qc = chars_of(q);
    chars_contain(sc.as_slice(), qc.as_slice())
}

/// The capability of the terminal described by `term`, `term_program` and
/// whether a Kitty window id is set.
pub fn capability_for(term: &str, term_program: &str, kitty_window: bool) -> (r: TerminalCapability)
    ensures
        r == capability_of(term@, term_program@, kitty_window),
{
    let tp = str_lowercase(term_program);
    let t = str_lowercase(term);
    if has(tp.as_str(), "kitty") || has(t.as_str(), "kitty") || kitty_window {
        TerminalCapability::Kitty
    } else if has(term, "xterm") || has(term, "vte") || has(tp.as_str(), "iterm") {
        TerminalCapability::Sixel
    } else {
        TerminalCapability::TextOnly
    }
}

/// The picture that the image crate decodes from `data` (its format
/// guessed), as width, height and RGBA bytes; `None` when it reads no
/// picture there.
pub uninterp spec fn spec_decode_rgba(data: Seq<u8>) -> Option<(u32, u32, Seq<u8>)>;

/// `image::load_from_memory`, its result converted by `to_rgba8`,
/// `dimensions` and `into_raw`: the picture in `data`, or the decoder's
/// message. The contract names the decoded picture; the decoders are not
/// restated, nor the message.
#[verifier::external_body]
pub fn load_image(data: &[u8]) -> (r: Result<Picture, ImageError>)
    ensures
        match spec_decode_rgba(data@) {
            Some((w, h, px)) => r matches Ok(p) && p.width == w && p.height == h && p.rgba@ == px,
            None => r matches Err(e) && e is Decode,
        },
{
    match image::load_from_memory(data) {
        Ok(img) => {
            let rgba = img.to_rgba8();
            let (width, height) = rgba.dimensions();
            Ok(Picture { width, height, rgba: rgba.into_raw() })
        },
        Err(e) => Err(ImageError::Decode(e.to_string())),
    }
}

/// The character of a six-bit value in the standard base64 alphabet.
pub open spec fn b64_char(v: int) -> char {
    if v < 26 {
        (65 + v) as char
    } else if v < 52 {
        (97 + v - 26) as char
    } else if v < 62 {
        (48 + v - 52) as char
    } else if v == 62 {
        '+'
    } else {
        '/'
    }
}

/// The standard base64 text of `data`, padded with `=`: each group of
/// three bytes gives four characters of six bits each, and a last group
/// of one or two bytes gives two or three characters and the padding.
pub open spec fn spec_base64(data: Seq<u8>) -> Seq<char>
    decreases data.len(),
{
    if data.len() == 0 {
        Seq::empty()
    } else if data.len() == 1 {
        let a = data[0] as int;
        seq![b64_char(a / 4), b64_char((a % 4) * 16), '=', '=']
    } else if data.len() == 2 {
        let a = data[0] as int;
        let b = data[1] as int;
        seq![b64_char(a / 4), b64_char((a % 4) * 16 + b / 16), b64_char((b % 16) * 4), '=']
    } else {
        let a = data[0] as int;
        let b = data[1] as int;
        let c = data[2] as int;
        seq![b64_char(a / 4), b64_char((a % 4) * 16 + b / 16), b64_char((b % 16) * 4 + c / 64), b64_char(c % 64)]
            + spec_base64(data.subrange(3, data.len() as int))
    }
}

/// `base64::engine::general_purpose::STANDARD.encode`: the standard
/// alphabet, padded, as the contract states.
#[verifier::external_body]
fn base64_encode(data: &[u8]) -> (r: String)
    ensures
        r@ == spec_base64(data@),
{
    base64::engine::general_purpose::STANDARD.encode(data)
}

/// The bytes of `s`.
pub open spec fn utf8_of(s: Seq<char>) -> Seq<u8> {
    vstd::utf8::encode_utf8(s)
}

/// The text of a chunk of bytes: itself when it is UTF-8, else nothing.
pub open spec fn chunk_text(c: Seq<u8>) -> Seq<u8> {
    if vstd::utf8::valid_utf8(c) {
        c
    } else {
        Seq::empty()
    }
}

/// The bytes `b` cut into chunks of 4096 bytes, the last one shorter.
pub open spec fn chunk_at(b: Seq<u8>, i: int) -> Seq<u8> {
    b.subrange(4096 * i, if 4096 * (i + 1) < b.len() {
        4096 * (i + 1)
    } else {
        b.len() as int
    })
}

/// The number of 4096-byte chunks of `n` bytes.
pub open spec fn chunk_count(n: int) -> int {
    (n + 4095) / 4096
}

/// The start of the escape sequence of chunk `i` of `n`, for a picture `w`
/// by `h` pixels shown in `cols` by `rows` cells: the first carries the
/// picture's parameters, each says whether more chunks follow.
pub open spec fn kitty_head_text(n: int, i: int, w: u32, h: u32, cols: u32, rows: u32) -> Seq<char> {
    let more: Seq<char> = if i + 1 < n {
        "1"@
    } else {
        "0"@
    };
    if i == 0 {
        "\x1b_Ga=T,f=32,s="@ + spec_decimal(w as nat) + ",v="@ + spec_decimal(h as nat) + ",c="@ + spec_decimal(
            cols as nat,
        ) + ",r="@ + spec_decimal(rows as nat) + ",m="@ + more + ";"@
    } else {
        "\x1b_Gm="@ + more + ";"@
    }
}

/// The bytes of the start of the escape sequence of chunk `i` of `n`.
pub open spec fn kitty_head(n: int, i: int, w: u32, h: u32, cols: u32, rows: u32) -> Seq<u8> {
    utf8_of(kitty_head_text(n, i, w, h, cols, rows))
}

/// The escape sequence of chunk `i` of `n` of the encoded picture `b`.
pub open spec fn kitty_chunk(b: Seq<u8>, n: int, i: int, w: u32, h: u32, cols: u32, rows: u32) -> Seq<u8> {
    kitty_head(n, i, w, h, cols, rows) + chunk_text(chunk_at(b, i)) + utf8_of("\x1b\\"@)
}

/// The escape sequences of chunks `0..k`.
pub open spec fn kitty_chunks(b: Seq<u8>, k: int, w: u32, h: u32, cols: u32, rows: u32) -> Seq<u8>
    decreases k,
{
    if k <= 0 {
        Seq::empty()
    } else {
        kitty_chunks(b, k - 1, w, h, cols, rows) + kitty_chunk(b, chunk_count(b.len() as int), k - 1, w, h, cols, rows)
    }
}

/// The Kitty graphics escape sequences that show `rgba` (its base64 text
/// in chunks of 4096 bytes).
pub open spec fn kitty_bytes(rgba: Seq<u8>, w: u32, h: u32, cols: u32, rows: u32) -> Seq<u8> {
    let b = utf8_of(spec_base64(rgba));
    kitty_chunks(b, chunk_count(b.len() as int), w, h, cols, rows)
}

/// Appends `s` to `out`.
fn write_str(out: &mut Vec<u8>, s: &str)
    ensures
        final(out)@ == old(out)@ + utf8_of(s@),
{
    let b = s.as_bytes_vec();
    let mut i: usize = 0;
    let ghost o0 = out@;
    while i < b.len()
        invariant
            i <= b@.len(),
            b@ == utf8_of(s@),
            out@ =~= o0 + b@.take(i as int),
        decreases b@.len() - i,
    {
        out.push(b[i]);
        i = i + 1;
    }
    assert(b@.take(b@.len() as int) =~= b@);
}

/// Appends the start of the escape sequence of chunk `i` of `count`.
fn write_head(out: &mut Vec<u8>, i: usize, count: usize, w: u32, h: u32, cols: u32, rows: u32)
    requires
        i < count,
    ensures
        final(out)@ == old(out)@ + kitty_head(count as int, i as int, w, h, cols, rows),
{
    let more = if i + 1 < count {
        "1"
    } else {
        "0"
    };
    let mut t = if i == 0 {
        let mut t = String::from_str("\x1b_Ga=T,f=32,s=");
        t.append(decimal_string(w as u64).as_str());
        t.append(",v=");
        t.append(decimal_string(h as u64).as_str());
        t.append(",c=");
        t.append(decimal_string(cols as u64).as_str());
        t.append(",r=");
        t.append(decimal_string(rows as u64).as_str());
        t.append(",m=");
        t
    } else {
        String::from_str("\x1b_Gm=")
    };
    t.append(more);
    t.append(";");
    write_str(out, t.as_str());
}

/// Appends the text of chunk `i` of the `count` chunks of `b`.
fn write_chunk_text(out: &mut Vec<u8>, b: &Vec<u8>, i: usize, count: usize)
    requires
        i < count,
        count as int == chunk_count(b@.len() as int),
    ensures
        final(out)@ == old(out)@ + chunk_text(chunk_at(b@, i as int)),
{
    let ghost o0 = out@;
    let n = b.len();
    assert(4096 * i < n) by (nonlinear_arith)
        requires
            i < count,
            count as int == chunk_count(n as int),
    {
    }
    let start = 4096 * i;
    let end = if n - start > 4096 {
        start + 4096
    } else {
        n
    };
    let mut chunk: Vec<u8> = Vec::new();
    let mut k = start;
    while k < end
        invariant
            start <= k <= end <= n,
            n == b@.len(),
            chunk@ =~= b@.subrange(start as int, k as int),
        decreases end - k,
    {
        chunk.push(b[k]);
        k = k + 1;
    }
    assert(chunk@ == chunk_at(b@, i as int));
    match str_from_utf8(chunk.as_slice()) {
        Some(t) => {
            write_str(out, t.as_str());
            proof {
                vstd::utf8::decode_utf8_encode_utf8(chunk@);
            }
            assert(utf8_of(t@) == chunk@);
        },
        None => {
            assert(out@ =~= o0 + chunk_text(chunk_at(b@, i as int)));
        },
    }
}

/// Appends the escape sequence of chunk `i` of the `count` chunks of `b`.
fn write_chunk(out: &mut Vec<u8>, b: &Vec<u8>, i: usize, count: usize, w: u32, h: u32, cols: u32, rows: u32)
    requires
        i < count,
        count as int == chunk_count(b@.len() as int),
    ensures
        final(out)@ == old(out)@ + kitty_chunk(b@, count as int, i as int, w, h, cols, rows),
{
    let ghost o0 = out@;
    write_head(out, i, count, w, h, cols, rows);
    write_chunk_text(out, b, i, count);
    write_str(out, "\x1b\\");
    assert(out@ =~= o0 + kitty_chunk(b@, count as int, i as int, w, h, cols, rows));
}

/// Appends the escape sequences that show the RGBA picture `rgba`, `w` by
/// `h` pixels, in `cols` by `rows` cells.
pub fn kitty_sequences(out: &mut Vec<u8>, rgba: &[u8], w: u32, h: u32, cols: u32, rows: u32)
    ensures
        final(out)@ == old(out)@ + kitty_bytes(rgba@, w, h, cols, rows),
{
    let encoded = base64_encode(rgba);
    let b = encoded.as_str().as_bytes_vec();
    let n = b.len();
    let count: usize = n / 4096 + if n % 4096 == 0 {
        0
    } else {
        1
    };
    assert(count as int == chunk_count(n as int)) by (nonlinear_arith)
        requires
            count == n / 4096 + if n % 4096 == 0 {
                0int
            } else {
                1int
            },
    {
    }
    let ghost o0 = out@;
    let mut i: usize = 0;
    while i < count
        invariant
            i <= count,
            count as int == chunk_count(n as int),
            n == b@.len(),
            b@ == utf8_of(spec_base64(rgba@)),
            out@ == o0 + kitty_chunks(b@, i as int, w, h, cols, rows),
        decreases count - i,
    {
        write_chunk(out, &b, i, count, w, h, cols, rows);
        assert(out@ =~= o0 + kitty_chunks(b@, i + 1, w, h, cols, rows));
        i = i + 1;
    }
}

/// Writes the Kitty graphics escape sequences of `img` to `out`, to be
/// shown in `max_cols` by `max_rows` cells.
pub fn render_kitty(out: &mut Vec<u8>, img: &Picture, max_cols: u32, max_rows: u32) -> (r: Result<(), ImageError>)
    ensures
        r is Ok,
        final(out)@ == old(out)@ + kitty_bytes(img.rgba@, img.width, img.height, max_cols, max_rows),
{
    kitty_sequences(out, img.rgba.as_slice(), img.width, img.height, max_cols, max_rows);
    Ok(())
}

/// Writes the text placeholder of picture `filename` to `out`.
pub fn render_placeholder(out: &mut Vec<u8>, filename: &str) -> (r: Result<(), ImageError>)
    ensures
        r is Ok,
        final(out)@ == old(out)@ + utf8_of("[image: "@ + filename@ + "]"@),
{
    let mut s = String::from_str("[image: ");
    s.append(filename);
    s.append("]");
    write_str(out, s.as_str());
    Ok(())
}

} // verus!
