//! Character-level text operations shared by the index, the content
//! transformer and the application state.

use unicode_normalization::UnicodeNormalization;
use vstd::prelude::*;

verus! {

/// Unicode compatibility decomposition (NFKD) of a character sequence, as
/// computed by the `unicode-normalization` crate.
pub uninterp spec fn spec_nfkd(s: Seq<char>) -> Seq<char>;

/// `str::to_lowercase` of a character sequence.
pub uninterp spec fn spec_str_lowercase(s: Seq<char>) -> Seq<char>;

/// `str::to_uppercase` of a character sequence.
pub uninterp spec fn spec_str_uppercase(s: Seq<char>) -> Seq<char>;

/// `char::is_lowercase` (the Unicode `Lowercase` property).
pub uninterp spec fn spec_is_lowercase(c: char) -> bool;

/// `char::is_whitespace`: the character has the Unicode `White_Space`
/// property, that is, it is one of U+0009 to U+000D, U+0020, U+0085,
/// U+00A0, U+1680, U+2000 to U+200A, U+2028, U+2029, U+202F, U+205F and
/// U+3000.
pub open spec fn spec_is_whitespace(c: char) -> bool {
    let v = c as u32;
    ||| 0x9 <= v <= 0xd
    ||| v == 0x20
    ||| v == 0x85
    ||| v == 0xa0
    ||| v == 0x1680
    ||| 0x2000 <= v <= 0x200a
    ||| v == 0x2028
    ||| v == 0x2029
    ||| v == 0x202f
    ||| v == 0x205f
    ||| v == 0x3000
}

/// `char::is_alphanumeric` (Unicode `Alphabetic` or `Numeric`).
pub uninterp spec fn spec_is_alphanumeric(c: char) -> bool;

/// What `String::from_utf8_lossy` gives for bytes that are not valid
/// UTF-8 (each invalid sequence replaced by U+FFFD).
pub uninterp spec fn spec_utf8_lossy(b: Seq<u8>) -> Seq<char>;

/// The text that `String::from_utf8_lossy` reads from `b`: the characters
/// that valid UTF-8 encodes, and otherwise the lossy decoding.
pub open spec fn utf8_text(b: Seq<u8>) -> Seq<char> {
    if vstd::utf8::valid_utf8(b) {
        vstd::utf8::decode_utf8(b)
    } else {
        spec_utf8_lossy(b)
    }
}

/// The NFKD decomposition of `s`, computed by `unicode-normalization`
/// (`UnicodeNormalization::nfkd`); the contract only names the result as
/// a function of the input characters.
#[verifier::external_body]
pub fn nfkd_chars(s: &str) -> (r: Vec<char>)
    ensures
        r@ == spec_nfkd(s@),
{
    s.nfkd().collect()
}

/// `str::to_lowercase`; the contract names the result as a function of the
/// input characters.
#[verifier::external_body]
pub fn str_lowercase(s: &str) -> (r: String)
    ensures
        r@ == spec_str_lowercase(s@),
{
    s.to_lowercase()
}

/// `str::to_uppercase`; the contract names the result as a function of the
/// input characters.
#[verifier::external_body]
pub fn str_uppercase(s: &str) -> (r: String)
    ensures
        r@ == spec_str_uppercase(s@),
{
    s.to_uppercase()
}

/// `char::is_lowercase`; the contract names the result.
#[verifier::external_body]
pub fn char_is_lowercase(c: char) -> (r: bool)
    ensures
        r == spec_is_lowercase(c),
{
    c.is_lowercase()
}

/// Whether `c` is white space: whether it has the Unicode `White_Space`
/// property, as `char::is_whitespace` says.
pub fn char_is_whitespace(c: char) -> (r: bool)
    ensures
        r == spec_is_whitespace(c),
{
    let v = c as u32;
    (0x9 <= v && v <= 0xd) || v == 0x20 || v == 0x85 || v == 0xa0 || v == 0x1680 || (0x2000 <= v && v
        <= 0x200a) || v == 0x2028 || v == 0x2029 || v == 0x202f || v == 0x205f || v == 0x3000
}

/// `char::is_alphanumeric`; the contract names the result.
#[verifier::external_body]
pub fn char_is_alphanumeric(c: char) -> (r: bool)
    ensures
        r == spec_is_alphanumeric(c),
{
    c.is_alphanumeric()
}

/// `String::from_utf8_lossy`: for valid UTF-8 its documentation promises
/// the characters that the bytes encode; for other input the contract only
/// names the result as a function of the bytes.
#[verifier::external_body]
pub fn utf8_lossy(b: &[u8]) -> (r: String)
    ensures
        r@ == (if vstd::utf8::valid_utf8(b@) {
            vstd::utf8::decode_utf8(b@)
        } else {
            spec_utf8_lossy(b@)
        }),
{
    String::from_utf8_lossy(b).into_owned()
}

/// `std::str::from_utf8`, the text copied: it accepts exactly the valid
/// UTF-8 byte sequences, and gives the characters that they encode.
#[verifier::external_body]
pub fn str_from_utf8(b: &[u8]) -> (r: Option<String>)
    ensures
        r is Some <==> vstd::utf8::valid_utf8(b@),
        r matches Some(s) ==> s@ == vstd::utf8::decode_utf8(b@),
{
    std::str::from_utf8(b).ok().map(String::from)
}

/// `String::push`: appends one character.
#[verifier::external_body]
pub fn push_char(s: &mut String, c: char)
    ensures
        final(s)@ == old(s)@.push(c),
{
    s.push(c);
}

/// The characters of `s`, in order.
pub fn chars_of(s: &str) -> (r: Vec<char>)
    ensures
        r@ == s@,
{
    let mut r: Vec<char> = Vec::new();
    let n = s.unicode_len();
    let mut i: usize = 0;
    while i < n
        invariant
            i <= n,
            n == s@.len(),
            r@ == s@.subrange(0, i as int),
        decreases n - i,
    {
        r.push(s.get_char(i));
        i = i + 1;
        assert(r@ =~= s@.subrange(0, i as int));
    }
    assert(r@ =~= s@);
    r
}

/// The string made of the characters of `v`.
pub fn string_from_chars(v: &[char]) -> (r: String)
    ensures
        r@ == v@,
{
    let mut r = String::new();
    let mut i: usize = 0;
    while i < v.len()
        invariant
            i <= v@.len(),
            r@ == v@.subrange(0, i as int),
        decreases v@.len() - i,
    {
        push_char(&mut r, v[i]);
        i = i + 1;
        assert(r@ =~= v@.subrange(0, i as int));
    }
    assert(r@ =~= v@);
    r
}

/// Number of leading white-space characters of `s`.
pub open spec fn lead_ws(s: Seq<char>) -> int
    decreases s.len(),
{
    if s.len() > 0 && spec_is_whitespace(s[0]) {
        1 + lead_ws(s.drop_first())
    } else {
        0
    }
}

/// Number of trailing white-space characters of `s`.
pub open spec fn trail_ws(s: Seq<char>) -> int
    decreases s.len(),
{
    if s.len() > 0 && spec_is_whitespace(s.last()) {
        1 + trail_ws(s.drop_last())
    } else {
        0
    }
}

/// `s` without leading and trailing white space (`str::trim`).
pub open spec fn spec_trim(s: Seq<char>) -> Seq<char> {
    let a = lead_ws(s);
    if a == s.len() {
        Seq::empty()
    } else {
        s.subrange(a, s.len() - trail_ws(s))
    }
}

/// The leading white space of `s` lies within it, and the character after
/// it, if any, is not white space.
pub proof fn lemma_lead_ws_bound(s: Seq<char>)
    ensures
        0 <= lead_ws(s) <= s.len(),
        forall|i: int| 0 <= i < lead_ws(s) ==> spec_is_whitespace(#[trigger] s[i]),
        lead_ws(s) < s.len() ==> !spec_is_whitespace(s[lead_ws(s)]),
    decreases s.len(),
{
    if s.len() > 0 && spec_is_whitespace(s[0]) {
        lemma_lead_ws_bound(s.drop_first());
        assert forall|i: int| 0 <= i < lead_ws(s) implies spec_is_whitespace(#[trigger] s[i]) by {
            if i > 0 {
                assert(s[i] == s.drop_first()[i - 1]);
            }
        }
    }
}

proof fn lemma_trail_ws_bound(s: Seq<char>)
    ensures
        0 <= trail_ws(s) <= s.len(),
        forall|i: int| s.len() - trail_ws(s) <= i < s.len() ==> spec_is_whitespace(#[trigger] s[i]),
        trail_ws(s) < s.len() ==> !spec_is_whitespace(s[s.len() - 1 - trail_ws(s)]),
    decreases s.len(),
{
    if s.len() > 0 && spec_is_whitespace(s.last()) {
        lemma_trail_ws_bound(s.drop_last());
        assert forall|i: int| s.len() - trail_ws(s) <= i < s.len() implies spec_is_whitespace(
            #[trigger] s[i],
        ) by {
            if i < s.len() - 1 {
                assert(s[i] == s.drop_last()[i]);
            }
        }
    }
}

/// A white-space prefix of length `k` followed by a non-white-space character.
proof fn lemma_lead_ws_exact(s: Seq<char>, k: int)
    requires
        0 <= k <= s.len(),
        forall|i: int| 0 <= i < k ==> spec_is_whitespace(#[trigger] s[i]),
        k < s.len() ==> !spec_is_whitespace(s[k]),
    ensures
        lead_ws(s) == k,
    decreases s.len(),
{
    if k > 0 {
        assert(spec_is_whitespace(s[0]));
        lemma_lead_ws_exact(s.drop_first(), k - 1);
    }
}

/// A white-space suffix of length `k` preceded by a non-white-space character.
proof fn lemma_trail_ws_exact(s: Seq<char>, k: int)
    requires
        0 <= k <= s.len(),
        forall|i: int| s.len() - k <= i < s.len() ==> spec_is_whitespace(#[trigger] s[i]),
        k < s.len() ==> !spec_is_whitespace(s[s.len() - 1 - k]),
    ensures
        trail_ws(s) == k,
    decreases s.len(),
{
    if k > 0 {
        assert(spec_is_whitespace(s[s.len() - 1]));
        assert forall|i: int| s.drop_last().len() - (k - 1) <= i < s.drop_last().len() implies spec_is_whitespace(
            #[trigger] s.drop_last()[i],
        ) by {
            assert(s.drop_last()[i] == s[i]);
        }
        lemma_trail_ws_exact(s.drop_last(), k - 1);
    }
}

/// The characters of `v` without leading and trailing white space.
pub fn trim_chars(v: &[char]) -> (r: Vec<char>)
    ensures
        r@ == spec_trim(v@),
{
    let n = v.len();
    let mut a: usize = 0;
    while a < n && char_is_whitespace(v[a])
        invariant
            a <= n,
            n == v@.len(),
            forall|i: int| 0 <= i < a ==> spec_is_whitespace(#[trigger] v@[i]),
        decreases n - a,
    {
        a = a + 1;
    }
    proof {
        lemma_lead_ws_exact(v@, a as int);
    }
    if a == n {
        return Vec::new();
    }
    let mut b: usize = n;
    while b > a && char_is_whitespace(v[b - 1])
        invariant
            a < n,
            a <= b <= n,
            n == v@.len(),
            !spec_is_whitespace(v@[a as int]),
            forall|i: int| b <= i < n ==> spec_is_whitespace(#[trigger] v@[i]),
        decreases b,
    {
        b = b - 1;
    }
    proof {
        lemma_trail_ws_exact(v@, (n - b) as int);
    }
    let mut r: Vec<char> = Vec::new();
    let mut i: usize = a;
    while i < b
        invariant
            a <= i <= b <= n,
            n == v@.len(),
            r@ == v@.subrange(a as int, i as int),
        decreases b - i,
    {
        r.push(v[i]);
        i = i + 1;
        assert(r@ =~= v@.subrange(a as int, i as int));
    }
    r
}

/// Trimming never lengthens a sequence.
pub proof fn lemma_trim_len(s: Seq<char>)
    ensures
        spec_trim(s).len() <= s.len(),
{
    lemma_lead_ws_bound(s);
    lemma_trail_ws_bound(s);
}

} // verus!
