//! Text shown around the content: page titles, result labels with their
//! lightweight markup (`<h>`, `<v>`, `<p>`, `<f>`, `<s>`), and headwords.

use vstd::prelude::*;

use crate::app::{join_with, page_inlines, word_count};
use crate::content::page::{Block, Inline, InlineView, inlines_view};
use crate::content::style::{Color, DIM, BOLD, Style};
use crate::content::types::strip_leading_slashes;
use crate::data::idm::{ascii_lower, eq_ignore_ascii_case};
use crate::text::{char_is_whitespace, chars_of, spec_is_whitespace, spec_trim, string_from_chars, trim_chars};

verus! {

/// The position of the last `c` in `s`, if any.
pub open spec fn last_index_of(s: Seq<char>, c: char) -> Option<int>
    decreases s.len(),
{
    if s.len() == 0 {
        None
    } else if s.last() == c {
        Some(s.len() - 1)
    } else {
        last_index_of(s.drop_last(), c)
    }
}

/// The part of `s` after its last `/`, or all of it.
pub open spec fn last_segment(s: Seq<char>) -> Seq<char> {
    match last_index_of(s, '/') {
        Some(i) => s.subrange(i + 1, s.len() as int),
        None => s,
    }
}

/// The title of a content path: its last segment, leading slashes
/// ignored.
pub fn path_to_title(path: &str) -> (r: &str)
    ensures
        r@ == last_segment(strip_leading_slashes(path@)),
{
    let cs = chars_of(path);
    let n = cs.len();
    let mut a: usize = 0;
    assert(cs@.subrange(0, n as int) =~= path@);
    while a < n && cs[a] == '/'
        invariant
            a <= n,
            n == cs@.len(),
            cs@ == path@,
            strip_leading_slashes(cs@.subrange(a as int, n as int)) == strip_leading_slashes(path@),
        decreases n - a,
    {
        assert(cs@.subrange(a as int, n as int).drop_first() =~= cs@.subrange(a + 1, n as int));
        a = a + 1;
    }
    let ghost p = cs@.subrange(a as int, n as int);
    assert(strip_leading_slashes(p) == p);
    let mut j = n;
    while j > a && cs[j - 1] != '/'
        invariant
            a <= j <= n,
            n == cs@.len(),
            p == cs@.subrange(a as int, n as int),
            last_index_of(p, '/') == last_index_of(cs@.subrange(a as int, j as int), '/'),
        decreases j,
    {
        assert(cs@.subrange(a as int, j as int).drop_last() =~= cs@.subrange(a as int, j - 1));
        j = j - 1;
    }
    if j > a {
        assert(last_index_of(cs@.subrange(a as int, j as int), '/') == Some(j - 1 - a));
        assert(p.subrange(j - a, p.len() as int) =~= path@.subrange(j as int, n as int));
    } else {
        assert(cs@.subrange(a as int, j as int) =~= Seq::<char>::empty());
        assert(p =~= path@.subrange(a as int, n as int));
    }
    path.substring_char(j, n)
}

/// The first headword among the inline elements `v` whose text is not
/// blank, trimmed.
pub open spec fn first_headword(v: Seq<InlineView>) -> Option<Seq<char>>
    decreases v.len(),
{
    if v.len() == 0 {
        None
    } else {
        match v[0] {
            InlineView::Headword(t) => if spec_trim(t).len() > 0 {
                Some(spec_trim(t))
            } else {
                first_headword(v.drop_first())
            },
            _ => first_headword(v.drop_first()),
        }
    }
}

proof fn lemma_first_headword_append(a: Seq<InlineView>, b: Seq<InlineView>)
    ensures
        first_headword(a + b) == match first_headword(a) {
            Some(t) => Some(t),
            None => first_headword(b),
        },
    decreases a.len(),
{
    if a.len() > 0 {
        assert((a + b).drop_first() =~= a.drop_first() + b);
        lemma_first_headword_append(a.drop_first(), b);
    } else {
        assert(a + b =~= b);
    }
}

/// The page's headword: its first non-blank headword, trimmed.
pub fn extract_headword(page: &[Block]) -> (r: Option<String>)
    ensures
        match first_headword(page_inlines(page@, page@.len() as int)) {
            Some(t) => r matches Some(s) && s@ == t,
            None => r is None,
        },
{
    let mut b: usize = 0;
    while b < page.len()
        invariant
            b <= page@.len(),
            first_headword(page_inlines(page@, b as int)) is None,
        decreases page@.len() - b,
    {
        let block = &page[b];
        let ghost pre = page_inlines(page@, b as int);
        let mut i: usize = 0;
        while i < block.inlines.len()
            invariant
                i <= block.inlines@.len(),
                first_headword(pre) is None,
                pre == page_inlines(page@, b as int),
                b < page@.len(),
                block == page@[b as int],
                first_headword(inlines_view(block.inlines@).take(i as int)) is None,
            decreases block.inlines@.len() - i,
        {
            let ghost v = inlines_view(block.inlines@);
            proof {
                assert(v[i as int] == block.inlines@[i as int]@);
                lemma_first_headword_append(v.take(i as int), seq![v[i as int]]);
                assert(v.take(i + 1) =~= v.take(i as int) + seq![v[i as int]]);
            }
            match &block.inlines[i] {
                Inline::Headword(t) => {
                    let tc = chars_of(t.as_str());
                    let tt = trim_chars(tc.as_slice());
                    if tt.len() > 0 {
                        proof {
                            let s = seq![v[i as int]];
                            assert(s.drop_first() =~= Seq::<InlineView>::empty());
                            lemma_first_headword_append(v.take(i + 1), v.skip(i + 1));
                            assert(v.take(i + 1) + v.skip(i + 1) =~= v);
                            lemma_first_headword_append(pre, v);
                            assert(page_inlines(page@, b + 1) == pre + v);
                            lemma_page_headword(page@, b + 1, page@.len() as int);
                        }
                        return Some(string_from_chars(tt.as_slice()));
                    }
                    proof {
                        let s = seq![v[i as int]];
                        assert(s.drop_first() =~= Seq::<InlineView>::empty());
                        assert(v[i as int] == InlineView::Headword(t@));
                        assert(spec_trim(t@).len() == 0);
                        assert(first_headword(s) == first_headword(s.drop_first()));
                    }
                },
                _ => {
                    proof {
                        let s = seq![v[i as int]];
                        assert(s.drop_first() =~= Seq::<InlineView>::empty());
                        assert(!(v[i as int] is Headword));
                        assert(first_headword(s) == first_headword(s.drop_first()));
                    }
                },
            }
            i = i + 1;
        }
        proof {
            let v = inlines_view(block.inlines@);
            assert(v.take(v.len() as int) =~= v);
            lemma_first_headword_append(pre, v);
        }
        b = b + 1;
    }
    None
}

/// A headword found among the first blocks stays the page's headword.
proof fn lemma_page_headword(page: Seq<Block>, k: int, n: int)
    requires
        0 <= k <= n <= page.len(),
    ensures
        first_headword(page_inlines(page, k)) is Some ==> first_headword(page_inlines(page, n))
            == first_headword(page_inlines(page, k)),
    decreases n - k,
{
    if k < n {
        lemma_page_headword(page, k, n - 1);
        lemma_first_headword_append(page_inlines(page, n - 1), inlines_view(page[n - 1].inlines@));
    }
}

/// Whether a tag is open, and the text kept so far, after reading `s`
/// with tags (`<` to `>`) removed.
pub open spec fn strip_state(s: Seq<char>) -> (bool, Seq<char>)
    decreases s.len(),
{
    if s.len() == 0 {
        (false, Seq::empty())
    } else {
        let (t, o) = strip_state(s.drop_last());
        let c = s.last();
        if c == '<' {
            (true, o)
        } else if c == '>' {
            (false, o)
        } else if t {
            (t, o)
        } else {
            (t, o.push(c))
        }
    }
}

/// Removes `<tag>` and `</tag>` markup from a label.
pub fn strip_markup(s: &str) -> (r: String)
    ensures
        r@ == strip_state(s@).1,
{
    let cs = chars_of(s);
    let mut out: Vec<char> = Vec::new();
    let mut in_tag = false;
    let mut i: usize = 0;
    while i < cs.len()
        invariant
            i <= cs@.len(),
            cs@ == s@,
            (in_tag, out@) == strip_state(cs@.take(i as int)),
        decreases cs@.len() - i,
    {
        let c = cs[i];
        if c == '<' {
            in_tag = true;
        } else if c == '>' {
            in_tag = false;
        } else if !in_tag {
            out.push(c);
        }
        i = i + 1;
        assert(cs@.take(i as int).drop_last() =~= cs@.take(i - 1));
    }
    assert(cs@.take(cs@.len() as int) =~= cs@);
    string_from_chars(out.as_slice())
}

/// The white-space separated words of `s`, in order.
pub open spec fn words_of(s: Seq<char>) -> Seq<Seq<char>>
    decreases s.len(),
{
    if s.len() == 0 {
        Seq::empty()
    } else {
        let w = words_of(s.drop_last());
        let c = s.last();
        if spec_is_whitespace(c) {
            w
        } else if s.len() >= 2 && !spec_is_whitespace(s[s.len() - 2]) {
            w.drop_last().push(w.last().push(c))
        } else {
            w.push(seq![c])
        }
    }
}

/// The words `w` without each one equal (ignoring ASCII case) to the word
/// kept before it.
pub open spec fn dedup_words(w: Seq<Seq<char>>) -> Seq<Seq<char>>
    decreases w.len(),
{
    if w.len() == 0 {
        Seq::empty()
    } else {
        let d = dedup_words(w.drop_last());
        if d.len() > 0 && eq_ignore_ascii_case(d.last(), w.last()) {
            d
        } else {
            d.push(w.last())
        }
    }
}

/// The words of `s`, read with the word being built.
pub(crate) fn split_words(s: &[char]) -> (r: Vec<Vec<char>>)
    ensures
        r@.map_values(|w: Vec<char>| w@) == words_of(s@),
{
    let mut r: Vec<Vec<char>> = Vec::new();
    let mut cur: Vec<char> = Vec::new();
    let mut i: usize = 0;
    while i < s.len()
        invariant
            i <= s@.len(),
            (cur@.len() > 0) == (i > 0 && !spec_is_whitespace(s@[i - 1])),
            cur@.len() > 0 ==> words_of(s@.take(i as int)) == r@.map_values(|w: Vec<char>| w@).push(cur@),
            cur@.len() == 0 ==> words_of(s@.take(i as int)) == r@.map_values(|w: Vec<char>| w@),
        decreases s@.len() - i,
    {
        let c = s[i];
        let ghost t = s@.take(i + 1);
        let ghost rv = r@.map_values(|w: Vec<char>| w@);
        proof {
            assert(t.drop_last() =~= s@.take(i as int));
            if i >= 1 {
                assert(t[t.len() - 2] == s@[i - 1]);
            }
        }
        if char_is_whitespace(c) {
            if cur.len() > 0 {
                let w = cur;
                r.push(w);
                cur = Vec::new();
                assert(r@.map_values(|w: Vec<char>| w@) =~= rv.push(w@));
            }
        } else {
            let ghost c0 = cur@;
            cur.push(c);
            proof {
                if c0.len() > 0 {
                    assert(rv.push(c0).drop_last() =~= rv);
                } else {
                    assert(cur@ =~= seq![c]);
                }
            }
        }
        i = i + 1;
    }
    assert(s@.take(s@.len() as int) =~= s@);
    if cur.len() > 0 {
        let ghost rv = r@.map_values(|w: Vec<char>| w@);
        let w = cur;
        r.push(w);
        assert(r@.map_values(|w: Vec<char>| w@) =~= rv.push(w@));
    }
    r
}

/// Whether `a` equals `b`, ignoring the case of ASCII letters.
pub(crate) fn words_eq_ignore_ascii_case(a: &[char], b: &[char]) -> (r: bool)
    ensures
        r == eq_ignore_ascii_case(a@, b@),
{
    if a.len() != b.len() {
        return false;
    }
    let mut i: usize = 0;
    while i < a.len()
        invariant
            i <= a@.len(),
            a@.len() == b@.len(),
            forall|k: int| 0 <= k < i ==> ascii_lower(#[trigger] a@[k]) == ascii_lower(b@[k]),
        decreases a@.len() - i,
    {
        let x = a[i];
        let y = b[i];
        let lx: u32 = if 'A' <= x && x <= 'Z' {
            (x as u32) + 32
        } else {
            x as u32
        };
        let ly: u32 = if 'A' <= y && y <= 'Z' {
            (y as u32) + 32
        } else {
            y as u32
        };
        if lx != ly {
            assert(ascii_lower(x) as u32 == lx);
            assert(ascii_lower(y) as u32 == ly);
            return false;
        }
        assert(ascii_lower(x) as u32 == lx);
        assert(ascii_lower(y) as u32 == ly);
        i = i + 1;
    }
    true
}

/// The words of `s` with adjacent repeats (ignoring ASCII case) collapsed,
/// joined by single spaces.
pub fn collapse_adjacent_duplicates(s: &str) -> (r: String)
    ensures
        r@ == join_with(dedup_words(words_of(s@)), " "@),
{
    let cs = chars_of(s);
    let words = split_words(cs.as_slice());
    let ghost wv = words@.map_values(|w: Vec<char>| w@);
    let mut kept: Vec<Vec<char>> = Vec::new();
    let mut i: usize = 0;
    while i < words.len()
        invariant
            i <= words@.len(),
            wv == words@.map_values(|w: Vec<char>| w@),
            kept@.map_values(|w: Vec<char>| w@) == dedup_words(wv.take(i as int)),
        decreases words@.len() - i,
    {
        let ghost kv = kept@.map_values(|w: Vec<char>| w@);
        proof {
            assert(wv.take(i + 1).drop_last() =~= wv.take(i as int));
        }
        let n = kept.len();
        let dup = n > 0 && words_eq_ignore_ascii_case(kept[n - 1].as_slice(), words[i].as_slice());
        if !dup {
            kept.push(words[i].clone());
            assert(kept@.map_values(|w: Vec<char>| w@) =~= kv.push(wv[i as int]));
        }
        i = i + 1;
    }
    assert(wv.take(wv.len() as int) =~= wv);
    let ghost parts = kept@.map_values(|w: Vec<char>| w@);
    let mut out: Vec<char> = Vec::new();
    let mut k: usize = 0;
    while k < kept.len()
        invariant
            k <= kept@.len(),
            parts == kept@.map_values(|w: Vec<char>| w@),
            out@ == join_with(parts.take(k as int), " "@),
        decreases kept@.len() - k,
    {
        let ghost o0 = out@;
        if k > 0 {
            out.push(' ');
        }
        let w = &kept[k];
        let mut j: usize = 0;
        let ghost o1 = out@;
        while j < w.len()
            invariant
                j <= w@.len(),
                out@ == o1 + w@.take(j as int),
            decreases w@.len() - j,
        {
            out.push(w[j]);
            j = j + 1;
            assert(out@ =~= o1 + w@.take(j as int));
        }
        proof {
            reveal_strlit(" ");
            assert(w@.take(w@.len() as int) =~= w@);
            let t = parts.take(k + 1);
            assert(t.drop_last() =~= parts.take(k as int));
            if k == 0 {
                assert(parts.take(0) =~= Seq::<Seq<char>>::empty());
                assert(out@ =~= parts[0]);
            } else {
                assert(out@ =~= o0 + " "@ + parts[k as int]);
            }
        }
        k = k + 1;
    }
    assert(parts.take(parts.len() as int) =~= parts);
    string_from_chars(out.as_slice())
}

/// The style of text inside a label tag.
pub open spec fn label_tag_style(t: Seq<char>) -> Style {
    if t == "h"@ || t == "H"@ || t == "hw"@ {
        Style { fg: Some(Color::Cyan), bg: None, add_modifier: BOLD }
    } else if t == "v"@ {
        Style { fg: Some(Color::Magenta), bg: None, add_modifier: 0 }
    } else if t == "p"@ {
        Style { fg: Some(Color::Yellow), bg: None, add_modifier: 0 }
    } else if t == "f"@ || t == "s"@ {
        Style { fg: None, bg: None, add_modifier: DIM }
    } else {
        Style { fg: None, bg: None, add_modifier: 0 }
    }
}

/// The style of a label tag named `t`.
fn tag_style(t: &[char]) -> (r: Style)
    ensures
        r == label_tag_style(t@),
{
    let s = string_from_chars(t);
    let e = |lit: &str| -> (b: bool)
        ensures
            b == (s@ == lit@),
        { crate::history::str_equal(s.as_str(), lit) };
    if e("h") || e("H") || e("hw") {
        Style { fg: Some(Color::Cyan), bg: None, add_modifier: BOLD }
    } else if e("v") {
        Style { fg: Some(Color::Magenta), bg: None, add_modifier: 0 }
    } else if e("p") {
        Style { fg: Some(Color::Yellow), bg: None, add_modifier: 0 }
    } else if e("f") || e("s") {
        Style { fg: None, bg: None, add_modifier: DIM }
    } else {
        Style { fg: None, bg: None, add_modifier: 0 }
    }
}

/// The style in force: the innermost open tag's, or the plain style.
pub open spec fn top_style(stack: Seq<Style>) -> Style {
    if stack.len() > 0 {
        stack.last()
    } else {
        Style { fg: None, bg: None, add_modifier: 0 }
    }
}

/// The parts after closing the text `buf` under the styles `stack`.
pub open spec fn flush_text(parts: Seq<(Seq<char>, Style)>, buf: Seq<char>, stack: Seq<Style>) -> Seq<(Seq<char>, Style)> {
    if buf.len() > 0 {
        parts.push((buf, top_style(stack)))
    } else {
        parts
    }
}

/// Reads a tag name from position `j`: up to and past a `>` or a white
/// space; the position reached and the name.
pub open spec fn read_tag_name(s: Seq<char>, j: int) -> (int, Seq<char>)
    decreases s.len() - j,
{
    if j < 0 || j >= s.len() {
        (j, Seq::empty())
    } else if s[j] == '>' || spec_is_whitespace(s[j]) {
        (j + 1, Seq::empty())
    } else {
        let (k, t) = read_tag_name(s, j + 1);
        (k, seq![s[j]] + t)
    }
}

/// The position just past the next `>` from `k`, or the end.
pub open spec fn skip_past_gt(s: Seq<char>, k: int) -> int
    decreases s.len() - k,
{
    if k < 0 || k >= s.len() {
        k
    } else if s[k] == '>' {
        k + 1
    } else {
        skip_past_gt(s, k + 1)
    }
}

pub proof fn lemma_tag_progress(s: Seq<char>, j: int)
    requires
        0 <= j <= s.len(),
    ensures
        j <= read_tag_name(s, j).0 <= s.len(),
        read_tag_name(s, j).0 <= skip_past_gt(s, read_tag_name(s, j).0) <= s.len(),
    decreases s.len() - j,
{
    if j < s.len() && !(s[j] == '>' || spec_is_whitespace(s[j])) {
        lemma_tag_progress(s, j + 1);
    }
    lemma_skip_progress(s, read_tag_name(s, j).0);
}

pub proof fn lemma_skip_progress(s: Seq<char>, k: int)
    requires
        0 <= k <= s.len(),
    ensures
        k <= skip_past_gt(s, k) <= s.len(),
    decreases s.len() - k,
{
    if 0 <= k < s.len() && s[k] != '>' {
        lemma_skip_progress(s, k + 1);
    }
}

/// The styled parts of the label `s` from position `i`, with the styles of
/// the open tags `stack`, the text `buf` read and the parts `parts` done.
/// A tag `<name ...>` opens a style; `</...>` closes the innermost one;
/// after a tag's name the text up to the next `>` is skipped.
pub open spec fn label_parse(s: Seq<char>, i: int, stack: Seq<Style>, buf: Seq<char>, parts: Seq<(Seq<char>, Style)>) -> Seq<(Seq<char>, Style)>
    decreases s.len() - i,
{
    if i < 0 || i >= s.len() {
        flush_text(parts, buf, stack)
    } else if s[i] == '<' {
        let close = i + 1 < s.len() && s[i + 1] == '/';
        let j = if close {
            i + 2
        } else {
            i + 1
        };
        let rt = read_tag_name(s, j);
        let k = rt.0;
        let t = rt.1;
        let m = skip_past_gt(s, k);
        proof {
            lemma_tag_progress(s, j);
        }
        let name = spec_trim(t);
        let st = if close {
            if stack.len() > 0 {
                stack.drop_last()
            } else {
                stack
            }
        } else {
            stack.push(label_tag_style(name))
        };
        label_parse(s, m, st, Seq::empty(), flush_text(parts, buf, stack))
    } else {
        label_parse(s, i + 1, stack, buf.push(s[i]), parts)
    }
}

/// The plain values of styled parts.
pub open spec fn parts_view(v: Seq<(String, Style)>) -> Seq<(Seq<char>, Style)> {
    v.map_values(|p: (String, Style)| (p.0@, p.1))
}

/// Splits a label with lightweight markup into styled parts.
pub fn parse_label_to_spans(s: &str) -> (r: Vec<(String, Style)>)
    ensures
        parts_view(r@) == label_parse(s@, 0, Seq::empty(), Seq::empty(), Seq::empty()),
{
    let cs = chars_of(s);
    let n = cs.len();
    let mut parts: Vec<(String, Style)> = Vec::new();
    let mut stack: Vec<Style> = Vec::new();
    let mut buf: Vec<char> = Vec::new();
    let mut i: usize = 0;
    assert(parts_view(parts@) =~= Seq::<(Seq<char>, Style)>::empty());
    while i < n
        invariant
            i <= n,
            n == cs@.len(),
            cs@ == s@,
            label_parse(cs@, i as int, stack@, buf@, parts_view(parts@)) == label_parse(
                s@,
                0,
                Seq::empty(),
                Seq::empty(),
                Seq::empty(),
            ),
        decreases n - i,
    {
        if cs[i] == '<' {
            let ghost p0 = parts_view(parts@);
            if buf.len() > 0 {
                let top = if stack.len() > 0 {
                    stack[stack.len() - 1]
                } else {
                    Style { fg: None, bg: None, add_modifier: 0 }
                };
                let text = string_from_chars(buf.as_slice());
                parts.push((text, top));
                assert(parts_view(parts@) =~= p0.push((buf@, top_style(stack@))));
            }
            buf = Vec::new();
            let close = i + 1 < n && cs[i + 1] == '/';
            let mut j = if close {
                i + 2
            } else {
                i + 1
            };
            let ghost j0 = j as int;
            let mut name: Vec<char> = Vec::new();
            let mut stop = false;
            while j < n && !stop
                invariant
                    i < j <= n,
                    n == cs@.len(),
                    !stop ==> read_tag_name(cs@, j0) == (read_tag_name(cs@, j as int).0, name@ + read_tag_name(cs@, j as int).1),
                    stop ==> read_tag_name(cs@, j0) == (j as int, name@),
                decreases n - j, if stop { 0int } else { 1int },
            {
                let c = cs[j];
                j = j + 1;
                if c == '>' || char_is_whitespace(c) {
                    stop = true;
                    assert(name@ + Seq::<char>::empty() =~= name@);
                } else {
                    let ghost n0 = name@;
                    name.push(c);
                    assert(n0 + (seq![c] + read_tag_name(cs@, j as int).1) =~= name@ + read_tag_name(cs@, j as int).1);
                }
            }
            if !stop {
                assert(name@ + Seq::<char>::empty() =~= name@);
            }
            let ghost k0 = j as int;
            while j < n && cs[j] != '>'
                invariant
                    k0 <= j <= n,
                    n == cs@.len(),
                    skip_past_gt(cs@, k0) == skip_past_gt(cs@, j as int),
                decreases n - j,
            {
                j = j + 1;
            }
            if j < n {
                j = j + 1;
            }
            let trimmed = trim_chars(name.as_slice());
            if close {
                if stack.len() > 0 {
                    stack.pop();
                }
            } else {
                let st = tag_style(trimmed.as_slice());
                stack.push(st);
            }
            i = j;
        } else {
            buf.push(cs[i]);
            i = i + 1;
        }
    }
    if buf.len() > 0 {
        let ghost p0 = parts_view(parts@);
        let top = if stack.len() > 0 {
            stack[stack.len() - 1]
        } else {
            Style { fg: None, bg: None, add_modifier: 0 }
        };
        let text = string_from_chars(buf.as_slice());
        parts.push((text, top));
        assert(parts_view(parts@) =~= p0.push((buf@, top_style(stack@))));
    }
    parts
}

/// The words of a styled part, each with the part's style.
pub open spec fn part_tokens(p: (Seq<char>, Style)) -> Seq<(Seq<char>, Style)> {
    words_of(p.0).map_values(|w: Seq<char>| (w, p.1))
}

/// The words of the styled parts, each with its part's style, in order.
pub open spec fn tokens_of(parts: Seq<(Seq<char>, Style)>) -> Seq<(Seq<char>, Style)>
    decreases parts.len(),
{
    if parts.len() == 0 {
        Seq::empty()
    } else {
        tokens_of(parts.drop_last()) + part_tokens(parts.last())
    }
}

/// The tokens without each one whose word equals (ignoring ASCII case) the
/// word of the token kept before it.
pub open spec fn dedup_tokens(ts: Seq<(Seq<char>, Style)>) -> Seq<(Seq<char>, Style)>
    decreases ts.len(),
{
    if ts.len() == 0 {
        Seq::empty()
    } else {
        let d = dedup_tokens(ts.drop_last());
        if d.len() > 0 && eq_ignore_ascii_case(d.last().0, ts.last().0) {
            d
        } else {
            d.push(ts.last())
        }
    }
}

/// The tokens with consecutive ones of the same style joined by a space.
pub open spec fn merge_tokens(ts: Seq<(Seq<char>, Style)>) -> Seq<(Seq<char>, Style)>
    decreases ts.len(),
{
    if ts.len() == 0 {
        Seq::empty()
    } else {
        let m = merge_tokens(ts.drop_last());
        let t = ts.last();
        if m.len() > 0 && m.last().1 == t.1 {
            m.drop_last().push((m.last().0 + " "@ + t.0, t.1))
        } else {
            m.push(t)
        }
    }
}

/// The styled spans of a result label: its words with adjacent repeats
/// collapsed, consecutive words of one style joined; one empty plain span
/// when there is no word.
pub open spec fn result_spans(label: Seq<char>) -> Seq<(Seq<char>, Style)> {
    let m = merge_tokens(dedup_tokens(tokens_of(label_parse(label, 0, Seq::empty(), Seq::empty(), Seq::empty()))));
    if m.len() == 0 {
        seq![(Seq::<char>::empty(), Style { fg: None, bg: None, add_modifier: 0 })]
    } else {
        m
    }
}

/// The styled spans of a result row with the label `label`.
pub fn result_item_spans(label: &str) -> (r: Vec<(String, Style)>)
    ensures
        parts_view(r@) == result_spans(label@),
{
    let parts = parse_label_to_spans(label);
    let ghost pv = parts_view(parts@);
    let mut tokens: Vec<(Vec<char>, Style)> = Vec::new();
    let mut p: usize = 0;
    while p < parts.len()
        invariant
            p <= parts@.len(),
            pv == parts_view(parts@),
            tokens@.map_values(|t: (Vec<char>, Style)| (t.0@, t.1)) == tokens_of(pv.take(p as int)),
        decreases parts@.len() - p,
    {
        let tc = chars_of(parts[p].0.as_str());
        let st = parts[p].1;
        let ws = split_words(tc.as_slice());
        let ghost t0 = tokens@.map_values(|t: (Vec<char>, Style)| (t.0@, t.1));
        let ghost wv = ws@.map_values(|w: Vec<char>| w@);
        let mut k: usize = 0;
        while k < ws.len()
            invariant
                k <= ws@.len(),
                wv == ws@.map_values(|w: Vec<char>| w@),
                tokens@.map_values(|t: (Vec<char>, Style)| (t.0@, t.1)) == t0 + wv.take(k as int).map_values(|w: Seq<char>| (w, st)),
            decreases ws@.len() - k,
        {
            let ghost before = tokens@.map_values(|t: (Vec<char>, Style)| (t.0@, t.1));
            let wlen = ws[k].len();
            let w = crate::content::types::copy_range(ws[k].as_slice(), 0, wlen);
            assert(ws[k as int]@.subrange(0, wlen as int) =~= ws[k as int]@);
            tokens.push((w, st));
            assert(tokens@.map_values(|t: (Vec<char>, Style)| (t.0@, t.1)) =~= before.push((wv[k as int], st)));
            assert(wv.take(k + 1).map_values(|w: Seq<char>| (w, st)) =~= wv.take(k as int).map_values(|w: Seq<char>| (w, st)).push((wv[k as int], st)));
            k = k + 1;
            assert(tokens@.map_values(|t: (Vec<char>, Style)| (t.0@, t.1)) =~= t0 + wv.take(k as int).map_values(|w: Seq<char>| (w, st)));
        }
        proof {
            assert(wv.take(wv.len() as int) =~= wv);
            assert(pv.take(p + 1).drop_last() =~= pv.take(p as int));
            assert(pv[p as int] == (tc@, st));
        }
        p = p + 1;
    }
    assert(pv.take(pv.len() as int) =~= pv);
    let ghost tv = tokens@.map_values(|t: (Vec<char>, Style)| (t.0@, t.1));
    let mut kept: Vec<(Vec<char>, Style)> = Vec::new();
    let mut i: usize = 0;
    while i < tokens.len()
        invariant
            i <= tokens@.len(),
            tv == tokens@.map_values(|t: (Vec<char>, Style)| (t.0@, t.1)),
            kept@.map_values(|t: (Vec<char>, Style)| (t.0@, t.1)) == dedup_tokens(tv.take(i as int)),
        decreases tokens@.len() - i,
    {
        let ghost kv = kept@.map_values(|t: (Vec<char>, Style)| (t.0@, t.1));
        proof {
            assert(tv.take(i + 1).drop_last() =~= tv.take(i as int));
        }
        let n = kept.len();
        let dup = n > 0 && words_eq_ignore_ascii_case(kept[n - 1].0.as_slice(), tokens[i].0.as_slice());
        if !dup {
            let tl = tokens[i].0.len();
            let w = crate::content::types::copy_range(tokens[i].0.as_slice(), 0, tl);
            assert(tokens[i as int].0@.subrange(0, tl as int) =~= tokens[i as int].0@);
            kept.push((w, tokens[i].1));
            assert(kept@.map_values(|t: (Vec<char>, Style)| (t.0@, t.1)) =~= kv.push(tv[i as int]));
        }
        i = i + 1;
    }
    assert(tv.take(tv.len() as int) =~= tv);
    let ghost dv = kept@.map_values(|t: (Vec<char>, Style)| (t.0@, t.1));
    let mut merged: Vec<(Vec<char>, Style)> = Vec::new();
    let mut j: usize = 0;
    while j < kept.len()
        invariant
            j <= kept@.len(),
            dv == kept@.map_values(|t: (Vec<char>, Style)| (t.0@, t.1)),
            merged@.map_values(|t: (Vec<char>, Style)| (t.0@, t.1)) == merge_tokens(dv.take(j as int)),
        decreases kept@.len() - j,
    {
        let ghost mv = merged@.map_values(|t: (Vec<char>, Style)| (t.0@, t.1));
        proof {
            assert(dv.take(j + 1).drop_last() =~= dv.take(j as int));
        }
        let n = merged.len();
        if n > 0 && merged[n - 1].1 == kept[j].1 {
            let last = merged.pop();
            match last {
                Some((mut text, st)) => {
                    let ghost w0 = kept[j as int].0@;
                    let ghost tx = text@;
                    text.push(' ');
                    proof {
                        reveal_strlit(" ");
                        assert(text@ =~= tx + " "@ + w0.take(0));
                    }
                    let w = &kept[j].0;
                    let mut q: usize = 0;
                    while q < w.len()
                        invariant
                            q <= w@.len(),
                            text@ == tx + " "@ + w@.take(q as int),
                        decreases w@.len() - q,
                    {
                        text.push(w[q]);
                        q = q + 1;
                        assert(text@ =~= tx + " "@ + w@.take(q as int));
                    }
                    proof {
                        reveal_strlit(" ");
                        assert(w@.take(w@.len() as int) =~= w@);
                    }
                    merged.push((text, st));
                    assert(merged@.map_values(|t: (Vec<char>, Style)| (t.0@, t.1)) =~= mv.drop_last().push((mv.last().0 + " "@ + dv[j as int].0, dv[j as int].1)));
                },
                None => {},
            }
        } else {
            let kl = kept[j].0.len();
            let w = crate::content::types::copy_range(kept[j].0.as_slice(), 0, kl);
            assert(kept[j as int].0@.subrange(0, kl as int) =~= kept[j as int].0@);
            merged.push((w, kept[j].1));
            assert(merged@.map_values(|t: (Vec<char>, Style)| (t.0@, t.1)) =~= mv.push(dv[j as int]));
        }
        j = j + 1;
    }
    assert(dv.take(dv.len() as int) =~= dv);
    let mut out: Vec<(String, Style)> = Vec::new();
    if merged.len() == 0 {
        out.push((String::new(), Style { fg: None, bg: None, add_modifier: 0 }));
        assert(parts_view(out@) =~= seq![(Seq::<char>::empty(), Style { fg: None, bg: None, add_modifier: 0 })]);
        return out;
    }
    let ghost fv = merged@.map_values(|t: (Vec<char>, Style)| (t.0@, t.1));
    let mut k: usize = 0;
    while k < merged.len()
        invariant
            k <= merged@.len(),
            fv == merged@.map_values(|t: (Vec<char>, Style)| (t.0@, t.1)),
            parts_view(out@) == fv.take(k as int),
        decreases merged@.len() - k,
    {
        let ghost ov = parts_view(out@);
        let txt = string_from_chars(merged[k].0.as_slice());
        out.push((txt, merged[k].1));
        assert(parts_view(out@) =~= ov.push((merged[k as int].0@, merged[k as int].1)));
        k = k + 1;
        assert(parts_view(out@) =~= fv.take(k as int));
    }
    assert(fv.take(fv.len() as int) =~= fv);
    out
}

} // verus!
