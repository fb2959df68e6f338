//! Normalising text for the full-text index: compatibility decomposition
//! with combining marks removed.

use vstd::prelude::*;

use crate::search::incremental::replace_copyright;
use crate::text::{chars_of, nfkd_chars, spec_nfkd, string_from_chars};

verus! {

/// A combining mark of one of the blocks that decomposition leaves behind
/// accented letters: combining diacritical marks, their supplement, marks
/// for symbols, and half marks.
pub open spec fn is_combining(c: char) -> bool {
    let u = c as u32;
    (0x0300 <= u <= 0x036F) || (0x1DC0 <= u <= 0x1DFF) || (0x20D0 <= u <= 0x20FF) || (0xFE20 <= u <= 0xFE2F)
}

/// `s` without combining marks.
pub open spec fn strip_marks(s: Seq<char>) -> Seq<char>
    decreases s.len(),
{
    if s.len() == 0 {
        s
    } else if is_combining(s.last()) {
        strip_marks(s.drop_last())
    } else {
        strip_marks(s.drop_last()).push(s.last())
    }
}

/// The indexed form of a token: copyright sign spelled `c`, NFKD, and
/// combining marks removed.
pub open spec fn spec_normalize_token(s: Seq<char>) -> Seq<char> {
    strip_marks(spec_nfkd(replace_copyright(s)))
}

/// The indexed form of `text`: accents removed by decomposition.
pub fn normalize_token(text: &str) -> (r: String)
    ensures
        r@ == spec_normalize_token(text@),
{
    let cs = chars_of(text);
    let mut replaced: Vec<char> = Vec::new();
    let mut i: usize = 0;
    while i < cs.len()
        invariant
            i <= cs@.len(),
            cs@ == text@,
            replaced@ =~= replace_copyright(cs@.take(i as int)),
        decreases cs@.len() - i,
    {
        replaced.push(if cs[i] == '\u{a9}' { 'c' } else { cs[i] });
        i = i + 1;
    }
    assert(cs@.take(cs@.len() as int) =~= cs@);
    let rs = string_from_chars(replaced.as_slice());
    let d = nfkd_chars(rs.as_str());
    let mut out: Vec<char> = Vec::new();
    let mut j: usize = 0;
    while j < d.len()
        invariant
            j <= d@.len(),
            out@ == strip_marks(d@.take(j as int)),
        decreases d@.len() - j,
    {
        assert(d@.take(j + 1).drop_last() =~= d@.take(j as int));
        let c = d[j];
        let u = c as u32;
        let mark = (0x0300 <= u && u <= 0x036F) || (0x1DC0 <= u && u <= 0x1DFF) || (0x20D0 <= u && u <= 0x20FF) || (
        0xFE20 <= u && u <= 0xFE2F);
        if !mark {
            out.push(c);
        }
        j = j + 1;
    }
    assert(d@.take(d@.len() as int) =~= d@);
    string_from_chars(out.as_slice())
}

} // verus!
