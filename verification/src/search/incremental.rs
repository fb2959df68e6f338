//! Incremental (prefix-based) search index.
//!
//! Layout: a 16-byte header (`magic`, `version`, `count`, `first`, all
//! little-endian `u32`), the records packed end to end from offset 16, and
//! at offset `first` the sort index: `count` record offsets ordered by
//! (normalised key, priority). A record is an 8-byte header
//! (`lenplain: u16`, `lentypecode: u8`, `lenlabel: u16`, `lenpath: u16`,
//! `prio: u8`) followed by the four UTF-8 strings.

use vstd::prelude::*;

use crate::bytes::{
    le16, le32, lemma_le16_roundtrip, lemma_le32_roundtrip, push_bytes, push_u16_le, push_u32_le,
    read_u16_le, read_u32_le, spec_u16_le, spec_u32_le,
};
use crate::search::order::{entry_before, entry_before_at, sort_entry_order};
use vstd::utf8::{decode_utf8, encode_utf8, valid_utf8};
use crate::search::lexicographic::{
    chars_has_prefix, chars_lt, has_prefix, lemma_prefix_interval, lemma_prefix_not_lt,
    lemma_seq_lt_total, lemma_seq_lt_trans, seq_lt,
};
use crate::text::{
    chars_of, char_is_lowercase, nfkd_chars, spec_is_lowercase, spec_nfkd, spec_str_lowercase,
    spec_trim, utf8_text, str_lowercase, string_from_chars, trim_chars, utf8_lossy,
};

verus! {

/// Magic number at offset 0 of an index file.
pub const MAGIC: u32 = 0x2806_1691;

/// Format version at offset 4 of an index file.
pub const DB_VERSION: u32 = 1;

/// Characters kept in a normalised key: lowercase letters and ASCII digits.
pub open spec fn index_key_char(c: char) -> bool {
    spec_is_lowercase(c) || ('0' <= c && c <= '9')
}

/// `s` with every copyright sign replaced by `c`.
pub open spec fn replace_copyright(s: Seq<char>) -> Seq<char> {
    s.map_values(|c: char| if c == '\u{a9}' { 'c' } else { c })
}

/// The normalised form of a search key: trimmed, lowercased, copyright
/// sign spelled `c`, NFKD-decomposed, and reduced to lowercase letters and
/// decimal digits.
pub open spec fn spec_normalize_index_key(s: Seq<char>) -> Seq<char> {
    spec_nfkd(replace_copyright(spec_str_lowercase(spec_trim(s)))).filter(
        |c: char| index_key_char(c),
    )
}

/// Normalise a search key: trim, lowercase, replace `©` by `c`, NFKD, and
/// keep only lowercase letters and decimal digits.
pub fn normalize_index_key(key: &str) -> (r: String)
    ensures
        r@ == spec_normalize_index_key(key@),
{
    let kc = chars_of(key);
    let trimmed = trim_chars(kc.as_slice());
    let ts = string_from_chars(trimmed.as_slice());
    let lower = str_lowercase(ts.as_str());
    let lc = chars_of(lower.as_str());
    let mut replaced: Vec<char> = Vec::new();
    let mut i: usize = 0;
    while i < lc.len()
        invariant
            i <= lc@.len(),
            replaced@ == replace_copyright(lc@.subrange(0, i as int)),
        decreases lc@.len() - i,
    {
        let c = lc[i];
        replaced.push(if c == '\u{a9}' { 'c' } else { c });
        i = i + 1;
        assert(replaced@ =~= replace_copyright(lc@.subrange(0, i as int)));
    }
    assert(lc@.subrange(0, lc@.len() as int) =~= lc@);
    let rs = string_from_chars(replaced.as_slice());
    let decomposed = nfkd_chars(rs.as_str());
    let mut out: Vec<char> = Vec::new();
    let mut j: usize = 0;
    while j < decomposed.len()
        invariant
            j <= decomposed@.len(),
            out@ == decomposed@.subrange(0, j as int).filter(|c: char| index_key_char(c)),
        decreases decomposed@.len() - j,
    {
        let c = decomposed[j];
        let low = char_is_lowercase(c);
        let keep = low || ('0' <= c && c <= '9');
        if keep {
            out.push(c);
        }
        proof {
            let s1 = decomposed@.subrange(0, j + 1);
            assert(s1.drop_last() =~= decomposed@.subrange(0, j as int));
            assert(s1.last() == c);
            assert(keep == index_key_char(c));
            reveal(Seq::filter);
            assert(s1.filter(|c: char| index_key_char(c)) == (if index_key_char(s1.last()) {
                s1.drop_last().filter(|c: char| index_key_char(c)).push(s1.last())
            } else {
                s1.drop_last().filter(|c: char| index_key_char(c))
            }));
        }
        j = j + 1;
    }
    assert(decomposed@.subrange(0, decomposed@.len() as int) =~= decomposed@);
    string_from_chars(out.as_slice())
}

/// Errors of the incremental index.
#[derive(Debug)]
pub enum IncrementalError {
    /// The file is shorter than its 16-byte header.
    TooSmall,
    /// The magic number is not the one of this format.
    WrongMagic,
    /// The format version is not supported.
    WrongVersion,
    /// The index holds no entry.
    Empty,
    /// The file does not have the size or content its header announces.
    Broken(String),
    /// The file could not be read or written; the message of the I/O error.
    Io(String),
}

impl IncrementalError {
    /// The message of the error.
    pub fn to_string(&self) -> (r: String)
        ensures
            r@ == (match self {
                IncrementalError::TooSmall => "Index too small"@,
                IncrementalError::WrongMagic => "Index has wrong magic number"@,
                IncrementalError::WrongVersion => "Unsupported index version"@,
                IncrementalError::Empty => "Index is empty"@,
                IncrementalError::Broken(m) => "Index is broken: "@ + m@,
                IncrementalError::Io(m) => "I/O error: "@ + m@,
            }),
    {
        match self {
            IncrementalError::TooSmall => String::from_str("Index too small"),
            IncrementalError::WrongMagic => String::from_str("Index has wrong magic number"),
            IncrementalError::WrongVersion => String::from_str("Unsupported index version"),
            IncrementalError::Empty => String::from_str("Index is empty"),
            IncrementalError::Broken(m) => {
                let mut r = String::from_str("Index is broken: ");
                r.append(m.as_str());
                r
            },
            IncrementalError::Io(m) => {
                let mut r = String::from_str("I/O error: ");
                r.append(m.as_str());
                r
            },
        }
    }
}

/// One search result.
#[derive(Debug, Clone)]
pub struct IncrementalResult {
    pub label: String,
    pub path: String,
    pub plain: String,
    pub prio: u8,
    pub typecode: String,
}

/// The plain values of a result: `(label, path, plain, prio, typecode)`.
pub open spec fn result_view(r: IncrementalResult) -> (Seq<char>, Seq<char>, Seq<char>, u8, Seq<char>) {
    (r.label@, r.path@, r.plain@, r.prio, r.typecode@)
}

/// Views of a list of results.
pub open spec fn results_view(v: Seq<IncrementalResult>) -> Seq<(Seq<char>, Seq<char>, Seq<char>, u8, Seq<char>)> {
    v.map_values(|r: IncrementalResult| result_view(r))
}

/// Length of the normalised key of the record at `off`.
pub open spec fn rec_lp(d: Seq<u8>, off: int) -> int {
    spec_u16_le(d, off) as int
}

/// Length of the type code of the record at `off`.
pub open spec fn rec_lt(d: Seq<u8>, off: int) -> int {
    d[off + 2] as int
}

/// Length of the label of the record at `off`.
pub open spec fn rec_ll(d: Seq<u8>, off: int) -> int {
    spec_u16_le(d, off + 3) as int
}

/// Length of the path of the record at `off`.
pub open spec fn rec_lpa(d: Seq<u8>, off: int) -> int {
    spec_u16_le(d, off + 5) as int
}

/// Priority of the record at `off`.
pub open spec fn rec_prio(d: Seq<u8>, off: int) -> u8 {
    d[off + 7]
}

/// The record at `off`, decoded, when it lies inside `d`.
pub open spec fn decode_record(d: Seq<u8>, off: int) -> Option<
    (Seq<char>, Seq<char>, Seq<char>, u8, Seq<char>),
> {
    if off < 0 || off + 8 > d.len() {
        None
    } else {
        let a = off + 8;
        let b = a + rec_lp(d, off);
        let c = b + rec_lt(d, off);
        let e = c + rec_ll(d, off);
        let f = e + rec_lpa(d, off);
        if f > d.len() {
            None
        } else {
            Some(
                (
                    utf8_text(d.subrange(c, e)),
                    utf8_text(d.subrange(e, f)),
                    utf8_text(d.subrange(a, b)),
                    rec_prio(d, off),
                    utf8_text(d.subrange(b, c)),
                ),
            )
        }
    }
}

/// Offset of the record at position `idx` of the sort index.
pub open spec fn sort_off(d: Seq<u8>, first: int, idx: int) -> int {
    spec_u32_le(d, first + 4 * idx) as int
}

/// Normalised key of the record at position `idx` of the sort index.
pub open spec fn plain_at(d: Seq<u8>, first: int, idx: int) -> Seq<char> {
    let off = sort_off(d, first, idx);
    utf8_text(d.subrange(off + 8, off + 8 + rec_lp(d, off)))
}

/// First position in `[a, b)` whose key is not before `key`, by bisection.
pub open spec fn bisect_start(d: Seq<u8>, first: int, key: Seq<char>, a: int, b: int) -> int
    decreases b - a,
{
    if a >= b {
        a
    } else {
        let c = (a + b) / 2;
        if seq_lt(plain_at(d, first, c), key) {
            bisect_start(d, first, key, c + 1, b)
        } else {
            bisect_start(d, first, key, a, c)
        }
    }
}

/// First position in `[a, b)` whose key is after `key` without starting
/// with it, by bisection.
pub open spec fn bisect_end(d: Seq<u8>, first: int, key: Seq<char>, a: int, b: int) -> int
    decreases b - a,
{
    if a >= b {
        a
    } else {
        let c = (a + b) / 2;
        let p = plain_at(d, first, c);
        if seq_lt(key, p) && !has_prefix(p, key) {
            bisect_end(d, first, key, a, c)
        } else {
            bisect_end(d, first, key, c + 1, b)
        }
    }
}

/// The decodable records at sort positions `[a, b)`, in order.
pub open spec fn records_in(d: Seq<u8>, first: int, a: int, b: int) -> Seq<
    (Seq<char>, Seq<char>, Seq<char>, u8, Seq<char>),
>
    decreases b - a,
{
    if a >= b {
        Seq::empty()
    } else {
        let rest = records_in(d, first, a + 1, b);
        match decode_record(d, sort_off(d, first, a)) {
            Some(r) => seq![r] + rest,
            None => rest,
        }
    }
}

/// What searching the index image `d` (with `count` entries, sort index at
/// `first`) for `key` with at most `limit` results gives.
pub open spec fn spec_search(d: Seq<u8>, first: int, count: int, key: Seq<char>, limit: int) -> Seq<
    (Seq<char>, Seq<char>, Seq<char>, u8, Seq<char>),
> {
    let norm = spec_normalize_index_key(key);
    if norm.len() == 0 {
        Seq::empty()
    } else {
        let start = bisect_start(d, first, norm, 0, count);
        if start == count {
            Seq::empty()
        } else {
            let end = bisect_end(d, first, norm, start, count);
            let take = if limit < end - start {
                limit
            } else {
                end - start
            };
            records_in(d, first, start, start + take)
        }
    }
}

/// The decimal digits of `n`.
pub open spec fn spec_decimal(n: nat) -> Seq<char>
    decreases n,
{
    let digit = (('0' as u32) + (n % 10) as u32) as char;
    if n < 10 {
        seq![digit]
    } else {
        spec_decimal(n / 10).push(digit)
    }
}

/// The decimal representation of `n`.
pub fn decimal_string(n: u64) -> (r: String)
    ensures
        r@ == spec_decimal(n as nat),
{
    let mut digits: Vec<char> = Vec::new();
    let mut m = n;
    let ghost mut suffix: Seq<char> = Seq::empty();
    loop
        invariant_except_break
            digits@ == suffix.reverse(),
            spec_decimal(n as nat) == spec_decimal(m as nat) + suffix,
        ensures
            digits@ == suffix.reverse(),
            spec_decimal(n as nat) == suffix,
        decreases m,
    {
        let d = (m % 10) as u32;
        let c = char_from_digit(d);
        digits.push(c);
        proof {
            let old_suffix = suffix;
            suffix = seq![c] + suffix;
            assert(digits@ =~= suffix.reverse());
            if m >= 10 {
                assert(spec_decimal(m as nat) == spec_decimal((m / 10) as nat).push(c));
                assert(spec_decimal((m / 10) as nat) + suffix =~= spec_decimal((m / 10) as nat).push(c) + old_suffix);
            } else {
                assert(spec_decimal(m as nat) == seq![c]);
                assert(seq![c] + old_suffix =~= suffix);
            }
        }
        if m < 10 {
            break;
        }
        m = m / 10;
    }
    let mut out: Vec<char> = Vec::new();
    let mut i = digits.len();
    while i > 0
        invariant
            i <= digits@.len(),
            digits@ == suffix.reverse(),
            out@ == suffix.subrange(0, (digits@.len() - i) as int),
        decreases i,
    {
        i = i - 1;
        out.push(digits[i]);
        assert(out@ =~= suffix.subrange(0, (digits@.len() - i) as int));
    }
    assert(out@ =~= suffix);
    string_from_chars(out.as_slice())
}

/// The character of the decimal digit `d`.
fn char_from_digit(d: u32) -> (c: char)
    requires
        d < 10,
    ensures
        c == (('0' as u32) + d) as char,
{
    if d == 0 { '0' } else if d == 1 { '1' } else if d == 2 { '2' } else if d == 3 { '3' }
    else if d == 4 { '4' } else if d == 5 { '5' } else if d == 6 { '6' } else if d == 7 { '7' }
    else if d == 8 { '8' } else { '9' }
}


/// The message of the error for an index whose length is not the one its
/// header announces.
pub open spec fn size_mismatch_message(expected: nat, got: nat) -> Seq<char> {
    "expected "@ + spec_decimal(expected) + " bytes, got "@ + spec_decimal(got)
}

/// The sort-index slot `i` and the key of the record it points to lie
/// inside `d`.
pub open spec fn entry_readable(d: Seq<u8>, first: int, i: int) -> bool {
    let p = first + 4 * i;
    &&& 0 <= p
    &&& p + 4 <= d.len()
    &&& sort_off(d, first, i) + 8 <= d.len()
    &&& sort_off(d, first, i) + 8 + rec_lp(d, sort_off(d, first, i)) <= d.len()
}

/// Every slot of the sort index can be followed to a readable key.
pub open spec fn index_readable(d: Seq<u8>, first: int, count: int) -> bool {
    forall|i: int| 0 <= i < count ==> #[trigger] entry_readable(d, first, i)
}

/// A read-only incremental index over the bytes of an index file.
pub struct IncrementalSearcher {
    data: Vec<u8>,
    count: u32,
    first: u32,
}

impl IncrementalSearcher {
    /// The bytes of the index.
    pub closed spec fn image(&self) -> Seq<u8> {
        self.data@
    }

    /// The number of entries announced by the header.
    pub closed spec fn entry_count(&self) -> u32 {
        self.count
    }

    /// The offset of the sort index announced by the header.
    pub closed spec fn sort_start(&self) -> u32 {
        self.first
    }

    /// Every slot of the sort index leads to a readable key.
    pub open spec fn readable(&self) -> bool {
        index_readable(self.image(), self.sort_start() as int, self.entry_count() as int)
    }

    /// Opens an index from the bytes of its file, checking the header:
    /// size, magic number, version, a non-empty sort index, and a length of
    /// exactly `first + 4 * count` bytes.
    pub fn open(data: Vec<u8>) -> (r: Result<Self, IncrementalError>)
        ensures
            data@.len() < 16 ==> r matches Err(IncrementalError::TooSmall),
            data@.len() >= 16 && spec_u32_le(data@, 0) != MAGIC ==> r matches Err(
                IncrementalError::WrongMagic,
            ),
            data@.len() >= 16 && spec_u32_le(data@, 0) == MAGIC && spec_u32_le(data@, 4)
                != DB_VERSION ==> r matches Err(IncrementalError::WrongVersion),
            data@.len() >= 16 && spec_u32_le(data@, 0) == MAGIC && spec_u32_le(data@, 4)
                == DB_VERSION && (spec_u32_le(data@, 8) == 0 || spec_u32_le(data@, 12) == 0)
                ==> r matches Err(IncrementalError::Empty),
            ({
                let count = spec_u32_le(data@, 8) as int;
                let first = spec_u32_le(data@, 12) as int;
                data@.len() >= 16 && spec_u32_le(data@, 0) == MAGIC && spec_u32_le(data@, 4)
                    == DB_VERSION && count != 0 && first != 0 ==> if data@.len() != first + 4
                    * count {
                    r matches Err(IncrementalError::Broken(m)) && m@ == size_mismatch_message(
                        (first + 4 * count) as nat,
                        data@.len(),
                    )
                } else {
                    r matches Ok(s) && s.image() == data@ && s.entry_count() == count
                        && s.sort_start() == first
                }
            }),
    {
        if data.len() < 16 {
            return Err(IncrementalError::TooSmall);
        }
        let magic = read_u32_le(data.as_slice(), 0);
        let version = read_u32_le(data.as_slice(), 4);
        let count = read_u32_le(data.as_slice(), 8);
        let first = read_u32_le(data.as_slice(), 12);
        if magic != MAGIC {
            return Err(IncrementalError::WrongMagic);
        }
        if version != DB_VERSION {
            return Err(IncrementalError::WrongVersion);
        }
        if count == 0 || first == 0 {
            return Err(IncrementalError::Empty);
        }
        let expected: u64 = first as u64 + (count as u64) * 4;
        let got: u64 = data.len() as u64;
        if got != expected {
            let mut m = String::from_str("expected ");
            let e = decimal_string(expected);
            m.append(e.as_str());
            m.append(" bytes, got ");
            let g = decimal_string(got);
            m.append(g.as_str());
            return Err(IncrementalError::Broken(m));
        }
        Ok(IncrementalSearcher { data, count, first })
    }
    /// Whether every slot of the sort index leads to a readable key, the
    /// condition under which [`Self::search`] can run.
    pub fn is_readable(&self) -> (b: bool)
        ensures
            b == self.readable(),
    {
        let count = self.count as usize;
        let first = self.first as usize;
        let n = self.data.len();
        let mut i: usize = 0;
        while i < count
            invariant
                i <= count,
                count == self.count,
                first == self.first,
                n == self.data@.len(),
                forall|j: int| 0 <= j < i ==> #[trigger] entry_readable(self.data@, first as int, j),
            decreases count - i,
        {
            let p: u64 = first as u64 + 4 * (i as u64);
            if p + 4 > n as u64 {
                assert(!entry_readable(self.data@, first as int, i as int));
                return false;
            }
            let off = read_u32_le(self.data.as_slice(), p as usize);
            if off as u64 + 8 > n as u64 {
                assert(!entry_readable(self.data@, first as int, i as int));
                return false;
            }
            let lp = read_u16_le(self.data.as_slice(), off as usize);
            if off as u64 + 8 + lp as u64 > n as u64 {
                assert(!entry_readable(self.data@, first as int, i as int));
                return false;
            }
            assert(entry_readable(self.data@, first as int, i as int));
            i = i + 1;
        }
        true
    }

    /// Searches for the entries whose normalised key starts with the
    /// normalised `key`, in index order, returning at most `limit` of them.
    pub fn search(&self, key: &str, limit: usize) -> (r: Vec<IncrementalResult>)
        requires
            self.readable(),
        ensures
            results_view(r@) == spec_search(
                self.image(),
                self.sort_start() as int,
                self.entry_count() as int,
                key@,
                limit as int,
            ),
    {
        let norm = normalize_index_key(key);
        let nk = chars_of(norm.as_str());
        if nk.len() == 0 {
            assert(results_view(Seq::<IncrementalResult>::empty()) =~= Seq::empty());
            return Vec::new();
        }
        let ghost d = self.data@;
        let count = self.count as usize;
        let first = self.first as usize;
        let mut a: usize = 0;
        let mut b: usize = count;
        while a != b
            invariant
                a <= b <= count,
                count == self.count,
                first == self.first,
                d == self.data@,
                self.readable(),
                bisect_start(d, first as int, nk@, a as int, b as int) == bisect_start(
                    d,
                    first as int,
                    nk@,
                    0,
                    count as int,
                ),
            decreases b - a,
        {
            let c = a + (b - a) / 2;
            assert(c == (a + b) / 2);
            assert(entry_readable(d, first as int, c as int));
            let pc = plain_chars_at(&self.data, first, c);
            if chars_lt(pc.as_slice(), nk.as_slice()) {
                a = c + 1;
            } else {
                b = c;
            }
        }
        let start = a;
        if start == count {
            assert(results_view(Seq::<IncrementalResult>::empty()) =~= Seq::empty());
            return Vec::new();
        }
        let mut a: usize = start;
        let mut b: usize = count;
        while a != b
            invariant
                start <= a <= b <= count,
                count == self.count,
                first == self.first,
                d == self.data@,
                self.readable(),
                bisect_end(d, first as int, nk@, a as int, b as int) == bisect_end(
                    d,
                    first as int,
                    nk@,
                    start as int,
                    count as int,
                ),
            decreases b - a,
        {
            let c = a + (b - a) / 2;
            assert(c == (a + b) / 2);
            assert(entry_readable(d, first as int, c as int));
            let pc = plain_chars_at(&self.data, first, c);
            if chars_lt(nk.as_slice(), pc.as_slice()) && !chars_has_prefix(
                pc.as_slice(),
                nk.as_slice(),
            ) {
                b = c;
            } else {
                a = c + 1;
            }
        }
        let end = a;
        let take = if limit < end - start {
            limit
        } else {
            end - start
        };
        let mut results: Vec<IncrementalResult> = Vec::new();
        let mut i: usize = start;
        while i < start + take
            invariant
                start <= i <= start + take <= count,
                count == self.count,
                first == self.first,
                d == self.data@,
                self.readable(),
                results_view(results@) + records_in(d, first as int, i as int, (start + take) as int)
                    == records_in(d, first as int, start as int, (start + take) as int),
            decreases start + take - i,
        {
            assert(entry_readable(d, first as int, i as int));
            let n = self.data.len();
            assert(first + 4 * i + 4 <= n);
            let p = first + 4 * i;
            let off = read_u32_le(self.data.as_slice(), p);
            let rec = decode_record_at(self.data.as_slice(), off);
            let ghost before = results@;
            match rec {
                Some(x) => {
                    results.push(x);
                    assert(results_view(results@) =~= results_view(before).push(result_view(x)));
                    assert(results_view(before).push(result_view(x)) + records_in(
                        d,
                        first as int,
                        i + 1,
                        (start + take) as int,
                    ) =~= results_view(before) + (seq![result_view(x)] + records_in(
                        d,
                        first as int,
                        i + 1,
                        (start + take) as int,
                    )));
                },
                None => {},
            }
            i = i + 1;
        }
        assert(results_view(results@) + Seq::empty() =~= results_view(results@));
        results
    }
}



/// The normalised key of the record that sort-index slot `idx` points to.
fn plain_chars_at(d: &Vec<u8>, first: usize, idx: usize) -> (r: Vec<char>)
    requires
        entry_readable(d@, first as int, idx as int),
    ensures
        r@ == plain_at(d@, first as int, idx as int),
{
    let n = d.len();
    assert(first + 4 * idx + 4 <= n);
    let p = first + 4 * idx;
    let off = read_u32_le(d.as_slice(), p) as usize;
    let lp = read_u16_le(d.as_slice(), off) as usize;
    assert(off + 8 + lp <= n);
    let s = utf8_lossy(&d.as_slice()[off + 8..off + 8 + lp]);
    chars_of(s.as_str())
}

/// Decodes the record at `off`, if it lies inside `d`.
fn decode_record_at(d: &[u8], off: u32) -> (r: Option<IncrementalResult>)
    ensures
        match r {
            Some(x) => decode_record(d@, off as int) == Some(result_view(x)),
            None => decode_record(d@, off as int) is None,
        },
{
    let n = d.len() as u64;
    if off as u64 + 8 > n {
        return None;
    }
    let off = off as usize;
    let lp = read_u16_le(d, off) as u64;
    let lt = d[off + 2] as u64;
    let ll = read_u16_le(d, off + 3) as u64;
    let lpa = read_u16_le(d, off + 5) as u64;
    let prio = d[off + 7];
    let a = off as u64 + 8;
    let b = a + lp;
    let c = b + lt;
    let e = c + ll;
    let f = e + lpa;
    if f > n {
        return None;
    }
    let plain = utf8_lossy(&d[a as usize..b as usize]);
    let typecode = utf8_lossy(&d[b as usize..c as usize]);
    let label = utf8_lossy(&d[c as usize..e as usize]);
    let path = utf8_lossy(&d[e as usize..f as usize]);
    Some(IncrementalResult { label, path, plain, prio, typecode })
}


/// Some field of an entry is too long for its length slot: the key, label
/// or path over 65535 bytes of UTF-8, or the type code over 255.
pub open spec fn fields_too_long(key: Seq<char>, typecode: Seq<char>, label: Seq<char>, path: Seq<char>) -> bool {
    ||| encode_utf8(key).len() > 0xffff
    ||| encode_utf8(typecode).len() > 0xff
    ||| encode_utf8(label).len() > 0xffff
    ||| encode_utf8(path).len() > 0xffff
}

/// The bytes of one record: the 8-byte header (lengths and priority)
/// followed by the UTF-8 of the key, type code, label and path.
pub open spec fn record_bytes(key: Seq<char>, typecode: Seq<char>, label: Seq<char>, path: Seq<char>, prio: u8) -> Seq<u8> {
    le16(encode_utf8(key).len() as u16) + seq![encode_utf8(typecode).len() as u8] + le16(
        encode_utf8(label).len() as u16,
    ) + le16(encode_utf8(path).len() as u16) + seq![prio] + encode_utf8(key) + encode_utf8(
        typecode,
    ) + encode_utf8(label) + encode_utf8(path)
}

/// `order` lists each of `0..n` exactly once.
pub open spec fn is_arrangement(order: Seq<usize>, n: nat) -> bool {
    &&& order.len() == n
    &&& forall|i: int| 0 <= i < n ==> #[trigger] order[i] < n
    &&& order.no_duplicates()
}

/// The entries `e`, taken in the order `order`, are sorted by key and then
/// by priority, and entries with equal keys and priorities keep the order
/// in which they were added.
pub open spec fn sorted_by_key(e: Seq<(Seq<char>, Seq<char>, Seq<char>, u8, Seq<char>)>, order: Seq<usize>) -> bool {
    &&& forall|i: int, j: int|
        0 <= i < j < order.len() ==> !entry_before(
            #[trigger] e[order[j] as int].2,
            e[order[j] as int].3,
            #[trigger] e[order[i] as int].2,
            e[order[i] as int].3,
        )
    &&& forall|i: int, j: int|
        0 <= i < j < order.len() && !entry_before(
            #[trigger] e[order[i] as int].2,
            e[order[i] as int].3,
            #[trigger] e[order[j] as int].2,
            e[order[j] as int].3,
        ) ==> order[i] < order[j]
}

/// `img` is an index file holding the entries `e`, whose sort index lists
/// them in the order `order`.
pub open spec fn image_layout(img: Seq<u8>, e: Seq<(Seq<char>, Seq<char>, Seq<char>, u8, Seq<char>)>, order: Seq<usize>) -> bool {
    let n = e.len();
    let first = img.len() - 4 * n;
    &&& 16 <= first <= u32::MAX
    &&& spec_u32_le(img, 0) == MAGIC
    &&& spec_u32_le(img, 4) == DB_VERSION
    &&& spec_u32_le(img, 8) == n
    &&& spec_u32_le(img, 12) == first
    &&& is_arrangement(order, n)
    &&& sorted_by_key(e, order)
    &&& forall|i: int|
        0 <= i < n ==> #[trigger] entry_readable(img, first, i) && decode_record(
            img,
            sort_off(img, first, i),
        ) == Some(e[order[i] as int])
}

/// `img` is an index file holding the entries `e`, sorted by key and then
/// priority.
pub open spec fn incremental_image(img: Seq<u8>, e: Seq<(Seq<char>, Seq<char>, Seq<char>, u8, Seq<char>)>) -> bool {
    exists|order: Seq<usize>| image_layout(img, e, order)
}

/// Decoding a record only reads its own bytes: placing them at `base`
/// inside a larger sequence decodes to the same entry.
proof fn lemma_decode_shift(d: Seq<u8>, img: Seq<u8>, base: int, off: int)
    requires
        0 <= base,
        base + d.len() <= img.len(),
        img.subrange(base, base + d.len()) == d,
        0 <= off,
        decode_record(d, off) is Some,
    ensures
        decode_record(img, base + off) == decode_record(d, off),
        rec_lp(img, base + off) == rec_lp(d, off),
        base + off + 8 + rec_lp(img, base + off) <= img.len(),
{
    assert forall|k: int| 0 <= k < d.len() implies img[base + k] == d[k] by {
        assert(img.subrange(base, base + d.len())[k] == img[base + k]);
    }
    let o = base + off;
    assert(img[o] == d[off]);
    assert(img[o + 1] == d[off + 1]);
    assert(img[o + 2] == d[off + 2]);
    assert(img[o + 3] == d[off + 3]);
    assert(img[o + 4] == d[off + 4]);
    assert(img[o + 5] == d[off + 5]);
    assert(img[o + 6] == d[off + 6]);
    assert(img[o + 7] == d[off + 7]);
    let a = off + 8;
    let b = a + rec_lp(d, off);
    let c = b + rec_lt(d, off);
    let e = c + rec_ll(d, off);
    let f = e + rec_lpa(d, off);
    assert(img.subrange(base + a, base + b) =~= d.subrange(a, b));
    assert(img.subrange(base + b, base + c) =~= d.subrange(b, c));
    assert(img.subrange(base + c, base + e) =~= d.subrange(c, e));
    assert(img.subrange(base + e, base + f) =~= d.subrange(e, f));
}

/// The 8-byte header of a record.
pub open spec fn record_header(key: Seq<char>, typecode: Seq<char>, label: Seq<char>, path: Seq<char>, prio: u8) -> Seq<u8> {
    le16(encode_utf8(key).len() as u16) + seq![encode_utf8(typecode).len() as u8] + le16(
        encode_utf8(label).len() as u16,
    ) + le16(encode_utf8(path).len() as u16) + seq![prio]
}

/// The header of a record holds its field lengths and priority.
proof fn lemma_record_header(key: Seq<char>, typecode: Seq<char>, label: Seq<char>, path: Seq<char>, prio: u8)
    requires
        !fields_too_long(key, typecode, label, path),
    ensures
        ({
            let h = record_header(key, typecode, label, path, prio);
            &&& h.len() == 8
            &&& rec_lp(h, 0) == encode_utf8(key).len()
            &&& rec_lt(h, 0) == encode_utf8(typecode).len()
            &&& rec_ll(h, 0) == encode_utf8(label).len()
            &&& rec_lpa(h, 0) == encode_utf8(path).len()
            &&& rec_prio(h, 0) == prio
        }),
{
    let h = record_header(key, typecode, label, path, prio);
    assert(h.subrange(0, 2) =~= le16(encode_utf8(key).len() as u16));
    lemma_le16_roundtrip(h, 0, encode_utf8(key).len() as u16);
    assert(h.subrange(3, 5) =~= le16(encode_utf8(label).len() as u16));
    lemma_le16_roundtrip(h, 3, encode_utf8(label).len() as u16);
    assert(h.subrange(5, 7) =~= le16(encode_utf8(path).len() as u16));
    lemma_le16_roundtrip(h, 5, encode_utf8(path).len() as u16);
}

/// The record written for an entry decodes back to that entry.
#[verifier::rlimit(30)]
proof fn lemma_decode_new_record(d: Seq<u8>, key: Seq<char>, typecode: Seq<char>, label: Seq<char>, path: Seq<char>, prio: u8)
    requires
        !fields_too_long(key, typecode, label, path),
    ensures
        decode_record(d + record_bytes(key, typecode, label, path, prio), d.len() as int) == Some(
            (label, path, key, prio, typecode),
        ),
{
    let kb = encode_utf8(key);
    let tb = encode_utf8(typecode);
    let lb = encode_utf8(label);
    let pb = encode_utf8(path);
    vstd::utf8::encode_utf8_valid_utf8(key);
    vstd::utf8::encode_utf8_decode_utf8(key);
    vstd::utf8::encode_utf8_valid_utf8(typecode);
    vstd::utf8::encode_utf8_decode_utf8(typecode);
    vstd::utf8::encode_utf8_valid_utf8(label);
    vstd::utf8::encode_utf8_decode_utf8(label);
    vstd::utf8::encode_utf8_valid_utf8(path);
    vstd::utf8::encode_utf8_decode_utf8(path);
    let h = record_header(key, typecode, label, path, prio);
    lemma_record_header(key, typecode, label, path, prio);
    let rb = record_bytes(key, typecode, label, path, prio);
    assert(rb =~= h + kb + tb + lb + pb);
    let full = d + rb;
    let o = d.len() as int;
    assert(full.subrange(o, o + 8) =~= h);
    assert(full[o] == h[0]);
    assert(full[o + 1] == h[1]);
    assert(full[o + 2] == h[2]);
    assert(full[o + 3] == h[3]);
    assert(full[o + 4] == h[4]);
    assert(full[o + 5] == h[5]);
    assert(full[o + 6] == h[6]);
    assert(full[o + 7] == h[7]);
    assert(rec_lp(full, o) == kb.len());
    assert(rec_lt(full, o) == tb.len());
    assert(rec_ll(full, o) == lb.len());
    assert(rec_lpa(full, o) == pb.len());
    assert(rec_prio(full, o) == prio);
    let a = o + 8;
    let b = a + kb.len();
    let c = b + tb.len();
    let e = c + lb.len();
    let f = e + pb.len();
    assert(full.len() == f);
    assert(full.subrange(a, b) =~= kb);
    assert(full.subrange(b, c) =~= tb);
    assert(full.subrange(c, e) =~= lb);
    assert(full.subrange(e, f) =~= pb);
}

/// A sequence with the same elements as `0..n`, each once, is an
/// arrangement of `0..n`.
proof fn lemma_arrangement(initial: Seq<usize>, sorted: Seq<usize>, n: nat)
    requires
        initial.len() == n,
        forall|k: int| 0 <= k < n ==> #[trigger] initial[k] == k,
        sorted.to_multiset() == initial.to_multiset(),
    ensures
        is_arrangement(sorted, n),
{
    broadcast use vstd::seq_lib::to_multiset_len, vstd::seq_lib::to_multiset_contains;

    vstd::seq_lib::to_multiset_len(sorted);
    vstd::seq_lib::to_multiset_len(initial);
    assert(sorted.len() == n);
    assert(initial.no_duplicates());
    initial.lemma_multiset_has_no_duplicates();
    sorted.lemma_multiset_has_no_duplicates_conv();
    assert forall|i: int| 0 <= i < n implies #[trigger] sorted[i] < n by {
        let x = sorted[i];
        assert(sorted.contains(x));
        assert(sorted.to_multiset().count(x) > 0);
        assert(initial.contains(x));
        let k = choose|k: int| 0 <= k < initial.len() && initial[k] == x;
        assert(initial[k] == k);
    }
}

/// Builds an incremental index in memory: records are appended as entries
/// are added, and [`IncrementalMaker::finalize`] sorts them and produces the
/// bytes of the index file.
pub struct IncrementalMaker {
    records: Vec<u8>,
    keys: Vec<Vec<char>>,
    prios: Vec<u8>,
    offsets: Vec<u32>,
    entries: Ghost<Seq<(Seq<char>, Seq<char>, Seq<char>, u8, Seq<char>)>>,
}

impl IncrementalMaker {
    /// The entries added so far: (label, path, normalised key, priority,
    /// type code).
    pub closed spec fn entries(&self) -> Seq<(Seq<char>, Seq<char>, Seq<char>, u8, Seq<char>)> {
        self.entries@
    }

    /// The number of bytes the records take so far.
    pub closed spec fn records_len(&self) -> nat {
        self.records@.len()
    }

    /// The number of bytes the records take so far.
    pub fn records_size(&self) -> (r: usize)
        ensures
            r == self.records_len(),
    {
        self.records.len()
    }

    /// The internal lists agree with the entries, and each record decodes
    /// to its entry.
    pub closed spec fn wf(&self) -> bool {
        let n = self.entries@.len();
        &&& self.keys@.len() == n
        &&& self.prios@.len() == n
        &&& self.offsets@.len() == n
        &&& self.records@.len() >= 8 * n
        &&& forall|i: int|
            0 <= i < n ==> (#[trigger] self.keys@[i])@ == self.entries@[i].2 && self.prios@[i]
                == self.entries@[i].3
        &&& self.records@.len() <= u32::MAX ==> forall|i: int|
            0 <= i < n ==> decode_record(self.records@, (#[trigger] self.offsets@[i]) as int)
                == Some(self.entries@[i])
    }

    /// An empty maker.
    pub fn new() -> (m: Self)
        ensures
            m.wf(),
            m.entries() == Seq::<(Seq<char>, Seq<char>, Seq<char>, u8, Seq<char>)>::empty(),
            m.records_len() == 0,
    {
        IncrementalMaker {
            records: Vec::new(),
            keys: Vec::new(),
            prios: Vec::new(),
            offsets: Vec::new(),
            entries: Ghost(Seq::empty()),
        }
    }

    /// Adds one entry, indexed under the normalised form of `plain`.
    /// A field too long for its length slot is refused with the message
    /// "field too long", and nothing is added.
    #[verifier::spinoff_prover]
    #[verifier::rlimit(40)]
    pub fn add_item(&mut self, plain: &str, typecode: &str, label: &str, path: &str, prio: u8) -> (r: Result<(), IncrementalError>)
        requires
            old(self).wf(),
        ensures
            final(self).wf(),
            ({
                let key = spec_normalize_index_key(plain@);
                if fields_too_long(key, typecode@, label@, path@) {
                    &&& r matches Err(IncrementalError::Io(m)) && m@ == "field too long"@
                    &&& final(self).entries() == old(self).entries()
                    &&& final(self).records_len() == old(self).records_len()
                } else {
                    &&& r is Ok
                    &&& final(self).entries() == old(self).entries().push(
                        (label@, path@, key, prio, typecode@),
                    )
                    &&& final(self).records_len() == old(self).records_len() + record_bytes(
                        key,
                        typecode@,
                        label@,
                        path@,
                        prio,
                    ).len()
                }
            }),
    {
        let norm = normalize_index_key(plain);
        let kb = norm.as_str().as_bytes();
        let tb = typecode.as_bytes();
        let lb = label.as_bytes();
        let pb = path.as_bytes();
        if kb.len() > 0xffff || tb.len() > 0xff || lb.len() > 0xffff || pb.len() > 0xffff {
            return Err(IncrementalError::Io(String::from_str("field too long")));
        }
        let ghost old_records = self.records@;
        let ghost entry = (label@, path@, norm@, prio, typecode@);
        let pos: u32 = #[verifier::truncate] (self.records.len() as u32);
        push_u16_le(&mut self.records, kb.len() as u16);
        self.records.push(tb.len() as u8);
        push_u16_le(&mut self.records, lb.len() as u16);
        push_u16_le(&mut self.records, pb.len() as u16);
        self.records.push(prio);
        push_bytes(&mut self.records, kb);
        push_bytes(&mut self.records, tb);
        push_bytes(&mut self.records, lb);
        push_bytes(&mut self.records, pb);
        let kc = chars_of(norm.as_str());
        self.keys.push(kc);
        self.prios.push(prio);
        self.offsets.push(pos);
        self.entries = Ghost(self.entries@.push(entry));
        proof {
            let rb = record_bytes(norm@, typecode@, label@, path@, prio);
            assert(self.records@ =~= old_records + rb);
            lemma_decode_new_record(old_records, norm@, typecode@, label@, path@, prio);
            if self.records@.len() <= u32::MAX {
                assert forall|i: int|
                    0 <= i < self.entries@.len() implies decode_record(
                    self.records@,
                    (#[trigger] self.offsets@[i]) as int,
                ) == Some(self.entries@[i]) by {
                    if i < self.entries@.len() - 1 {
                        assert(self.records@.subrange(0, old_records.len() as int) =~= old_records);
                        lemma_decode_shift(old_records, self.records@, 0, self.offsets@[i] as int);
                    }
                }
            }
        }
        Ok(())
    }

    /// Sorts the entries by normalised key and then priority, and returns
    /// the bytes of the index file: the header, the records, and the sort
    /// index of record offsets.
    pub fn finalize(self) -> (img: Vec<u8>)
        requires
            self.wf(),
            self.records_len() + 16 <= u32::MAX,
        ensures
            incremental_image(img@, self.entries()),
    {
        let n = self.keys.len();
        let mut order: Vec<usize> = Vec::new();
        let mut i: usize = 0;
        while i < n
            invariant
                i <= n,
                n == self.keys@.len(),
                order@.len() == i,
                forall|k: int| 0 <= k < i ==> #[trigger] order@[k] == k,
            decreases n - i,
        {
            order.push(i);
            i = i + 1;
        }
        let ghost initial = order@;
        sort_entry_order(&mut order, &self.keys, &self.prios);
        proof {
            lemma_arrangement(initial, order@, n as nat);
        }
        let records_len = self.records.len();
        let first: u32 = (records_len + 16) as u32;
        let mut img: Vec<u8> = Vec::new();
        push_u32_le(&mut img, MAGIC);
        push_u32_le(&mut img, DB_VERSION);
        push_u32_le(&mut img, n as u32);
        push_u32_le(&mut img, first);
        let ghost header = img@;
        push_bytes(&mut img, self.records.as_slice());
        let ghost prefix = img@;
        let mut k: usize = 0;
        while k < n
            invariant
                k <= n,
                n == self.keys@.len(),
                self.wf(),
                self.records_len() + 16 <= u32::MAX,
                first == records_len + 16,
                records_len == self.records@.len(),
                is_arrangement(order@, n as nat),
                prefix.len() == first,
                img@.len() == first + 4 * k,
                img@.subrange(0, first as int) == prefix,
                forall|j: int|
                    0 <= j < k ==> img@.subrange(first + 4 * j, first + 4 * j + 4) == le32(
                        (self.offsets@[(#[trigger] order@[j]) as int] + 16) as u32,
                    ),
            decreases n - k,
        {
            let x = order[k];
            assert(x < n);
            let off = self.offsets[x];
            assert(decode_record(self.records@, off as int) is Some);
            let o = off + 16;
            let ghost before = img@;
            push_u32_le(&mut img, o);
            proof {
                assert(img@.subrange(0, first as int) =~= before.subrange(0, first as int));
                assert forall|j: int|
                    0 <= j < k + 1 implies img@.subrange(first + 4 * j, first + 4 * j + 4) == le32(
                    (self.offsets@[(#[trigger] order@[j]) as int] + 16) as u32,
                ) by {
                    if j < k {
                        assert(img@.subrange(first + 4 * j, first + 4 * j + 4) =~= before.subrange(
                            first + 4 * j,
                            first + 4 * j + 4,
                        ));
                    } else {
                        assert(img@.subrange(first + 4 * j, first + 4 * j + 4) =~= le32(o));
                    }
                }
            }
            k = k + 1;
        }
        proof {
            self.lemma_image_layout(img@, header, prefix, order@, first as int);
        }
        img
    }

    /// The bytes built by `finalize` are laid out as `image_layout` says.
    #[verifier::spinoff_prover]
    #[verifier::rlimit(40)]
    proof fn lemma_image_layout(&self, img: Seq<u8>, header: Seq<u8>, prefix: Seq<u8>, order: Seq<usize>, first: int)
        requires
            self.wf(),
            first == self.records@.len() + 16,
            first <= u32::MAX,
            header == le32(MAGIC) + le32(DB_VERSION) + le32(self.keys@.len() as u32) + le32(
                first as u32,
            ),
            prefix == header + self.records@,
            is_arrangement(order, self.entries@.len()),
            forall|i: int, j: int|
                0 <= i < j < order.len() ==> !entry_before_at(
                    self.keys@,
                    self.prios@,
                    order[j],
                    order[i],
                ),
            forall|i: int, j: int|
                0 <= i < j < order.len() && !entry_before_at(self.keys@, self.prios@, order[i], order[j])
                    ==> order[i] < order[j],
            img.len() == first + 4 * self.entries@.len(),
            img.subrange(0, first) == prefix,
            forall|j: int|
                0 <= j < self.entries@.len() ==> img.subrange(first + 4 * j, first + 4 * j + 4)
                    == le32((self.offsets@[(#[trigger] order[j]) as int] + 16) as u32),
        ensures
            image_layout(img, self.entries@, order),
    {
        let e = self.entries@;
        let n = e.len();
        let d = self.records@;
        assert forall|k: int| 0 <= k < first implies img[k] == prefix[k] by {
            assert(img.subrange(0, first)[k] == img[k]);
        }
        assert(img.subrange(0, 4) =~= le32(MAGIC));
        lemma_le32_roundtrip(img, 0, MAGIC);
        assert(img.subrange(4, 8) =~= le32(DB_VERSION));
        lemma_le32_roundtrip(img, 4, DB_VERSION);
        assert(img.subrange(8, 12) =~= le32(n as u32));
        lemma_le32_roundtrip(img, 8, n as u32);
        assert(img.subrange(12, 16) =~= le32(first as u32));
        lemma_le32_roundtrip(img, 12, first as u32);
        assert(img.subrange(16, 16 + d.len() as int) =~= d);
        assert forall|i: int, j: int|
            0 <= i < j < order.len() implies !entry_before(
            #[trigger] e[order[j] as int].2,
            e[order[j] as int].3,
            #[trigger] e[order[i] as int].2,
            e[order[i] as int].3,
        ) by {
            assert(!entry_before_at(self.keys@, self.prios@, order[j], order[i]));
            assert(self.keys@[order[j] as int]@ == e[order[j] as int].2);
            assert(self.keys@[order[i] as int]@ == e[order[i] as int].2);
        }
        assert forall|i: int, j: int|
            0 <= i < j < order.len() && !entry_before(
                #[trigger] e[order[i] as int].2,
                e[order[i] as int].3,
                #[trigger] e[order[j] as int].2,
                e[order[j] as int].3,
            ) implies order[i] < order[j] by {
            assert(self.keys@[order[j] as int]@ == e[order[j] as int].2);
            assert(self.keys@[order[i] as int]@ == e[order[i] as int].2);
            assert(!entry_before_at(self.keys@, self.prios@, order[i], order[j]));
        }
        assert forall|i: int| 0 <= i < n implies #[trigger] entry_readable(img, first, i)
            && decode_record(img, sort_off(img, first, i)) == Some(e[order[i] as int]) by {
            let x = order[i] as int;
            assert(0 <= x < n);
            let off = self.offsets@[x] as int;
            assert(decode_record(d, off) == Some(e[x]));
            lemma_le32_roundtrip(img, first + 4 * i, (off + 16) as u32);
            assert(sort_off(img, first, i) == off + 16);
            lemma_decode_shift(d, img, 16, off);
        }
    }
}


/// The entries of `s` whose normalised key starts with `key`, in order.
pub open spec fn prefix_matches(s: Seq<(Seq<char>, Seq<char>, Seq<char>, u8, Seq<char>)>, key: Seq<char>) -> Seq<
    (Seq<char>, Seq<char>, Seq<char>, u8, Seq<char>),
> {
    s.filter(|x: (Seq<char>, Seq<char>, Seq<char>, u8, Seq<char>)| has_prefix(x.2, key))
}

/// The first `limit` elements of `s`, or all of them when there are fewer.
pub open spec fn at_most<A>(s: Seq<A>, limit: int) -> Seq<A> {
    if limit < s.len() {
        s.take(limit)
    } else {
        s
    }
}

/// The entries `e` taken in the order `order`.
pub open spec fn arranged(e: Seq<(Seq<char>, Seq<char>, Seq<char>, u8, Seq<char>)>, order: Seq<usize>) -> Seq<
    (Seq<char>, Seq<char>, Seq<char>, u8, Seq<char>),
> {
    order.map_values(|i: usize| e[i as int])
}

/// The keys at the sort positions `0..n` never decrease.
pub open spec fn keys_sorted(d: Seq<u8>, first: int, n: int) -> bool {
    forall|i: int, j: int|
        0 <= i < j < n ==> !seq_lt(#[trigger] plain_at(d, first, j), #[trigger] plain_at(d, first, i))
}

/// Bisection for the first key not before `key` finds the boundary
/// between the keys before `key` and the others.
proof fn lemma_bisect_start(d: Seq<u8>, first: int, n: int, key: Seq<char>, a: int, b: int)
    requires
        0 <= a <= b <= n,
        keys_sorted(d, first, n),
        forall|i: int| 0 <= i < a ==> seq_lt(#[trigger] plain_at(d, first, i), key),
        forall|i: int| b <= i < n ==> !seq_lt(#[trigger] plain_at(d, first, i), key),
    ensures
        a <= bisect_start(d, first, key, a, b) <= b,
        forall|i: int|
            0 <= i < bisect_start(d, first, key, a, b) ==> seq_lt(
                #[trigger] plain_at(d, first, i),
                key,
            ),
        forall|i: int|
            bisect_start(d, first, key, a, b) <= i < n ==> !seq_lt(
                #[trigger] plain_at(d, first, i),
                key,
            ),
    decreases b - a,
{
    if a < b {
        let c = (a + b) / 2;
        let pc = plain_at(d, first, c);
        if seq_lt(pc, key) {
            assert forall|i: int| 0 <= i < c + 1 implies seq_lt(#[trigger] plain_at(d, first, i), key) by {
                let pi = plain_at(d, first, i);
                if i < c {
                    assert(!seq_lt(pc, pi));
                    lemma_seq_lt_total(pi, pc);
                    if pi != pc {
                        lemma_seq_lt_trans(pi, pc, key);
                    }
                }
            }
            lemma_bisect_start(d, first, n, key, c + 1, b);
        } else {
            assert forall|i: int| c <= i < n implies !seq_lt(#[trigger] plain_at(d, first, i), key) by {
                let pi = plain_at(d, first, i);
                if c < i {
                    assert(!seq_lt(pi, pc));
                    lemma_seq_lt_total(pi, pc);
                    if seq_lt(pi, key) && pi != pc {
                        lemma_seq_lt_trans(pc, pi, key);
                    }
                }
            }
            lemma_bisect_start(d, first, n, key, a, c);
        }
    }
}

/// Past `key` without starting with it.
pub open spec fn beyond_prefix(p: Seq<char>, key: Seq<char>) -> bool {
    seq_lt(key, p) && !has_prefix(p, key)
}

/// Bisection for the end of the keys that start with `key` finds the
/// boundary from which every key is past them.
proof fn lemma_bisect_end(d: Seq<u8>, first: int, n: int, key: Seq<char>, st: int, a: int, b: int)
    requires
        0 <= st <= a <= b <= n,
        keys_sorted(d, first, n),
        forall|i: int| st <= i < a ==> !beyond_prefix(#[trigger] plain_at(d, first, i), key),
        forall|i: int| b <= i < n ==> beyond_prefix(#[trigger] plain_at(d, first, i), key),
    ensures
        a <= bisect_end(d, first, key, a, b) <= b,
        forall|i: int|
            st <= i < bisect_end(d, first, key, a, b) ==> !beyond_prefix(
                #[trigger] plain_at(d, first, i),
                key,
            ),
        forall|i: int|
            bisect_end(d, first, key, a, b) <= i < n ==> beyond_prefix(
                #[trigger] plain_at(d, first, i),
                key,
            ),
    decreases b - a,
{
    if a < b {
        let c = (a + b) / 2;
        let pc = plain_at(d, first, c);
        if beyond_prefix(pc, key) {
            assert forall|i: int| c <= i < n implies beyond_prefix(#[trigger] plain_at(d, first, i), key) by {
                if c < i {
                    lemma_prefix_interval(key, pc, plain_at(d, first, i));
                }
            }
            lemma_bisect_end(d, first, n, key, st, a, c);
        } else {
            assert forall|i: int| st <= i < c + 1 implies !beyond_prefix(
                #[trigger] plain_at(d, first, i),
                key,
            ) by {
                if i < c && beyond_prefix(plain_at(d, first, i), key) {
                    lemma_prefix_interval(key, plain_at(d, first, i), pc);
                }
            }
            lemma_bisect_end(d, first, n, key, st, c + 1, b);
        }
    }
}

/// A filter that keeps exactly the positions `a..b` gives that block.
proof fn lemma_filter_block<A>(s: Seq<A>, pred: spec_fn(A) -> bool, a: int, b: int)
    requires
        0 <= a <= b <= s.len(),
        forall|i: int| 0 <= i < s.len() ==> (pred(#[trigger] s[i]) <==> a <= i < b),
    ensures
        s.filter(pred) == s.subrange(a, b),
    decreases s.len(),
{
    reveal(Seq::filter);
    if s.len() > 0 {
        let t = s.drop_last();
        assert forall|i: int| 0 <= i < t.len() implies t[i] == s[i] by {}
        if b == s.len() && a < b {
            lemma_filter_block(t, pred, a, b - 1);
            assert(pred(s[s.len() - 1]));
            assert(t.subrange(a, b - 1).push(s.last()) =~= s.subrange(a, b));
        } else if b == s.len() {
            lemma_filter_block(t, pred, t.len() as int, t.len() as int);
            assert(!pred(s[s.len() - 1]));
            assert(t.subrange(t.len() as int, t.len() as int) =~= s.subrange(a, b));
        } else {
            lemma_filter_block(t, pred, a, b);
            assert(!pred(s[s.len() - 1]));
            assert(t.subrange(a, b) =~= s.subrange(a, b));
        }
    } else {
        assert(s.subrange(a, b) =~= s);
    }
}

/// The decodable records at sort positions `a..b` are the entries placed
/// there.
proof fn lemma_records_in(d: Seq<u8>, first: int, s: Seq<(Seq<char>, Seq<char>, Seq<char>, u8, Seq<char>)>, a: int, b: int)
    requires
        0 <= a <= b <= s.len(),
        forall|i: int| 0 <= i < s.len() ==> decode_record(d, #[trigger] sort_off(d, first, i)) == Some(s[i]),
    ensures
        records_in(d, first, a, b) == s.subrange(a, b),
    decreases b - a,
{
    if a < b {
        lemma_records_in(d, first, s, a + 1, b);
        assert(decode_record(d, sort_off(d, first, a)) == Some(s[a]));
        assert(seq![s[a]] + s.subrange(a + 1, b) =~= s.subrange(a, b));
    } else {
        assert(s.subrange(a, b) =~= Seq::<(Seq<char>, Seq<char>, Seq<char>, u8, Seq<char>)>::empty());
    }
}

/// Searching an index built from the entries `e` for `key` gives, among
/// the entries sorted by normalised key and priority, the first `limit`
/// whose normalised key starts with the normalised `key`; a key that
/// normalises to nothing finds nothing. The header of such an index passes
/// every check of `IncrementalSearcher::open` and its sort index is
/// readable, so the search can run.
pub proof fn lemma_search_returns_prefix_matches(
    img: Seq<u8>,
    e: Seq<(Seq<char>, Seq<char>, Seq<char>, u8, Seq<char>)>,
    key: Seq<char>,
    limit: int,
)
    requires
        incremental_image(img, e),
        e.len() > 0,
        limit >= 0,
    ensures
        img.len() >= 16,
        spec_u32_le(img, 0) == MAGIC,
        spec_u32_le(img, 4) == DB_VERSION,
        spec_u32_le(img, 8) == e.len(),
        spec_u32_le(img, 12) != 0,
        img.len() == spec_u32_le(img, 12) + 4 * e.len(),
        index_readable(img, spec_u32_le(img, 12) as int, e.len() as int),
        spec_normalize_index_key(key).len() == 0 ==> spec_search(
            img,
            spec_u32_le(img, 12) as int,
            e.len() as int,
            key,
            limit,
        ) == Seq::<(Seq<char>, Seq<char>, Seq<char>, u8, Seq<char>)>::empty(),
        exists|order: Seq<usize>|
            #![trigger arranged(e, order)]
            {
                &&& is_arrangement(order, e.len())
                &&& sorted_by_key(e, order)
                &&& (spec_normalize_index_key(key).len() > 0 ==> spec_search(
                    img,
                    spec_u32_le(img, 12) as int,
                    e.len() as int,
                    key,
                    limit,
                ) == at_most(
                    prefix_matches(arranged(e, order), spec_normalize_index_key(key)),
                    limit,
                ))
            },
{
    let order = choose|order: Seq<usize>| image_layout(img, e, order);
    let n = e.len() as int;
    let first = img.len() - 4 * n;
    let s = arranged(e, order);
    let nk = spec_normalize_index_key(key);
    assert(first == spec_u32_le(img, 12));
    assert forall|i: int| 0 <= i < n implies #[trigger] plain_at(img, first, i) == s[i].2 by {
        assert(entry_readable(img, first, i));
        assert(decode_record(img, sort_off(img, first, i)) == Some(e[order[i] as int]));
    }
    assert(keys_sorted(img, first, n)) by {
        assert forall|i: int, j: int| 0 <= i < j < n implies !seq_lt(
            #[trigger] plain_at(img, first, j),
            #[trigger] plain_at(img, first, i),
        ) by {
            assert(!entry_before(
                e[order[j] as int].2,
                e[order[j] as int].3,
                e[order[i] as int].2,
                e[order[i] as int].3,
            ));
        }
    }
    assert forall|i: int| 0 <= i < n implies decode_record(img, #[trigger] sort_off(img, first, i))
        == Some(s[i]) by {
        assert(entry_readable(img, first, i));
    }
    if nk.len() > 0 {
        lemma_bisect_start(img, first, n, nk, 0, n);
        let st = bisect_start(img, first, nk, 0, n);
        lemma_bisect_end(img, first, n, nk, st, st, n);
        let en = bisect_end(img, first, nk, st, n);
        let pred = |x: (Seq<char>, Seq<char>, Seq<char>, u8, Seq<char>)| has_prefix(x.2, nk);
        assert forall|i: int| 0 <= i < s.len() implies (pred(#[trigger] s[i]) <==> st <= i < en) by {
            let p = plain_at(img, first, i);
            assert(p == s[i].2);
            if i < st {
                if has_prefix(p, nk) {
                    lemma_prefix_not_lt(p, nk);
                }
            } else if i < en {
                lemma_seq_lt_total(p, nk);
                if p == nk {
                    assert(p.subrange(0, nk.len() as int) =~= nk);
                }
            }
        }
        lemma_filter_block(s, pred, st, en);
        let take = if limit < en - st {
            limit
        } else {
            en - st
        };
        lemma_records_in(img, first, s, st, st + take);
        let f = prefix_matches(s, nk);
        assert(f == s.subrange(st, en));
        if st < n {
            assert(at_most(f, limit) =~= s.subrange(st, st + take));
        } else {
            assert(at_most(f, limit) =~= Seq::<(Seq<char>, Seq<char>, Seq<char>, u8, Seq<char>)>::empty());
        }
    }
    assert(is_arrangement(order, e.len()) && sorted_by_key(e, order));
    assert(arranged(e, order) == s);
}

} // verus!
