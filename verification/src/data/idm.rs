//! IDM `.skn` archives: the configuration files that describe record
//! layouts, the directory and file listings, the catalog of compressed
//! blocks, and reading a file out of a decompressed block.
//!
//! An archive `<archive>.skn/` holds `dirs.skn/` (`config.cft`, `NAME.tda`,
//! `dirs.dat`) and `files.skn/` (`config.cft`, `NAME.tda`, `files.dat`,
//! `CONTENT.tda` and its catalog `CONTENT.tda.tdz`). A file's location is
//! `(stored_offset, stored_size, orig_offset, orig_size)`: the compressed block
//! in `CONTENT.tda` and the slice of its decompressed bytes.

use std::io::Read;
use vstd::prelude::*;

use crate::bytes::{read_u32_le, spec_u32_le};
use crate::text::{chars_of, spec_str_lowercase, spec_trim, str_lowercase, string_from_chars, trim_chars};

verus! {

/// Errors of the archive reader.
#[derive(Debug)]
pub enum ArchiveError {
    /// The archive name is not one of the dictionary's archives.
    UnknownArchive(String),
    /// The data directory is not an LDOCE5 data directory.
    InvalidDataDir,
    /// The archive's files do not have the content they should.
    Broken(String),
    /// A file could not be read; the message of the I/O error.
    Io(String),
}

impl ArchiveError {
    /// The message of the error.
    pub fn to_string(&self) -> (r: String)
        ensures
            r@ == (match self {
                ArchiveError::UnknownArchive(n) => "Unknown archive name: "@ + n@,
                ArchiveError::InvalidDataDir => "Invalid or missing LDOCE5 data directory"@,
                ArchiveError::Broken(m) => "Broken archive: "@ + m@,
                ArchiveError::Io(m) => "I/O error: "@ + m@,
            }),
    {
        match self {
            ArchiveError::InvalidDataDir => String::from_str("Invalid or missing LDOCE5 data directory"),
            ArchiveError::UnknownArchive(n) => {
                let mut r = String::from_str("Unknown archive name: ");
                r.append(n.as_str());
                r
            },
            ArchiveError::Broken(m) => {
                let mut r = String::from_str("Broken archive: ");
                r.append(m.as_str());
                r
            },
            ArchiveError::Io(m) => {
                let mut r = String::from_str("I/O error: ");
                r.append(m.as_str());
                r
            },
        }
    }
}

/// The dictionary's archives: name and path relative to the data
/// directory.
pub open spec fn archive_table() -> Seq<(Seq<char>, Seq<char>)> {
    seq![
        ("etymologies"@, "etymologies.skn"@),
        ("word_families"@, "word_families.skn"@),
        ("examples"@, "examples.skn"@),
        ("sound"@, "sound.skn"@),
        ("fs"@, "fs.skn"@),
        ("us_hwd_pron"@, "us_hwd_pron.skn"@),
        ("gb_hwd_pron"@, "gb_hwd_pron.skn"@),
        ("picture"@, "picture.skn"@),
        ("phrases"@, "phrases.skn"@),
        ("sfx"@, "sfx.skn"@),
        ("thesaurus"@, "thesaurus.skn"@),
        ("gram"@, "gram.skn"@),
        ("collocations"@, "collocations.skn"@),
        ("exa_pron"@, "exa_pron.skn"@),
        ("common_errors"@, "common_errors.skn"@),
        ("word_sets"@, "word_sets.skn"@),
        ("menus"@, "menus.skn"@),
        ("word_lists"@, "word_lists.skn"@),
        ("verb_forms"@, "verb_forms.skn"@),
        ("activator"@, "activator.skn"@),
        ("activator_section"@, "activator.skn/activator_section.skn"@),
        ("activator_concept"@, "activator.skn/activator_concept.skn"@),
    ]
}

/// The dictionary's archives: name and path relative to the data
/// directory.
pub fn archive_dirs() -> (r: Vec<(&'static str, &'static str)>)
    ensures
        r@.map_values(|p: (&str, &str)| (p.0@, p.1@)) == archive_table(),
{
    let r = vec![
        ("etymologies", "etymologies.skn"),
        ("word_families", "word_families.skn"),
        ("examples", "examples.skn"),
        ("sound", "sound.skn"),
        ("fs", "fs.skn"),
        ("us_hwd_pron", "us_hwd_pron.skn"),
        ("gb_hwd_pron", "gb_hwd_pron.skn"),
        ("picture", "picture.skn"),
        ("phrases", "phrases.skn"),
        ("sfx", "sfx.skn"),
        ("thesaurus", "thesaurus.skn"),
        ("gram", "gram.skn"),
        ("collocations", "collocations.skn"),
        ("exa_pron", "exa_pron.skn"),
        ("common_errors", "common_errors.skn"),
        ("word_sets", "word_sets.skn"),
        ("menus", "menus.skn"),
        ("word_lists", "word_lists.skn"),
        ("verb_forms", "verb_forms.skn"),
        ("activator", "activator.skn"),
        ("activator_section", "activator.skn/activator_section.skn"),
        ("activator_concept", "activator.skn/activator_concept.skn"),
    ];
    assert(r@.map_values(|p: (&str, &str)| (p.0@, p.1@)) =~= archive_table());
    r
}

/// The position of the first archive named `name` among the first `k`.
pub open spec fn archive_index(name: Seq<char>, k: int) -> Option<int>
    decreases k,
{
    if k <= 0 {
        None
    } else {
        match archive_index(name, k - 1) {
            Some(i) => Some(i),
            None => if archive_table()[k - 1].0 == name {
                Some(k - 1)
            } else {
                None
            },
        }
    }
}

proof fn lemma_archive_index_stable(name: Seq<char>, k: int, l: int)
    requires
        0 <= k <= l,
        archive_index(name, k) is Some,
    ensures
        archive_index(name, l) == archive_index(name, k),
    decreases l - k,
{
    if k < l {
        lemma_archive_index_stable(name, k, l - 1);
    }
}

/// The path of the archive named `name`, relative to the data directory.
pub fn archive_rel_path(name: &str) -> (r: Result<&'static str, ArchiveError>)
    ensures
        match archive_index(name@, archive_table().len() as int) {
            Some(i) => r matches Ok(p) && p@ == archive_table()[i].1,
            None => r matches Err(ArchiveError::UnknownArchive(n)) && n@ == name@,
        },
{
    let dirs = archive_dirs();
    let ghost t = dirs@.map_values(|p: (&str, &str)| (p.0@, p.1@));
    let mut i: usize = 0;
    while i < dirs.len()
        invariant
            i <= dirs@.len(),
            t == dirs@.map_values(|p: (&str, &str)| (p.0@, p.1@)),
            t == archive_table(),
            archive_index(name@, i as int) is None,
        decreases dirs@.len() - i,
    {
        let (n, rel) = dirs[i];
        if crate::history::str_equal(n, name) {
            assert(t[i as int] == (n@, rel@));
            proof {
                lemma_archive_index_stable(name@, i + 1, archive_table().len() as int);
            }
            return Ok(rel);
        }
        assert(t[i as int] == (n@, rel@));
        i = i + 1;
    }
    Err(ArchiveError::UnknownArchive(String::from_str(name)))
}

/// The byte size of an IDM field type, after trimming: `UBYTE` 1, `USHORT`
/// 2, `U24` 3, `ULONG` 4.
pub open spec fn field_size_of(t: Seq<char>) -> Option<usize> {
    let u = spec_trim(t);
    if u == "UBYTE"@ {
        Some(1)
    } else if u == "USHORT"@ {
        Some(2)
    } else if u == "U24"@ {
        Some(3)
    } else if u == "ULONG"@ {
        Some(4)
    } else {
        None
    }
}

/// The byte size of the IDM field type named `t`.
pub fn field_type_size(t: &str) -> (r: Option<usize>)
    ensures
        r == field_size_of(t@),
{
    let tc = chars_of(t);
    let u = trim_chars(tc.as_slice());
    let s = string_from_chars(u.as_slice());
    if crate::history::str_equal(s.as_str(), "UBYTE") {
        Some(1)
    } else if crate::history::str_equal(s.as_str(), "USHORT") {
        Some(2)
    } else if crate::history::str_equal(s.as_str(), "U24") {
        Some(3)
    } else if crate::history::str_equal(s.as_str(), "ULONG") {
        Some(4)
    } else {
        None
    }
}

/// The little-endian unsigned integer of the `size` bytes at `start`.
pub open spec fn le_value(d: Seq<u8>, start: int, size: int) -> nat
    decreases size,
{
    if size <= 0 {
        0
    } else {
        le_value(d, start, size - 1) + d[start + size - 1] as nat * pow256(size - 1)
    }
}

/// 256 to the power `k`.
pub open spec fn pow256(k: int) -> nat
    decreases k,
{
    if k <= 0 {
        1
    } else {
        256 * pow256(k - 1)
    }
}

proof fn lemma_le_value_bound(d: Seq<u8>, start: int, size: int)
    requires
        0 <= size,
    ensures
        le_value(d, start, size) < pow256(size),
    decreases size,
{
    if size > 0 {
        lemma_le_value_bound(d, start, size - 1);
        let b = d[start + size - 1] as nat;
        let p = pow256(size - 1);
        assert(b * p <= 255 * p) by (nonlinear_arith)
            requires
                b <= 255,
        ;
    }
}

/// Reads the little-endian integer of `size` bytes at `start`.
pub fn read_int(data: &[u8], start: usize, size: usize) -> (r: usize)
    requires
        start + size <= data@.len(),
        size * 8 <= usize::BITS,
    ensures
        r == le_value(data@, start as int, size as int),
{
    let n = data.len();
    let mut r: usize = 0;
    let mut m: usize = 1;
    let mut i: usize = 0;
    proof {
        assert(usize::BITS == 32 || usize::BITS == 64);
        reveal_with_fuel(pow256, 9);
        assert(pow256(4) == 0x1_0000_0000);
        assert(pow256(8) == 0x1_0000_0000_0000_0000);
    }
    while i < size
        invariant
            i <= size,
            start + size <= data@.len(),
            size * 8 <= usize::BITS,
            usize::BITS == 32 ==> size <= 4 && pow256(4) == 0x1_0000_0000,
            usize::BITS == 64 ==> size <= 8 && pow256(8) == 0x1_0000_0000_0000_0000,
            r == le_value(data@, start as int, i as int),
            i < size ==> m == pow256(i as int),
            n == data@.len(),
        decreases size - i,
    {
        proof {
            lemma_le_value_bound(data@, start as int, i + 1);
            lemma_pow256_mono(i + 1, size as int);
            assert(pow256(size as int) <= usize::MAX + 1) by {
                lemma_pow256_mono(size as int, if usize::BITS == 32 { 4 } else { 8 });
            }
        }
        let b = data[start + i] as usize;
        proof {
            let bb = b as nat;
            assert(bb * (m as nat) <= 255 * (m as nat)) by (nonlinear_arith)
                requires
                    bb <= 255,
            ;
        }
        r = r + b * m;
        i = i + 1;
        if i < size {
            proof {
                lemma_pow256_mono(i + 1, size as int);
            }
            m = m * 256;
        }
    }
    r
}

proof fn lemma_pow256_mono(a: int, b: int)
    requires
        0 <= a <= b,
    ensures
        pow256(a) <= pow256(b),
    decreases b - a,
{
    if a < b {
        lemma_pow256_mono(a, b - 1);
    }
}

/// `c` in lower case when it is an ASCII capital letter.
pub open spec fn ascii_lower(c: char) -> char {
    if 'A' <= c && c <= 'Z' {
        ((c as u32) + 32) as char
    } else {
        c
    }
}

/// `a` and `b` are equal, ignoring the case of ASCII letters.
pub open spec fn eq_ignore_ascii_case(a: Seq<char>, b: Seq<char>) -> bool {
    a.len() == b.len() && forall|i: int| 0 <= i < a.len() ==> ascii_lower(#[trigger] a[i]) == ascii_lower(b[i])
}

/// The pieces of `s` between the separators `sep`, as `str::split` gives
/// them.
pub open spec fn split_pieces(s: Seq<char>, sep: char) -> Seq<Seq<char>>
    decreases s.len(),
{
    if s.len() == 0 {
        seq![Seq::empty()]
    } else {
        let p = split_pieces(s.drop_last(), sep);
        if s.last() == sep {
            p.push(Seq::empty())
        } else {
            p.drop_last().push(p.last().push(s.last()))
        }
    }
}

/// `s` up to its first `c`, or all of it.
pub open spec fn before_first(s: Seq<char>, c: char) -> Seq<char> {
    match crate::content::types::first_index_of(s, c) {
        Some(i) => s.subrange(0, i),
        None => s,
    }
}

/// What reading `config.cft` has found so far: whether the `[DAT]` section
/// is open, the size of the record so far, and each field's offset and
/// size by lower-cased name.
pub struct CftState {
    pub in_dat: bool,
    pub offset: int,
    pub fields: Map<Seq<char>, (int, int)>,
}

/// The state after one line of `config.cft`. Inside `[DAT]`, a line
/// `name[, ...] = TYPE` with a known type adds the field at the current
/// offset; a section header opens or closes `[DAT]`; blank lines, comments
/// (`;`, `#`) and other lines change nothing.
pub open spec fn cft_line(st: CftState, raw: Seq<char>) -> CftState {
    let line = spec_trim(raw);
    if eq_ignore_ascii_case(line, "[DAT]"@) {
        CftState { in_dat: true, ..st }
    } else if line.len() > 0 && line[0] == '[' {
        CftState { in_dat: false, ..st }
    } else if !st.in_dat || line.len() == 0 || line[0] == ';' || line[0] == '#' {
        st
    } else {
        match crate::content::types::first_index_of(line, '=') {
            None => st,
            Some(e) => {
                let lhs = line.subrange(0, e);
                let rhs = line.subrange(e + 1, line.len() as int);
                match field_size_of(spec_trim(rhs)) {
                    Some(sz) => CftState {
                        fields: st.fields.insert(
                            spec_str_lowercase(spec_trim(before_first(lhs, ','))),
                            (st.offset, sz as int),
                        ),
                        offset: st.offset + sz,
                        ..st
                    },
                    None => st,
                }
            },
        }
    }
}

/// The state after the lines `ls`, from the start of the file.
pub open spec fn cft_run(ls: Seq<Seq<char>>) -> CftState
    decreases ls.len(),
{
    if ls.len() == 0 {
        CftState { in_dat: false, offset: 0, fields: Map::empty() }
    } else {
        cft_line(cft_run(ls.drop_last()), ls.last())
    }
}

/// The record layout that `config.cft` with text `content` describes.
pub open spec fn cft_layout(content: Seq<char>) -> CftState {
    cft_run(split_pieces(content, '\n'))
}

/// The fields of a record layout: offset and size by name.
pub struct CftFields {
    names: Vec<String>,
    places: Vec<(usize, usize)>,
}

impl CftFields {
    /// Each field's offset and size, by name.
    pub closed spec fn view_map(&self) -> Map<Seq<char>, (int, int)> {
        Map::new(
            |k: Seq<char>| exists|i: int| 0 <= i < self.names@.len() && #[trigger] self.names@[i]@ == k,
            |k: Seq<char>| {
                let i = choose|i: int| 0 <= i < self.names@.len() && #[trigger] self.names@[i]@ == k;
                (self.places@[i].0 as int, self.places@[i].1 as int)
            },
        )
    }

    /// The names are distinct, one place per name.
    pub closed spec fn wf(&self) -> bool {
        &&& self.names@.len() == self.places@.len()
        &&& forall|i: int, j: int|
            0 <= i < j < self.names@.len() ==> #[trigger] self.names@[i]@ != #[trigger] self.names@[j]@
    }

    /// Every field lies inside a record of `rsize` bytes and is at most four
    /// bytes long.
    pub open spec fn fits(&self, rsize: int) -> bool {
        forall|k: Seq<char>|
            #[trigger] self.view_map().contains_key(k) ==> 0 <= self.view_map()[k].0 && 1
                <= self.view_map()[k].1 <= 4 && self.view_map()[k].0 + self.view_map()[k].1 <= rsize
    }

    fn new() -> (r: CftFields)
        ensures
            r.wf(),
            r.view_map() == Map::<Seq<char>, (int, int)>::empty(),
    {
        let r = CftFields { names: Vec::new(), places: Vec::new() };
        assert(r.view_map() =~= Map::<Seq<char>, (int, int)>::empty());
        r
    }

    /// The position of `name`, if present.
    fn find(&self, name: &str) -> (r: Option<usize>)
        requires
            self.wf(),
        ensures
            match r {
                Some(i) => i < self.names@.len() && self.names@[i as int]@ == name@,
                None => !self.view_map().contains_key(name@),
            },
    {
        let mut i: usize = 0;
        while i < self.names.len()
            invariant
                self.wf(),
                i <= self.names@.len(),
                forall|j: int| 0 <= j < i ==> #[trigger] self.names@[j]@ != name@,
            decreases self.names@.len() - i,
        {
            if crate::history::str_equal(self.names[i].as_str(), name) {
                return Some(i);
            }
            i = i + 1;
        }
        None
    }

    /// The offset and size of field `name`, if the layout has it.
    pub fn get(&self, name: &str) -> (r: Option<(usize, usize)>)
        requires
            self.wf(),
        ensures
            match r {
                Some(p) => self.view_map().contains_key(name@) && self.view_map()[name@] == (
                    p.0 as int,
                    p.1 as int,
                ),
                None => !self.view_map().contains_key(name@),
            },
    {
        match self.find(name) {
            Some(i) => {
                proof {
                    assert(self.view_map().contains_key(name@));
                    let k = choose|k: int| 0 <= k < self.names@.len() && #[trigger] self.names@[k]@ == name@;
                    assert(k == i as int);
                }
                Some(self.places[i])
            },
            None => None,
        }
    }

    /// Sets field `name` to `place`.
    fn insert(&mut self, name: String, place: (usize, usize))
        requires
            old(self).wf(),
        ensures
            final(self).wf(),
            final(self).view_map() == old(self).view_map().insert(name@, (place.0 as int, place.1 as int)),
    {
        match self.find(name.as_str()) {
            Some(i) => {
                let ghost before = *self;
                self.places.set(i, place);
                proof {
                    assert forall|k: Seq<char>| #![auto] self.view_map().contains_key(k) == before.view_map().insert(name@, (place.0 as int, place.1 as int)).contains_key(k) by {}
                    assert forall|k: Seq<char>| #![auto] self.view_map().contains_key(k) implies self.view_map()[k] == before.view_map().insert(name@, (place.0 as int, place.1 as int))[k] by {
                        let j = choose|j: int| 0 <= j < self.names@.len() && #[trigger] self.names@[j]@ == k;
                        if k != name@ {
                            let j2 = choose|j: int| 0 <= j < before.names@.len() && #[trigger] before.names@[j]@ == k;
                            assert(j == j2);
                        }
                    }
                    assert(self.view_map() =~= before.view_map().insert(name@, (place.0 as int, place.1 as int)));
                }
            },
            None => {
                let ghost before = *self;
                let ghost nv = name@;
                self.names.push(name);
                self.places.push(place);
                proof {
                    let n = before.names@.len() as int;
                    assert(self.names@[n]@ == nv);
                    assert forall|k: Seq<char>| #![auto] self.view_map().contains_key(k) == before.view_map().insert(nv, (place.0 as int, place.1 as int)).contains_key(k) by {
                        if before.view_map().contains_key(k) {
                            let j = choose|j: int| 0 <= j < before.names@.len() && #[trigger] before.names@[j]@ == k;
                            assert(self.names@[j]@ == k);
                        }
                        if self.view_map().contains_key(k) && k != nv {
                            let j = choose|j: int| 0 <= j < self.names@.len() && #[trigger] self.names@[j]@ == k;
                            assert(j < n);
                            assert(before.names@[j]@ == k);
                        }
                    }
                    assert forall|k: Seq<char>| #![auto] self.view_map().contains_key(k) implies self.view_map()[k] == before.view_map().insert(nv, (place.0 as int, place.1 as int))[k] by {
                        let j = choose|j: int| 0 <= j < self.names@.len() && #[trigger] self.names@[j]@ == k;
                        if k == nv {
                            assert(j == n);
                        } else {
                            assert(j < n);
                            let j2 = choose|j: int| 0 <= j < before.names@.len() && #[trigger] before.names@[j]@ == k;
                            assert(j == j2);
                        }
                    }
                    assert(self.view_map() =~= before.view_map().insert(nv, (place.0 as int, place.1 as int)));
                }
            },
        }
    }
}

/// The code of `c` in lower case when it is an ASCII capital letter.
fn ascii_lower_code(c: char) -> (r: u32)
    ensures
        r == ascii_lower(c) as u32,
        'A' <= c <= 'Z' ==> r == (c as u32) + 32,
        !('A' <= c <= 'Z') ==> r == c as u32,
{
    if 'A' <= c && c <= 'Z' {
        (c as u32) + 32
    } else {
        c as u32
    }
}

proof fn lemma_ascii_lower_code_injective(x: char, y: char)
    ensures
        (ascii_lower(x) as u32 == ascii_lower(y) as u32) ==> ascii_lower(x) == ascii_lower(y),
{
}

/// Whether `a` equals `b`, ignoring the case of ASCII letters.
fn chars_eq_ignore_ascii_case(a: &[char], b: &str) -> (r: bool)
    ensures
        r == eq_ignore_ascii_case(a@, b@),
{
    let bc = chars_of(b);
    if a.len() != bc.len() {
        return false;
    }
    let mut i: usize = 0;
    while i < a.len()
        invariant
            i <= a@.len(),
            a@.len() == bc@.len(),
            bc@ == b@,
            forall|k: int| 0 <= k < i ==> ascii_lower(#[trigger] a@[k]) == ascii_lower(bc@[k]),
        decreases a@.len() - i,
    {
        let lx = ascii_lower_code(a[i]);
        let ly = ascii_lower_code(bc[i]);
        if lx != ly {
            proof {
                if ascii_lower(a@[i as int]) == ascii_lower(bc@[i as int]) {
                    assert(ascii_lower(a@[i as int]) as u32 == ascii_lower(bc@[i as int]) as u32);
                }
            }
            return false;
        }
        proof {
            lemma_ascii_lower_code_injective(a@[i as int], bc@[i as int]);
        }
        i = i + 1;
    }
    true
}

/// The field sizes are at most the length of the text naming them.
proof fn lemma_field_size_short(t: Seq<char>)
    ensures
        field_size_of(t) matches Some(sz) ==> sz <= spec_trim(t).len(),
{
    reveal_strlit("UBYTE");
    reveal_strlit("USHORT");
    reveal_strlit("U24");
    reveal_strlit("ULONG");
}

/// Applies one line of `config.cft` to the layout read so far.
fn cft_apply(in_dat: &mut bool, offset: &mut usize, fields: &mut CftFields, raw: &[char])
    requires
        old(fields).wf(),
        old(fields).fits(*old(offset) as int),
        *old(offset) + raw@.len() <= usize::MAX,
    ensures
        final(fields).wf(),
        final(fields).fits(*final(offset) as int),
        *final(offset) <= *old(offset) + raw@.len(),
        (CftState { in_dat: *final(in_dat), offset: *final(offset) as int, fields: final(fields).view_map() })
            == cft_line(
            CftState { in_dat: *old(in_dat), offset: *old(offset) as int, fields: old(fields).view_map() },
            raw@,
        ),
{
    let line = trim_chars(raw);
    proof {
        crate::text::lemma_trim_len(raw@);
    }
    if chars_eq_ignore_ascii_case(line.as_slice(), "[DAT]") {
        *in_dat = true;
        return;
    }
    if line.len() > 0 && line[0] == '[' {
        *in_dat = false;
        return;
    }
    if !*in_dat || line.len() == 0 || line[0] == ';' || line[0] == '#' {
        return;
    }
    let n = line.len();
    match crate::content::types::position_of(line.as_slice(), 0, '=') {
        None => {
            assert(line@.subrange(0, n as int) =~= line@);
        },
        Some(e) => {
            assert(line@.subrange(0, n as int) =~= line@);
            let lhs = crate::content::types::copy_range(line.as_slice(), 0, e);
            let rhs = crate::content::types::copy_range(line.as_slice(), e + 1, n);
            let rhs_t = trim_chars(rhs.as_slice());
            let rs = string_from_chars(rhs_t.as_slice());
            proof {
                crate::text::lemma_trim_len(rhs@);
                crate::text::lemma_trim_len(rhs_t@);
                lemma_field_size_short(rhs_t@);
            }
            match field_type_size(rs.as_str()) {
                None => {},
                Some(sz) => {
                    let m = lhs.len();
                    let head = match crate::content::types::position_of(lhs.as_slice(), 0, ',') {
                        Some(c) => crate::content::types::copy_range(lhs.as_slice(), 0, c),
                        None => crate::content::types::copy_range(lhs.as_slice(), 0, m),
                    };
                    assert(lhs@.subrange(0, m as int) =~= lhs@);
                    assert(head@ == before_first(lhs@, ','));
                    let ht = trim_chars(head.as_slice());
                    let hs = string_from_chars(ht.as_slice());
                    let name = str_lowercase(hs.as_str());
                    let ghost before = fields.view_map();
                    let ghost off0 = *offset as int;
                    fields.insert(name, (*offset, sz));
                    *offset = *offset + sz;
                    proof {
                        assert forall|k: Seq<char>| #[trigger] fields.view_map().contains_key(k) implies 0
                            <= fields.view_map()[k].0 && 1 <= fields.view_map()[k].1 <= 4
                            && fields.view_map()[k].0 + fields.view_map()[k].1 <= *offset as int by {
                            if k != name@ {
                                assert(before.contains_key(k));
                            }
                        }
                    }
                },
            }
        },
    }
}

/// Reads the record layout of a `config.cft` file with text `content`:
/// the fields by lower-cased name and the record size.
pub fn parse_cft(content: &str) -> (r: (CftFields, usize))
    ensures
        r.0.wf(),
        r.0.fits(r.1 as int),
        r.0.view_map() == cft_layout(content@).fields,
        r.1 == cft_layout(content@).offset,
{
    let cs = chars_of(content);
    let n = cs.len();
    let mut in_dat = false;
    let mut offset: usize = 0;
    let mut fields = CftFields::new();
    let mut line: Vec<char> = Vec::new();
    let mut i: usize = 0;
    while i < n
        invariant
            i <= n,
            n == cs@.len(),
            cs@ == content@,
            fields.wf(),
            fields.fits(offset as int),
            offset + line@.len() <= i,
            line@ == split_pieces(cs@.take(i as int), '\n').last(),
            (CftState { in_dat, offset: offset as int, fields: fields.view_map() }) == cft_run(
                split_pieces(cs@.take(i as int), '\n').drop_last(),
            ),
        decreases n - i,
    {
        let c = cs[i];
        let ghost t = cs@.take(i + 1);
        proof {
            assert(t.drop_last() =~= cs@.take(i as int));
            assert(t.last() == c);
        }
        if c == '\n' {
            cft_apply(&mut in_dat, &mut offset, &mut fields, line.as_slice());
            line = Vec::new();
            proof {
                let p = split_pieces(cs@.take(i as int), '\n');
                assert(split_pieces(t, '\n') == p.push(Seq::<char>::empty()));
                assert(split_pieces(t, '\n').drop_last() =~= p);
                assert(p =~= p.drop_last().push(p.last()));
            }
        } else {
            line.push(c);
            proof {
                let p = split_pieces(cs@.take(i as int), '\n');
                assert(split_pieces(t, '\n') == p.drop_last().push(p.last().push(c)));
                assert(split_pieces(t, '\n').drop_last() =~= p.drop_last());
            }
        }
        i = i + 1;
    }
    cft_apply(&mut in_dat, &mut offset, &mut fields, line.as_slice());
    proof {
        let p = split_pieces(cs@.take(n as int), '\n');
        assert(cs@.take(n as int) =~= content@);
        assert(p.len() > 0) by {
            lemma_split_pieces_nonempty(cs@.take(n as int), '\n');
        }
        assert(p =~= p.drop_last().push(p.last()));
    }
    (fields, offset)
}

proof fn lemma_split_pieces_nonempty(s: Seq<char>, sep: char)
    ensures
        split_pieces(s, sep).len() > 0,
    decreases s.len(),
{
    if s.len() > 0 {
        lemma_split_pieces_nonempty(s.drop_last(), sep);
    }
}

/// The pieces of `s` between the bytes `sep`, as `slice::split` gives them.
pub open spec fn split_bytes(s: Seq<u8>, sep: u8) -> Seq<Seq<u8>>
    decreases s.len(),
{
    if s.len() == 0 {
        seq![Seq::empty()]
    } else {
        let p = split_bytes(s.drop_last(), sep);
        if s.last() == sep {
            p.push(Seq::empty())
        } else {
            p.drop_last().push(p.last().push(s.last()))
        }
    }
}

/// The names listed in a `NAME.tda` file: its non-empty pieces between NUL
/// bytes, decoded.
pub open spec fn nul_names(b: Seq<u8>) -> Seq<Seq<char>> {
    split_bytes(b, 0).filter(|p: Seq<u8>| p.len() > 0).map_values(|p: Seq<u8>| crate::text::utf8_text(p))
}

/// The name at position `i`, or the empty name past the end.
pub open spec fn name_at(names: Seq<Seq<char>>, i: int) -> Seq<char> {
    if 0 <= i < names.len() {
        names[i]
    } else {
        Seq::empty()
    }
}

proof fn lemma_split_bytes_nonempty(s: Seq<u8>, sep: u8)
    ensures
        split_bytes(s, sep).len() > 0,
    decreases s.len(),
{
    if s.len() > 0 {
        lemma_split_bytes_nonempty(s.drop_last(), sep);
    }
}

/// The names listed in a `NAME.tda` file.
pub fn split_names(b: &[u8]) -> (r: Vec<String>)
    ensures
        r@.map_values(|s: String| s@) == nul_names(b@),
{
    let n = b.len();
    let mut out: Vec<String> = Vec::new();
    let mut start: usize = 0;
    let mut i: usize = 0;
    let ghost keep = |p: Seq<u8>| p.len() > 0;
    let ghost dec = |p: Seq<u8>| crate::text::utf8_text(p);
    while i < n
        invariant
            start <= i <= n,
            n == b@.len(),
            keep == (|p: Seq<u8>| p.len() > 0),
            dec == (|p: Seq<u8>| crate::text::utf8_text(p)),
            b@.subrange(start as int, i as int) == split_bytes(b@.take(i as int), 0).last(),
            out@.map_values(|s: String| s@) == split_bytes(b@.take(i as int), 0).drop_last().filter(keep).map_values(dec),
        decreases n - i,
    {
        let ghost t = b@.take(i + 1);
        let ghost p = split_bytes(b@.take(i as int), 0);
        proof {
            assert(t.drop_last() =~= b@.take(i as int));
            lemma_split_bytes_nonempty(b@.take(i as int), 0);
        }
        if b[i] == 0 {
            let ghost before = out@.map_values(|s: String| s@);
            if i > start {
                let s = crate::text::utf8_lossy(&b[start..i]);
                proof {
                    assert(s@ == dec(p.last()));
                }
                out.push(s);
                proof {
                    assert(out@.map_values(|s: String| s@) =~= before.push(dec(p.last())));
                    assert(p.drop_last().filter(keep).push(p.last()).map_values(dec) =~= p.drop_last().filter(keep).map_values(dec).push(dec(p.last())));
                }
            }
            proof {
                assert(split_bytes(t, 0) == p.push(Seq::<u8>::empty()));
                assert(split_bytes(t, 0).drop_last() =~= p);
                assert(p =~= p.drop_last().push(p.last()));
                reveal(Seq::filter);
                assert(p.filter(keep) == (if keep(p.last()) {
                    p.drop_last().filter(keep).push(p.last())
                } else {
                    p.drop_last().filter(keep)
                }));
                assert(out@.map_values(|s: String| s@) =~= p.filter(keep).map_values(dec));
            }
            start = i + 1;
        } else {
            proof {
                assert(split_bytes(t, 0) == p.drop_last().push(p.last().push(b@[i as int])));
                assert(split_bytes(t, 0).drop_last() =~= p.drop_last());
                assert(b@.subrange(start as int, i + 1) =~= p.last().push(b@[i as int]));
            }
        }
        i = i + 1;
    }
    let ghost p = split_bytes(b@.take(n as int), 0);
    proof {
        assert(b@.take(n as int) =~= b@);
        lemma_split_bytes_nonempty(b@, 0);
        assert(p =~= p.drop_last().push(p.last()));
    }
    let ghost before = out@.map_values(|s: String| s@);
    if n > start {
        let s = crate::text::utf8_lossy(&b[start..n]);
        proof {
            assert(s@ == dec(p.last()));
        }
        out.push(s);
        proof {
            assert(out@.map_values(|s: String| s@) =~= before.push(dec(p.last())));
            assert(p.drop_last().filter(keep).push(p.last()).map_values(dec) =~= p.drop_last().filter(keep).map_values(dec).push(dec(p.last())));
        }
    }
    proof {
        reveal(Seq::filter);
        assert(p.filter(keep) == (if keep(p.last()) {
            p.drop_last().filter(keep).push(p.last())
        } else {
            p.drop_last().filter(keep)
        }));
        assert(out@.map_values(|s: String| s@) =~= p.filter(keep).map_values(dec));
    }
    out
}

/// The path of directory `idx` reached after `guard` steps up: the names
/// from the top down to `idx`, the root (index 0) excluded, at most one
/// step per directory.
pub open spec fn dir_walk(dirs: Seq<(Seq<char>, usize)>, idx: usize, guard: int) -> Seq<Seq<char>>
    decreases dirs.len() - guard,
{
    if idx == 0 || guard >= dirs.len() || idx >= dirs.len() {
        Seq::empty()
    } else {
        dir_walk(dirs, dirs[idx as int].1, guard + 1).push(dirs[idx as int].0)
    }
}

/// Walking up from `idx` never reaches a directory number outside the
/// list before it stops.
pub open spec fn dir_walk_ok(dirs: Seq<(Seq<char>, usize)>, idx: usize, guard: int) -> bool
    decreases dirs.len() - guard,
{
    if idx == 0 || guard >= dirs.len() {
        true
    } else if idx >= dirs.len() {
        false
    } else {
        dir_walk_ok(dirs, dirs[idx as int].1, guard + 1)
    }
}

/// The plain values of a directory list.
pub open spec fn dirs_view(d: Seq<(String, usize)>) -> Seq<(Seq<char>, usize)> {
    d.map_values(|p: (String, usize)| (p.0@, p.1))
}

/// Whether walking up from `i` stays inside the directory list.
pub fn dir_path_ok(dirs: &[(String, usize)], i: usize) -> (r: bool)
    ensures
        r == dir_walk_ok(dirs_view(dirs@), i, 0),
{
    let n = dirs.len();
    let mut idx = i;
    let mut guard: usize = 0;
    while idx != 0 && guard < n
        invariant
            guard <= n,
            n == dirs@.len(),
            dir_walk_ok(dirs_view(dirs@), i, 0) == dir_walk_ok(dirs_view(dirs@), idx, guard as int),
        decreases n - guard,
    {
        if idx >= n {
            return false;
        }
        idx = dirs[idx].1;
        guard = guard + 1;
    }
    true
}

/// The path of directory `i`: the names from the top down to `i`, the root
/// (index 0) excluded.
pub fn build_dir_path(dirs: &[(String, usize)], i: usize) -> (r: Vec<String>)
    requires
        dir_walk_ok(dirs_view(dirs@), i, 0),
    ensures
        r@.map_values(|s: String| s@) == dir_walk(dirs_view(dirs@), i, 0),
{
    let n = dirs.len();
    let ghost dv = dirs_view(dirs@);
    let mut up: Vec<String> = Vec::new();
    let mut idx = i;
    let mut guard: usize = 0;
    while idx != 0 && guard < n
        invariant
            guard <= n,
            n == dirs@.len(),
            dv == dirs_view(dirs@),
            dir_walk_ok(dv, idx, guard as int),
            dir_walk(dv, i, 0) == dir_walk(dv, idx, guard as int) + up@.map_values(|s: String| s@).reverse(),
        decreases n - guard,
    {
        let ghost before = up@.map_values(|s: String| s@);
        let name = dirs[idx].0.clone();
        let parent = dirs[idx].1;
        up.push(name);
        proof {
            assert(up@.map_values(|s: String| s@) =~= before.push(dv[idx as int].0));
            assert(before.push(dv[idx as int].0).reverse() =~= seq![dv[idx as int].0] + before.reverse());
            assert(dir_walk(dv, idx, guard as int) == dir_walk(dv, parent, guard + 1).push(dv[idx as int].0));
            assert(dir_walk(dv, parent, guard + 1).push(dv[idx as int].0) + before.reverse() =~= dir_walk(dv, parent, guard + 1) + (seq![dv[idx as int].0] + before.reverse()));
        }
        idx = parent;
        guard = guard + 1;
    }
    let mut r: Vec<String> = Vec::new();
    let mut k = up.len();
    let ghost u = up@.map_values(|s: String| s@);
    while k > 0
        invariant
            k <= up@.len(),
            u == up@.map_values(|s: String| s@),
            r@.map_values(|s: String| s@) == u.reverse().take(u.len() - k),
        decreases k,
    {
        k = k - 1;
        let ghost before = r@.map_values(|s: String| s@);
        r.push(up[k].clone());
        assert(u.reverse().take(u.len() - k) =~= u.reverse().take(u.len() - k - 1).push(u[k as int]));
        assert(r@.map_values(|s: String| s@) =~= before.push(u[k as int]));
    }
    assert(u.reverse().take(u.len() as int) =~= u.reverse());
    assert(dir_walk(dv, idx, guard as int) =~= Seq::<Seq<char>>::empty());
    assert(dir_walk(dv, i, 0) =~= u.reverse());
    r
}

/// The directory records of `dirs.dat`: each directory's name and parent
/// number, with records of `rsize` bytes and the parent field at `po`,
/// `ps` bytes long.
pub open spec fn dir_records(names: Seq<Seq<char>>, dat: Seq<u8>, rsize: int, po: int, ps: int) -> Seq<(Seq<char>, usize)> {
    Seq::new(
        ((dat.len() as int) / rsize) as nat,
        |i: int| (name_at(names, i), le_value(dat, i * rsize + po, ps) as usize),
    )
}

proof fn lemma_record_in_bounds(i: int, n: int, len: int, rsize: int, off: int, size: int)
    requires
        0 <= i < n,
        n == len / rsize,
        rsize > 0,
        len >= 0,
        0 <= off,
        off + size <= rsize,
    ensures
        i * rsize + off + size <= len,
        0 <= i * rsize,
{
    assert(i * rsize + rsize <= n * rsize) by (nonlinear_arith)
        requires
            i < n,
            rsize > 0,
    ;
    assert(n * rsize <= len) by (nonlinear_arith)
        requires
            n == len / rsize,
            rsize > 0,
            len >= 0,
    ;
    assert(0 <= i * rsize) by (nonlinear_arith)
        requires
            0 <= i,
            rsize > 0,
    ;
}

/// Reads the directory list of an archive from its `NAME.tda` and
/// `dirs.dat` bytes, with the record layout `fields` of `rsize` bytes.
pub fn load_dir_list(name_bytes: &[u8], dat_bytes: &[u8], fields: &CftFields, rsize: usize) -> (r: Result<Vec<(String, usize)>, ArchiveError>)
    requires
        fields.wf(),
        fields.fits(rsize as int),
    ensures
        !fields.view_map().contains_key("$parent"@) ==> (r matches Err(ArchiveError::Broken(m))
            && m@ == "missing $parent field"@),
        fields.view_map().contains_key("$parent"@) ==> (r matches Ok(v) && dirs_view(v@)
            == dir_records(
            nul_names(name_bytes@),
            dat_bytes@,
            rsize as int,
            fields.view_map()["$parent"@].0,
            fields.view_map()["$parent"@].1,
        )),
{
    let names = split_names(name_bytes);
    let (po, ps) = match fields.get("$parent") {
        Some(p) => p,
        None => {
            return Err(ArchiveError::Broken(String::from_str("missing $parent field")));
        },
    };
    let ghost nv = names@.map_values(|s: String| s@);
    let len = dat_bytes.len();
    let n = len / rsize;
    let mut dirs: Vec<(String, usize)> = Vec::new();
    let mut i: usize = 0;
    while i < n
        invariant
            i <= n,
            n == len / rsize,
            len == dat_bytes@.len(),
            rsize > 0,
            po + ps <= rsize,
            1 <= ps <= 4,
            nv == names@.map_values(|s: String| s@),
            nv == nul_names(name_bytes@),
            dirs_view(dirs@) == dir_records(nv, dat_bytes@, rsize as int, po as int, ps as int).take(i as int),
        decreases n - i,
    {
        proof {
            lemma_record_in_bounds(i as int, n as int, len as int, rsize as int, po as int, ps as int);
        }
        let rec = i * rsize;
        let parent = read_int(dat_bytes, rec + po, ps);
        let name = if i < names.len() {
            names[i].clone()
        } else {
            String::new()
        };
        let ghost before = dirs_view(dirs@);
        dirs.push((name, parent));
        proof {
            assert(dirs_view(dirs@) =~= before.push((name_at(nv, i as int), parent)));
            assert(dir_records(nv, dat_bytes@, rsize as int, po as int, ps as int).take(i + 1) =~= dir_records(nv, dat_bytes@, rsize as int, po as int, ps as int).take(i as int).push((name_at(nv, i as int), parent)));
        }
        i = i + 1;
    }
    assert(dir_records(nv, dat_bytes@, rsize as int, po as int, ps as int).take(n as int) =~= dir_records(nv, dat_bytes@, rsize as int, po as int, ps as int));
    Ok(dirs)
}

/// The bytes and texts of an archive's listing: the directory layout,
/// names and records, the file layout, names and records, and the catalog
/// of compressed blocks.
pub struct ArchiveFiles {
    pub dirs_config: String,
    pub dirs_names: Vec<u8>,
    pub dirs_dat: Vec<u8>,
    pub files_config: String,
    pub files_names: Vec<u8>,
    pub files_dat: Vec<u8>,
    pub catalog: Vec<u8>,
}

/// A file of an archive: its directory path, name, and location
/// `(stored_offset, stored_size, orig_offset, orig_size)` in `CONTENT.tda`.
#[derive(Debug)]
pub struct FileEntry {
    pub dir_path: Vec<String>,
    pub name: String,
    pub location: (u64, u64, u64, u64),
}

/// The location of the first file of `entries` named `name`, if any.
pub open spec fn named_file_location(entries: Seq<FileEntry>, name: Seq<char>) -> Option<(u64, u64, u64, u64)>
    decreases entries.len(),
{
    if entries.len() == 0 {
        None
    } else if entries[0].name@ == name {
        Some(entries[0].location)
    } else {
        named_file_location(entries.drop_first(), name)
    }
}

/// The location of the first file of `entries` named `name`, as
/// [`named_file_location`] says.
pub fn find_file_location(entries: &[FileEntry], name: &str) -> (r: Option<(u64, u64, u64, u64)>)
    ensures
        r == named_file_location(entries@, name@),
{
    let n = entries.len();
    let mut i: usize = 0;
    assert(entries@.subrange(0, n as int) =~= entries@);
    while i < n
        invariant
            i <= n,
            n == entries@.len(),
            named_file_location(entries@, name@) == named_file_location(entries@.subrange(i as int, n as int), name@),
        decreases n - i,
    {
        if crate::history::str_equal(entries[i].name.as_str(), name) {
            return Some(entries[i].location);
        }
        assert(entries@.subrange(i as int, n as int).drop_first() =~= entries@.subrange(i + 1, n as int));
        i = i + 1;
    }
    None
}

/// Decompressed size of catalog block `k`.
pub open spec fn chunk_orig(cat: Seq<u8>, k: int) -> int {
    spec_u32_le(cat, 8 * k) as int
}

/// Compressed size of catalog block `k`.
pub open spec fn chunk_stored(cat: Seq<u8>, k: int) -> int {
    spec_u32_le(cat, 8 * k + 4) as int
}

/// Decompressed offset of catalog block `k`: the sizes of the blocks before.
pub open spec fn orig_start(cat: Seq<u8>, k: int) -> int
    decreases k,
{
    if k <= 0 {
        0
    } else {
        orig_start(cat, k - 1) + chunk_orig(cat, k - 1)
    }
}

/// Compressed offset of catalog block `k`.
pub open spec fn stored_start(cat: Seq<u8>, k: int) -> int
    decreases k,
{
    if k <= 0 {
        0
    } else {
        stored_start(cat, k - 1) + chunk_stored(cat, k - 1)
    }
}

/// The block reached from block `ci` for a file at decompressed offset
/// `off`: the last of the following blocks that starts at or before it.
pub open spec fn advance(cat: Seq<u8>, nch: int, off: int, ci: int) -> int
    decreases nch - ci,
{
    if ci + 1 < nch && off >= orig_start(cat, ci + 1) {
        advance(cat, nch, off, ci + 1)
    } else {
        ci
    }
}

/// The block of file `i`, the files being scanned in order from block 0.
pub open spec fn file_chunk(cat: Seq<u8>, nch: int, offs: Seq<int>, i: int) -> int
    decreases i,
{
    let prev = if i <= 0 {
        0
    } else {
        file_chunk(cat, nch, offs, i - 1)
    };
    advance(cat, nch, offs[i], prev)
}

/// The size of file `i` from the offset of the next file, or -1 when it
/// is the last.
pub open spec fn file_size(offs: Seq<int>, i: int) -> int {
    if i + 1 < offs.len() {
        offs[i + 1] - offs[i] - 1
    } else {
        -1
    }
}

/// The location of file `i`: its block's compressed offset and size, its
/// offset in the decompressed block, and its size (up to the end of the
/// block but one byte for a last file).
pub open spec fn file_location(cat: Seq<u8>, nch: int, offs: Seq<int>, i: int) -> (int, int, int, int) {
    let ci = file_chunk(cat, nch, offs, i);
    let o = offs[i] - orig_start(cat, ci);
    let sz = file_size(offs, i);
    (stored_start(cat, ci), chunk_stored(cat, ci), o, if sz < 0 {
        chunk_orig(cat, ci) - o - 1
    } else {
        sz
    })
}

/// File `i` has a block, starts inside it, and a last file has a size.
pub open spec fn location_ok(cat: Seq<u8>, nch: int, offs: Seq<int>, i: int) -> bool {
    let ci = file_chunk(cat, nch, offs, i);
    let o = offs[i] - orig_start(cat, ci);
    &&& nch > 0
    &&& o >= 0
    &&& file_size(offs, i) < 0 ==> chunk_orig(cat, ci) - o - 1 >= 0
}

/// The integers in the field `(off, size)` of each of the `n` records of
/// `rsize` bytes.
pub open spec fn record_fields(dat: Seq<u8>, n: int, rsize: int, off: int, size: int) -> Seq<int> {
    Seq::new(n as nat, |i: int| le_value(dat, i * rsize + off, size) as int)
}

/// The plain values of a file entry.
pub open spec fn entry_view(e: FileEntry) -> (Seq<Seq<char>>, Seq<char>, (int, int, int, int)) {
    (
        e.dir_path@.map_values(|s: String| s@),
        e.name@,
        (e.location.0 as int, e.location.1 as int, e.location.2 as int, e.location.3 as int),
    )
}

/// What listing the archive `a` gives, when its layouts have the fields it
/// needs: the directory records, file names, file offsets and parents.
pub open spec fn listing_parts(a: ArchiveFiles) -> (Seq<(Seq<char>, usize)>, Seq<Seq<char>>, Seq<int>, Seq<int>, int) {
    let f = cft_layout(a.files_config@);
    let d = cft_layout(a.dirs_config@);
    let dirs = dir_records(
        nul_names(a.dirs_names@),
        a.dirs_dat@,
        d.offset,
        d.fields["$parent"@].0,
        d.fields["$parent"@].1,
    );
    let n = (a.files_dat@.len() as int) / f.offset;
    let offs = record_fields(a.files_dat@, n, f.offset, f.fields["$content"@].0, f.fields["$content"@].1);
    let pars = record_fields(a.files_dat@, n, f.offset, f.fields["$a_dirs"@].0, f.fields["$a_dirs"@].1);
    (dirs, nul_names(a.files_names@), offs, pars, (a.catalog@.len() as int) / 8)
}

/// Every file of the archive can be placed: the catalog's offsets fit in
/// 64 bits, each file lies in a block, and each directory path stays in
/// the directory list.
pub open spec fn listing_sound(a: ArchiveFiles) -> bool {
    let p = listing_parts(a);
    &&& orig_start(a.catalog@, p.4) <= u64::MAX
    &&& stored_start(a.catalog@, p.4) <= u64::MAX
    &&& forall|i: int| 0 <= i < p.2.len() ==> #[trigger] location_ok(a.catalog@, p.4, p.2, i) && dir_walk_ok(p.0, p.3[i] as usize, 0)
}

/// The entries of a soundly listed archive.
pub open spec fn listing_entries(a: ArchiveFiles) -> Seq<(Seq<Seq<char>>, Seq<char>, (int, int, int, int))> {
    let p = listing_parts(a);
    Seq::new(
        p.2.len(),
        |i: int| (dir_walk(p.0, p.3[i] as usize, 0), name_at(p.1, i), file_location(a.catalog@, p.4, p.2, i)),
    )
}

/// Reads the field `(off, size)` of each of the `n` records of `rsize`
/// bytes.
fn read_fields(dat: &[u8], n: usize, rsize: usize, off: usize, size: usize) -> (r: Vec<u64>)
    requires
        rsize > 0,
        n == (dat@.len() as int) / (rsize as int),
        off + size <= rsize,
        1 <= size <= 4,
    ensures
        r@.len() == n,
        forall|i: int| 0 <= i < n ==> #[trigger] r@[i] as int == record_fields(dat@, n as int, rsize as int, off as int, size as int)[i],
        forall|i: int| 0 <= i < n ==> #[trigger] r@[i] < 0x1_0000_0000,
{
    let len = dat.len();
    let mut r: Vec<u64> = Vec::new();
    let mut i: usize = 0;
    while i < n
        invariant
            i <= n,
            len == dat@.len(),
            n == (dat@.len() as int) / (rsize as int),
            rsize > 0,
            off + size <= rsize,
            1 <= size <= 4,
            r@.len() == i,
            forall|k: int| 0 <= k < i ==> #[trigger] r@[k] as int == record_fields(dat@, n as int, rsize as int, off as int, size as int)[k],
            forall|k: int| 0 <= k < i ==> #[trigger] r@[k] < 0x1_0000_0000,
        decreases n - i,
    {
        proof {
            lemma_record_in_bounds(i as int, n as int, len as int, rsize as int, off as int, size as int);
        }
        let v = read_int(dat, i * rsize + off, size);
        proof {
            lemma_le_value_bound(dat@, (i * rsize + off) as int, size as int);
            lemma_pow256_mono(size as int, 4);
            reveal_with_fuel(pow256, 5);
        }
        r.push(v as u64);
        i = i + 1;
    }
    r
}

proof fn lemma_starts_mono(cat: Seq<u8>, a: int, b: int)
    requires
        0 <= a <= b,
    ensures
        orig_start(cat, a) <= orig_start(cat, b),
        stored_start(cat, a) <= stored_start(cat, b),
    decreases b - a,
{
    if a < b {
        lemma_starts_mono(cat, a, b - 1);
    }
}

/// Reads the catalog: the decompressed and compressed offsets of the
/// blocks (one more than there are blocks) and their sizes; `None` when
/// an offset does not fit in 64 bits.
fn read_catalog(cat: &[u8]) -> (r: Option<(Vec<u64>, Vec<u64>, Vec<u64>, Vec<u64>)>)
    ensures
        ({
            let nch = (cat@.len() as int) / 8;
            match r {
                None => orig_start(cat@, nch) > u64::MAX || stored_start(cat@, nch) > u64::MAX,
                Some((os, ss, oz, sz)) => {
                    &&& orig_start(cat@, nch) <= u64::MAX
                    &&& stored_start(cat@, nch) <= u64::MAX
                    &&& os@.len() == nch + 1
                    &&& ss@.len() == nch + 1
                    &&& oz@.len() == nch
                    &&& sz@.len() == nch
                    &&& forall|k: int| 0 <= k <= nch ==> #[trigger] os@[k] == orig_start(cat@, k)
                    &&& forall|k: int| 0 <= k <= nch ==> #[trigger] ss@[k] == stored_start(cat@, k)
                    &&& forall|k: int| 0 <= k < nch ==> #[trigger] oz@[k] == chunk_orig(cat@, k)
                    &&& forall|k: int| 0 <= k < nch ==> #[trigger] sz@[k] == chunk_stored(cat@, k)
                },
            }
        }),
{
    let len = cat.len();
    let nch = len / 8;
    let mut os: Vec<u64> = vec![0];
    let mut ss: Vec<u64> = vec![0];
    let mut oz: Vec<u64> = Vec::new();
    let mut sz: Vec<u64> = Vec::new();
    let mut k: usize = 0;
    while k < nch
        invariant
            k <= nch,
            nch == len / 8,
            len == cat@.len(),
            os@.len() == k + 1,
            ss@.len() == k + 1,
            oz@.len() == k,
            sz@.len() == k,
            forall|j: int| 0 <= j <= k ==> #[trigger] os@[j] == orig_start(cat@, j),
            forall|j: int| 0 <= j <= k ==> #[trigger] ss@[j] == stored_start(cat@, j),
            forall|j: int| 0 <= j < k ==> #[trigger] oz@[j] == chunk_orig(cat@, j),
            forall|j: int| 0 <= j < k ==> #[trigger] sz@[j] == chunk_stored(cat@, j),
        decreases nch - k,
    {
        let o = read_u32_le(cat, 8 * k) as u64;
        let c = read_u32_le(cat, 8 * k + 4) as u64;
        let lo = os[k];
        let ls = ss[k];
        if lo > u64::MAX - o || ls > u64::MAX - c {
            proof {
                lemma_starts_mono(cat@, k + 1, nch as int);
            }
            return None;
        }
        os.push(lo + o);
        ss.push(ls + c);
        oz.push(o);
        sz.push(c);
        k = k + 1;
    }
    assert(os@[nch as int] == orig_start(cat@, nch as int));
    assert(ss@[nch as int] == stored_start(cat@, nch as int));
    Some((os, ss, oz, sz))
}

/// Lists the files of an archive from the bytes of its listing: each
/// file's directory path, name and location in `CONTENT.tda`. A layout
/// without the field the listing needs is reported with its name; an
/// archive whose catalog or records cannot place every file is reported
/// as broken.
#[verifier::spinoff_prover]
#[verifier::rlimit(60)]
pub fn list_files(a: &ArchiveFiles) -> (r: Result<Vec<FileEntry>, ArchiveError>)
    ensures
        ({
            let f = cft_layout(a.files_config@);
            let d = cft_layout(a.dirs_config@);
            if !d.fields.contains_key("$parent"@) {
                r matches Err(ArchiveError::Broken(m)) && m@ == "missing $parent field"@
            } else if !f.fields.contains_key("$content"@) {
                r matches Err(ArchiveError::Broken(m)) && m@ == "missing $content field"@
            } else if !f.fields.contains_key("$a_dirs"@) {
                r matches Err(ArchiveError::Broken(m)) && m@ == "missing $a_dirs field"@
            } else if listing_sound(*a) {
                r matches Ok(v) && v@.map_values(|e: FileEntry| entry_view(e)) == listing_entries(*a)
            } else {
                r matches Err(ArchiveError::Broken(_))
            }
        }),
{
    let (ff, frs) = parse_cft(a.files_config.as_str());
    let (df, drs) = parse_cft(a.dirs_config.as_str());
    let dirs = match load_dir_list(a.dirs_names.as_slice(), a.dirs_dat.as_slice(), &df, drs) {
        Ok(d) => d,
        Err(e) => {
            return Err(e);
        },
    };
    let file_names = split_names(a.files_names.as_slice());
    let (co, cs) = match ff.get("$content") {
        Some(p) => p,
        None => {
            return Err(ArchiveError::Broken(String::from_str("missing $content field")));
        },
    };
    let (po, ps) = match ff.get("$a_dirs") {
        Some(p) => p,
        None => {
            return Err(ArchiveError::Broken(String::from_str("missing $a_dirs field")));
        },
    };
    let ghost parts = listing_parts(*a);
    let ghost dv = parts.0;
    let ghost names = parts.1;
    let ghost offs = parts.2;
    let ghost pars = parts.3;
    let ghost cat = a.catalog@;
    let len = a.files_dat.len();
    let n = len / frs;
    let offsets = read_fields(a.files_dat.as_slice(), n, frs, co, cs);
    let parents = read_fields(a.files_dat.as_slice(), n, frs, po, ps);
    assert(offs.len() == n);
    assert(dirs_view(dirs@) == dv);
    assert(file_names@.map_values(|s: String| s@) == names);
    let (os, ss, oz, sz) = match read_catalog(a.catalog.as_slice()) {
        Some(c) => c,
        None => {
            return Err(ArchiveError::Broken(String::from_str("the catalog is too large")));
        },
    };
    let nch = a.catalog.len() / 8;
    assert(nch == parts.4);
    let mut entries: Vec<FileEntry> = Vec::new();
    let mut ci: usize = 0;
    let mut i: usize = 0;
    while i < n
        invariant
            i <= n,
            n == offs.len(),
            offsets@.len() == n,
            parents@.len() == n,
            forall|k: int| 0 <= k < n ==> #[trigger] offsets@[k] as int == offs[k],
            forall|k: int| 0 <= k < n ==> #[trigger] offsets@[k] < 0x1_0000_0000,
            forall|k: int| 0 <= k < n ==> #[trigger] parents@[k] as int == pars[k],
            forall|k: int| 0 <= k < n ==> #[trigger] parents@[k] < 0x1_0000_0000,
            pars.len() == n,
            dirs_view(dirs@) == dv,
            file_names@.map_values(|s: String| s@) == names,
            nch == parts.4,
            cat == a.catalog@,
            parts == listing_parts(*a),
            cft_layout(a.dirs_config@).fields.contains_key("$parent"@),
            cft_layout(a.files_config@).fields.contains_key("$content"@),
            cft_layout(a.files_config@).fields.contains_key("$a_dirs"@),
            offs == parts.2,
            pars == parts.3,
            dv == parts.0,
            names == parts.1,
            orig_start(cat, nch as int) <= u64::MAX,
            stored_start(cat, nch as int) <= u64::MAX,
            os@.len() == nch + 1,
            ss@.len() == nch + 1,
            oz@.len() == nch,
            sz@.len() == nch,
            forall|k: int| 0 <= k <= nch ==> #[trigger] os@[k] == orig_start(cat, k),
            forall|k: int| 0 <= k <= nch ==> #[trigger] ss@[k] == stored_start(cat, k),
            forall|k: int| 0 <= k < nch ==> #[trigger] oz@[k] == chunk_orig(cat, k),
            forall|k: int| 0 <= k < nch ==> #[trigger] sz@[k] == chunk_stored(cat, k),
            ci == (if i == 0 {
                0
            } else {
                file_chunk(cat, nch as int, offs, i - 1)
            }),
            ci < nch || ci == 0,
            forall|k: int| 0 <= k < i ==> #[trigger] location_ok(cat, nch as int, offs, k) && dir_walk_ok(dv, pars[k] as usize, 0),
            entries@.map_values(|e: FileEntry| entry_view(e)) == listing_entries(*a).take(i as int),
        decreases n - i,
    {
        let off = offsets[i];
        let ghost ci0 = ci as int;
        while ci + 1 < nch && off >= os[ci + 1]
            invariant
                ci < nch || ci == 0,
                os@.len() == nch + 1,
                forall|k: int| 0 <= k <= nch ==> #[trigger] os@[k] == orig_start(cat, k),
                advance(cat, nch as int, off as int, ci as int) == advance(cat, nch as int, off as int, ci0),
            decreases nch - ci,
        {
            ci = ci + 1;
        }
        assert(ci as int == file_chunk(cat, nch as int, offs, i as int));
        if nch == 0 {
            assert(nch as int == parts.4);
            assert(parts.4 == 0);
            assert(!location_ok(a.catalog@, 0, parts.2, i as int));
            assert(!listing_sound(*a)) by {
                assert(!location_ok(a.catalog@, parts.4, parts.2, i as int));
            }
            return Err(ArchiveError::Broken(String::from_str("the catalog lists no block")));
        }
        if off < os[ci] {
            assert(!listing_sound(*a)) by {
                assert(!location_ok(a.catalog@, parts.4, parts.2, i as int));
            }
            return Err(ArchiveError::Broken(String::from_str("a file starts before its block")));
        }
        let o = off - os[ci];
        let raw: u64 = if i + 1 < n && offsets[i + 1] >= offsets[i] + 1 {
            offsets[i + 1] - offsets[i] - 1
        } else {
            if oz[ci] < o + 1 {
                assert(!listing_sound(*a)) by {
                    assert(!location_ok(a.catalog@, parts.4, parts.2, i as int));
                }
                return Err(ArchiveError::Broken(String::from_str("a file extends past its block")));
            }
            oz[ci] - o - 1
        };
        let parent = parents[i] as usize;
        assert(parent as int == pars[i as int]);
        assert(pars[i as int] as usize == parent);
        if !dir_path_ok(dirs.as_slice(), parent) {
            assert(!dir_walk_ok(dv, parent, 0));
            assert(!dir_walk_ok(parts.0, parts.3[i as int] as usize, 0));
            assert(0 <= i < parts.2.len());
            assert(!listing_sound(*a)) by {
                if listing_sound(*a) {
                    assert(location_ok(a.catalog@, parts.4, parts.2, i as int));
                }
            }
            return Err(ArchiveError::Broken(String::from_str("a directory lies outside the list")));
        }
        let dir_path = build_dir_path(dirs.as_slice(), parent);
        let name = if i < file_names.len() {
            file_names[i].clone()
        } else {
            String::new()
        };
        assert(location_ok(cat, nch as int, offs, i as int));
        assert(dir_walk_ok(dv, pars[i as int] as usize, 0));
        let ghost gi = i as int;
        assert forall|k: int| 0 <= k < gi + 1 implies #[trigger] location_ok(cat, nch as int, offs, k) && dir_walk_ok(dv, pars[k] as usize, 0) by {
            if k < gi {
            } else {
                assert(k == gi);
            }
        }
        let ghost before = entries@.map_values(|e: FileEntry| entry_view(e));
        let e = FileEntry { dir_path, name, location: (ss[ci], sz[ci], o, raw) };
        proof {
            assert(entry_view(e) == listing_entries(*a)[i as int]);
        }
        entries.push(e);
        proof {
            assert(entries@.map_values(|e: FileEntry| entry_view(e)) =~= before.push(entry_view(e)));
            assert(listing_entries(*a).take(i + 1) =~= listing_entries(*a).take(i as int).push(listing_entries(*a)[i as int]));
        }
        i = i + 1;
    }
    assert(listing_entries(*a).take(n as int) =~= listing_entries(*a));
    Ok(entries)
}

/// What reading a zlib decoder over `data` to its end gives: the bytes
/// decompressed, or `None` when the decoder reports an error (a corrupt
/// header or block). A stream cut short is not an error there: it gives
/// the bytes decompressed so far.
pub uninterp spec fn spec_inflate(data: Seq<u8>) -> Option<Seq<u8>>;

/// `flate2::read::ZlibDecoder` read to the end: the contract names the
/// outcome as a function of the compressed bytes; the error's message is
/// not stated.
#[verifier::external_body]
fn zlib_inflate(data: &[u8]) -> (r: Result<Vec<u8>, String>)
    ensures
        match r {
            Ok(v) => spec_inflate(data@) == Some(v@),
            Err(_) => spec_inflate(data@) is None,
        },
{
    let mut decoder = flate2::read::ZlibDecoder::new(data);
    let mut out = Vec::new();
    match decoder.read_to_end(&mut out) {
        Ok(_) => Ok(out),
        Err(e) => Err(e.to_string()),
    }
}

/// The path of an archive's `CONTENT.tda` under the data directory.
pub fn content_path(data_dir: &str, archive_name: &str) -> (r: Result<String, ArchiveError>)
    ensures
        match archive_index(archive_name@, archive_table().len() as int) {
            Some(i) => r matches Ok(p) && p@ == crate::config::join_path(
                crate::config::join_path(
                    crate::config::join_path(data_dir@, archive_table()[i].1),
                    "files.skn"@,
                ),
                "CONTENT.tda"@,
            ),
            None => r matches Err(ArchiveError::UnknownArchive(n)) && n@ == archive_name@,
        },
{
    let rel = match archive_rel_path(archive_name) {
        Ok(r) => r,
        Err(e) => {
            return Err(e);
        },
    };
    let a = crate::config::path_join(data_dir, rel);
    let b = crate::config::path_join(a.as_str(), "files.skn");
    Ok(crate::config::path_join(b.as_str(), "CONTENT.tda"))
}

/// The message for a file slice past the end of its decompressed block.
pub open spec fn slice_message(start: nat, end: nat, size: nat) -> Seq<char> {
    "file slice "@ + crate::search::incremental::spec_decimal(start) + ".."@
        + crate::search::incremental::spec_decimal(end) + " exceeds decompressed block size "@
        + crate::search::incremental::spec_decimal(size)
}

/// Reads files out of an archive's `CONTENT.tda`, keeping the last
/// decompressed block.
pub struct ArchiveReader {
    content_path: String,
    cache: Option<(u64, Vec<u8>)>,
}

/// What a read gives: a file's bytes, a slice past its block (with the
/// message), or a block that does not decompress.
pub enum ReadView {
    Data(Seq<u8>),
    Broken(Seq<char>),
    Failed,
}

/// What reading `location` gives, and the block kept afterwards, when
/// `cached` is the block kept before and `stored` the compressed bytes
/// handed in: the kept block serves when it is the file's, else `stored`
/// is decompressed.
pub open spec fn read_outcome(
    cached: Option<(u64, Seq<u8>)>,
    location: (u64, u64, u64, u64),
    stored: Option<Seq<u8>>,
) -> (ReadView, Option<(u64, Seq<u8>)>) {
    let hit = cached matches Some(c) && c.0 == location.0;
    let block = if hit {
        Some(cached.unwrap().1)
    } else {
        spec_inflate(stored.unwrap())
    };
    match block {
        None => (ReadView::Failed, cached),
        Some(b) => if location.2 + location.3 > b.len() {
            (
                ReadView::Broken(slice_message(location.2 as nat, (location.2 + location.3) as nat, b.len())),
                cached,
            )
        } else {
            (ReadView::Data(b.subrange(location.2 as int, location.2 + location.3)), Some((location.0, b)))
        },
    }
}

/// The kept block is the decompression of the stored bytes that `content`
/// gives for its offset (as it is when every read hands in the stored
/// bytes of `CONTENT.tda` at the block's offset).
pub open spec fn cache_agrees(cached: Option<(u64, Seq<u8>)>, content: spec_fn(u64) -> Seq<u8>) -> bool {
    cached matches Some(c) ==> spec_inflate(content(c.0)) == Some(c.1)
}

/// The kept block never changes what a read gives: when it agrees with
/// the archive's stored bytes `content`, reading `location` with the stored
/// bytes of its block gives what a reader with nothing kept gives, and the
/// block kept afterwards still agrees.
pub proof fn lemma_cache_never_changes_result(
    cached: Option<(u64, Seq<u8>)>,
    content: spec_fn(u64) -> Seq<u8>,
    location: (u64, u64, u64, u64),
)
    requires
        cache_agrees(cached, content),
    ensures
        read_outcome(cached, location, Some(content(location.0))).0 == read_outcome(
            None,
            location,
            Some(content(location.0)),
        ).0,
        cache_agrees(read_outcome(cached, location, Some(content(location.0))).1, content),
{
}

impl ArchiveReader {
    /// The path of the archive's `CONTENT.tda`.
    pub closed spec fn path(&self) -> Seq<char> {
        self.content_path@
    }

    /// The block kept: its offset in `CONTENT.tda` and its decompressed
    /// bytes.
    pub closed spec fn cached(&self) -> Option<(u64, Seq<u8>)> {
        match self.cache {
            Some((o, b)) => Some((o, b@)),
            None => None,
        }
    }

    /// A reader of the `CONTENT.tda` at `content_path`, with nothing kept.
    pub fn new(content_path: String) -> (r: ArchiveReader)
        ensures
            r.path() == content_path@,
            r.cached() is None,
    {
        ArchiveReader { content_path, cache: None }
    }

    /// The path of the archive's `CONTENT.tda`.
    pub fn content_file(&self) -> (r: &str)
        ensures
            r@ == self.path(),
    {
        self.content_path.as_str()
    }

    /// Whether the block at `stored_offset` is the one kept, so that reading
    /// from it needs no compressed bytes.
    pub fn has_block(&self, stored_offset: u64) -> (r: bool)
        ensures
            r == (self.cached() matches Some(c) && c.0 == stored_offset),
    {
        match &self.cache {
            Some((o, _)) => *o == stored_offset,
            None => false,
        }
    }

    /// Reads the file at `location`: from the kept block when it is the
    /// file's, else by decompressing `stored`, the block's compressed
    /// bytes. The block read is kept. [`read_outcome`] says what comes out.
    pub fn read(&mut self, location: (u64, u64, u64, u64), stored: Option<Vec<u8>>) -> (r: Result<Vec<u8>, ArchiveError>)
        requires
            (old(self).cached() matches Some(c) && c.0 == location.0) || stored is Some,
            location.2 + location.3 <= usize::MAX,
        ensures
            final(self).path() == old(self).path(),
            ({
                let out = read_outcome(
                    old(self).cached(),
                    location,
                    match stored {
                        Some(v) => Some(v@),
                        None => None,
                    },
                );
                &&& final(self).cached() == out.1
                &&& match out.0 {
                    ReadView::Data(v) => r matches Ok(x) && x@ == v,
                    ReadView::Broken(m) => r matches Err(ArchiveError::Broken(x)) && x@ == m,
                    ReadView::Failed => r matches Err(ArchiveError::Io(_)),
                }
            }),
    {
        let hit = self.has_block(location.0);
        let block: Vec<u8> = if hit {
            match &self.cache {
                Some((_, b)) => b.clone(),
                None => Vec::new(),
            }
        } else {
            match stored {
                Some(s) => match zlib_inflate(s.as_slice()) {
                    Ok(b) => b,
                    Err(e) => {
                        return Err(ArchiveError::Io(e));
                    },
                },
                None => Vec::new(),
            }
        };
        let start = location.2 as usize;
        let end = start + location.3 as usize;
        if end > block.len() {
            let mut m = String::from_str("file slice ");
            let a = crate::search::incremental::decimal_string(start as u64);
            m.append(a.as_str());
            m.append("..");
            let b = crate::search::incremental::decimal_string(end as u64);
            m.append(b.as_str());
            m.append(" exceeds decompressed block size ");
            let c = crate::search::incremental::decimal_string(block.len() as u64);
            m.append(c.as_str());
            return Err(ArchiveError::Broken(m));
        }
        let mut data: Vec<u8> = Vec::new();
        let mut i = start;
        while i < end
            invariant
                start <= i <= end <= block@.len(),
                data@ == block@.subrange(start as int, i as int),
            decreases end - i,
        {
            data.push(block[i]);
            i = i + 1;
            assert(data@ =~= block@.subrange(start as int, i as int));
        }
        self.cache = Some((location.0, block));
        Ok(data)
    }
}

/// The archive directories checked for an LDOCE5 data directory.
pub open spec fn required_archives() -> Seq<Seq<char>> {
    seq!["fs.skn"@, "us_hwd_pron.skn"@, "gb_hwd_pron.skn"@, "sound.skn"@]
}

/// The listing and content files that each checked archive holds.
pub open spec fn required_parts() -> Seq<Seq<char>> {
    seq![
        "dirs.skn/config.cft"@,
        "dirs.skn/NAME.tda"@,
        "dirs.skn/dirs.dat"@,
        "files.skn/config.cft"@,
        "files.skn/NAME.tda"@,
        "files.skn/files.dat"@,
        "files.skn/CONTENT.tda"@,
        "files.skn/CONTENT.tda.tdz"@,
    ]
}

/// The files whose presence marks an LDOCE5 data directory at `root`: the
/// listing and content files of the `fs`, `us_hwd_pron`, `gb_hwd_pron` and
/// `sound` archives, archive by archive.
pub fn required_files(root: &str) -> (r: Vec<String>)
    ensures
        r@.len() == 32,
        forall|a: int, b: int|
            0 <= a < 4 && 0 <= b < 8 ==> (#[trigger] r@[8 * a + b])@ == crate::config::join_path(
                crate::config::join_path(root@, required_archives()[a]),
                required_parts()[b],
            ),
{
    let names = ["fs.skn", "us_hwd_pron.skn", "gb_hwd_pron.skn", "sound.skn"];
    let parts = [
        "dirs.skn/config.cft",
        "dirs.skn/NAME.tda",
        "dirs.skn/dirs.dat",
        "files.skn/config.cft",
        "files.skn/NAME.tda",
        "files.skn/files.dat",
        "files.skn/CONTENT.tda",
        "files.skn/CONTENT.tda.tdz",
    ];
    assert(names@.map_values(|n: &str| n@) =~= required_archives());
    assert(parts@.map_values(|n: &str| n@) =~= required_parts());
    let mut r: Vec<String> = Vec::new();
    let mut a: usize = 0;
    while a < 4
        invariant
            a <= 4,
            r@.len() == 8 * a,
            names@.map_values(|n: &str| n@) == required_archives(),
            parts@.map_values(|n: &str| n@) == required_parts(),
            forall|x: int, y: int|
                0 <= x < a && 0 <= y < 8 ==> (#[trigger] r@[8 * x + y])@ == crate::config::join_path(
                    crate::config::join_path(root@, required_archives()[x]),
                    required_parts()[y],
                ),
        decreases 4 - a,
    {
        let base = crate::config::path_join(root, names[a]);
        assert(names@[a as int]@ == required_archives()[a as int]);
        let mut b: usize = 0;
        while b < 8
            invariant
                a < 4,
                b <= 8,
                r@.len() == 8 * a + b,
                base@ == crate::config::join_path(root@, required_archives()[a as int]),
                parts@.map_values(|n: &str| n@) == required_parts(),
                forall|x: int, y: int|
                    (0 <= x < a && 0 <= y < 8) || (x == a && 0 <= y < b) ==> (#[trigger] r@[8 * x + y])@
                        == crate::config::join_path(
                        crate::config::join_path(root@, required_archives()[x]),
                        required_parts()[y],
                    ),
            decreases 8 - b,
        {
            assert(parts@[b as int]@ == required_parts()[b as int]);
            r.push(crate::config::path_join(base.as_str(), parts[b]));
            b = b + 1;
        }
        a = a + 1;
    }
    r
}

} // verus!
