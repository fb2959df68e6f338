//! Content types and content addresses (`dict://` and `audio://` paths).

use vstd::prelude::*;

use crate::text::chars_of;

verus! {

/// All content types understood by the viewer.
#[derive(Debug, Clone, Copy, PartialEq, Eq, Hash, Structural)]
pub enum ContentType {
    /// Dictionary entry (the main content type)
    Entry,
    /// Thesaurus page
    Thesaurus,
    /// Collocations box
    Collocations,
    /// Word sets
    WordSets,
    /// Phrase bank
    Phrases,
    /// Example sentences
    Examples,
    /// Word families (morphological family)
    WordFamilies,
    /// Etymology
    Etymologies,
    /// Longman Activator (concept + section, two-pane)
    Activator,
    /// Full-text search results page
    SearchResults,
    /// GB/US pronunciation audio (raw bytes, not rendered as text)
    AudioPronunciation,
    /// Picture / illustration
    Picture,
    /// Sound effect
    Sound,
}

/// The name of a content type.
pub open spec fn content_type_name(ct: ContentType) -> Seq<char> {
    match ct {
        ContentType::Entry => "entry"@,
        ContentType::Thesaurus => "thesaurus"@,
        ContentType::Collocations => "collocations"@,
        ContentType::WordSets => "word_sets"@,
        ContentType::Phrases => "phrases"@,
        ContentType::Examples => "examples"@,
        ContentType::WordFamilies => "word_families"@,
        ContentType::Etymologies => "etymologies"@,
        ContentType::Activator => "activator"@,
        ContentType::SearchResults => "search"@,
        ContentType::AudioPronunciation => "audio"@,
        ContentType::Picture => "picture"@,
        ContentType::Sound => "sound"@,
    }
}

impl ContentType {
    /// The name of this content type, as displayed.
    pub fn to_string(&self) -> (r: String)
        ensures
            r@ == content_type_name(*self),
    {
        let s = match self {
            ContentType::Entry => "entry",
            ContentType::Thesaurus => "thesaurus",
            ContentType::Collocations => "collocations",
            ContentType::WordSets => "word_sets",
            ContentType::Phrases => "phrases",
            ContentType::Examples => "examples",
            ContentType::WordFamilies => "word_families",
            ContentType::Etymologies => "etymologies",
            ContentType::Activator => "activator",
            ContentType::SearchResults => "search",
            ContentType::AudioPronunciation => "audio",
            ContentType::Picture => "picture",
            ContentType::Sound => "sound",
        };
        String::from_str(s)
    }
}

/// The content type stored in the archive named `a`, if any.
pub open spec fn archive_content_type(a: Seq<char>) -> Option<ContentType> {
    if a == "fs"@ {
        Some(ContentType::Entry)
    } else if a == "thesaurus"@ {
        Some(ContentType::Thesaurus)
    } else if a == "collocations"@ {
        Some(ContentType::Collocations)
    } else if a == "word_sets"@ {
        Some(ContentType::WordSets)
    } else if a == "phrases"@ {
        Some(ContentType::Phrases)
    } else if a == "examples"@ {
        Some(ContentType::Examples)
    } else if a == "word_families"@ {
        Some(ContentType::WordFamilies)
    } else if a == "etymologies"@ {
        Some(ContentType::Etymologies)
    } else if a == "activator"@ {
        Some(ContentType::Activator)
    } else if a == "gb_hwd_pron"@ || a == "us_hwd_pron"@ || a == "exa_pron"@ {
        Some(ContentType::AudioPronunciation)
    } else if a == "picture"@ {
        Some(ContentType::Picture)
    } else if a == "sound"@ || a == "sfx"@ {
        Some(ContentType::Sound)
    } else {
        None
    }
}

/// `s` without its leading slashes.
pub open spec fn strip_leading_slashes(s: Seq<char>) -> Seq<char>
    decreases s.len(),
{
    if s.len() > 0 && s[0] == '/' {
        strip_leading_slashes(s.drop_first())
    } else {
        s
    }
}

/// The position of the first `c` in `s`, if any.
pub open spec fn first_index_of(s: Seq<char>, c: char) -> Option<int>
    decreases s.len(),
{
    if s.len() == 0 {
        None
    } else if s[0] == c {
        Some(0)
    } else {
        match first_index_of(s.drop_first(), c) {
            Some(i) => Some(i + 1),
            None => None,
        }
    }
}

/// The parts of a content path `/<archive>/<key>[#<anchor>]`: its content
/// type, key and anchor, when the archive is known.
pub open spec fn parse_content_path(path: Seq<char>) -> Option<(ContentType, Seq<char>, Option<Seq<char>>)> {
    let p = strip_leading_slashes(path);
    match first_index_of(p, '/') {
        None => None,
        Some(i) => {
            let archive = p.subrange(0, i);
            let rest = p.subrange(i + 1, p.len() as int);
            let (key, anchor) = match first_index_of(rest, '#') {
                Some(j) => (rest.subrange(0, j), Some(rest.subrange(j + 1, rest.len() as int))),
                None => (rest, None),
            };
            match archive_content_type(archive) {
                Some(ct) => Some((ct, key, anchor)),
                None => None,
            }
        },
    }
}

/// A parsed content address, mirroring the `dict://` URL scheme.
#[derive(Debug, Clone, PartialEq, Eq)]
pub struct ContentId {
    pub content_type: ContentType,
    /// The resource identifier (archive-relative key / filename)
    pub id: String,
    /// Optional anchor within the page
    pub anchor: Option<String>,
}

/// The anchor of a content address, as characters.
pub open spec fn anchor_view(a: Option<String>) -> Option<Seq<char>> {
    match a {
        Some(s) => Some(s@),
        None => None,
    }
}

impl ContentId {
    /// The address of `id` in content type `ct`, without anchor.
    pub fn new(ct: ContentType, id: &str) -> (r: Self)
        ensures
            r.content_type == ct,
            r.id@ == id@,
            r.anchor is None,
    {
        ContentId { content_type: ct, id: String::from_str(id), anchor: None }
    }

    /// The same address with its anchor set to `anchor`.
    pub fn with_anchor(self, anchor: &str) -> (r: Self)
        ensures
            r.content_type == self.content_type,
            r.id@ == self.id@,
            anchor_view(r.anchor) == Some(anchor@),
    {
        ContentId { content_type: self.content_type, id: self.id, anchor: Some(String::from_str(anchor)) }
    }

    /// Parses a `dict://` or `audio://` URL path, `/<archive>/<key>` with an
    /// optional `#<anchor>`, into a content address; `None` when the path
    /// has no second part or names an unknown archive.
    pub fn from_path(path: &str) -> (r: Option<Self>)
        ensures
            parse_content_path(path@) is None ==> r is None,
            parse_content_path(path@) matches Some(t) ==> r matches Some(c) && c.content_type == t.0
                && c.id@ == t.1 && anchor_view(c.anchor) == t.2,
    {
        let chars = chars_of(path);
        let n = chars.len();
        assert(chars@.subrange(0, n as int) =~= path@);
        let mut a: usize = 0;
        while a < n && chars[a] == '/'
            invariant
                a <= n,
                n == chars@.len(),
                strip_leading_slashes(chars@.subrange(a as int, n as int)) == strip_leading_slashes(
                    path@,
                ),
            decreases n - a,
        {
            assert(chars@.subrange(a as int, n as int).drop_first() =~= chars@.subrange(
                a + 1,
                n as int,
            ));
            a = a + 1;
        }
        let ghost p = chars@.subrange(a as int, n as int);
        assert(strip_leading_slashes(p) == p);
        assert(strip_leading_slashes(path@) == p);
        let slash = position_of(chars.as_slice(), a, '/');
        match slash {
            None => {
                assert(first_index_of(p, '/') is None);
                assert(first_index_of(strip_leading_slashes(path@), '/') is None);
                assert(parse_content_path(path@) is None);
                None
            },
            Some(i) => {
                let archive = copy_range(chars.as_slice(), a, i);
                let hash = position_of(chars.as_slice(), i + 1, '#');
                let (key, anchor) = match hash {
                    Some(j) => (copy_range(chars.as_slice(), i + 1, j), Some(copy_range(chars.as_slice(), j + 1, n))),
                    None => (copy_range(chars.as_slice(), i + 1, n), None),
                };
                proof {
                    let rest = p.subrange(i - a + 1, p.len() as int);
                    assert(rest =~= chars@.subrange(i + 1, n as int));
                    assert(archive@ =~= p.subrange(0, i - a));
                    match hash {
                        Some(j) => {
                            assert(rest.subrange(0, j - i - 1) =~= chars@.subrange(i + 1, j as int));
                            assert(rest.subrange(j - i, rest.len() as int) =~= chars@.subrange(j + 1, n as int));
                        },
                        None => {},
                    }
                }
                let ghost rest = p.subrange(i - a + 1, p.len() as int);
                let ghost anchor_v: Option<Seq<char>> = match &anchor {
                    Some(v) => Some(v@),
                    None => None,
                };
                assert(first_index_of(p, '/') == Some(i - a));
                assert(first_index_of(rest, '#') == match hash {
                    Some(j) => Some(j - (i + 1)),
                    None => None::<int>,
                });
                let ct = archive_type(archive.as_slice());
                assert(parse_content_path(path@) == match archive_content_type(archive@) {
                    Some(t) => Some((t, key@, anchor_v)),
                    None => None,
                });
                match ct {
                    None => None,
                    Some(ct) => {
                        let anchor_s = match anchor {
                            Some(v) => Some(crate::text::string_from_chars(v.as_slice())),
                            None => None,
                        };
                        Some(
                            ContentId {
                                content_type: ct,
                                id: crate::text::string_from_chars(key.as_slice()),
                                anchor: anchor_s,
                            },
                        )
                    },
                }
            },
        }
    }
}

/// The position found by `first_index_of` lies inside the sequence.
pub(crate) proof fn lemma_first_index_bounds(s: Seq<char>, c: char)
    ensures
        first_index_of(s, c) matches Some(k) ==> 0 <= k < s.len(),
    decreases s.len(),
{
    if s.len() > 0 {
        lemma_first_index_bounds(s.drop_first(), c);
    }
}

/// The first position at or after `from` where `c` occurs in `s`.
pub(crate) fn position_of(s: &[char], from: usize, c: char) -> (r: Option<usize>)
    requires
        from <= s@.len(),
    ensures
        r matches Some(k) ==> from <= k < s@.len(),
        match first_index_of(s@.subrange(from as int, s@.len() as int), c) {
            None => r is None,
            Some(k) => r matches Some(x) && x == from + k,
        },
{
    let n = s.len();
    let mut i = from;
    while i < n
        invariant
            from <= i <= n,
            n == s@.len(),
            first_index_of(s@.subrange(from as int, n as int), c) == match first_index_of(
                s@.subrange(i as int, n as int),
                c,
            ) {
                None => None,
                Some(k) => Some(k + (i - from)),
            },
        decreases n - i,
    {
        if s[i] == c {
            proof {
                lemma_first_index_bounds(s@.subrange(from as int, n as int), c);
            }
            return Some(i);
        }
        assert(s@.subrange(i as int, n as int).drop_first() =~= s@.subrange(i + 1, n as int));
        i = i + 1;
    }
    None
}

/// The characters of `s` at positions `a..b`.
pub(crate) fn copy_range(s: &[char], a: usize, b: usize) -> (r: Vec<char>)
    requires
        a <= b <= s@.len(),
    ensures
        r@ == s@.subrange(a as int, b as int),
{
    let mut r: Vec<char> = Vec::new();
    let mut i = a;
    while i < b
        invariant
            a <= i <= b <= s@.len(),
            r@ == s@.subrange(a as int, i as int),
        decreases b - i,
    {
        r.push(s[i]);
        i = i + 1;
        assert(r@ =~= s@.subrange(a as int, i as int));
    }
    r
}

/// Whether `s` spells the literal `lit`.
pub(crate) fn chars_equal(s: &[char], lit: &str) -> (r: bool)
    ensures
        r == (s@ == lit@),
{
    let l = chars_of(lit);
    if s.len() != l.len() {
        return false;
    }
    let mut i: usize = 0;
    while i < s.len()
        invariant
            i <= s@.len(),
            s@.len() == l@.len(),
            l@ == lit@,
            forall|k: int| 0 <= k < i ==> s@[k] == l@[k],
        decreases s@.len() - i,
    {
        if s[i] != l[i] {
            return false;
        }
        i = i + 1;
    }
    assert(s@ =~= l@);
    true
}

/// The content type of the archive named by `a`.
fn archive_type(a: &[char]) -> (r: Option<ContentType>)
    ensures
        r == archive_content_type(a@),
{
    if chars_equal(a, "fs") {
        Some(ContentType::Entry)
    } else if chars_equal(a, "thesaurus") {
        Some(ContentType::Thesaurus)
    } else if chars_equal(a, "collocations") {
        Some(ContentType::Collocations)
    } else if chars_equal(a, "word_sets") {
        Some(ContentType::WordSets)
    } else if chars_equal(a, "phrases") {
        Some(ContentType::Phrases)
    } else if chars_equal(a, "examples") {
        Some(ContentType::Examples)
    } else if chars_equal(a, "word_families") {
        Some(ContentType::WordFamilies)
    } else if chars_equal(a, "etymologies") {
        Some(ContentType::Etymologies)
    } else if chars_equal(a, "activator") {
        Some(ContentType::Activator)
    } else if chars_equal(a, "gb_hwd_pron") || chars_equal(a, "us_hwd_pron") || chars_equal(
        a,
        "exa_pron",
    ) {
        Some(ContentType::AudioPronunciation)
    } else if chars_equal(a, "picture") {
        Some(ContentType::Picture)
    } else if chars_equal(a, "sound") || chars_equal(a, "sfx") {
        Some(ContentType::Sound)
    } else {
        None
    }
}

/// A single search result item displayed in the result list.
#[derive(Debug, Clone)]
pub struct SearchResultItem {
    /// Display label (may contain lightweight markup tags)
    pub label: String,
    /// dict:// path, e.g. `/fs/3.4.6.2`
    pub path: String,
    /// Normalised sort key
    pub sortkey: String,
    /// Priority (lower = higher priority in display)
    pub prio: u8,
    /// Optional highlighted snippet (from full-text search)
    pub snippet: Option<String>,
}

} // verus!
