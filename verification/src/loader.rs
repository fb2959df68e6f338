//! Loading a page by its content address: the archive that holds it, the
//! key under which the file map records it, the location record, and the
//! state shown once the page is read.

use vstd::prelude::*;

use crate::app::App;
use crate::bytes::{read_u16_le, read_u32_le, spec_u16_le, spec_u32_le};
use crate::config::AutoPronLanguage;
use crate::content::page::ContentPage;
use crate::content::types::{ContentId, ContentType, anchor_view, parse_content_path};
use crate::data::cdb::{CDBReader, spec_get};

verus! {

/// The archive that holds content of type `ct`, for the types that a
/// content address can load.
pub open spec fn archive_for(ct: ContentType) -> Option<Seq<char>> {
    match ct {
        ContentType::Entry => Some("fs"@),
        ContentType::Thesaurus => Some("thesaurus"@),
        ContentType::Collocations => Some("collocations"@),
        ContentType::WordSets => Some("word_sets"@),
        ContentType::Phrases => Some("phrases"@),
        ContentType::Examples => Some("examples"@),
        ContentType::WordFamilies => Some("word_families"@),
        ContentType::Etymologies => Some("etymologies"@),
        ContentType::Activator => Some("activator"@),
        ContentType::Picture => Some("picture"@),
        _ => None,
    }
}

/// The archive that holds content of type `ct`, if an address can load it.
pub fn archive_for_type(ct: ContentType) -> (r: Option<&'static str>)
    ensures
        match r {
            Some(a) => archive_for(ct) == Some(a@),
            None => archive_for(ct) is None,
        },
{
    match ct {
        ContentType::Entry => Some("fs"),
        ContentType::Thesaurus => Some("thesaurus"),
        ContentType::Collocations => Some("collocations"),
        ContentType::WordSets => Some("word_sets"),
        ContentType::Phrases => Some("phrases"),
        ContentType::Examples => Some("examples"),
        ContentType::WordFamilies => Some("word_families"),
        ContentType::Etymologies => Some("etymologies"),
        ContentType::Activator => Some("activator"),
        ContentType::Picture => Some("picture"),
        _ => None,
    }
}

/// The MD5 digest of `data`, as the md5 crate computes it.
pub uninterp spec fn spec_md5(data: Seq<u8>) -> Seq<u8>;

/// `md5::compute`: the 16-byte MD5 digest of `data`. The contract names
/// the digest; the algorithm is not restated.
#[verifier::external_body]
fn md5_digest(data: &[u8]) -> (r: [u8; 16])
    ensures
        r@ == spec_md5(data@),
{
    md5::compute(data).0
}

/// The file-map key of file `id` of `archive`: the first ten bytes of the
/// MD5 digest of `archive:id`.
pub open spec fn filemap_key_of(archive: Seq<char>, id: Seq<char>) -> Seq<u8> {
    spec_md5(vstd::utf8::encode_utf8(archive + ":"@ + id)).take(10)
}

/// The file-map key of file `id` of `archive`.
pub fn filemap_key(archive: &str, id: &str) -> (r: Vec<u8>)
    ensures
        r@ == filemap_key_of(archive@, id@),
{
    let mut s = String::from_str(archive);
    s.append(":");
    s.append(id);
    let bytes = s.as_str().as_bytes_vec();
    let d = md5_digest(bytes.as_slice());
    let mut r: Vec<u8> = Vec::new();
    let mut i: usize = 0;
    while i < 10
        invariant
            i <= 10,
            d@.len() == 16,
            r@ =~= d@.take(i as int),
        decreases 10 - i,
    {
        r.push(d[i]);
        i = i + 1;
    }
    r
}

/// The location that a file-map record gives: 16 bytes as four 32-bit
/// numbers, or 10 bytes as one 32-bit and three 16-bit numbers (stored
/// offset, stored size, offset and size in the block), little-endian.
pub open spec fn location_of(v: Seq<u8>) -> Option<(u64, u64, u64, u64)> {
    if v.len() == 16 {
        Some((
            spec_u32_le(v, 0) as u64,
            spec_u32_le(v, 4) as u64,
            spec_u32_le(v, 8) as u64,
            spec_u32_le(v, 12) as u64,
        ))
    } else if v.len() == 10 {
        Some((
            spec_u32_le(v, 0) as u64,
            spec_u16_le(v, 4) as u64,
            spec_u16_le(v, 6) as u64,
            spec_u16_le(v, 8) as u64,
        ))
    } else {
        None
    }
}

/// The location that the file-map record `v` gives, if it has one of the
/// two record sizes.
pub fn decode_location(v: &[u8]) -> (r: Option<(u64, u64, u64, u64)>)
    ensures
        r == location_of(v@),
{
    if v.len() == 16 {
        Some((
            read_u32_le(v, 0) as u64,
            read_u32_le(v, 4) as u64,
            read_u32_le(v, 8) as u64,
            read_u32_le(v, 12) as u64,
        ))
    } else if v.len() == 10 {
        Some((read_u32_le(v, 0) as u64, read_u16_le(v, 4) as u64, read_u16_le(v, 6) as u64, read_u16_le(v, 8) as u64))
    } else {
        None
    }
}

/// `id` with each dot replaced by an underscore.
pub open spec fn pron_name(id: Seq<char>) -> Seq<char> {
    id.map_values(|c: char| if c == '.' { '_' } else { c })
}

/// `id` with each dot replaced by an underscore, as pronunciation files
/// are named.
pub fn sanitize_for_pron(id: &str) -> (r: String)
    ensures
        r@ == pron_name(id@),
{
    let cs = crate::text::chars_of(id);
    let mut r = String::new();
    let mut i: usize = 0;
    while i < cs.len()
        invariant
            i <= cs@.len(),
            cs@ == id@,
            r@ =~= pron_name(cs@.take(i as int)),
        decreases cs@.len() - i,
    {
        crate::text::push_char(&mut r, if cs[i] == '.' { '_' } else { cs[i] });
        i = i + 1;
    }
    assert(cs@.take(cs@.len() as int) =~= cs@);
    r
}

/// The pronunciation file played on its own for entry `id`, in the
/// language `lang`.
pub open spec fn pron_key_of(lang: AutoPronLanguage, id: Seq<char>) -> Option<Seq<char>> {
    match lang {
        AutoPronLanguage::Off => None,
        AutoPronLanguage::GB => Some("gb_hwd_pron/"@ + pron_name(id) + ".mp3"@),
        AutoPronLanguage::US => Some("us_hwd_pron/"@ + pron_name(id) + ".mp3"@),
    }
}

/// The pronunciation file played on its own for entry `id`, if any.
pub fn pron_key(lang: AutoPronLanguage, id: &str) -> (r: Option<String>)
    ensures
        match r {
            Some(k) => pron_key_of(lang, id@) == Some(k@),
            None => pron_key_of(lang, id@) is None,
        },
{
    let archive = match lang {
        AutoPronLanguage::Off => {
            return None;
        },
        AutoPronLanguage::GB => "gb_hwd_pron/",
        AutoPronLanguage::US => "us_hwd_pron/",
    };
    let name = sanitize_for_pron(id);
    let mut k = String::from_str(archive);
    k.append(name.as_str());
    k.append(".mp3");
    Some(k)
}

/// Where a page is read from: the data directory, the page's address
/// parts, the archive and the file-map key.
pub struct LoadTarget {
    pub data_dir: String,
    pub content_type: ContentType,
    pub id: String,
    pub archive: String,
    pub key: Vec<u8>,
}

/// The name of a content type as the status line shows it.
pub open spec fn type_label(ct: ContentType) -> Seq<char> {
    match ct {
        ContentType::Entry => "Entry"@,
        ContentType::Thesaurus => "Thesaurus"@,
        ContentType::Collocations => "Collocations"@,
        ContentType::WordSets => "WordSets"@,
        ContentType::Phrases => "Phrases"@,
        ContentType::Examples => "Examples"@,
        ContentType::WordFamilies => "WordFamilies"@,
        ContentType::Etymologies => "Etymologies"@,
        ContentType::Activator => "Activator"@,
        ContentType::SearchResults => "SearchResults"@,
        ContentType::AudioPronunciation => "AudioPronunciation"@,
        ContentType::Picture => "Picture"@,
        ContentType::Sound => "Sound"@,
    }
}

/// The name of a content type as the status line shows it.
fn type_label_of(ct: ContentType) -> (r: &'static str)
    ensures
        r@ == type_label(ct),
{
    match ct {
        ContentType::Entry => "Entry",
        ContentType::Thesaurus => "Thesaurus",
        ContentType::Collocations => "Collocations",
        ContentType::WordSets => "WordSets",
        ContentType::Phrases => "Phrases",
        ContentType::Examples => "Examples",
        ContentType::WordFamilies => "WordFamilies",
        ContentType::Etymologies => "Etymologies",
        ContentType::Activator => "Activator",
        ContentType::SearchResults => "SearchResults",
        ContentType::AudioPronunciation => "AudioPronunciation",
        ContentType::Picture => "Picture",
        ContentType::Sound => "Sound",
    }
}

/// Where the page at `path` is read from, with the data directory
/// `data_dir`; or the status message that says why it cannot be loaded:
/// no data directory, an address that does not parse, or a content type
/// that no archive holds.
pub fn load_target(data_dir: &Option<String>, path: &str) -> (r: Result<LoadTarget, String>)
    ensures
        data_dir is None ==> (r matches Err(m) && m@ == "No LDOCE5 data directory configured."@),
        data_dir is Some && parse_content_path(path@) is None ==> (r matches Err(m) && m@ == "Unknown path: "@
            + path@),
        data_dir matches Some(dd) ==> (parse_content_path(path@) matches Some(t) ==> match archive_for(t.0) {
            None => r matches Err(m) && m@ == "Content type "@ + type_label(t.0) + " not directly loadable via path"@,
            Some(a) => r matches Ok(lt) && lt.data_dir@ == dd@ && lt.content_type == t.0 && lt.id@ == t.1
                && lt.archive@ == a && lt.key@ == filemap_key_of(a, t.1),
        }),
{
    let dd = match data_dir {
        Some(d) => d.clone(),
        None => {
            return Err(String::from_str("No LDOCE5 data directory configured."));
        },
    };
    let cid = match ContentId::from_path(path) {
        Some(c) => c,
        None => {
            let mut m = String::from_str("Unknown path: ");
            m.append(path);
            return Err(m);
        },
    };
    let archive = match archive_for_type(cid.content_type) {
        Some(a) => a,
        None => {
            let mut m = String::from_str("Content type ");
            m.append(type_label_of(cid.content_type));
            m.append(" not directly loadable via path");
            return Err(m);
        },
    };
    let key = filemap_key(archive, cid.id.as_str());
    Ok(LoadTarget { data_dir: dd, content_type: cid.content_type, id: cid.id, archive: String::from_str(archive), key })
}

/// The location of the page `t` in its archive, from the file map
/// `filemap`; or the status message: the page is not in the map, or its
/// record has neither record size.
pub fn lookup_location(filemap: &CDBReader, t: &LoadTarget) -> (r: Result<(u64, u64, u64, u64), String>)
    requires
        filemap.wf(),
    ensures
        spec_get(filemap.view(), t.key@) is None ==> (r matches Err(m) && m@ == "Entry not found: "@ + t.id@),
        spec_get(filemap.view(), t.key@) matches Some(v) ==> match location_of(v) {
            Some(loc) => r == Ok::<(u64, u64, u64, u64), String>(loc),
            None => r matches Err(m) && m@ == "Malformed filemap entry."@,
        },
{
    match filemap.get(t.key.as_slice()) {
        None => {
            let mut m = String::from_str("Entry not found: ");
            m.append(t.id.as_str());
            Err(m)
        },
        Some(v) => match decode_location(v.as_slice()) {
            Some(loc) => Ok(loc),
            None => Err(String::from_str("Malformed filemap entry.")),
        },
    }
}

impl App {
    /// Shows the page read from `path` (the page of file `id`): the page
    /// and its audio buttons, a history step to `path`, an empty status,
    /// and, when the language setting asks for it, the entry's
    /// pronunciation as the pending audio.
    pub fn show_loaded(&mut self, path: &str, id: &str, page: ContentPage)
        requires
            old(self).history.wf(),
        ensures
            final(self).history.wf(),
            final(self).content_page == Some(page),
            final(self).status@ == Seq::<char>::empty(),
            final(self).current_path matches Some(p) && p@ == path@,
            final(self).history.state() == crate::history::history_push(old(self).history.state(), path@, old(self).search_text@),
            crate::app::buttons_view(final(self).audio_buttons@) == crate::app::buttons_of(Some(page)),
            match pron_key_of(old(self).config.auto_pron, id@) {
                Some(k) => final(self).auto_pron_pending matches Some(a) && a@ == k,
                None => match crate::app::auto_pron_for(path@) {
                    Some(k) => final(self).auto_pron_pending matches Some(a) && a@ == k,
                    None => final(self).auto_pron_pending is None,
                },
            },
    {
        self.content_page = Some(page);
        self.rebuild_audio_buttons();
        self.navigate_to(path);
        self.status = String::new();
        match pron_key(self.config.auto_pron, id) {
            Some(k) => {
                self.auto_pron_pending = Some(k);
            },
            None => {},
        }
    }
}

/// The file-map record of `loc`: the short form (one 32-bit and three
/// 16-bit numbers) when the last three fit in 16 bits, else four 32-bit
/// numbers; each number cut to its width.
pub open spec fn location_record(loc: (u64, u64, u64, u64)) -> Seq<u8> {
    if loc.1 < 65536 && loc.2 < 65536 && loc.3 < 65536 {
        crate::bytes::le32(loc.0 as u32) + crate::bytes::le16(loc.1 as u16) + crate::bytes::le16(loc.2 as u16)
            + crate::bytes::le16(loc.3 as u16)
    } else {
        crate::bytes::le32(loc.0 as u32) + crate::bytes::le32(loc.1 as u32) + crate::bytes::le32(loc.2 as u32)
            + crate::bytes::le32(loc.3 as u32)
    }
}

/// The file-map record of `loc`.
pub fn encode_location(loc: (u64, u64, u64, u64)) -> (r: Vec<u8>)
    ensures
        r@ == location_record(loc),
{
    let (a, b, c, d) = loc;
    let mut v: Vec<u8> = Vec::new();
    if b < 65536 && c < 65536 && d < 65536 {
        crate::bytes::push_u32_le(&mut v, a as u32);
        crate::bytes::push_u16_le(&mut v, b as u16);
        crate::bytes::push_u16_le(&mut v, c as u16);
        crate::bytes::push_u16_le(&mut v, d as u16);
    } else {
        crate::bytes::push_u32_le(&mut v, a as u32);
        crate::bytes::push_u32_le(&mut v, b as u32);
        crate::bytes::push_u32_le(&mut v, c as u32);
        crate::bytes::push_u32_le(&mut v, d as u32);
    }
    v
}

/// Decoding the file-map record of a location gives the location back,
/// when its four numbers fit in 32 bits.
pub proof fn lemma_location_round_trip(loc: (u64, u64, u64, u64))
    requires
        loc.0 <= u32::MAX,
        loc.1 <= u32::MAX,
        loc.2 <= u32::MAX,
        loc.3 <= u32::MAX,
    ensures
        location_of(location_record(loc)) == Some(loc),
{
    let r = location_record(loc);
    if loc.1 < 65536 && loc.2 < 65536 && loc.3 < 65536 {
        assert(r.len() == 10);
        assert(r.subrange(0, 4) =~= crate::bytes::le32(loc.0 as u32));
        assert(r.subrange(4, 6) =~= crate::bytes::le16(loc.1 as u16));
        assert(r.subrange(6, 8) =~= crate::bytes::le16(loc.2 as u16));
        assert(r.subrange(8, 10) =~= crate::bytes::le16(loc.3 as u16));
        crate::bytes::lemma_le32_roundtrip(r, 0, loc.0 as u32);
        crate::bytes::lemma_le16_roundtrip(r, 4, loc.1 as u16);
        crate::bytes::lemma_le16_roundtrip(r, 6, loc.2 as u16);
        crate::bytes::lemma_le16_roundtrip(r, 8, loc.3 as u16);
    } else {
        assert(r.len() == 16);
        assert(r.subrange(0, 4) =~= crate::bytes::le32(loc.0 as u32));
        assert(r.subrange(4, 8) =~= crate::bytes::le32(loc.1 as u32));
        assert(r.subrange(8, 12) =~= crate::bytes::le32(loc.2 as u32));
        assert(r.subrange(12, 16) =~= crate::bytes::le32(loc.3 as u32));
        crate::bytes::lemma_le32_roundtrip(r, 0, loc.0 as u32);
        crate::bytes::lemma_le32_roundtrip(r, 4, loc.1 as u32);
        crate::bytes::lemma_le32_roundtrip(r, 8, loc.2 as u32);
        crate::bytes::lemma_le32_roundtrip(r, 12, loc.3 as u32);
    }
}

/// Whether an index item of type `t` goes to the incremental and
/// headword/phrase full-text indexes (headwords, phrases, and the types
/// starting with `a`), and whether it goes to the definition/example
/// full-text index.
pub open spec fn item_targets(t: Seq<char>) -> (bool, bool) {
    (
        t.len() > 0 && (t[0] == 'p' || t[0] == 'h' || t[0] == 'a') || t == "hm"@,
        t == "d"@ || t == "e"@,
    )
}

/// Definitions (`d`) and examples (`e`) are indexed in the
/// definition/example full-text index and nowhere else; headwords, phrases
/// and the other items whose type starts with `p`, `h` or `a` go to the
/// incremental and headword/phrase indexes and not to it.
pub proof fn lemma_index_routing(t: Seq<char>)
    ensures
        t == "d"@ || t == "e"@ ==> item_targets(t).1 && !item_targets(t).0,
        t.len() > 0 && (t[0] == 'p' || t[0] == 'h' || t[0] == 'a') ==> item_targets(t).0 && !item_targets(t).1,
{
    reveal_strlit("d");
    reveal_strlit("e");
    reveal_strlit("hm");
}

/// Which indexes an item of type `itemtype` goes to.
pub fn item_index_targets(itemtype: &str) -> (r: (bool, bool))
    ensures
        r == item_targets(itemtype@),
{
    let cs = crate::text::chars_of(itemtype);
    let first = cs.len() > 0 && (cs[0] == 'p' || cs[0] == 'h' || cs[0] == 'a');
    (
        first || crate::history::str_equal(itemtype, "hm"),
        crate::history::str_equal(itemtype, "d") || crate::history::str_equal(itemtype, "e"),
    )
}

} // verus!
