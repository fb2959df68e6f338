//! Application state and the operations that the key and mouse handlers
//! apply to it.

use vstd::prelude::*;

use crate::config::{AutoPronLanguage, Config};
use crate::content::page::{Block, ContentPage, Inline, InlineView, inlines_view};
use crate::content::types::{
    ContentId, ContentType, SearchResultItem, first_index_of, parse_content_path, strip_leading_slashes,
};
use crate::filters::{FilterNode, build_filter_tree, is_filter_tree, node_filters};
use crate::history::{NavHistory, history_back, history_forward, history_push};
use crate::search::incremental::IncrementalSearcher;
use crate::search::incremental::{normalize_index_key, spec_normalize_index_key};
use crate::search::lexicographic::{chars_has_prefix, has_prefix};
use crate::mouse::{split_audio, split_audio_path};
use crate::text::{
    char_is_whitespace, chars_of, spec_is_whitespace, spec_str_lowercase, spec_trim, str_lowercase,
    string_from_chars, trim_chars,
};

verus! {

/// Application mode.
#[derive(Debug, Clone, Copy, PartialEq, Eq, Structural)]
pub enum AppMode {
    /// Normal operation: search box + result list + content view.
    Normal,
    /// Keyboard focus is on the search text box.
    Searching,
    /// Keyboard focus is on the content pane.
    ContentFocused,
    /// Text search within the content view.
    FindInPage,
    /// Advanced search overlay is shown.
    AdvancedSearch,
    /// Index is being built in the background.
    BuildingIndex,
    /// Quit requested.
    Quit,
}

/// What can be exported to Anki from the current page.
#[derive(Debug, Clone)]
pub struct AnkiExportInfo {
    pub header: String,
    pub meaning: String,
    pub audio_paths: Vec<String>,
}

/// All runtime state of the viewer that its logic reads and changes.
pub struct App {
    pub mode: AppMode,
    /// Current text in the search box.
    pub search_text: String,
    /// Cursor position within the search text.
    pub search_cursor: usize,
    /// Results from incremental search.
    pub incr_results: Vec<SearchResultItem>,
    /// Results from full-text search.
    pub fts_results: Vec<SearchResultItem>,
    /// Merged and deduplicated result list.
    pub results: Vec<SearchResultItem>,
    /// Currently highlighted row in the result list.
    pub selected_row: Option<usize>,
    /// How far the result list is scrolled.
    pub result_scroll: usize,
    pub find_text: String,
    /// Indices of the blocks that match the find text.
    pub find_matches: Vec<usize>,
    pub find_cursor: usize,
    pub content_page: Option<ContentPage>,
    pub content_scroll: usize,
    /// Horizontal scroll offset in the content view (columns).
    pub content_scroll_x: u16,
    /// The currently displayed content path.
    pub current_path: Option<String>,
    /// Audio buttons in the current page: (block index, column, path, title).
    pub audio_buttons: Vec<(usize, u16, String, String)>,
    /// Zoom level.
    pub zoom_power: i32,
    pub history: NavHistory,
    pub adv_phrase: String,
    pub adv_filter_tree: Vec<FilterNode>,
    /// Focused node index in the advanced search tree.
    pub adv_tree_cursor: usize,
    pub clipboard_text: String,
    pub status: String,
    pub is_searching: bool,
    pub spell_suggestions: Vec<String>,
    pub config: Config,
    /// The incremental index, once opened.
    pub incr_searcher: Option<IncrementalSearcher>,
    /// Pending auto-pronunciation or audio request.
    pub auto_pron_pending: Option<String>,
}

/// `s` with `c` inserted at position `k`.
pub open spec fn insert_at(s: Seq<char>, k: int, c: char) -> Seq<char> {
    s.take(k) + seq![c] + s.skip(k)
}

/// `s` without its character at position `k`.
pub open spec fn remove_at(s: Seq<char>, k: int) -> Seq<char> {
    s.take(k) + s.skip(k + 1)
}

/// The smaller of two integers.
pub open spec fn min_int(a: int, b: int) -> int {
    if a < b {
        a
    } else {
        b
    }
}

/// The last row of a list of `n` rows (0 when empty).
pub open spec fn last_row(n: int) -> int {
    if n > 0 {
        n - 1
    } else {
        0
    }
}

/// The number of blocks of a page, if one is shown.
pub open spec fn page_len(p: Option<ContentPage>) -> int {
    match p {
        Some(v) => v@.len() as int,
        None => 0,
    }
}

/// The plain values of a result item: (label, path, sort key, priority,
/// snippet).
pub open spec fn item_view(r: SearchResultItem) -> (Seq<char>, Seq<char>, Seq<char>, u8, Option<Seq<char>>) {
    (r.label@, r.path@, r.sortkey@, r.prio, match r.snippet {
        Some(s) => Some(s@),
        None => None,
    })
}

/// The plain values of a list of result items.
pub open spec fn results_view(v: Seq<SearchResultItem>) -> Seq<(Seq<char>, Seq<char>, Seq<char>, u8, Option<Seq<char>>)> {
    v.map_values(|r: SearchResultItem| item_view(r))
}

/// The paths of a list of result items.
pub open spec fn paths_of(v: Seq<(Seq<char>, Seq<char>, Seq<char>, u8, Option<Seq<char>>)>) -> Seq<Seq<char>> {
    v.map_values(|r: (Seq<char>, Seq<char>, Seq<char>, u8, Option<Seq<char>>)| r.1)
}

/// Of the first `k` items of `fts`, those whose path is neither in `seen`
/// nor in an item kept before them.
pub open spec fn fresh_results(
    seen: Seq<Seq<char>>,
    fts: Seq<(Seq<char>, Seq<char>, Seq<char>, u8, Option<Seq<char>>)>,
    k: int,
) -> Seq<(Seq<char>, Seq<char>, Seq<char>, u8, Option<Seq<char>>)>
    decreases k,
{
    if k <= 0 || k > fts.len() {
        Seq::empty()
    } else {
        let prev = fresh_results(seen, fts, k - 1);
        if (seen + paths_of(prev)).contains(fts[k - 1].1) {
            prev
        } else {
            prev.push(fts[k - 1])
        }
    }
}

proof fn lemma_paths_of_push(v: Seq<(Seq<char>, Seq<char>, Seq<char>, u8, Option<Seq<char>>)>, x: (Seq<char>, Seq<char>, Seq<char>, u8, Option<Seq<char>>))
    ensures
        paths_of(v.push(x)) == paths_of(v).push(x.1),
{
    assert(paths_of(v.push(x)) =~= paths_of(v).push(x.1));
}

/// Of the first `k` full-text results, those kept are taken from them, no
/// path is kept twice or kept when `seen` holds it, and every path among
/// them ends up in `seen` or in what is kept.
proof fn lemma_fresh_results(
    seen: Seq<Seq<char>>,
    fts: Seq<(Seq<char>, Seq<char>, Seq<char>, u8, Option<Seq<char>>)>,
    k: int,
)
    requires
        0 <= k <= fts.len(),
    ensures
        paths_of(fresh_results(seen, fts, k)).no_duplicates(),
        forall|j: int|
            0 <= j < fresh_results(seen, fts, k).len() ==> !seen.contains(
                #[trigger] paths_of(fresh_results(seen, fts, k))[j],
            ),
        forall|j: int| 0 <= j < k ==> (seen + paths_of(fresh_results(seen, fts, k))).contains(#[trigger] fts[j].1),
        forall|j: int|
            0 <= j < fresh_results(seen, fts, k).len() ==> fts.subrange(0, k).contains(
                #[trigger] fresh_results(seen, fts, k)[j],
            ),
    decreases k,
{
    if k > 0 {
        lemma_fresh_results(seen, fts, k - 1);
        let prev = fresh_results(seen, fts, k - 1);
        let x = fts[k - 1];
        let pp = paths_of(prev);
        assert forall|j: int| 0 <= j < k - 1 implies (seen + pp).contains(#[trigger] fts[j].1) by {}
        if (seen + pp).contains(x.1) {
            assert(fresh_results(seen, fts, k) == prev);
            assert forall|j: int| 0 <= j < prev.len() implies fts.subrange(0, k).contains(#[trigger] prev[j]) by {
                assert(fts.subrange(0, k - 1).contains(prev[j]));
                let m = choose|m: int| 0 <= m < k - 1 && #[trigger] fts.subrange(0, k - 1)[m] == prev[j];
                assert(fts.subrange(0, k)[m] == prev[j]);
            }
        } else {
            let f = prev.push(x);
            assert(fresh_results(seen, fts, k) == f);
            lemma_paths_of_push(prev, x);
            let pf = paths_of(f);
            assert(pf == pp.push(x.1));
            assert(!pp.contains(x.1)) by {
                if pp.contains(x.1) {
                    let m = choose|m: int| 0 <= m < pp.len() && #[trigger] pp[m] == x.1;
                    assert((seen + pp)[seen.len() + m] == x.1);
                }
            }
            assert(!seen.contains(x.1)) by {
                if seen.contains(x.1) {
                    let m = choose|m: int| 0 <= m < seen.len() && #[trigger] seen[m] == x.1;
                    assert((seen + pp)[m] == x.1);
                }
            }
            assert forall|i: int, j: int| 0 <= i < pf.len() && 0 <= j < pf.len() && i != j implies pf[i] != pf[j] by {
                if i < pp.len() && j < pp.len() {
                    assert(pf[i] == pp[i] && pf[j] == pp[j]);
                } else if i < pp.len() {
                    assert(pf[i] == pp[i]);
                    assert(pp.contains(pp[i]));
                } else {
                    assert(pf[j] == pp[j]);
                    assert(pp.contains(pp[j]));
                }
            }
            assert forall|j: int| 0 <= j < f.len() implies !seen.contains(#[trigger] pf[j]) by {
                if j < pp.len() {
                    assert(pf[j] == pp[j]);
                }
            }
            assert forall|j: int| 0 <= j < k implies (seen + pf).contains(#[trigger] fts[j].1) by {
                if j == k - 1 {
                    assert((seen + pf)[(seen.len() + pp.len()) as int] == x.1);
                } else {
                    assert((seen + pp).contains(fts[j].1));
                    let m = choose|m: int| 0 <= m < (seen + pp).len() && #[trigger] (seen + pp)[m] == fts[j].1;
                    assert((seen + pf)[m] == fts[j].1);
                }
            }
            assert forall|j: int| 0 <= j < f.len() implies fts.subrange(0, k).contains(#[trigger] f[j]) by {
                if j < prev.len() {
                    assert(fts.subrange(0, k - 1).contains(prev[j]));
                    let m = choose|m: int| 0 <= m < k - 1 && #[trigger] fts.subrange(0, k - 1)[m] == prev[j];
                    assert(fts.subrange(0, k)[m] == f[j]);
                } else {
                    assert(fts.subrange(0, k)[k - 1] == f[j]);
                }
            }
        }
    }
}

/// Rebuilding the result list keeps the incremental results `incr` first
/// and in order, then adds full-text results from `fts`: every path of
/// either list is in the rebuilt list, no full-text result is added whose
/// path an incremental result has, and no path is added twice.
pub proof fn lemma_rebuilt_results(
    incr: Seq<(Seq<char>, Seq<char>, Seq<char>, u8, Option<Seq<char>>)>,
    fts: Seq<(Seq<char>, Seq<char>, Seq<char>, u8, Option<Seq<char>>)>,
)
    ensures
        ({
            let r = incr + fresh_results(paths_of(incr), fts, fts.len() as int);
            &&& r.subrange(0, incr.len() as int) == incr
            &&& forall|j: int| 0 <= j < incr.len() ==> paths_of(r).contains(#[trigger] incr[j].1)
            &&& forall|j: int| 0 <= j < fts.len() ==> paths_of(r).contains(#[trigger] fts[j].1)
            &&& forall|i: int, j: int| incr.len() <= i < j < r.len() ==> #[trigger] r[i].1 != #[trigger] r[j].1
            &&& forall|i: int, j: int| 0 <= i < incr.len() <= j < r.len() ==> #[trigger] r[i].1 != #[trigger] r[j].1
            &&& forall|j: int| incr.len() <= j < r.len() ==> fts.contains(#[trigger] r[j])
        }),
{
    let seen = paths_of(incr);
    let f = fresh_results(seen, fts, fts.len() as int);
    let r = incr + f;
    lemma_fresh_results(seen, fts, fts.len() as int);
    let pf = paths_of(f);
    assert(paths_of(r) =~= seen + pf);
    assert(r.subrange(0, incr.len() as int) =~= incr);
    assert forall|j: int| 0 <= j < incr.len() implies paths_of(r).contains(#[trigger] incr[j].1) by {
        assert(paths_of(r)[j] == incr[j].1);
    }
    assert forall|j: int| 0 <= j < fts.len() implies paths_of(r).contains(#[trigger] fts[j].1) by {
        assert((seen + pf).contains(fts[j].1));
    }
    assert forall|i: int, j: int| incr.len() <= i < j < r.len() implies #[trigger] r[i].1 != #[trigger] r[j].1 by {
        let a = i - incr.len();
        let b = j - incr.len();
        assert(r[i] == f[a] && r[j] == f[b]);
        assert(pf[a] == f[a].1 && pf[b] == f[b].1);
    }
    assert forall|i: int, j: int| 0 <= i < incr.len() <= j < r.len() implies #[trigger] r[i].1 != #[trigger] r[j].1 by {
        let b = j - incr.len();
        assert(r[i] == incr[i] && r[j] == f[b]);
        assert(pf[b] == f[b].1);
        assert(seen[i] == incr[i].1);
        assert(!seen.contains(pf[b]));
    }
    assert forall|j: int| incr.len() <= j < r.len() implies fts.contains(#[trigger] r[j]) by {
        let b = j - incr.len();
        assert(r[j] == f[b]);
        assert(fts.subrange(0, fts.len() as int) =~= fts);
    }
}

/// The result row's normalised sort key starts with `key`.
pub open spec fn row_has_prefix(r: SearchResultItem, key: Seq<char>) -> bool {
    has_prefix(spec_normalize_index_key(r.sortkey@), key)
}

/// A copy of a result item.
pub(crate) fn clone_item(r: &SearchResultItem) -> (c: SearchResultItem)
    ensures
        item_view(c) == item_view(*r),
{
    SearchResultItem {
        label: r.label.clone(),
        path: r.path.clone(),
        sortkey: r.sortkey.clone(),
        prio: r.prio,
        snippet: match &r.snippet {
            Some(s) => Some(s.clone()),
            None => None,
        },
    }
}

/// The searchable text of an inline element.
pub open spec fn inline_find_text(i: InlineView) -> Seq<char> {
    match i {
        InlineView::Text(t, _) => t,
        InlineView::Headword(t) => t,
        InlineView::Prefix(t, _) => t,
        InlineView::Badge(t) => t,
        InlineView::Signpost(t) => t,
        _ => Seq::empty(),
    }
}

/// The searchable text of a list of inline elements, concatenated.
pub open spec fn find_text_of(v: Seq<InlineView>) -> Seq<char>
    decreases v.len(),
{
    if v.len() == 0 {
        Seq::empty()
    } else {
        find_text_of(v.drop_last()) + inline_find_text(v.last())
    }
}

/// `q` occurs in `s`.
pub open spec fn contains_chars(s: Seq<char>, q: Seq<char>) -> bool {
    exists|i: int| 0 <= i <= s.len() - q.len() && #[trigger] s.subrange(i, i + q.len()) == q
}

/// The block's text contains `q`, ignoring case.
pub open spec fn block_matches(b: Block, q: Seq<char>) -> bool {
    contains_chars(
        spec_str_lowercase(find_text_of(inlines_view(b.inlines@))),
        spec_str_lowercase(q),
    )
}

/// The indices among the first `k` blocks of `page` whose text contains
/// `q`, ignoring case.
pub open spec fn matching_blocks(page: Seq<Block>, q: Seq<char>, k: int) -> Seq<usize>
    decreases k,
{
    if k <= 0 || k > page.len() {
        Seq::empty()
    } else {
        let prev = matching_blocks(page, q, k - 1);
        if block_matches(page[k - 1], q) {
            prev.push((k - 1) as usize)
        } else {
            prev
        }
    }
}

/// The inline element carries no searchable text.
pub open spec fn is_textless(i: InlineView) -> bool {
    i is AudioButton || i is Image || i is Link || i is LineBreak
}

/// The searchable text of a list of inlines is that before position `i`,
/// then that of the inline at `i`, then that after it.
proof fn lemma_find_text_split(v: Seq<InlineView>, i: int)
    requires
        0 <= i < v.len(),
    ensures
        find_text_of(v) == find_text_of(v.take(i)) + inline_find_text(v[i]) + find_text_of(v.skip(i + 1)),
    decreases v.len(),
{
    let dl = v.drop_last();
    if i == v.len() - 1 {
        assert(v.take(i) =~= dl);
        assert(v.skip(i + 1) =~= Seq::<InlineView>::empty());
        assert(find_text_of(v.skip(i + 1)) == Seq::<char>::empty());
        assert(find_text_of(v) =~= find_text_of(v.take(i)) + inline_find_text(v[i]) + Seq::<char>::empty());
    } else {
        lemma_find_text_split(dl, i);
        assert(dl.take(i) =~= v.take(i));
        assert(dl[i] == v[i]);
        let s = v.skip(i + 1);
        assert(s.drop_last() =~= dl.skip(i + 1));
        assert(s.last() == v.last());
        assert(find_text_of(s) == find_text_of(dl.skip(i + 1)) + inline_find_text(v.last()));
        let a = find_text_of(v.take(i));
        let b = inline_find_text(v[i]);
        let c = find_text_of(dl.skip(i + 1));
        let d = inline_find_text(v.last());
        assert(find_text_of(v) == a + b + c + d);
        assert(a + b + c + d =~= a + b + (c + d));
    }
}

/// A list of inlines that all carry no searchable text has none.
proof fn lemma_textless(v: Seq<InlineView>)
    requires
        forall|j: int| 0 <= j < v.len() ==> is_textless(#[trigger] v[j]),
    ensures
        find_text_of(v) == Seq::<char>::empty(),
    decreases v.len(),
{
    if v.len() > 0 {
        let dl = v.drop_last();
        assert forall|j: int| 0 <= j < dl.len() implies is_textless(#[trigger] dl[j]) by {
            assert(dl[j] == v[j]);
        }
        lemma_textless(dl);
        assert(is_textless(v[v.len() - 1]));
        assert(find_text_of(v) =~= Seq::<char>::empty());
    }
}

/// Find in page searches the text of every text run, headword, prefix,
/// badge and signpost of a block: the text of the inline at `i` stands in
/// the block's searchable text right after that of the inlines before it.
/// Audio buttons, images, links and line breaks add nothing to it.
pub proof fn lemma_searched_inline_text(v: Seq<InlineView>, i: int)
    requires
        0 <= i < v.len(),
    ensures
        ({
            let s = find_text_of(v);
            let l = find_text_of(v.take(i)).len() as int;
            &&& (v[i] is Text ==> s.subrange(l, l + v[i]->Text_0.len() as int) == v[i]->Text_0)
            &&& (v[i] is Headword ==> s.subrange(l, l + v[i]->Headword_0.len() as int) == v[i]->Headword_0)
            &&& (v[i] is Prefix ==> s.subrange(l, l + v[i]->Prefix_0.len() as int) == v[i]->Prefix_0)
            &&& (v[i] is Badge ==> s.subrange(l, l + v[i]->Badge_0.len() as int) == v[i]->Badge_0)
            &&& (v[i] is Signpost ==> s.subrange(l, l + v[i]->Signpost_0.len() as int) == v[i]->Signpost_0)
            &&& (is_textless(v[i]) ==> s == find_text_of(v.remove(i)))
        }),
{
    lemma_find_text_split(v, i);
    let a = find_text_of(v.take(i));
    let b = inline_find_text(v[i]);
    let c = find_text_of(v.skip(i + 1));
    let s = find_text_of(v);
    assert(s.subrange(a.len() as int, (a.len() + b.len()) as int) =~= b);
    if is_textless(v[i]) {
        let r = v.remove(i);
        assert(b =~= Seq::<char>::empty());
        if i < r.len() {
            lemma_find_text_split(r, i);
            assert(r.take(i) =~= v.take(i));
            assert(r.skip(i + 1) =~= v.skip(i + 2));
            assert(r[i] == v[i + 1]);
            lemma_find_text_split(v, i + 1);
            assert(v.take(i + 1) =~= v.take(i).push(v[i]));
            assert(v.take(i + 1).drop_last() =~= v.take(i));
            assert(find_text_of(v.take(i + 1)) == a + b);
            assert(s =~= find_text_of(r));
        } else {
            assert(r =~= v.take(i));
            assert(v.skip(i + 1) =~= Seq::<InlineView>::empty());
            assert(find_text_of(v.skip(i + 1)) == Seq::<char>::empty());
            assert(s =~= find_text_of(r));
        }
    }
}

/// The blocks that find in page records are exactly those whose text
/// contains the query, ignoring case, listed once each in page order.
pub proof fn lemma_find_matches(page: Seq<Block>, q: Seq<char>, k: int)
    requires
        0 <= k <= page.len() <= usize::MAX,
    ensures
        ({
            let m = matching_blocks(page, q, k);
            &&& forall|b: int| 0 <= b < k ==> (m.contains(b as usize) <==> block_matches(#[trigger] page[b], q))
            &&& forall|j: int| 0 <= j < m.len() ==> #[trigger] m[j] < k
            &&& forall|i: int, j: int| 0 <= i < j < m.len() ==> #[trigger] m[i] < #[trigger] m[j]
        }),
    decreases k,
{
    if k > 0 {
        lemma_find_matches(page, q, k - 1);
        let prev = matching_blocks(page, q, k - 1);
        let m = matching_blocks(page, q, k);
        assert forall|b: int| 0 <= b < k implies (m.contains(b as usize) <==> block_matches(#[trigger] page[b], q)) by {
            if b < k - 1 {
                if m.contains(b as usize) {
                    let j = choose|j: int| 0 <= j < m.len() && m[j] == b as usize;
                    if j < prev.len() {
                        assert(prev[j] == m[j]);
                    }
                }
                if prev.contains(b as usize) {
                    let j = choose|j: int| 0 <= j < prev.len() && prev[j] == b as usize;
                    assert(m[j] == prev[j]);
                }
            } else {
                if block_matches(page[b], q) {
                    assert(m[m.len() - 1] == b as usize);
                } else {
                    if m.contains(b as usize) {
                        let j = choose|j: int| 0 <= j < m.len() && m[j] == b as usize;
                        assert(prev[j] == m[j]);
                    }
                }
            }
        }
        assert forall|j: int| 0 <= j < m.len() implies #[trigger] m[j] < k by {
            if j < prev.len() {
                assert(m[j] == prev[j]);
            }
        }
        assert forall|i: int, j: int| 0 <= i < j < m.len() implies #[trigger] m[i] < #[trigger] m[j] by {
            assert(m[i] == prev[i]);
            assert(prev[i] < k - 1);
            if j < prev.len() {
                assert(m[j] == prev[j]);
            } else {
                assert(m[j] == (k - 1) as usize);
            }
        }
    }
}

/// A block made of a headword and of inlines without searchable text
/// (audio buttons, images, links, line breaks) is found when its headword
/// contains the query, ignoring case.
pub proof fn lemma_headword_block_found(page: Seq<Block>, q: Seq<char>, b: int, h: int)
    requires
        0 <= b < page.len() <= usize::MAX,
        0 <= h < page[b].inlines@.len(),
        page[b].inlines@[h]@ is Headword,
        forall|j: int| 0 <= j < page[b].inlines@.len() && j != h ==> is_textless(#[trigger] page[b].inlines@[j]@),
        contains_chars(spec_str_lowercase(page[b].inlines@[h]@->Headword_0), spec_str_lowercase(q)),
    ensures
        matching_blocks(page, q, page.len() as int).contains(b as usize),
{
    let v = inlines_view(page[b].inlines@);
    let t = page[b].inlines@[h]@->Headword_0;
    lemma_find_text_split(v, h);
    assert forall|j: int| 0 <= j < v.take(h).len() implies is_textless(#[trigger] v.take(h)[j]) by {
        assert(v.take(h)[j] == page[b].inlines@[j]@);
    }
    assert forall|j: int| 0 <= j < v.skip(h + 1).len() implies is_textless(#[trigger] v.skip(h + 1)[j]) by {
        assert(v.skip(h + 1)[j] == page[b].inlines@[h + 1 + j]@);
    }
    lemma_textless(v.take(h));
    lemma_textless(v.skip(h + 1));
    assert(v[h] == page[b].inlines@[h]@);
    assert(find_text_of(v) =~= t);
    assert(block_matches(page[b], q));
    lemma_find_matches(page, q, page.len() as int);
}

/// The number of white-space separated words in `s`.
pub open spec fn word_count(s: Seq<char>) -> int
    decreases s.len(),
{
    if s.len() == 0 {
        0
    } else {
        let starts = !spec_is_whitespace(s.last()) && (s.len() == 1 || spec_is_whitespace(
            s[s.len() - 2],
        ));
        word_count(s.drop_last()) + if starts {
            1int
        } else {
            0int
        }
    }
}

/// `parts` joined with `sep` between consecutive parts.
pub open spec fn join_with(parts: Seq<Seq<char>>, sep: Seq<char>) -> Seq<char>
    decreases parts.len(),
{
    if parts.len() == 0 {
        Seq::empty()
    } else if parts.len() == 1 {
        parts[0]
    } else {
        join_with(parts.drop_last(), sep) + sep + parts.last()
    }
}

/// The filter expressions of the checked filters of `tree`.
pub open spec fn tree_filters(tree: Seq<FilterNode>) -> Seq<Seq<char>> {
    crate::filters::nodes_filters(tree, tree.len() as int)
}

/// Header, meaning and audio paths gathered from the inline elements `v`:
/// the first text goes to the header, later texts to the meaning.
pub open spec fn anki_fold(v: Seq<InlineView>) -> (Seq<char>, Seq<char>, Seq<Seq<char>>)
    decreases v.len(),
{
    if v.len() == 0 {
        (Seq::empty(), Seq::empty(), Seq::empty())
    } else {
        let (h, m, a) = anki_fold(v.drop_last());
        match v.last() {
            InlineView::Text(t, _) => if h.len() == 0 {
                (h + t, m, a)
            } else {
                (h, m + t, a)
            },
            InlineView::Headword(t) => if h.len() == 0 {
                (h + t, m, a)
            } else {
                (h, m + t, a)
            },
            InlineView::Prefix(t, _) => if h.len() == 0 {
                (h + t, m, a)
            } else {
                (h, m + t, a)
            },
            InlineView::AudioButton(p, _) => (h, m, a.push(p)),
            _ => (h, m, a),
        }
    }
}

/// The inline elements of the first `k` blocks of `page`, in order.
pub open spec fn page_inlines(page: Seq<Block>, k: int) -> Seq<InlineView>
    decreases k,
{
    if k <= 0 || k > page.len() {
        Seq::empty()
    } else {
        page_inlines(page, k - 1) + inlines_view(page[k - 1].inlines@)
    }
}

/// The columns an audio button takes: a space, the flag or play sign, a
/// space.
pub open spec fn button_width(title: Seq<char>) -> usize {
    if title == "British"@ || title == "American"@ {
        4
    } else {
        3
    }
}

/// Scans the first `k` inline elements of block `bi`, starting at column
/// `base`: the column reached and the audio buttons found, each with its
/// block, column, path and title.
pub open spec fn scan_buttons(v: Seq<InlineView>, bi: usize, base: usize, k: int) -> (usize, Seq<(usize, u16, Seq<char>, Seq<char>)>)
    decreases k,
{
    if k <= 0 || k > v.len() {
        (base, Seq::empty())
    } else {
        let (col, bs) = scan_buttons(v, bi, base, k - 1);
        match v[k - 1] {
            InlineView::AudioButton(p, t) => (col.wrapping_add(button_width(t)), bs.push((bi, #[verifier::truncate] (col as u16), p, t))),
            InlineView::Prefix(t, _) => (col.wrapping_add(t.len() as usize), bs),
            InlineView::Text(t, _) => (col.wrapping_add(t.len() as usize), bs),
            InlineView::Headword(t) => (col.wrapping_add(t.len() as usize), bs),
            InlineView::Link(t, _) => (col.wrapping_add(t.len() as usize), bs),
            InlineView::LineBreak => (base, bs),
            InlineView::Image(_) => (col, bs),
            InlineView::Badge(t) => (col.wrapping_add(t.len() as usize).wrapping_add(3), bs),
            InlineView::Signpost(t) => (col.wrapping_add(t.len() as usize).wrapping_add(6), bs),
        }
    }
}

/// The audio buttons of the first `k` blocks of `page`.
pub open spec fn page_buttons(page: Seq<Block>, k: int) -> Seq<(usize, u16, Seq<char>, Seq<char>)>
    decreases k,
{
    if k <= 0 || k > page.len() {
        Seq::empty()
    } else {
        page_buttons(page, k - 1) + scan_buttons(
            inlines_view(page[k - 1].inlines@),
            (k - 1) as usize,
            (page[k - 1].indent * 2) as usize,
            page[k - 1].inlines@.len() as int,
        ).1
    }
}

/// The audio buttons of the page shown, if any.
pub open spec fn buttons_of(p: Option<ContentPage>) -> Seq<(usize, u16, Seq<char>, Seq<char>)> {
    match p {
        Some(v) => page_buttons(v@, v@.len() as int),
        None => Seq::empty(),
    }
}

/// The plain values of a list of audio buttons.
pub open spec fn buttons_view(v: Seq<(usize, u16, String, String)>) -> Seq<(usize, u16, Seq<char>, Seq<char>)> {
    v.map_values(|b: (usize, u16, String, String)| (b.0, b.1, b.2@, b.3@))
}

/// The entry to pronounce automatically after showing `path`: the key of an
/// entry address.
pub open spec fn auto_pron_for(path: Seq<char>) -> Option<Seq<char>> {
    match parse_content_path(path) {
        Some(t) => if t.0 == ContentType::Entry {
            Some(t.1)
        } else {
            None
        },
        None => None,
    }
}

/// Distance between two block indices.
pub open spec fn block_distance(a: usize, b: usize) -> int {
    if a >= b {
        a - b
    } else {
        b - a
    }
}

/// Whether `c` occurs in `s`.
pub(crate) fn chars_contain(s: &[char], q: &[char]) -> (r: bool)
    ensures
        r == contains_chars(s@, q@),
{
    if q.len() > s.len() {
        return false;
    }
    let mut i: usize = 0;
    while i <= s.len() - q.len()
        invariant
            q@.len() <= s@.len(),
            i <= s@.len() - q@.len() + 1,
            forall|k: int| 0 <= k < i ==> #[trigger] s@.subrange(k, k + q@.len()) != q@,
        decreases s@.len() - q@.len() + 1 - i,
    {
        let mut j: usize = 0;
        let mut same = true;
        let n = s.len();
        while j < q.len()
            invariant
                n == s@.len(),
                i + q@.len() <= s@.len(),
                j <= q@.len(),
                same == (forall|m: int| 0 <= m < j ==> s@[i + m] == q@[m]),
            decreases q@.len() - j,
        {
            if s[i + j] != q[j] {
                same = false;
            }
            j = j + 1;
        }
        if same {
            assert(s@.subrange(i as int, i + q@.len()) =~= q@);
            return true;
        }
        assert(s@.subrange(i as int, i + q@.len()) != q@) by {
            let m = choose|m: int| 0 <= m < q@.len() && s@[i + m] != q@[m];
            assert(s@.subrange(i as int, i + q@.len())[m] == s@[i + m]);
        }
        i = i + 1;
    }
    false
}

/// The searchable text of a block, concatenated.
fn block_find_text(b: &Block) -> (r: Vec<char>)
    ensures
        r@ == find_text_of(inlines_view(b.inlines@)),
{
    let mut r: Vec<char> = Vec::new();
    let mut i: usize = 0;
    while i < b.inlines.len()
        invariant
            i <= b.inlines@.len(),
            r@ == find_text_of(inlines_view(b.inlines@).take(i as int)),
        decreases b.inlines@.len() - i,
    {
        let t: &str = match &b.inlines[i] {
            Inline::Text(t, _) => t.as_str(),
            Inline::Headword(t) => t.as_str(),
            Inline::Prefix(t, _) => t.as_str(),
            Inline::Badge { text } => text.as_str(),
            Inline::Signpost { text } => text.as_str(),
            _ => "",
        };
        proof {
            reveal_strlit("");
        }
        let tc = chars_of(t);
        let ghost before = r@;
        let mut k: usize = 0;
        while k < tc.len()
            invariant
                k <= tc@.len(),
                r@ == before + tc@.take(k as int),
            decreases tc@.len() - k,
        {
            r.push(tc[k]);
            k = k + 1;
            assert(r@ =~= before + tc@.take(k as int));
        }
        proof {
            let v = inlines_view(b.inlines@);
            assert(v.take(i + 1).drop_last() =~= v.take(i as int));
            assert(tc@.take(tc@.len() as int) =~= tc@);
            assert(tc@ == inline_find_text(v[i as int]));
        }
        i = i + 1;
    }
    assert(inlines_view(b.inlines@).take(b.inlines@.len() as int) =~= inlines_view(b.inlines@));
    r
}

/// The number of white-space separated words in `s`.
fn count_words(s: &[char]) -> (n: usize)
    ensures
        n == word_count(s@),
{
    let mut n: usize = 0;
    let mut i: usize = 0;
    let mut prev_ws = true;
    while i < s.len()
        invariant
            i <= s@.len(),
            n == word_count(s@.take(i as int)),
            n <= i,
            prev_ws == (i == 0 || spec_is_whitespace(s@[i - 1])),
        decreases s@.len() - i,
    {
        let ws = char_is_whitespace(s[i]);
        if !ws && prev_ws {
            n = n + 1;
        }
        prev_ws = ws;
        i = i + 1;
        proof {
            let t = s@.take(i as int);
            assert(t.drop_last() =~= s@.take(i - 1));
            if i >= 2 {
                assert(t[t.len() - 2] == s@[i - 2]);
            }
        }
    }
    assert(s@.take(s@.len() as int) =~= s@);
    n
}

/// The position of the first of the audio buttons among the first `k`
/// that is nearest to block `near`.
pub open spec fn nearest_button(bs: Seq<(usize, u16, String, String)>, near: usize, k: int) -> int
    decreases k,
{
    if k <= 1 {
        0
    } else {
        let p = nearest_button(bs, near, k - 1);
        if block_distance(bs[k - 1].0, near) < block_distance(bs[p].0, near) {
            k - 1
        } else {
            p
        }
    }
}

/// Whether the path, without its leading slashes, has a `/` after its
/// first part.
fn has_second_part(p: &[char]) -> (r: bool)
    ensures
        r == (first_index_of(strip_leading_slashes(p@), '/') is Some),
{
    let n = p.len();
    let mut a: usize = 0;
    assert(p@.subrange(0, n as int) =~= p@);
    while a < n && p[a] == '/'
        invariant
            a <= n,
            n == p@.len(),
            strip_leading_slashes(p@.subrange(a as int, n as int)) == strip_leading_slashes(p@),
        decreases n - a,
    {
        assert(p@.subrange(a as int, n as int).drop_first() =~= p@.subrange(a + 1, n as int));
        a = a + 1;
    }
    let ghost rest = p@.subrange(a as int, n as int);
    assert(strip_leading_slashes(rest) == rest);
    assert(strip_leading_slashes(p@) == rest);
    let mut i: usize = a;
    while i < n
        invariant
            a <= i <= n,
            n == p@.len(),
            rest == p@.subrange(a as int, n as int),
            strip_leading_slashes(p@) == rest,
            (first_index_of(rest, '/') is Some) == (first_index_of(p@.subrange(i as int, n as int), '/') is Some),
        decreases n - i,
    {
        if p[i] == '/' {
            assert(p@.subrange(i as int, n as int)[0] == '/');
            assert(first_index_of(p@.subrange(i as int, n as int), '/') == Some(0int));
            assert(strip_leading_slashes(p@) == rest);
            return true;
        }
        assert(p@.subrange(i as int, n as int).drop_first() =~= p@.subrange(i + 1, n as int));
        i = i + 1;
    }
    false
}

impl App {
    /// The application state at start, with the settings `config`: the
    /// search box holds the last query, with the cursor after its bytes.
    pub fn new(config: Config) -> (r: App)
        ensures
            r.mode == AppMode::Searching,
            r.search_text@ == config.last_query@,
            r.search_cursor == config.last_query@.len(),
            r.incr_results@.len() == 0,
            r.fts_results@.len() == 0,
            r.results@.len() == 0,
            r.selected_row is None,
            r.result_scroll == 0,
            r.find_text@.len() == 0,
            r.find_matches@.len() == 0,
            r.find_cursor == 0,
            r.content_page is None,
            r.content_scroll == 0,
            r.content_scroll_x == 0,
            r.current_path is None,
            r.audio_buttons@.len() == 0,
            r.zoom_power == 0,
            r.history.wf(),
            r.history.state().entries.len() == 0,
            r.adv_phrase@.len() == 0,
            is_filter_tree(r.adv_filter_tree@),
            r.adv_tree_cursor == 0,
            r.clipboard_text@.len() == 0,
            r.status@.len() == 0,
            !r.is_searching,
            r.spell_suggestions@.len() == 0,
            r.config == config,
            r.incr_searcher is None,
            r.auto_pron_pending is None,
    {
        let search_text = config.last_query.clone();
        let search_cursor = config.last_query.as_str().unicode_len();
        App {
            mode: AppMode::Searching,
            search_text,
            search_cursor,
            incr_results: Vec::new(),
            fts_results: Vec::new(),
            results: Vec::new(),
            selected_row: None,
            result_scroll: 0,
            find_text: String::new(),
            find_matches: Vec::new(),
            find_cursor: 0,
            content_page: None,
            content_scroll: 0,
            content_scroll_x: 0,
            current_path: None,
            audio_buttons: Vec::new(),
            zoom_power: 0,
            history: NavHistory::new(),
            adv_phrase: String::new(),
            adv_filter_tree: build_filter_tree(),
            adv_tree_cursor: 0,
            clipboard_text: String::new(),
            status: String::new(),
            is_searching: false,
            spell_suggestions: Vec::new(),
            config,
            incr_searcher: None,
            auto_pron_pending: None,
        }
    }

    /// Inserts `ch` at the cursor (or at the end when the cursor is past
    /// it) and moves the cursor right.
    pub fn insert_char(&mut self, ch: char)
        requires
            old(self).search_cursor < usize::MAX,
        ensures
            final(self).search_text@ == insert_at(
                old(self).search_text@,
                min_int(old(self).search_cursor as int, old(self).search_text@.len() as int),
                ch,
            ),
            *final(self) == (App {
                search_text: final(self).search_text,
                search_cursor: (old(self).search_cursor + 1) as usize,
                ..*old(self)
            }),
    {
        let cs = chars_of(self.search_text.as_str());
        let k = if self.search_cursor < cs.len() {
            self.search_cursor
        } else {
            cs.len()
        };
        let mut out: Vec<char> = Vec::new();
        let mut i: usize = 0;
        while i < k
            invariant
                i <= k <= cs@.len(),
                out@ == cs@.take(i as int),
            decreases k - i,
        {
            out.push(cs[i]);
            i = i + 1;
            assert(out@ =~= cs@.take(i as int));
        }
        out.push(ch);
        let mut j: usize = k;
        while j < cs.len()
            invariant
                k <= j <= cs@.len(),
                out@ == cs@.take(k as int) + seq![ch] + cs@.subrange(k as int, j as int),
            decreases cs@.len() - j,
        {
            out.push(cs[j]);
            j = j + 1;
            assert(out@ =~= cs@.take(k as int) + seq![ch] + cs@.subrange(k as int, j as int));
        }
        assert(cs@.subrange(k as int, cs@.len() as int) =~= cs@.skip(k as int));
        self.search_text = string_from_chars(out.as_slice());
        self.search_cursor = self.search_cursor + 1;
    }

    /// Deletes the character before the cursor (the last one when the
    /// cursor is past the end) and moves the cursor left; nothing at the
    /// start.
    pub fn backspace(&mut self)
        requires
            old(self).search_text@.len() > 0 || old(self).search_cursor == 0,
        ensures
            old(self).search_cursor == 0 ==> *final(self) == *old(self),
            old(self).search_cursor > 0 ==> {
                &&& final(self).search_text@ == remove_at(
                    old(self).search_text@,
                    min_int(old(self).search_cursor as int, old(self).search_text@.len() as int) - 1,
                )
                &&& *final(self) == (App {
                    search_text: final(self).search_text,
                    search_cursor: (old(self).search_cursor - 1) as usize,
                    ..*old(self)
                })
            },
    {
        if self.search_cursor == 0 {
            return;
        }
        let cs = chars_of(self.search_text.as_str());
        let k = if self.search_cursor < cs.len() {
            self.search_cursor
        } else {
            cs.len()
        };
        let mut out: Vec<char> = Vec::new();
        let mut i: usize = 0;
        while i < cs.len()
            invariant
                0 < k <= cs@.len(),
                i <= cs@.len(),
                out@ == (if i < k {
                    cs@.take(i as int)
                } else {
                    cs@.take(k - 1) + cs@.subrange(k as int, i as int)
                }),
            decreases cs@.len() - i,
        {
            if i + 1 != k {
                out.push(cs[i]);
            }
            i = i + 1;
            assert(out@ =~= (if i < k {
                cs@.take(i as int)
            } else {
                cs@.take(k - 1) + cs@.subrange(k as int, i as int)
            }));
        }
        assert(cs@.subrange(k as int, cs@.len() as int) =~= cs@.skip(k as int));
        self.search_text = string_from_chars(out.as_slice());
        self.search_cursor = self.search_cursor - 1;
    }

    /// Replaces the search text; the cursor goes to its end.
    pub fn set_search_text(&mut self, text: &str)
        ensures
            final(self).search_text@ == text@,
            *final(self) == (App {
                search_text: final(self).search_text,
                search_cursor: text@.len() as usize,
                ..*old(self)
            }),
    {
        self.search_text = String::from_str(text);
        self.search_cursor = text.unicode_len();
    }

    /// Moves the search cursor one character left, if not at the start.
    pub fn cursor_left(&mut self)
        ensures
            *final(self) == (App {
                search_cursor: if old(self).search_cursor > 0 {
                    (old(self).search_cursor - 1) as usize
                } else {
                    0
                },
                ..*old(self)
            }),
    {
        if self.search_cursor > 0 {
            self.search_cursor = self.search_cursor - 1;
        }
    }

    /// Moves the search cursor one character right, if not at the end.
    pub fn cursor_right(&mut self)
        ensures
            *final(self) == (App {
                search_cursor: if old(self).search_cursor < old(self).search_text@.len() {
                    (old(self).search_cursor + 1) as usize
                } else {
                    old(self).search_cursor
                },
                ..*old(self)
            }),
    {
        let len = self.search_text.as_str().unicode_len();
        if self.search_cursor < len {
            self.search_cursor = self.search_cursor + 1;
        }
    }

    /// Moves the search cursor to the start.
    pub fn cursor_home(&mut self)
        ensures
            *final(self) == (App { search_cursor: 0, ..*old(self) }),
    {
        self.search_cursor = 0;
    }

    /// Moves the search cursor to the end.
    pub fn cursor_end(&mut self)
        ensures
            *final(self) == (App { search_cursor: old(self).search_text@.len() as usize, ..*old(self) }),
    {
        self.search_cursor = self.search_text.as_str().unicode_len();
    }

    /// Selects the next result row (the first when none is selected),
    /// stopping at the last.
    pub fn select_next(&mut self)
        requires
            old(self).selected_row != Some(usize::MAX),
        ensures
            *final(self) == (App {
                selected_row: Some(
                    match old(self).selected_row {
                        Some(r) => min_int(r + 1, last_row(old(self).results@.len() as int)) as usize,
                        None => 0,
                    },
                ),
                ..*old(self)
            }),
    {
        let max = if self.results.len() > 0 {
            self.results.len() - 1
        } else {
            0
        };
        self.selected_row = Some(
            match self.selected_row {
                Some(r) => if r + 1 < max {
                    r + 1
                } else {
                    max
                },
                None => 0,
            },
        );
    }

    /// Selects the previous result row (the first when none is selected),
    /// stopping at the first.
    pub fn select_prev(&mut self)
        ensures
            *final(self) == (App {
                selected_row: Some(
                    match old(self).selected_row {
                        Some(r) => if r > 0 {
                            (r - 1) as usize
                        } else {
                            0
                        },
                        None => 0,
                    },
                ),
                ..*old(self)
            }),
    {
        self.selected_row = Some(
            match self.selected_row {
                Some(r) => if r > 0 {
                    r - 1
                } else {
                    0
                },
                None => 0,
            },
        );
    }

    /// Records a request to play `filename` from `archive`.
    pub fn request_audio_play(&mut self, archive: String, filename: String)
        ensures
            final(self).auto_pron_pending matches Some(p) && p@ == archive@ + "/"@ + filename@,
            *final(self) == (App { auto_pron_pending: final(self).auto_pron_pending, ..*old(self) }),
    {
        let mut p = archive;
        p.append("/");
        p.append(filename.as_str());
        self.auto_pron_pending = Some(p);
    }

    /// Goes back in the history and shows that entry, from its top.
    pub fn navigate_back(&mut self)
        requires
            old(self).history.wf(),
        ensures
            final(self).history.wf(),
            final(self).history.state() == history_back(old(self).history.state()),
            old(self).history.state().cursor > 0 ==> {
                &&& final(self).current_path matches Some(p)
                    && p@ == final(self).history.state().entries[final(self).history.state().cursor].0
                &&& *final(self) == (App {
                    history: final(self).history,
                    current_path: final(self).current_path,
                    content_scroll: 0,
                    ..*old(self)
                })
            },
            old(self).history.state().cursor == 0 ==> *final(self) == (App {
                history: final(self).history,
                ..*old(self)
            }),
    {
        match self.history.go_back() {
            Some(entry) => {
                let path = entry.path.clone();
                self.current_path = Some(path);
                self.content_scroll = 0;
            },
            None => {},
        }
    }

    /// Goes forward in the history and shows that entry, from its top.
    pub fn navigate_forward(&mut self)
        requires
            old(self).history.wf(),
        ensures
            final(self).history.wf(),
            final(self).history.state() == history_forward(old(self).history.state()),
            old(self).history.state().cursor + 1 < old(self).history.state().entries.len() ==> {
                &&& final(self).current_path matches Some(p)
                    && p@ == final(self).history.state().entries[final(self).history.state().cursor].0
                &&& *final(self) == (App {
                    history: final(self).history,
                    current_path: final(self).current_path,
                    content_scroll: 0,
                    ..*old(self)
                })
            },
            !(old(self).history.state().cursor + 1 < old(self).history.state().entries.len()) ==> *final(self) == (App {
                history: final(self).history,
                ..*old(self)
            }),
    {
        match self.history.go_forward() {
            Some(entry) => {
                let path = entry.path.clone();
                self.current_path = Some(path);
                self.content_scroll = 0;
            },
            None => {},
        }
    }

    /// The number of blocks of the page shown, if any.
    fn page_blocks(&self) -> (n: usize)
        ensures
            n == page_len(self.content_page),
    {
        match &self.content_page {
            Some(p) => p.len(),
            None => 0,
        }
    }

    /// Scrolls the content down by `lines` blocks, stopping at the last.
    pub fn scroll_down(&mut self, lines: usize)
        requires
            old(self).content_scroll + lines <= usize::MAX,
        ensures
            *final(self) == (App {
                content_scroll: min_int(
                    old(self).content_scroll + lines,
                    last_row(page_len(old(self).content_page)),
                ) as usize,
                ..*old(self)
            }),
    {
        let n = self.page_blocks();
        let max = if n > 0 {
            n - 1
        } else {
            0
        };
        let target = self.content_scroll + lines;
        self.content_scroll = if target < max {
            target
        } else {
            max
        };
    }

    /// Scrolls the content up by `lines` blocks, stopping at the top.
    pub fn scroll_up(&mut self, lines: usize)
        ensures
            *final(self) == (App {
                content_scroll: if old(self).content_scroll > lines {
                    (old(self).content_scroll - lines) as usize
                } else {
                    0
                },
                ..*old(self)
            }),
    {
        self.content_scroll = if self.content_scroll > lines {
            self.content_scroll - lines
        } else {
            0
        };
    }

    /// Scrolls to the top of the content.
    pub fn scroll_to_top(&mut self)
        ensures
            *final(self) == (App { content_scroll: 0, ..*old(self) }),
    {
        self.content_scroll = 0;
    }

    /// Scrolls to the last block of the content.
    pub fn scroll_to_bottom(&mut self)
        ensures
            *final(self) == (App {
                content_scroll: last_row(page_len(old(self).content_page)) as usize,
                ..*old(self)
            }),
    {
        let n = self.page_blocks();
        self.content_scroll = if n > 0 {
            n - 1
        } else {
            0
        };
    }

    /// Scrolls the content left by `cols` columns, stopping at 0.
    pub fn scroll_left(&mut self, cols: u16)
        ensures
            *final(self) == (App {
                content_scroll_x: if old(self).content_scroll_x > cols {
                    (old(self).content_scroll_x - cols) as u16
                } else {
                    0
                },
                ..*old(self)
            }),
    {
        self.content_scroll_x = if self.content_scroll_x > cols {
            self.content_scroll_x - cols
        } else {
            0
        };
    }

    /// Scrolls the content right by `cols` columns, stopping at the
    /// largest offset.
    pub fn scroll_right(&mut self, cols: u16)
        ensures
            *final(self) == (App {
                content_scroll_x: if old(self).content_scroll_x + cols > u16::MAX {
                    u16::MAX
                } else {
                    (old(self).content_scroll_x + cols) as u16
                },
                ..*old(self)
            }),
    {
        self.content_scroll_x = if self.content_scroll_x > u16::MAX - cols {
            u16::MAX
        } else {
            self.content_scroll_x + cols
        };
    }

    /// Switches line wrapping of the content; turning it on resets the
    /// horizontal scroll.
    pub fn toggle_wrap(&mut self)
        ensures
            final(self).config == (Config { content_wrap: !old(self).config.content_wrap, ..old(self).config }),
            *final(self) == (App {
                config: final(self).config,
                content_scroll_x: if final(self).config.content_wrap {
                    0
                } else {
                    old(self).content_scroll_x
                },
                ..*old(self)
            }),
    {
        self.config.content_wrap = !self.config.content_wrap;
        if self.config.content_wrap {
            self.content_scroll_x = 0;
        }
    }

    /// Zooms in one step, up to 20.
    pub fn zoom_in(&mut self)
        requires
            old(self).zoom_power < i32::MAX,
        ensures
            *final(self) == (App { zoom_power: min_int(old(self).zoom_power + 1, 20) as i32, ..*old(self) }),
    {
        let z = self.zoom_power + 1;
        self.zoom_power = if z < 20 {
            z
        } else {
            20
        };
    }

    /// Zooms out one step, down to -10.
    pub fn zoom_out(&mut self)
        requires
            old(self).zoom_power > i32::MIN,
        ensures
            *final(self) == (App {
                zoom_power: if old(self).zoom_power - 1 > -10 {
                    (old(self).zoom_power - 1) as i32
                } else {
                    -10i32
                },
                ..*old(self)
            }),
    {
        let z = self.zoom_power - 1;
        self.zoom_power = if z > -10 {
            z
        } else {
            -10
        };
    }

    /// Resets the zoom.
    pub fn zoom_reset(&mut self)
        ensures
            *final(self) == (App { zoom_power: 0, ..*old(self) }),
    {
        self.zoom_power = 0;
    }

    /// Moves to the next match of the find text, wrapping around.
    pub fn find_next(&mut self)
        requires
            old(self).find_matches@.len() > 0 ==> old(self).find_cursor < usize::MAX,
        ensures
            old(self).find_matches@.len() == 0 ==> *final(self) == *old(self),
            old(self).find_matches@.len() > 0 ==> {
                let c = ((old(self).find_cursor + 1) % (old(self).find_matches@.len() as int)) as usize;
                *final(self) == (App {
                    find_cursor: c,
                    content_scroll: old(self).find_matches@[c as int],
                    ..*old(self)
                })
            },
    {
        if self.find_matches.len() == 0 {
            return;
        }
        self.find_cursor = (self.find_cursor + 1) % self.find_matches.len();
        self.content_scroll = self.find_matches[self.find_cursor];
    }

    /// Moves to the previous match of the find text, wrapping around.
    pub fn find_prev(&mut self)
        requires
            old(self).find_matches@.len() == 0 || old(self).find_cursor <= old(self).find_matches@.len(),
        ensures
            old(self).find_matches@.len() == 0 ==> *final(self) == *old(self),
            old(self).find_matches@.len() > 0 ==> {
                let c = if old(self).find_cursor == 0 {
                    (old(self).find_matches@.len() - 1) as usize
                } else {
                    (old(self).find_cursor - 1) as usize
                };
                *final(self) == (App {
                    find_cursor: c,
                    content_scroll: old(self).find_matches@[c as int],
                    ..*old(self)
                })
            },
    {
        if self.find_matches.len() == 0 {
            return;
        }
        if self.find_cursor == 0 {
            self.find_cursor = self.find_matches.len() - 1;
        } else {
            self.find_cursor = self.find_cursor - 1;
        }
        self.content_scroll = self.find_matches[self.find_cursor];
    }

    /// Queues `path` for automatic pronunciation, unless it is turned off.
    pub fn trigger_auto_pron(&mut self, path: String)
        ensures
            old(self).config.auto_pron == AutoPronLanguage::Off ==> *final(self) == *old(self),
            old(self).config.auto_pron != AutoPronLanguage::Off ==> *final(self) == (App {
                auto_pron_pending: Some(path),
                ..*old(self)
            }),
    {
        match self.config.auto_pron {
            AutoPronLanguage::Off => {},
            _ => {
                self.auto_pron_pending = Some(path);
            },
        }
    }

    /// Selects the first result whose normalised sort key starts with the
    /// normalised `prefix`; else the first result, if any.
    pub fn select_by_prefix(&mut self, prefix: &str)
        ensures
            ({
                let key = spec_normalize_index_key(prefix@);
                let rs = old(self).results@;
                if exists|i: int| 0 <= i < rs.len() && #[trigger] row_has_prefix(rs[i], key) {
                    final(self).selected_row matches Some(k) && k < rs.len() && row_has_prefix(
                        rs[k as int],
                        key,
                    ) && (forall|j: int| 0 <= j < k ==> !#[trigger] row_has_prefix(rs[j], key))
                        && *final(self) == (App { selected_row: final(self).selected_row, ..*old(self) })
                } else if rs.len() > 0 {
                    *final(self) == (App { selected_row: Some(0), ..*old(self) })
                } else {
                    *final(self) == *old(self)
                }
            }),
    {
        let norm = normalize_index_key(prefix);
        let nk = chars_of(norm.as_str());
        let mut i: usize = 0;
        while i < self.results.len()
            invariant
                i <= self.results@.len(),
                nk@ == spec_normalize_index_key(prefix@),
                self == old(self),
                forall|j: int| 0 <= j < i ==> !#[trigger] row_has_prefix(self.results@[j], nk@),
            decreases self.results@.len() - i,
        {
            let k = normalize_index_key(self.results[i].sortkey.as_str());
            let kc = chars_of(k.as_str());
            if chars_has_prefix(kc.as_slice(), nk.as_slice()) {
                assert(row_has_prefix(self.results@[i as int], nk@));
                self.selected_row = Some(i);
                return;
            }
            i = i + 1;
        }
        if self.results.len() > 0 {
            self.selected_row = Some(0);
        }
    }

    /// Rebuilds the result list: the incremental results, then the
    /// full-text results whose path is not listed yet.
    pub fn rebuild_results(&mut self)
        ensures
            results_view(final(self).results@) == results_view(old(self).incr_results@) + fresh_results(
                paths_of(results_view(old(self).incr_results@)),
                results_view(old(self).fts_results@),
                old(self).fts_results@.len() as int,
            ),
            final(self).results@.len() >= old(self).incr_results@.len(),
            forall|j: int|
                0 <= j < old(self).incr_results@.len() ==> item_view(#[trigger] final(self).results@[j]) == item_view(
                    old(self).incr_results@[j],
                ),
            forall|j: int|
                0 <= j < old(self).fts_results@.len() ==> exists|m: int|
                    0 <= m < final(self).results@.len() && #[trigger] final(self).results@[m].path@ == (
                    #[trigger] old(self).fts_results@[j]).path@,
            forall|i: int, j: int|
                0 <= i < j < final(self).results@.len() && old(self).incr_results@.len() <= j ==> (#[trigger] final(self).results@[i]).path@ != (#[trigger] final(self).results@[j]).path@,
            forall|j: int|
                old(self).incr_results@.len() <= j < final(self).results@.len() ==> exists|m: int|
                    0 <= m < old(self).fts_results@.len() && item_view(#[trigger] old(self).fts_results@[m])
                        == item_view(#[trigger] final(self).results@[j]),
            *final(self) == (App { results: final(self).results, ..*old(self) }),
    {
        let mut seen: Vec<String> = Vec::new();
        let mut results: Vec<SearchResultItem> = Vec::new();
        let mut i: usize = 0;
        while i < self.incr_results.len()
            invariant
                i <= self.incr_results@.len(),
                seen@.map_values(|s: String| s@) == paths_of(results_view(self.incr_results@.take(i as int))),
                results_view(results@) == results_view(self.incr_results@.take(i as int)),
            decreases self.incr_results@.len() - i,
        {
            let ghost seen_before = seen@;
            let ghost results_before = results@;
            let r = clone_item(&self.incr_results[i]);
            let p = r.path.clone();
            seen.push(p);
            results.push(r);
            i = i + 1;
            proof {
                let t = self.incr_results@.take(i as int);
                assert(t =~= self.incr_results@.take(i - 1).push(self.incr_results@[i - 1]));
                assert(results_view(t) =~= results_view(self.incr_results@.take(i - 1)).push(item_view(self.incr_results@[i - 1])));
                assert(results_view(results@) =~= results_view(results_before).push(item_view(self.incr_results@[i - 1])));
                lemma_paths_of_push(results_view(self.incr_results@.take(i - 1)), item_view(self.incr_results@[i - 1]));
                assert(seen@.map_values(|s: String| s@) =~= seen_before.map_values(|s: String| s@).push(self.incr_results@[i - 1].path@));
            }
        }
        assert(self.incr_results@.take(i as int) =~= self.incr_results@);
        let ghost seen0 = seen@.map_values(|s: String| s@);
        let ghost incr = results_view(results@);
        let mut j: usize = 0;
        while j < self.fts_results.len()
            invariant
                j <= self.fts_results@.len(),
                seen@.map_values(|s: String| s@) == seen0 + paths_of(fresh_results(seen0, results_view(self.fts_results@), j as int)),
                results_view(results@) == incr + fresh_results(seen0, results_view(self.fts_results@), j as int),
            decreases self.fts_results@.len() - j,
        {
            let r = &self.fts_results[j];
            let mut found = false;
            let mut k: usize = 0;
            while k < seen.len()
                invariant
                    k <= seen@.len(),
                    found == (exists|m: int| 0 <= m < k && seen@[m]@ == r.path@),
                decreases seen@.len() - k,
            {
                if crate::history::str_equal(seen[k].as_str(), r.path.as_str()) {
                    found = true;
                }
                k = k + 1;
            }
            let ghost sv = seen@.map_values(|s: String| s@);
            proof {
                assert(found == sv.contains(r.path@)) by {
                    if found {
                        let m = choose|m: int| 0 <= m < seen@.len() && seen@[m]@ == r.path@;
                        assert(sv[m] == r.path@);
                    }
                    if sv.contains(r.path@) {
                        let m = choose|m: int| 0 <= m < sv.len() && sv[m] == r.path@;
                        assert(seen@[m]@ == r.path@);
                    }
                }
            }
            let ghost results_before = results@;
            if !found {
                let c = clone_item(r);
                let p = c.path.clone();
                seen.push(p);
                results.push(c);
                proof {
                    assert(seen@.map_values(|s: String| s@) =~= sv.push(r.path@));
                    assert(results_view(results@) =~= results_view(results_before).push(item_view(*r)));
                }
            }
            j = j + 1;
            proof {
                lemma_paths_of_push(fresh_results(seen0, results_view(self.fts_results@), j - 1), item_view(self.fts_results@[j - 1]));
                assert(results_view(results@) =~= incr + fresh_results(seen0, results_view(self.fts_results@), j as int));
                assert(seen@.map_values(|s: String| s@) =~= seen0 + paths_of(fresh_results(seen0, results_view(self.fts_results@), j as int)));
            }
        }
        self.results = results;
        proof {
            let iv = results_view(old(self).incr_results@);
            let fv = results_view(old(self).fts_results@);
            let rv = results_view(self.results@);
            lemma_rebuilt_results(iv, fv);
            assert forall|j: int|
                0 <= j < old(self).fts_results@.len() implies exists|m: int|
                    0 <= m < self.results@.len() && #[trigger] self.results@[m].path@ == (
                    #[trigger] old(self).fts_results@[j]).path@ by {
                assert(fv[j].1 == old(self).fts_results@[j].path@);
                assert(paths_of(rv).contains(fv[j].1));
                let m = choose|m: int| 0 <= m < paths_of(rv).len() && #[trigger] paths_of(rv)[m] == fv[j].1;
                assert(rv[m] == item_view(self.results@[m]));
            }
            assert forall|i: int, j: int|
                0 <= i < j < self.results@.len() && old(self).incr_results@.len() <= j implies (#[trigger] self.results@[
                    i]).path@ != (#[trigger] self.results@[j]).path@ by {
                assert(rv[i] == item_view(self.results@[i]));
                assert(rv[j] == item_view(self.results@[j]));
                if i < iv.len() {
                    assert(rv[i].1 != rv[j].1);
                } else {
                    assert(rv[i].1 != rv[j].1);
                }
            }
            assert forall|j: int|
                old(self).incr_results@.len() <= j < self.results@.len() implies exists|m: int|
                    0 <= m < old(self).fts_results@.len() && item_view(#[trigger] old(self).fts_results@[m])
                        == item_view(#[trigger] self.results@[j]) by {
                assert(rv[j] == item_view(self.results@[j]));
                assert(fv.contains(rv[j]));
                let m = choose|m: int| 0 <= m < fv.len() && #[trigger] fv[m] == rv[j];
                assert(fv[m] == item_view(old(self).fts_results@[m]));
            }
            assert forall|j: int| 0 <= j < old(self).incr_results@.len() implies item_view(
                #[trigger] self.results@[j],
            ) == item_view(old(self).incr_results@[j]) by {
                assert(rv[j] == item_view(self.results@[j]));
                assert(rv.subrange(0, iv.len() as int)[j] == iv[j]);
            }
        }
    }

    /// Searches the page for `query`, ignoring case: records the blocks
    /// whose text contains it and scrolls to the first.
    pub fn find_in_page(&mut self, query: &str)
        ensures
            final(self).find_text@ == query@,
            final(self).find_matches@ == match old(self).content_page {
                Some(p) => matching_blocks(p@, query@, p@.len() as int),
                None => Seq::<usize>::empty(),
            },
            *final(self) == (App {
                find_text: final(self).find_text,
                find_matches: final(self).find_matches,
                find_cursor: 0,
                content_scroll: if final(self).find_matches@.len() > 0 {
                    final(self).find_matches@[0]
                } else {
                    old(self).content_scroll
                },
                ..*old(self)
            }),
    {
        self.find_text = String::from_str(query);
        let mut matches: Vec<usize> = Vec::new();
        self.find_cursor = 0;
        match &self.content_page {
            Some(page) => {
                let ql = str_lowercase(query);
                let qc = chars_of(ql.as_str());
                let mut i: usize = 0;
                while i < page.len()
                    invariant
                        i <= page@.len(),
                        qc@ == spec_str_lowercase(query@),
                        matches@ == matching_blocks(page@, query@, i as int),
                    decreases page@.len() - i,
                {
                    let text = block_find_text(&page[i]);
                    let ts = string_from_chars(text.as_slice());
                    let tl = str_lowercase(ts.as_str());
                    let tc = chars_of(tl.as_str());
                    if chars_contain(tc.as_slice(), qc.as_slice()) {
                        matches.push(i);
                    }
                    i = i + 1;
                }
            },
            None => {},
        }
        if matches.len() > 0 {
            self.content_scroll = matches[0];
        }
        self.find_matches = matches;
    }

    /// Searches for text that appeared on the clipboard, when clipboard
    /// monitoring is on: new non-blank text (trimmed) is remembered and,
    /// if it has at most five words, becomes the search text.
    pub fn handle_clipboard_change(&mut self, text: &str)
        ensures
            ({
                let t = spec_trim(text@);
                if !old(self).config.monitor_clipboard || t.len() == 0 || t == old(self).clipboard_text@ {
                    *final(self) == *old(self)
                } else if word_count(t) <= 5 {
                    &&& final(self).clipboard_text@ == t
                    &&& final(self).search_text@ == t
                    &&& *final(self) == (App {
                        clipboard_text: final(self).clipboard_text,
                        search_text: final(self).search_text,
                        search_cursor: t.len() as usize,
                        ..*old(self)
                    })
                } else {
                    &&& final(self).clipboard_text@ == t
                    &&& *final(self) == (App { clipboard_text: final(self).clipboard_text, ..*old(self) })
                }
            }),
    {
        if !self.config.monitor_clipboard {
            return;
        }
        let tc = chars_of(text);
        let t = trim_chars(tc.as_slice());
        if t.len() == 0 {
            return;
        }
        let ts = string_from_chars(t.as_slice());
        if crate::history::str_equal(ts.as_str(), self.clipboard_text.as_str()) {
            return;
        }
        self.clipboard_text = ts;
        if count_words(t.as_slice()) <= 5 {
            self.search_text = string_from_chars(t.as_slice());
            self.search_cursor = t.len();
        }
    }

    /// The full-text filter expression of the checked advanced-search
    /// filters, joined with " OR " (empty when none is checked).
    pub fn adv_make_filter_string(&self) -> (r: String)
        ensures
            r@ == join_with(tree_filters(self.adv_filter_tree@), " OR "@),
    {
        let mut codes: Vec<String> = Vec::new();
        let mut i: usize = 0;
        while i < self.adv_filter_tree.len()
            invariant
                i <= self.adv_filter_tree@.len(),
                codes@.map_values(|s: String| s@) == crate::filters::nodes_filters(self.adv_filter_tree@, i as int),
            decreases self.adv_filter_tree@.len() - i,
        {
            self.adv_filter_tree[i].collect_filter(&mut codes);
            i = i + 1;
        }
        let ghost parts = codes@.map_values(|s: String| s@);
        let mut r = String::new();
        let mut k: usize = 0;
        while k < codes.len()
            invariant
                k <= codes@.len(),
                parts == codes@.map_values(|s: String| s@),
                r@ == join_with(parts.take(k as int), " OR "@),
            decreases codes@.len() - k,
        {
            if k > 0 {
                r.append(" OR ");
            }
            r.append(codes[k].as_str());
            k = k + 1;
            proof {
                let t = parts.take(k as int);
                assert(t.drop_last() =~= parts.take(k - 1));
                if k == 1 {
                    assert(parts.take(0) =~= Seq::<Seq<char>>::empty());
                }
            }
        }
        assert(parts.take(codes@.len() as int) =~= parts);
        r
    }

    /// Whether spelling suggestions are wanted: no result, and a one-word
    /// query.
    pub fn spell_check_wanted(&self) -> (r: bool)
        ensures
            r == (self.results@.len() == 0 && word_count(self.search_text@) == 1),
    {
        if self.results.len() != 0 {
            return false;
        }
        let tc = chars_of(self.search_text.as_str());
        count_words(tc.as_slice()) == 1
    }

    /// Updates the spelling suggestions: when they are wanted, to the
    /// `suggestions` of the full-text index (kept as they are when it gave
    /// none); otherwise they are cleared.
    pub fn check_spell(&mut self, suggestions: Option<Vec<String>>)
        ensures
            ({
                let wanted = old(self).results@.len() == 0 && word_count(old(self).search_text@) == 1;
                if wanted {
                    match suggestions {
                        Some(v) => *final(self) == (App { spell_suggestions: v, ..*old(self) }),
                        None => *final(self) == *old(self),
                    }
                } else {
                    &&& final(self).spell_suggestions@.len() == 0
                    &&& *final(self) == (App { spell_suggestions: final(self).spell_suggestions, ..*old(self) })
                }
            }),
    {
        if self.spell_check_wanted() {
            match suggestions {
                Some(v) => {
                    self.spell_suggestions = v;
                },
                None => {},
            }
        } else {
            self.spell_suggestions = Vec::new();
        }
    }

    /// What can be exported to Anki from the first three blocks of the
    /// page: the first text as header, the following texts as meaning, and
    /// the audio paths; `None` without a page.
    pub fn anki_export_info(&self) -> (r: Option<AnkiExportInfo>)
        ensures
            match self.content_page {
                None => r is None,
                Some(p) => r matches Some(info) && {
                    let f = anki_fold(page_inlines(p@, min_int(3, p@.len() as int)));
                    &&& info.header@ == f.0
                    &&& info.meaning@ == f.1
                    &&& info.audio_paths@.map_values(|s: String| s@) == f.2
                },
            },
    {
        match &self.content_page {
            None => None,
            Some(page) => {
                let mut header = String::new();
                let mut meaning = String::new();
                let mut audio: Vec<String> = Vec::new();
                let n = if page.len() < 3 {
                    page.len()
                } else {
                    3
                };
                let mut b: usize = 0;
                while b < n
                    invariant
                        n <= page@.len(),
                        b <= n,
                        (header@, meaning@, audio@.map_values(|s: String| s@)) == anki_fold(page_inlines(page@, b as int)),
                    decreases n - b,
                {
                    let block = &page[b];
                    let ghost pre = page_inlines(page@, b as int);
                    let mut i: usize = 0;
                    while i < block.inlines.len()
                        invariant
                            i <= block.inlines@.len(),
                            (header@, meaning@, audio@.map_values(|s: String| s@)) == anki_fold(pre + inlines_view(block.inlines@).take(i as int)),
                        decreases block.inlines@.len() - i,
                    {
                        let ghost s0 = pre + inlines_view(block.inlines@).take(i as int);
                        let ghost a0 = audio@;
                        match &block.inlines[i] {
                            Inline::Text(t, _) => {
                                if header.as_str().is_empty() {
                                    header.append(t.as_str());
                                } else {
                                    meaning.append(t.as_str());
                                }
                            },
                            Inline::Headword(t) => {
                                if header.as_str().is_empty() {
                                    header.append(t.as_str());
                                } else {
                                    meaning.append(t.as_str());
                                }
                            },
                            Inline::Prefix(t, _) => {
                                if header.as_str().is_empty() {
                                    header.append(t.as_str());
                                } else {
                                    meaning.append(t.as_str());
                                }
                            },
                            Inline::AudioButton { path, .. } => {
                                audio.push(path.clone());
                                assert(audio@.map_values(|s: String| s@) =~= a0.map_values(|s: String| s@).push(path@));
                            },
                            _ => {},
                        }
                        i = i + 1;
                        proof {
                            let s1 = pre + inlines_view(block.inlines@).take(i as int);
                            assert(s1.drop_last() =~= s0);
                            assert(s1.last() == block.inlines@[i - 1]@);
                        }
                    }
                    b = b + 1;
                    assert(inlines_view(block.inlines@).take(block.inlines@.len() as int) =~= inlines_view(block.inlines@));
                }
                Some(AnkiExportInfo { header, meaning, audio_paths: audio })
            },
        }
    }

    /// Collects the audio buttons of the page shown, with the block and
    /// column where each starts.
    pub fn rebuild_audio_buttons(&mut self)
        ensures
            buttons_view(final(self).audio_buttons@) == buttons_of(old(self).content_page),
            *final(self) == (App { audio_buttons: final(self).audio_buttons, ..*old(self) }),
    {
        let mut buttons: Vec<(usize, u16, String, String)> = Vec::new();
        match &self.content_page {
            Some(page) => {
                let mut b: usize = 0;
                while b < page.len()
                    invariant
                        b <= page@.len(),
                        buttons_view(buttons@) == page_buttons(page@, b as int),
                    decreases page@.len() - b,
                {
                    let block = &page[b];
                    let base: usize = (block.indent as usize) * 2;
                    let mut col: usize = base;
                    let ghost pre = buttons_view(buttons@);
                    let ghost v = inlines_view(block.inlines@);
                    let mut i: usize = 0;
                    while i < block.inlines.len()
                        invariant
                            i <= block.inlines@.len(),
                            v == inlines_view(block.inlines@),
                            base == (block.indent * 2) as usize,
                            (col, buttons_view(buttons@)) == (scan_buttons(v, b, base, i as int).0, pre + scan_buttons(v, b, base, i as int).1),
                        decreases block.inlines@.len() - i,
                    {
                        let ghost bv0 = buttons_view(buttons@);
                        match &block.inlines[i] {
                            Inline::AudioButton { path, title } => {
                                let w: usize = if crate::history::str_equal(title.as_str(), "British")
                                    || crate::history::str_equal(title.as_str(), "American") {
                                    4
                                } else {
                                    3
                                };
                                let c16: u16 = #[verifier::truncate] (col as u16);
                                buttons.push((b, c16, path.clone(), title.clone()));
                                assert(buttons_view(buttons@) =~= bv0.push((b, c16, path@, title@)));
                                col = col.wrapping_add(w);
                            },
                            Inline::Prefix(t, _) => {
                                col = col.wrapping_add(t.as_str().unicode_len());
                            },
                            Inline::Text(t, _) => {
                                col = col.wrapping_add(t.as_str().unicode_len());
                            },
                            Inline::Headword(t) => {
                                col = col.wrapping_add(t.as_str().unicode_len());
                            },
                            Inline::Link { text, .. } => {
                                col = col.wrapping_add(text.as_str().unicode_len());
                            },
                            Inline::LineBreak => {
                                col = base;
                            },
                            Inline::Image { .. } => {},
                            Inline::Badge { text } => {
                                col = col.wrapping_add(text.as_str().unicode_len()).wrapping_add(3);
                            },
                            Inline::Signpost { text } => {
                                col = col.wrapping_add(text.as_str().unicode_len()).wrapping_add(6);
                            },
                        }
                        i = i + 1;
                        proof {
                            assert(pre + scan_buttons(v, b, base, i as int).1 =~= (pre + scan_buttons(v, b, base, i - 1).1) + (scan_buttons(v, b, base, i as int).1.skip(scan_buttons(v, b, base, i - 1).1.len() as int)));
                        }
                    }
                    b = b + 1;
                }
            },
            None => {},
        }
        self.audio_buttons = buttons;
    }

    /// Shows `path`: records it in the history with the current query,
    /// scrolls to the top, queues the pronunciation of an entry, and
    /// collects the audio buttons of the page.
    pub fn navigate_to(&mut self, path: &str)
        requires
            old(self).history.wf(),
        ensures
            final(self).history.wf(),
            final(self).history.state() == history_push(old(self).history.state(), path@, old(self).search_text@),
            final(self).current_path matches Some(p) && p@ == path@,
            match auto_pron_for(path@) {
                Some(k) => final(self).auto_pron_pending matches Some(a) && a@ == k,
                None => final(self).auto_pron_pending is None,
            },
            buttons_view(final(self).audio_buttons@) == buttons_of(old(self).content_page),
            *final(self) == (App {
                current_path: final(self).current_path,
                history: final(self).history,
                content_scroll: 0,
                auto_pron_pending: final(self).auto_pron_pending,
                audio_buttons: final(self).audio_buttons,
                ..*old(self)
            }),
    {
        self.current_path = Some(String::from_str(path));
        self.history.push(path, self.search_text.as_str());
        self.content_scroll = 0;
        self.auto_pron_pending = match ContentId::from_path(path) {
            Some(c) => if c.content_type == ContentType::Entry {
                Some(c.id)
            } else {
                None
            },
            None => None,
        };
        self.rebuild_audio_buttons();
    }

    /// The position of the audio button nearest to block `near_block`
    /// (the first of equally near ones).
    fn nearest_button_index(&self, near_block: usize) -> (best: usize)
        requires
            self.audio_buttons@.len() > 0,
        ensures
            best == nearest_button(self.audio_buttons@, near_block, self.audio_buttons@.len() as int),
            best < self.audio_buttons@.len(),
    {
        let n = self.audio_buttons.len();
        let mut best: usize = 0;
        let mut i: usize = 1;
        while i < n
            invariant
                1 <= i <= n,
                n == self.audio_buttons@.len(),
                best == nearest_button(self.audio_buttons@, near_block, i as int),
                best < i,
            decreases n - i,
        {
            let a = self.audio_buttons[i].0;
            let da = if a >= near_block {
                a - near_block
            } else {
                near_block - a
            };
            let bb = self.audio_buttons[best].0;
            let db = if bb >= near_block {
                bb - near_block
            } else {
                near_block - bb
            };
            if da < db {
                best = i;
            }
            i = i + 1;
        }
        best
    }

    /// The archive and file named by the audio button nearest to block
    /// `near_block` (the first of equally near ones); none without buttons
    /// or when its path has no `/` after its first part.
    pub fn nearest_audio_target(&self, near_block: usize) -> (r: Option<(String, String)>)
        ensures
            if self.audio_buttons@.len() == 0 {
                r is None
            } else {
                match split_audio_path(
                    self.audio_buttons@[nearest_button(
                        self.audio_buttons@,
                        near_block,
                        self.audio_buttons@.len() as int,
                    )].2@,
                ) {
                    None => r is None,
                    Some((a, f)) => r matches Some((ra, rf)) && ra@ == a && rf@ == f,
                }
            },
    {
        if self.audio_buttons.len() == 0 {
            return None;
        }
        let best = self.nearest_button_index(near_block);
        split_audio(self.audio_buttons[best].2.as_str())
    }

    /// Finds the audio button nearest to block `near_block` (the first of
    /// equally near ones) and reports whether its path names an archive
    /// and a file to play.
    pub fn play_nearest_audio(&mut self, near_block: usize) -> (r: bool)
        ensures
            *final(self) == *old(self),
            r == (old(self).audio_buttons@.len() > 0 && first_index_of(
                strip_leading_slashes(
                    old(self).audio_buttons@[nearest_button(
                        old(self).audio_buttons@,
                        near_block,
                        old(self).audio_buttons@.len() as int,
                    )].2@,
                ),
                '/',
            ) is Some),
    {
        if self.audio_buttons.len() == 0 {
            return false;
        }
        let best = self.nearest_button_index(near_block);
        let pc = chars_of(self.audio_buttons[best].2.as_str());
        has_second_part(pc.as_slice())
    }
}

} // verus!
