//! Browser-style navigation history with back and forward.

use std::collections::VecDeque;
use vstd::prelude::*;

verus! {

/// One visited page: its content path and the query that led to it.
#[derive(Debug, Clone)]
pub struct HistoryEntry {
    pub path: String,
    pub query: String,
}

/// The plain value of a history entry: `(path, query)`.
pub open spec fn entry_view(e: HistoryEntry) -> (Seq<char>, Seq<char>) {
    (e.path@, e.query@)
}

/// The most entries a history keeps.
pub const HISTORY_MAX: usize = 50;

/// The abstract state of a history: its entries and the position of the
/// current one.
pub struct HistoryState {
    pub entries: Seq<(Seq<char>, Seq<char>)>,
    pub cursor: int,
}

/// A well-formed history state: at most `HISTORY_MAX` entries, the cursor on
/// an entry, or at 0 when there is none.
pub open spec fn history_wf(s: HistoryState) -> bool {
    &&& s.entries.len() <= HISTORY_MAX
    &&& if s.entries.len() == 0 {
        s.cursor == 0
    } else {
        0 <= s.cursor < s.entries.len()
    }
}

/// The state after visiting `path` from the query `query`: forward entries
/// are dropped; visiting the current page again changes nothing more; the
/// oldest entry goes when the history is full; the new entry becomes
/// current.
pub open spec fn history_push(s: HistoryState, path: Seq<char>, query: Seq<char>) -> HistoryState {
    let kept = if s.entries.len() > s.cursor + 1 {
        s.entries.take(s.cursor + 1)
    } else {
        s.entries
    };
    if kept.len() > 0 && kept.last().0 == path {
        HistoryState { entries: kept, cursor: s.cursor }
    } else {
        let room = if kept.len() >= HISTORY_MAX {
            kept.drop_first()
        } else {
            kept
        };
        HistoryState { entries: room.push((path, query)), cursor: room.len() as int }
    }
}

/// There is an entry before the current one.
pub open spec fn history_can_back(s: HistoryState) -> bool {
    s.cursor > 0
}

/// There is an entry after the current one.
pub open spec fn history_can_forward(s: HistoryState) -> bool {
    s.cursor + 1 < s.entries.len()
}

/// The state after going back, when possible.
pub open spec fn history_back(s: HistoryState) -> HistoryState {
    if history_can_back(s) {
        HistoryState { entries: s.entries, cursor: s.cursor - 1 }
    } else {
        s
    }
}

/// The state after going forward, when possible.
pub open spec fn history_forward(s: HistoryState) -> HistoryState {
    if history_can_forward(s) {
        HistoryState { entries: s.entries, cursor: s.cursor + 1 }
    } else {
        s
    }
}

/// The paths of the entries before the current one, most recent first, at
/// most 20.
pub open spec fn history_back_paths(s: HistoryState) -> Seq<Seq<char>> {
    let n = if s.cursor < 20 {
        s.cursor
    } else {
        20
    };
    Seq::new(n as nat, |k: int| s.entries[s.cursor - 1 - k].0)
}

/// The paths of the entries after the current one, in order, at most 20.
pub open spec fn history_forward_paths(s: HistoryState) -> Seq<Seq<char>> {
    let rest = s.entries.len() - (s.cursor + 1);
    let n = if rest <= 0 {
        0
    } else if rest < 20 {
        rest
    } else {
        20
    };
    Seq::new(n as nat, |k: int| s.entries[s.cursor + 1 + k].0)
}

/// Navigation history.
pub struct NavHistory {
    pub entries: VecDeque<HistoryEntry>,
    pub cursor: usize,
    /// Maximum number of entries to keep.
    max: usize,
}

impl NavHistory {
    /// The abstract state of this history.
    pub closed spec fn state(&self) -> HistoryState {
        HistoryState { entries: self.entries@.map_values(|e: HistoryEntry| entry_view(e)), cursor: self.cursor as int }
    }

    /// The history is well formed and keeps at most `HISTORY_MAX` entries.
    pub closed spec fn wf(&self) -> bool {
        &&& self.max == HISTORY_MAX
        &&& history_wf(self.state())
    }

    /// An empty history.
    pub fn new() -> (h: Self)
        ensures
            h.wf(),
            h.state().entries.len() == 0,
            h.state().cursor == 0,
    {
        let h = NavHistory { entries: VecDeque::new(), cursor: 0, max: HISTORY_MAX };
        assert(h.state().entries =~= Seq::<(Seq<char>, Seq<char>)>::empty());
        h
    }

    /// Visits `path`, found from `query`, discarding any forward history.
    pub fn push(&mut self, path: &str, query: &str)
        requires
            old(self).wf(),
        ensures
            final(self).wf(),
            final(self).state() == history_push(old(self).state(), path@, query@),
    {
        let ghost s0 = self.state();
        while self.entries.len() > self.cursor + 1
            invariant
                self.max == HISTORY_MAX,
                self.cursor == s0.cursor,
                s0.cursor <= HISTORY_MAX,
                s0.entries.len() <= HISTORY_MAX,
                self.entries@.len() <= s0.entries.len(),
                self.entries@.len() == s0.entries.len() || self.cursor + 1 <= self.entries@.len(),
                self.state().entries == s0.entries.take(self.entries@.len() as int),
            decreases self.entries@.len(),
        {
            let ghost before = self.entries@;
            self.entries.pop_back();
            assert(self.state().entries =~= s0.entries.take(self.entries@.len() as int));
        }
        proof {
            if s0.entries.len() <= s0.cursor + 1 {
                assert(s0.entries.take(s0.entries.len() as int) =~= s0.entries);
            }
        }
        let n = self.entries.len();
        if n > 0 {
            let same = str_equal(self.entries[n - 1].path.as_str(), path);
            if same {
                return;
            }
        }
        let ghost kept = self.state().entries;
        if self.entries.len() >= self.max {
            self.entries.pop_front();
            if self.cursor > 0 {
                self.cursor = self.cursor - 1;
            }
            assert(self.state().entries =~= kept.drop_first());
        }
        let ghost room = self.state().entries;
        self.entries.push_back(HistoryEntry { path: String::from_str(path), query: String::from_str(query) });
        self.cursor = self.entries.len() - 1;
        assert(self.state().entries =~= room.push((path@, query@)));
    }

    /// There is an entry to go back to.
    pub fn can_go_back(&self) -> (r: bool)
        ensures
            r == history_can_back(self.state()),
    {
        self.cursor > 0
    }

    /// There is an entry to go forward to.
    pub fn can_go_forward(&self) -> (r: bool)
        ensures
            r == history_can_forward(self.state()),
    {
        self.entries.len() > 0 && self.cursor < self.entries.len() - 1
    }

    /// Goes back one entry and returns it; `None` at the oldest entry.
    pub fn go_back(&mut self) -> (r: Option<&HistoryEntry>)
        requires
            old(self).wf(),
        ensures
            final(self).wf(),
            final(self).state() == history_back(old(self).state()),
            history_can_back(old(self).state()) ==> (r matches Some(e) && entry_view(*e)
                == final(self).state().entries[final(self).state().cursor]),
            !history_can_back(old(self).state()) ==> r is None,
    {
        if self.can_go_back() {
            self.cursor = self.cursor - 1;
            Some(&self.entries[self.cursor])
        } else {
            None
        }
    }

    /// Goes forward one entry and returns it; `None` at the newest entry.
    pub fn go_forward(&mut self) -> (r: Option<&HistoryEntry>)
        requires
            old(self).wf(),
        ensures
            final(self).wf(),
            final(self).state() == history_forward(old(self).state()),
            history_can_forward(old(self).state()) ==> (r matches Some(e) && entry_view(*e)
                == final(self).state().entries[final(self).state().cursor]),
            !history_can_forward(old(self).state()) ==> r is None,
    {
        if self.can_go_forward() {
            self.cursor = self.cursor + 1;
            Some(&self.entries[self.cursor])
        } else {
            None
        }
    }

    /// The paths of up to 20 entries before the current one, most recent
    /// first.
    pub fn back_list(&self) -> (r: Vec<&str>)
        requires
            self.wf(),
        ensures
            r@.map_values(|p: &str| p@) == history_back_paths(self.state()),
    {
        let mut r: Vec<&str> = Vec::new();
        let mut k: usize = 0;
        while k < self.cursor && k < 20
            invariant
                self.wf(),
                k <= self.cursor,
                k <= 20,
                r@.map_values(|p: &str| p@) == history_back_paths(self.state()).take(k as int),
            decreases 20 - k,
        {
            let ghost r0 = r@;
            let e = &self.entries[self.cursor - 1 - k];
            let p = e.path.as_str();
            r.push(p);
            proof {
                let idx = self.cursor - 1 - k;
                assert(self.state().entries[idx as int] == entry_view(self.entries@[idx as int]));
                assert(history_back_paths(self.state())[k as int] == self.entries@[idx as int].path@);
                assert(r@.map_values(|p: &str| p@) =~= r0.map_values(|p: &str| p@).push(p@));
            }
            k = k + 1;
            assert(r@.map_values(|p: &str| p@) =~= history_back_paths(self.state()).take(k as int));
        }
        assert(history_back_paths(self.state()).take(k as int) =~= history_back_paths(self.state()));
        r
    }

    /// The paths of up to 20 entries after the current one, in order.
    pub fn forward_list(&self) -> (r: Vec<&str>)
        requires
            self.wf(),
        ensures
            r@.map_values(|p: &str| p@) == history_forward_paths(self.state()),
    {
        let mut r: Vec<&str> = Vec::new();
        let mut k: usize = 0;
        let n = self.entries.len();
        while self.cursor + 1 + k < n && k < 20
            invariant
                self.wf(),
                n == self.entries@.len(),
                self.cursor + 1 + k <= n || (n == 0 && k == 0),
                k <= 20,
                r@.map_values(|p: &str| p@) == history_forward_paths(self.state()).take(k as int),
            decreases 20 - k,
        {
            let ghost r0 = r@;
            let e = &self.entries[self.cursor + 1 + k];
            let p = e.path.as_str();
            r.push(p);
            proof {
                let idx = self.cursor + 1 + k;
                assert(self.state().entries[idx as int] == entry_view(self.entries@[idx as int]));
                assert(history_forward_paths(self.state())[k as int] == self.entries@[idx as int].path@);
                assert(r@.map_values(|p: &str| p@) =~= r0.map_values(|p: &str| p@).push(p@));
            }
            k = k + 1;
            assert(r@.map_values(|p: &str| p@) =~= history_forward_paths(self.state()).take(k as int));
        }
        assert(history_forward_paths(self.state()).take(k as int) =~= history_forward_paths(self.state()));
        r
    }
}

/// Whether two strings hold the same characters.
pub fn str_equal(a: &str, b: &str) -> (r: bool)
    ensures
        r == (a@ == b@),
{
    let ac = crate::text::chars_of(a);
    let bc = crate::text::chars_of(b);
    if ac.len() != bc.len() {
        return false;
    }
    let mut i: usize = 0;
    while i < ac.len()
        invariant
            i <= ac@.len(),
            ac@.len() == bc@.len(),
            ac@ == a@,
            bc@ == b@,
            forall|k: int| 0 <= k < i ==> ac@[k] == bc@[k],
        decreases ac@.len() - i,
    {
        if ac[i] != bc[i] {
            return false;
        }
        i = i + 1;
    }
    assert(ac@ =~= bc@);
    true
}

/// Every operation keeps a history well formed.
pub proof fn lemma_history_wf_kept(s: HistoryState, path: Seq<char>, query: Seq<char>)
    requires
        history_wf(s),
    ensures
        history_wf(history_push(s, path, query)),
        history_wf(history_back(s)),
        history_wf(history_forward(s)),
{
}

/// After a visit there is no forward history, and the current entry is the
/// visited path.
pub proof fn lemma_push_clears_forward(s: HistoryState, path: Seq<char>, query: Seq<char>)
    requires
        history_wf(s),
    ensures
        !history_can_forward(history_push(s, path, query)),
        history_push(s, path, query).entries[history_push(s, path, query).cursor].0 == path,
{
}

/// Visiting the current page again changes nothing.
pub proof fn lemma_push_same_page_twice(s: HistoryState, path: Seq<char>, q1: Seq<char>, q2: Seq<char>)
    requires
        history_wf(s),
    ensures
        history_push(history_push(s, path, q1), path, q2) == history_push(s, path, q1),
{
    let t = history_push(s, path, q1);
    assert(t.entries.take(t.cursor + 1) =~= t.entries);
}

/// Going back and then forward returns to the same entry.
pub proof fn lemma_back_then_forward(s: HistoryState)
    requires
        history_wf(s),
        history_can_back(s),
    ensures
        history_forward(history_back(s)) == s,
{
}

/// Going forward and then back returns to the same entry.
pub proof fn lemma_forward_then_back(s: HistoryState)
    requires
        history_wf(s),
        history_can_forward(s),
    ensures
        history_back(history_forward(s)) == s,
{
}

} // verus!
