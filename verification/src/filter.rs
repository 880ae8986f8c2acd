//! The lists of matches behind the search boxes.

use vstd::prelude::*;

use crate::path;
use crate::state;
use crate::state::State;
use crate::text;

verus! {

broadcast use vstd::string::group_string_axioms;

/// Positions depend only on the predicate's values below the bound.
proof fn lemma_indices_same(n: nat, p: spec_fn(int) -> bool, q: spec_fn(int) -> bool)
    requires
        forall|i: int| 0 <= i < n ==> p(i) == #[trigger] q(i),
    ensures
        state::indices(n, p) == state::indices(n, q),
    decreases n,
{
    if n > 0 {
        assert(p(n - 1) == q(n - 1));
        lemma_indices_same((n - 1) as nat, p, q);
    }
}

/// The positions where a predicate holds, stated of each position: they are
/// in increasing order, the predicate holds of each, and none is missing.
pub proof fn lemma_indices(n: nat, p: spec_fn(int) -> bool)
    requires
        n <= usize::MAX,
    ensures
        forall|k: int|
            0 <= k < state::indices(n, p).len() ==> (#[trigger] state::indices(n, p)[k]) < n && p(
                state::indices(n, p)[k] as int,
            ),
        forall|k: int, l: int|
            0 <= k < l < state::indices(n, p).len() ==> (#[trigger] state::indices(n, p)[k])
                < #[trigger] state::indices(n, p)[l],
        forall|i: int|
            0 <= i < n && #[trigger] p(i) ==> state::indices(n, p).contains(i as usize),
    decreases n,
{
    if n > 0 {
        let before = state::indices((n - 1) as nat, p);
        let all = state::indices(n, p);
        lemma_indices((n - 1) as nat, p);
        assert forall|i: int| 0 <= i < n && #[trigger] p(i) implies all.contains(i as usize) by {
            if i < n - 1 {
                assert(before.contains(i as usize));
                let k = choose|k: int| 0 <= k < before.len() && before[k] == i as usize;
                assert(all[k] == i as usize);
            } else {
                assert(all[all.len() - 1] == i as usize);
            }
        }
    }
}

/// Every position below `n`.
pub open spec fn every_index(n: nat) -> Seq<usize> {
    Seq::new(n, |i: int| i as usize)
}

/// A predicate that always holds leaves every position.
proof fn lemma_every_index(n: nat, p: spec_fn(int) -> bool)
    requires
        forall|i: int| 0 <= i < n ==> #[trigger] p(i),
    ensures
        state::indices(n, p) == every_index(n),
    decreases n,
{
    if n > 0 {
        lemma_every_index((n - 1) as nat, p);
        assert(p(n - 1));
        assert(every_index(n) =~= every_index((n - 1) as nat).push((n - 1) as usize));
    } else {
        assert(every_index(n) =~= seq![]);
    }
}

/// Whether a text matches a search text that is already in lower case.
fn matches_lower(needle: &str, t: &str) -> (r: bool)
    ensures
        r == (needle@.len() == 0 || text::is_substring(text::lowercase(t@), needle@)),
{
    if needle.is_empty() {
        return true;
    }
    let lower = text::to_lowercase(t);
    text::has_substring(lower.as_str(), needle)
}

impl State {
    /// Finds the bookmarks that match their search text again.
    pub fn refresh_bookmarks_filter(&mut self)
        requires
            old(self).wf(),
        ensures
            final(self).wf(),
            final(self)@ == old(self)@.refreshed_bookmarks(),
            old(self)@.search.bookmarks.len() == 0 ==> final(self)@.filter.bookmarks
                == every_index(old(self)@.bookmarks.len()),
    {
        let needle = text::to_lowercase(self.ui.bookmarks_search.as_str());
        let ghost m = self@;
        let ghost p = |j: int| state::matches_search(m.search.bookmarks, m.bookmarks[j]);
        let mut r: Vec<usize> = Vec::new();
        let mut i: usize = 0;
        while i < self.dir_bookmarks.len()
            invariant
                i <= self.dir_bookmarks@.len(),
                self@ == m,
                needle@ == text::lowercase(m.search.bookmarks),
                p == (|j: int| state::matches_search(m.search.bookmarks, m.bookmarks[j])),
                r@ == state::indices(i as nat, p),
            decreases self.dir_bookmarks@.len() - i,
        {
            assert(m.bookmarks[i as int] == self.dir_bookmarks@[i as int]@);
            if matches_lower(needle.as_str(), self.dir_bookmarks[i].as_str()) {
                r.push(i);
            }
            i += 1;
        }
        proof {
            if m.search.bookmarks.len() == 0 {
                lemma_every_index(m.bookmarks.len(), p);
            }
        }
        self.ui.bookmarks_filter = r;
    }

    /// Finds the recent directories that match their search text again.
    pub fn refresh_recent_dirs_filter(&mut self)
        requires
            old(self).wf(),
        ensures
            final(self).wf(),
            final(self)@ == old(self)@.refreshed_recent_dirs(),
            old(self)@.search.recent_dirs.len() == 0 ==> final(self)@.filter.recent_dirs
                == every_index(old(self)@.recent.len()),
    {
        let needle = text::to_lowercase(self.ui.recent_dirs_search.as_str());
        let ghost m = self@;
        let ghost p = |j: int| state::matches_search(m.search.recent_dirs, m.recent[j].path);
        let mut r: Vec<usize> = Vec::new();
        let mut i: usize = 0;
        while i < self.recent_dirs.len()
            invariant
                i <= self.recent_dirs@.len(),
                self@ == m,
                needle@ == text::lowercase(m.search.recent_dirs),
                p == (|j: int| state::matches_search(m.search.recent_dirs, m.recent[j].path)),
                r@ == state::indices(i as nat, p),
            decreases self.recent_dirs@.len() - i,
        {
            assert(m.recent[i as int] == self.recent_dirs@[i as int]@);
            if matches_lower(needle.as_str(), self.recent_dirs[i].path.as_str()) {
                r.push(i);
            }
            i += 1;
        }
        proof {
            if m.search.recent_dirs.len() == 0 {
                lemma_every_index(m.recent.len(), p);
            }
        }
        self.ui.recent_dirs_filter = r;
    }

    /// Finds the commands whose text matches the history's search text again.
    pub fn refresh_history_filter(&mut self)
        requires
            old(self).wf(),
        ensures
            final(self).wf(),
            final(self)@ == old(self)@.refreshed_history(),
            old(self)@.search.history.len() == 0 ==> final(self)@.filter.history
                == every_index(old(self)@.history.len()),
    {
        let needle = text::to_lowercase(self.ui.history_search.as_str());
        let ghost m = self@;
        let ghost p = |j: int| state::matches_search(m.search.history, m.history[j].text);
        let mut r: Vec<usize> = Vec::new();
        let mut i: usize = 0;
        while i < self.history.len()
            invariant
                i <= self.history@.len(),
                self@ == m,
                needle@ == text::lowercase(m.search.history),
                p == (|j: int| state::matches_search(m.search.history, m.history[j].text)),
                r@ == state::indices(i as nat, p),
            decreases self.history@.len() - i,
        {
            assert(m.history[i as int] == self.history@[i as int]@);
            if matches_lower(needle.as_str(), self.history[i].text.as_str()) {
                r.push(i);
            }
            i += 1;
        }
        proof {
            if m.search.history.len() == 0 {
                lemma_every_index(m.history.len(), p);
            }
        }
        self.ui.history_filter = r;
    }

    /// Finds the matching commands of the active tab's directory again.
    pub fn refresh_cwd_history_filter(&mut self)
        requires
            old(self).wf(),
        ensures
            final(self).wf(),
            final(self)@ == old(self)@.refreshed_cwd_history(),
            old(self)@.search.cwd_history.len() == 0 ==> final(self)@.filter.cwd_history
                == state::indices(
                old(self)@.history.len(),
                |i: int| path::same_path(old(self)@.style, old(self)@.history[i].dir, old(self)@.cur().cwd),
            ),
    {
        let needle = text::to_lowercase(self.ui.cwd_history_search.as_str());
        let ghost m = self@;
        let ghost p = |j: int|
            path::same_path(m.style, m.history[j].dir, m.cur().cwd) && state::matches_search(
                m.search.cwd_history,
                m.history[j].text,
            );
        let mut r: Vec<usize> = Vec::new();
        let mut i: usize = 0;
        while i < self.history.len()
            invariant
                i <= self.history@.len(),
                self.wf(),
                self@ == m,
                needle@ == text::lowercase(m.search.cwd_history),
                p == (|j: int|
                    path::same_path(m.style, m.history[j].dir, m.cur().cwd) && state::matches_search(
                        m.search.cwd_history,
                        m.history[j].text,
                    )),
                r@ == state::indices(i as nat, p),
            decreases self.history@.len() - i,
        {
            assert(m.history[i as int] == self.history@[i as int]@);
            if path::is_same_path(self.style, self.history[i].dir.as_str(), self.cwd()) && matches_lower(
                needle.as_str(),
                self.history[i].text.as_str(),
            ) {
                r.push(i);
            }
            i += 1;
        }
        proof {
            if m.search.cwd_history.len() == 0 {
                lemma_indices_same(
                    m.history.len(),
                    p,
                    |j: int| path::same_path(m.style, m.history[j].dir, m.cur().cwd),
                );
            }
        }
        self.ui.cwd_history_filter = r;
    }

    /// Finds all matches again.
    pub fn refresh_all_filters(&mut self)
        requires
            old(self).wf(),
        ensures
            final(self).wf(),
            final(self)@
                == old(self)@.refreshed_bookmarks().refreshed_recent_dirs().refreshed_history().refreshed_cwd_history(),
            final(self)@.fresh(),
    {
        self.refresh_bookmarks_filter();
        self.refresh_recent_dirs_filter();
        self.refresh_history_filter();
        self.refresh_cwd_history_filter();
        proof {
            let a = old(self)@;
            let b = self@;
            assert(a.bookmarks_matching() == b.bookmarks_matching());
            assert(a.refreshed_bookmarks().recent_dirs_matching() == b.recent_dirs_matching());
            assert(a.refreshed_bookmarks().refreshed_recent_dirs().history_matching()
                == b.history_matching());
            assert(
            a.refreshed_bookmarks().refreshed_recent_dirs().refreshed_history().cwd_history_matching()
                == b.cwd_history_matching());
        }
    }
}

}
