//! What the search boxes find: exactly the entries that hold the search text,
//! each once and in order.

use vstd::prelude::*;

use crate::filter;
use crate::path;
use crate::state;
use crate::state::Model;
use crate::state::State;
use crate::text;

verus! {

broadcast use vstd::string::group_string_axioms;

/// One text stands in another as a whole, with something before it and behind
/// it, or nothing.
pub open spec fn stands_in(needle: Seq<char>, hay: Seq<char>) -> bool {
    exists|a: Seq<char>, b: Seq<char>| hay == #[trigger] a.add(needle).add(b)
}

/// Each position is below the bound, and behind the ones before it.
pub open spec fn in_order(s: Seq<usize>, n: nat) -> bool {
    &&& forall|k: int| 0 <= k < s.len() ==> (#[trigger] s[k]) < n
    &&& forall|k: int, l: int| 0 <= k < l < s.len() ==> (#[trigger] s[k]) < #[trigger] s[l]
}

/// One text is a part of another if and only if it stands in it.
pub proof fn law_parts_of_texts(hay: Seq<char>, needle: Seq<char>)
    ensures
        text::is_substring(hay, needle) <==> stands_in(needle, hay),
{
    if text::is_substring(hay, needle) {
        let i = choose|i: int| text::occurs_at(hay, needle, i);
        assert(hay =~= hay.take(i).add(hay.subrange(i, i + needle.len())).add(
            hay.skip(i + needle.len()),
        ));
        assert(hay == hay.take(i).add(needle).add(hay.skip(i + needle.len())));
    }
    if stands_in(needle, hay) {
        let (a, b) = choose|a: Seq<char>, b: Seq<char>| hay == #[trigger] a.add(needle).add(b);
        assert(hay.subrange(a.len() as int, a.len() as int + needle.len()) =~= needle);
        assert(text::occurs_at(hay, needle, a.len() as int));
    }
}

/// A search text matches where it stands in the other, both in lower case.
proof fn lemma_matches(search: Seq<char>, t: Seq<char>)
    ensures
        state::matches_search(search, t) <==> stands_in(text::lowercase(search), text::lowercase(t)),
{
    let needle = text::lowercase(search);
    let hay = text::lowercase(t);
    law_parts_of_texts(hay, needle);
    if needle.len() == 0 {
        let e: Seq<char> = seq![];
        assert(hay =~= e.add(needle).add(hay));
    }
}

/// The search of the history finds a command if and only if the whole search
/// text stands in the command, both in lower case, each command once and in
/// order. It changes nothing but the list of what it found.
pub proof fn law_history_search(m: Model, i: int)
    requires
        m.history.len() <= usize::MAX,
    ensures
        0 <= i < m.history.len() ==> (m.refreshed_history().filter.history.contains(i as usize)
            <==> stands_in(text::lowercase(m.search.history), text::lowercase(m.history[i].text))),
        in_order(m.refreshed_history().filter.history, m.history.len()),
        m.refreshed_history() == (Model {
            filter: state::Filters {
                history: m.refreshed_history().filter.history,
                ..m.filter
            },
            ..m
        }),
{
    let p = |j: int| state::matches_search(m.search.history, m.history[j].text);
    assert(m.history_matching() == state::indices(m.history.len(), p));
    filter::lemma_indices(m.history.len(), p);
    if 0 <= i < m.history.len() {
        lemma_matches(m.search.history, m.history[i].text);
        assert(p(i) == state::matches_search(m.search.history, m.history[i].text));
    }
}

/// The search of the commands that were run in the active tab's directory finds
/// a command if and only if it was run there and the whole search text stands
/// in it, both in lower case, each command once and in order.
pub proof fn law_cwd_history_search(m: Model, i: int)
    requires
        m.history.len() <= usize::MAX,
    ensures
        0 <= i < m.history.len() ==> (m.refreshed_cwd_history().filter.cwd_history.contains(
            i as usize,
        ) <==> path::same_path(m.style, m.history[i].dir, m.tabs[m.active].cwd) && stands_in(
            text::lowercase(m.search.cwd_history),
            text::lowercase(m.history[i].text),
        )),
        in_order(m.refreshed_cwd_history().filter.cwd_history, m.history.len()),
        m.refreshed_cwd_history() == (Model {
            filter: state::Filters {
                cwd_history: m.refreshed_cwd_history().filter.cwd_history,
                ..m.filter
            },
            ..m
        }),
{
    let p = |j: int|
        path::same_path(m.style, m.history[j].dir, m.cur().cwd) && state::matches_search(
            m.search.cwd_history,
            m.history[j].text,
        );
    assert(m.cwd_history_matching() == state::indices(m.history.len(), p));
    filter::lemma_indices(m.history.len(), p);
    if 0 <= i < m.history.len() {
        lemma_matches(m.search.cwd_history, m.history[i].text);
        assert(p(i) == (path::same_path(m.style, m.history[i].dir, m.cur().cwd)
            && state::matches_search(m.search.cwd_history, m.history[i].text)));
    }
}

/// The search of the bookmarks finds a bookmark if and only if the whole search
/// text stands in its path, both in lower case, each bookmark once and in order.
pub proof fn law_bookmark_search(m: Model, i: int)
    requires
        m.bookmarks.len() <= usize::MAX,
    ensures
        0 <= i < m.bookmarks.len() ==> (m.refreshed_bookmarks().filter.bookmarks.contains(
            i as usize,
        ) <==> stands_in(text::lowercase(m.search.bookmarks), text::lowercase(m.bookmarks[i]))),
        in_order(m.refreshed_bookmarks().filter.bookmarks, m.bookmarks.len()),
        m.refreshed_bookmarks() == (Model {
            filter: state::Filters {
                bookmarks: m.refreshed_bookmarks().filter.bookmarks,
                ..m.filter
            },
            ..m
        }),
{
    let p = |j: int| state::matches_search(m.search.bookmarks, m.bookmarks[j]);
    assert(m.bookmarks_matching() == state::indices(m.bookmarks.len(), p));
    filter::lemma_indices(m.bookmarks.len(), p);
    if 0 <= i < m.bookmarks.len() {
        lemma_matches(m.search.bookmarks, m.bookmarks[i]);
        assert(p(i) == state::matches_search(m.search.bookmarks, m.bookmarks[i]));
    }
}

/// The search of the recent directories finds one if and only if the whole
/// search text stands in its path, both in lower case, each once and in order.
pub proof fn law_recent_dir_search(m: Model, i: int)
    requires
        m.recent.len() <= usize::MAX,
    ensures
        0 <= i < m.recent.len() ==> (m.refreshed_recent_dirs().filter.recent_dirs.contains(
            i as usize,
        ) <==> stands_in(
            text::lowercase(m.search.recent_dirs),
            text::lowercase(m.recent[i].path),
        )),
        in_order(m.refreshed_recent_dirs().filter.recent_dirs, m.recent.len()),
        m.refreshed_recent_dirs() == (Model {
            filter: state::Filters {
                recent_dirs: m.refreshed_recent_dirs().filter.recent_dirs,
                ..m.filter
            },
            ..m
        }),
{
    let p = |j: int| state::matches_search(m.search.recent_dirs, m.recent[j].path);
    assert(m.recent_dirs_matching() == state::indices(m.recent.len(), p));
    filter::lemma_indices(m.recent.len(), p);
    if 0 <= i < m.recent.len() {
        lemma_matches(m.search.recent_dirs, m.recent[i].path);
        assert(p(i) == state::matches_search(m.search.recent_dirs, m.recent[i].path));
    }
}

/// A state whose lists of matches are fresh holds what the four searches find.
pub proof fn law_fresh_lists(m: Model)
    ensures
        m.fresh() <==> {
            &&& m.filter.bookmarks == m.refreshed_bookmarks().filter.bookmarks
            &&& m.filter.recent_dirs == m.refreshed_recent_dirs().filter.recent_dirs
            &&& m.filter.history == m.refreshed_history().filter.history
            &&& m.filter.cwd_history == m.refreshed_cwd_history().filter.cwd_history
        },
{
}

/// Each search box stands for its own text, each list of matches for its own
/// list, and each list for its entries in order.
pub proof fn law_lists_of_the_state(s: State, i: int)
    ensures
        s@.search.bookmarks == s.ui.bookmarks_search@,
        s@.search.recent_dirs == s.ui.recent_dirs_search@,
        s@.search.history == s.ui.history_search@,
        s@.search.cwd_history == s.ui.cwd_history_search@,
        s@.filter.bookmarks == s.ui.bookmarks_filter@,
        s@.filter.recent_dirs == s.ui.recent_dirs_filter@,
        s@.filter.history == s.ui.history_filter@,
        s@.filter.cwd_history == s.ui.cwd_history_filter@,
        s@.history.len() == s.history@.len(),
        0 <= i < s.history@.len() ==> {
            &&& s@.history[i].text == s.history@[i].text@
            &&& s@.history[i].dir == s.history@[i].dir@
            &&& s@.history[i].dt == s.history@[i].dt
        },
        s@.bookmarks.len() == s.dir_bookmarks@.len(),
        0 <= i < s.dir_bookmarks@.len() ==> s@.bookmarks[i] == s.dir_bookmarks@[i]@,
        s@.recent.len() == s.recent_dirs@.len(),
        0 <= i < s.recent_dirs@.len() ==> {
            &&& s@.recent[i].path == s.recent_dirs@[i].path@
            &&& s@.recent[i].dt == s.recent_dirs@[i].dt
        },
        s@.remotes.len() == s.remote_terminals@.len(),
        0 <= i < s.remote_terminals@.len() ==> {
            &&& s@.remotes[i].host == s.remote_terminals@[i].host@
            &&& s@.remotes[i].port == s.remote_terminals@[i].port
            &&& s@.remotes[i].username == s.remote_terminals@[i].username@
        },
        s@.files.len() == s.browser_files@.len(),
        0 <= i < s.browser_files@.len() ==> {
            &&& s@.files[i].disp_name == s.browser_files@[i].disp_name@
            &&& s@.files[i].path == s.browser_files@[i].path@
            &&& s@.files[i].is_folder == s.browser_files@[i].is_folder
            &&& s@.files[i].is_executable == s.browser_files@[i].is_executable
        },
        s@.state_path == s.state_path@,
        s@.style == s.style,
        s@.panel_vis == s.ui.panel_vis,
        s@.focus == s.ui.focus_input,
        s@.home is Some <==> s.home is Some,
        s.home matches Some(h) ==> s@.home == Some(h@),
{
}

/// Each tab of the state stands at its own place in every list that has an entry
/// for each tab, and the form for its own fields.
pub proof fn law_tabs_of_the_state(s: State, i: int, k: int)
    ensures
        s@.active == s.ui.active_tab,
        s@.tabs.len() == s.cwd@.len(),
        0 <= i < s.cwd@.len() ==> {
            &&& s@.tabs[i].cwd == s.cwd@[i]@
            &&& s@.tabs[i].input == s.ui.cli_input@[i]@
            &&& s@.tabs[i].nav == s.ui.history_nav@[i]
            &&& s@.tabs[i].out.len() == s.ui.out@[i]@.len()
            &&& 0 <= k < s.ui.out@[i]@.len() ==> {
                &&& s@.tabs[i].out[k].text == s.ui.out@[i]@[k].text@
                &&& s@.tabs[i].out[k].type_ == s.ui.out@[i]@[k].type_
                &&& s@.tabs[i].out[k].dt == s.ui.out@[i]@[k].dt
            }
            &&& s@.tabs[i].back.len() == s.ui.nav_back@[i]@.len()
            &&& 0 <= k < s.ui.nav_back@[i]@.len() ==> s@.tabs[i].back[k]
                == s.ui.nav_back@[i]@[k]@
            &&& s@.tabs[i].forward.len() == s.ui.nav_forward@[i]@.len()
            &&& 0 <= k < s.ui.nav_forward@[i]@.len() ==> s@.tabs[i].forward[k]
                == s.ui.nav_forward@[i]@[k]@
            &&& s@.tabs[i].branch is Some <==> s.branch@[i] is Some
            &&& s.branch@[i] matches Some(b) ==> s@.tabs[i].branch == Some(b@)
            &&& s@.tabs[i].remote is Some <==> s.active_remote@[i] is Some
            &&& s.active_remote@[i] matches Some(r) ==> {
                &&& s@.tabs[i].remote->0.label == r.label@
                &&& s@.tabs[i].remote->0.cwd == r.cwd@
                &&& s@.tabs[i].remote->0.mode == r.mode
            }
        },
        s@.form.open == s.ui.remote_form_open,
        s@.form.host == s.ui.remote_host@,
        s@.form.port == s.ui.remote_port@,
        s@.form.user == s.ui.remote_user@,
        s@.form.password == s.ui.remote_password@,
        s@.form.edit_idx == s.ui.remote_edit_idx,
{
}

}
