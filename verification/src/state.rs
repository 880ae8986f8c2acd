//! The state of the terminal: its tabs, lists, search boxes and forms.
//!
//! The state is kept as parallel vectors with one entry for each tab. Its
//! model is the sequence of tabs that they stand for, one of them active,
//! and every operation is stated on the model.

use vstd::prelude::*;

use crate::path;
use crate::path::PathStyle;
use crate::text;
use crate::timestamp::Timestamp;
use crate::types;
use crate::types::BrowserFile;
use crate::types::FileModel;
use crate::types::HistoryItem;
use crate::types::HistoryModel;
use crate::types::NavState;
use crate::types::OutItem;
use crate::types::OutModel;
use crate::types::OutType;
use crate::types::PanelVis;
use crate::types::RecentDir;
use crate::types::RecentModel;
use crate::types::RemoteModel;
use crate::types::RemoteSession;
use crate::types::RemoteTerminal;
use crate::types::SessionModel;

verus! {

broadcast use vstd::string::group_string_axioms;

/// What belongs to the interface: the input and output of each tab, the
/// search boxes with their matches, the recall and navigation of each tab,
/// and the form for a saved remote.
pub struct StateUi {
    /// The input line of each tab.
    pub cli_input: Vec<String>,
    /// The output of each tab.
    pub out: Vec<Vec<OutItem>>,
    /// The tab that is shown.
    pub active_tab: usize,
    /// The input line takes the keyboard focus at the next frame.
    pub focus_input: bool,
    /// The search text of each list; empty text matches everything.
    pub bookmarks_search: String,
    pub recent_dirs_search: String,
    pub history_search: String,
    pub cwd_history_search: String,
    /// The entries of each list that match its search text.
    pub bookmarks_filter: Vec<usize>,
    pub recent_dirs_filter: Vec<usize>,
    pub history_filter: Vec<usize>,
    /// The matching commands that were run in the active tab's directory.
    pub cwd_history_filter: Vec<usize>,
    /// The recall state of each tab.
    pub history_nav: Vec<NavState>,
    pub panel_vis: PanelVis,
    /// The directories each tab can go back to, the latest last.
    pub nav_back: Vec<Vec<String>>,
    /// The directories each tab can go forward to, the next one last.
    pub nav_forward: Vec<Vec<String>>,
    /// The form for a saved remote; `remote_edit_idx` is the remote that is
    /// edited, `None` for a new one.
    pub remote_form_open: bool,
    pub remote_host: String,
    pub remote_port: String,
    pub remote_user: String,
    pub remote_password: String,
    pub remote_edit_idx: Option<usize>,
}

/// The whole state.
pub struct State {
    pub ui: StateUi,
    pub home: Option<String>,
    pub history: Vec<HistoryItem>,
    /// The current directory of each tab.
    pub cwd: Vec<String>,
    pub dir_bookmarks: Vec<String>,
    /// The directories that commands were run from, the latest last.
    pub recent_dirs: Vec<RecentDir>,
    pub remote_terminals: Vec<RemoteTerminal>,
    /// The SSH session of each tab that is connected.
    pub active_remote: Vec<Option<RemoteSession>>,
    /// The files of the active tab's directory.
    pub browser_files: Vec<BrowserFile>,
    /// Where the state is saved.
    pub state_path: String,
    /// How the system writes paths.
    pub style: PathStyle,
    /// The git branch of each tab's directory, where there is one.
    pub branch: Vec<Option<String>>,
}

/// A tab: everything that the state keeps of it.
#[verifier::ext_equal]
pub struct Tab {
    pub cwd: Seq<char>,
    pub input: Seq<char>,
    pub out: Seq<OutModel>,
    pub nav: NavState,
    pub back: Seq<Seq<char>>,
    pub forward: Seq<Seq<char>>,
    pub branch: Option<Seq<char>>,
    pub remote: Option<SessionModel>,
}

/// The search texts.
#[verifier::ext_equal]
pub struct Searches {
    pub bookmarks: Seq<char>,
    pub recent_dirs: Seq<char>,
    pub history: Seq<char>,
    pub cwd_history: Seq<char>,
}

/// The matches of the search texts.
#[verifier::ext_equal]
pub struct Filters {
    pub bookmarks: Seq<usize>,
    pub recent_dirs: Seq<usize>,
    pub history: Seq<usize>,
    pub cwd_history: Seq<usize>,
}

/// The form for a saved remote.
#[verifier::ext_equal]
pub struct Form {
    pub open: bool,
    pub host: Seq<char>,
    pub port: Seq<char>,
    pub user: Seq<char>,
    pub password: Seq<char>,
    pub edit_idx: Option<usize>,
}

/// The model of the state.
#[verifier::ext_equal]
pub struct Model {
    pub tabs: Seq<Tab>,
    pub active: int,
    pub focus: bool,
    pub search: Searches,
    pub filter: Filters,
    pub panel_vis: PanelVis,
    pub form: Form,
    pub home: Option<Seq<char>>,
    pub history: Seq<HistoryModel>,
    pub bookmarks: Seq<Seq<char>>,
    pub recent: Seq<RecentModel>,
    pub remotes: Seq<RemoteModel>,
    pub files: Seq<FileModel>,
    pub state_path: Seq<char>,
    pub style: PathStyle,
}

/// The tabs that the parallel vectors stand for.
pub open spec fn tabs_of(
    cwd: Seq<String>,
    input: Seq<String>,
    out: Seq<Vec<OutItem>>,
    nav: Seq<NavState>,
    back: Seq<Vec<String>>,
    forward: Seq<Vec<String>>,
    branch: Seq<Option<String>>,
    remote: Seq<Option<RemoteSession>>,
) -> Seq<Tab> {
    Seq::new(
        cwd.len(),
        |i: int|
            Tab {
                cwd: cwd[i]@,
                input: input[i]@,
                out: types::outs(out[i]@),
                nav: nav[i],
                back: text::texts(back[i]@),
                forward: text::texts(forward[i]@),
                branch: text::opt_text(branch[i]),
                remote: types::opt_session(remote[i]),
            },
    )
}

impl View for State {
    type V = Model;

    open spec fn view(&self) -> Model {
        Model {
            tabs: tabs_of(
                self.cwd@,
                self.ui.cli_input@,
                self.ui.out@,
                self.ui.history_nav@,
                self.ui.nav_back@,
                self.ui.nav_forward@,
                self.branch@,
                self.active_remote@,
            ),
            active: self.ui.active_tab as int,
            focus: self.ui.focus_input,
            search: Searches {
                bookmarks: self.ui.bookmarks_search@,
                recent_dirs: self.ui.recent_dirs_search@,
                history: self.ui.history_search@,
                cwd_history: self.ui.cwd_history_search@,
            },
            filter: Filters {
                bookmarks: self.ui.bookmarks_filter@,
                recent_dirs: self.ui.recent_dirs_filter@,
                history: self.ui.history_filter@,
                cwd_history: self.ui.cwd_history_filter@,
            },
            panel_vis: self.ui.panel_vis,
            form: Form {
                open: self.ui.remote_form_open,
                host: self.ui.remote_host@,
                port: self.ui.remote_port@,
                user: self.ui.remote_user@,
                password: self.ui.remote_password@,
                edit_idx: self.ui.remote_edit_idx,
            },
            home: text::opt_text(self.home),
            history: types::histories(self.history@),
            bookmarks: text::texts(self.dir_bookmarks@),
            recent: types::recents(self.recent_dirs@),
            remotes: types::remotes(self.remote_terminals@),
            files: types::files(self.browser_files@),
            state_path: self.state_path@,
            style: self.style,
        }
    }
}

/// The positions below `n` where the predicate holds, in increasing order.
pub open spec fn indices(n: nat, p: spec_fn(int) -> bool) -> Seq<usize>
    decreases n,
{
    if n == 0 {
        seq![]
    } else {
        let before = indices((n - 1) as nat, p);
        if p(n - 1) {
            before.push((n - 1) as usize)
        } else {
            before
        }
    }
}

/// Whether a text matches a search text: without regard to case, the search
/// text is a part of it. An empty search text matches everything.
pub open spec fn matches_search(search: Seq<char>, t: Seq<char>) -> bool {
    let needle = text::lowercase(search);
    needle.len() == 0 || text::is_substring(text::lowercase(t), needle)
}

impl Model {
    /// There is at least one tab, and the active tab is one of them.
    pub open spec fn wf(self) -> bool {
        0 <= self.active < self.tabs.len()
    }

    /// The active tab.
    pub open spec fn cur(self) -> Tab {
        self.tabs[self.active]
    }

    /// The same state with another active tab in its place.
    pub open spec fn with_cur(self, t: Tab) -> Model {
        Model { tabs: self.tabs.update(self.active, t), ..self }
    }

    /// A chunk of output added to the active tab.
    pub open spec fn with_out(self, t: Seq<char>, type_: OutType, dt: Timestamp) -> Model {
        let c = self.cur();
        self.with_cur(Tab { out: c.out.push(OutModel { text: t, type_, dt }), ..c })
    }

    /// The bookmarks that match their search text.
    pub open spec fn bookmarks_matching(self) -> Seq<usize> {
        indices(
            self.bookmarks.len(),
            |i: int| matches_search(self.search.bookmarks, self.bookmarks[i]),
        )
    }

    /// The recent directories that match their search text.
    pub open spec fn recent_dirs_matching(self) -> Seq<usize> {
        indices(
            self.recent.len(),
            |i: int| matches_search(self.search.recent_dirs, self.recent[i].path),
        )
    }

    /// The commands whose text matches the history's search text.
    pub open spec fn history_matching(self) -> Seq<usize> {
        indices(
            self.history.len(),
            |i: int| matches_search(self.search.history, self.history[i].text),
        )
    }

    /// The commands that were run in the active tab's directory and match
    /// that list's search text.
    pub open spec fn cwd_history_matching(self) -> Seq<usize> {
        indices(
            self.history.len(),
            |i: int|
                path::same_path(self.style, self.history[i].dir, self.cur().cwd) && matches_search(
                    self.search.cwd_history,
                    self.history[i].text,
                ),
        )
    }

    /// The bookmarks that match found again.
    pub open spec fn refreshed_bookmarks(self) -> Model {
        Model { filter: Filters { bookmarks: self.bookmarks_matching(), ..self.filter }, ..self }
    }

    /// The recent directories that match found again.
    pub open spec fn refreshed_recent_dirs(self) -> Model {
        Model { filter: Filters { recent_dirs: self.recent_dirs_matching(), ..self.filter }, ..self }
    }

    /// The commands that match found again.
    pub open spec fn refreshed_history(self) -> Model {
        Model { filter: Filters { history: self.history_matching(), ..self.filter }, ..self }
    }

    /// The matching commands of the active tab's directory found again.
    pub open spec fn refreshed_cwd_history(self) -> Model {
        Model { filter: Filters { cwd_history: self.cwd_history_matching(), ..self.filter }, ..self }
    }

    /// Every list of matches holds exactly the matches.
    pub open spec fn fresh(self) -> bool {
        &&& self.filter.bookmarks == self.bookmarks_matching()
        &&& self.filter.recent_dirs == self.recent_dirs_matching()
        &&& self.filter.history == self.history_matching()
        &&& self.filter.cwd_history == self.cwd_history_matching()
    }
}

impl State {
    /// The parallel vectors have one entry for each tab, there is at least
    /// one tab, and the active tab is one of them.
    pub open spec fn wf(&self) -> bool {
        &&& self.ui.active_tab < self.cwd@.len()
        &&& self.ui.cli_input@.len() == self.cwd@.len()
        &&& self.ui.out@.len() == self.cwd@.len()
        &&& self.ui.history_nav@.len() == self.cwd@.len()
        &&& self.ui.nav_back@.len() == self.cwd@.len()
        &&& self.ui.nav_forward@.len() == self.cwd@.len()
        &&& self.branch@.len() == self.cwd@.len()
        &&& self.active_remote@.len() == self.cwd@.len()
    }

    /// The active tab's directory.
    pub fn cwd(&self) -> (r: &str)
        requires
            self.wf(),
        ensures
            r@ == self@.cur().cwd,
    {
        self.cwd[self.ui.active_tab].as_str()
    }

    /// Adds a chunk of output to the active tab, at the given moment.
    pub fn push_out_at(&mut self, text: String, type_: OutType, now: Timestamp)
        requires
            old(self).wf(),
        ensures
            final(self).wf(),
            final(self)@ == old(self)@.with_out(text@, type_, now),
    {
        let i: usize = self.ui.active_tab;
        let ghost t = text@;
        self.ui.out[i].push(OutItem { text, type_, dt: now });
        proof {
            let m = OutModel { text: t, type_, dt: now };
            assert(types::outs(self.ui.out@[i as int]@) =~= types::outs(old(self).ui.out@[i as int]@).push(m));
            assert(self@.tabs =~= old(self)@.with_out(t, type_, now).tabs);
        }
    }

    /// Adds a chunk of output to the active tab, now.
    pub fn push_out(&mut self, text: String, type_: OutType)
        requires
            old(self).wf(),
        ensures
            final(self).wf(),
            exists|dt: Timestamp|
                dt.valid() && final(self)@ == #[trigger] old(self)@.with_out(text@, type_, dt),
    {
        let now = Timestamp::current();
        self.push_out_at(text, type_, now);
    }
}

}
