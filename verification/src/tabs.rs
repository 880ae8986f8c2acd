//! Tabs: opening, closing and selecting them, and the states that a session
//! begins in.

use vstd::prelude::*;

use crate::path::PathStyle;
use crate::state::Filters;
use crate::state::Form;
use crate::state::Model;
use crate::state::Searches;
use crate::state::State;
use crate::state::StateUi;
use crate::state::Tab;
use crate::text;
use crate::types;
use crate::types::BrowserFile;
use crate::types::FileModel;
use crate::types::HistoryItem;
use crate::types::HistoryModel;
use crate::types::NavState;
use crate::types::OpenTabs;
use crate::types::OutItem;
use crate::types::PanelVis;
use crate::types::RecentDir;
use crate::types::RecentModel;
use crate::types::RemoteModel;
use crate::types::RemoteSession;
use crate::types::RemoteTerminal;

verus! {

broadcast use vstd::string::group_string_axioms;

/// A tab in which nothing has happened yet.
pub open spec fn fresh_tab(cwd: Seq<char>, branch: Option<Seq<char>>) -> Tab {
    Tab {
        cwd,
        input: Seq::empty(),
        out: Seq::empty(),
        nav: types::nav_live(),
        back: Seq::empty(),
        forward: Seq::empty(),
        branch,
        remote: None,
    }
}

/// The form with nothing in it.
pub open spec fn empty_form() -> Form {
    Form {
        open: false,
        host: Seq::empty(),
        port: Seq::empty(),
        user: Seq::empty(),
        password: Seq::empty(),
        edit_idx: None,
    }
}

/// The lists that are kept from one session to the next.
#[verifier::ext_equal]
pub struct SavedLists {
    pub bookmarks: Seq<Seq<char>>,
    pub recent: Seq<RecentModel>,
    pub history: Seq<HistoryModel>,
    pub remotes: Seq<RemoteModel>,
}

/// The state at the start of a session, its matches found.
pub open spec fn started(
    tabs: Seq<Tab>,
    active: int,
    lists: SavedLists,
    panel_vis: PanelVis,
    home: Option<Seq<char>>,
    state_path: Seq<char>,
    files: Seq<FileModel>,
    style: PathStyle,
) -> Model {
    let m = Model {
        tabs,
        active,
        focus: true,
        search: Searches {
            bookmarks: Seq::empty(),
            recent_dirs: Seq::empty(),
            history: Seq::empty(),
            cwd_history: Seq::empty(),
        },
        filter: Filters {
            bookmarks: Seq::empty(),
            recent_dirs: Seq::empty(),
            history: Seq::empty(),
            cwd_history: Seq::empty(),
        },
        panel_vis,
        form: empty_form(),
        home,
        history: lists.history,
        bookmarks: lists.bookmarks,
        recent: lists.recent,
        remotes: lists.remotes,
        files,
        state_path,
        style,
    };
    m.refreshed_bookmarks().refreshed_recent_dirs().refreshed_history().refreshed_cwd_history()
}

/// The tab that is active once the tab `idx` of `n` tabs is closed.
pub open spec fn active_after_close(active: int, idx: int, n: int) -> int {
    if active >= n - 1 {
        n - 2
    } else if idx < active {
        active - 1
    } else {
        active
    }
}

impl Model {
    /// A new tab in the active tab's directory, and selected.
    pub open spec fn tab_added(self, files: Seq<FileModel>) -> Model {
        let m = Model {
            tabs: self.tabs.push(fresh_tab(self.cur().cwd, self.cur().branch)),
            active: self.tabs.len() as int,
            focus: true,
            files,
            ..self
        };
        m.refreshed_cwd_history()
    }

    /// Whether a tab can be closed: the last tab stays.
    pub open spec fn can_close(self, idx: int) -> bool {
        self.tabs.len() > 1 && 0 <= idx < self.tabs.len()
    }

    /// One tab closed. The active tab stays active; where it is the one
    /// closed, its right neighbour takes its place, or else the last tab.
    pub open spec fn tab_closed(self, idx: int) -> Model {
        if self.can_close(idx) {
            let m = Model {
                tabs: self.tabs.remove(idx),
                active: active_after_close(self.active, idx, self.tabs.len() as int),
                ..self
            };
            m.refreshed_cwd_history()
        } else {
            self
        }
    }

    /// Whether selecting a tab changes anything.
    pub open spec fn can_select(self, idx: int) -> bool {
        0 <= idx < self.tabs.len() && idx != self.active
    }

    /// Another tab selected.
    pub open spec fn tab_selected(self, idx: int) -> Model {
        if self.can_select(idx) {
            (Model { active: idx, focus: true, ..self }).refreshed_cwd_history()
        } else {
            self
        }
    }

    /// The active tab's branch, as found.
    pub open spec fn with_branch(self, branch: Option<Seq<char>>) -> Model {
        self.with_cur(Tab { branch, ..self.cur() })
    }

    /// The files of the active tab's directory, as found.
    pub open spec fn with_files(self, files: Seq<FileModel>) -> Model {
        Model { files, ..self }
    }
}

/// The paths whose flag is set, in order.
pub open spec fn kept(paths: Seq<Seq<char>>, keep: Seq<bool>) -> Seq<Seq<char>>
    decreases paths.len(),
{
    if paths.len() == 0 {
        seq![]
    } else {
        let before = kept(paths.drop_last(), keep.drop_last());
        if keep.last() {
            before.push(paths.last())
        } else {
            before
        }
    }
}

/// The directories of the tabs that a session resumes: those saved that
/// still exist, or else the current directory alone.
pub open spec fn resumed(paths: Seq<Seq<char>>, is_dir: Seq<bool>, current: Seq<char>) -> Seq<
    Seq<char>,
> {
    if kept(paths, is_dir).len() == 0 {
        seq![current]
    } else {
        kept(paths, is_dir)
    }
}

/// The tabs that a session resumes. `is_dir` says of each saved path whether
/// it is still a directory. The saved selection is kept as far as there are
/// tabs.
pub fn restore_tabs(saved: OpenTabs, is_dir: &Vec<bool>, current_dir: String) -> (r: OpenTabs)
    requires
        is_dir@.len() == saved.paths@.len(),
    ensures
        text::texts(r.paths@) == resumed(text::texts(saved.paths@), is_dir@, current_dir@),
        r.paths@.len() > 0,
        r.active == if saved.active < r.paths@.len() {
            saved.active as int
        } else {
            r.paths@.len() - 1
        },
{
    let mut paths: Vec<String> = Vec::new();
    let ghost all = text::texts(saved.paths@);
    let mut i: usize = 0;
    assert(text::texts(paths@) =~= kept(all.take(0), is_dir@.take(0)));
    while i < saved.paths.len()
        invariant
            i <= saved.paths@.len() == is_dir@.len(),
            all == text::texts(saved.paths@),
            text::texts(paths@) == kept(all.take(i as int), is_dir@.take(i as int)),
        decreases saved.paths@.len() - i,
    {
        let ghost before = text::texts(paths@);
        if is_dir[i] {
            paths.push(saved.paths[i].clone());
            assert(text::texts(paths@) =~= before.push(all[i as int]));
        }
        assert(all.take(i + 1).drop_last() =~= all.take(i as int));
        assert(is_dir@.take(i + 1).drop_last() =~= is_dir@.take(i as int));
        i += 1;
    }
    assert(all.take(i as int) =~= all);
    assert(is_dir@.take(i as int) =~= is_dir@);
    if paths.len() == 0 {
        let ghost c = current_dir@;
        paths.push(current_dir);
        assert(text::texts(paths@) =~= seq![c]);
    }
    let last: usize = paths.len() - 1;
    let active = if saved.active < last {
        saved.active
    } else {
        last
    };
    OpenTabs { paths, active }
}

/// What is read back from a saved session.
pub struct LoadedState {
    pub bookmarks: Vec<String>,
    pub recent_dirs: Vec<RecentDir>,
    pub history: Vec<HistoryItem>,
    pub remote_terminals: Vec<RemoteTerminal>,
    pub panel_vis: PanelVis,
}

impl LoadedState {
    /// The lists that were saved.
    pub open spec fn lists(&self) -> SavedLists {
        SavedLists {
            bookmarks: text::texts(self.bookmarks@),
            recent: types::recents(self.recent_dirs@),
            history: types::histories(self.history@),
            remotes: types::remotes(self.remote_terminals@),
        }
    }
}

/// What is written to save a session.
pub struct SaveRequest {
    pub bookmarks: Vec<String>,
    pub recent_dirs: Vec<RecentDir>,
    pub history: Vec<HistoryItem>,
    pub remote_terminals: Vec<RemoteTerminal>,
    pub panel_vis: PanelVis,
    pub open_tabs: OpenTabs,
    pub state_path: String,
}

impl StateUi {
    /// The interface of a session with one tab.
    pub fn default(panel_vis: PanelVis) -> (ui: Self)
        ensures
            ui.cli_input@.len() == 1 && ui.cli_input@[0]@.len() == 0,
            ui.out@.len() == 1 && ui.out@[0]@.len() == 0,
            ui.active_tab == 0,
            ui.focus_input,
            ui.bookmarks_search@.len() == 0,
            ui.recent_dirs_search@.len() == 0,
            ui.history_search@.len() == 0,
            ui.cwd_history_search@.len() == 0,
            ui.bookmarks_filter@.len() == 0,
            ui.recent_dirs_filter@.len() == 0,
            ui.history_filter@.len() == 0,
            ui.cwd_history_filter@.len() == 0,
            ui.history_nav@ == seq![types::nav_live()],
            ui.panel_vis == panel_vis,
            ui.nav_back@.len() == 1 && ui.nav_back@[0]@.len() == 0,
            ui.nav_forward@.len() == 1 && ui.nav_forward@[0]@.len() == 0,
            !ui.remote_form_open,
            ui.remote_host@.len() == 0,
            ui.remote_port@.len() == 0,
            ui.remote_user@.len() == 0,
            ui.remote_password@.len() == 0,
            ui.remote_edit_idx is None,
    {
        let mut cli_input: Vec<String> = Vec::new();
        cli_input.push(String::new());
        let mut out: Vec<Vec<OutItem>> = Vec::new();
        out.push(Vec::new());
        let mut history_nav: Vec<NavState> = Vec::new();
        history_nav.push(NavState::new());
        let mut nav_back: Vec<Vec<String>> = Vec::new();
        nav_back.push(Vec::new());
        let mut nav_forward: Vec<Vec<String>> = Vec::new();
        nav_forward.push(Vec::new());
        StateUi {
            cli_input,
            out,
            active_tab: 0,
            focus_input: true,
            bookmarks_search: String::new(),
            recent_dirs_search: String::new(),
            history_search: String::new(),
            cwd_history_search: String::new(),
            bookmarks_filter: Vec::new(),
            recent_dirs_filter: Vec::new(),
            history_filter: Vec::new(),
            cwd_history_filter: Vec::new(),
            history_nav,
            panel_vis,
            nav_back,
            nav_forward,
            remote_form_open: false,
            remote_host: String::new(),
            remote_port: String::new(),
            remote_user: String::new(),
            remote_password: String::new(),
            remote_edit_idx: None,
        }
    }
}

impl State {
    /// The state of a session that resumes the given tabs, in each of which
    /// nothing has happened yet. `branches` holds the git branch of each
    /// tab's directory, `files` the files of the active tab's.
    pub fn load(
        loaded: LoadedState,
        tabs: OpenTabs,
        branches: Vec<Option<String>>,
        home: Option<String>,
        state_path: String,
        files: Vec<BrowserFile>,
        style: PathStyle,
    ) -> (s: Self)
        requires
            branches@.len() == tabs.paths@.len(),
            tabs.active < tabs.paths@.len(),
        ensures
            s.wf(),
            s@ == started(
                Seq::new(
                    tabs.paths@.len(),
                    |i: int| fresh_tab(tabs.paths@[i]@, text::opt_text(branches@[i])),
                ),
                tabs.active as int,
                loaded.lists(),
                loaded.panel_vis,
                text::opt_text(home),
                state_path@,
                types::files(files@),
                style,
            ),
            s@.fresh(),
    {
        let n: usize = tabs.paths.len();
        let mut ui = StateUi::default(loaded.panel_vis);
        let mut active_remote: Vec<Option<RemoteSession>> = Vec::new();
        let mut cli_input: Vec<String> = Vec::new();
        let mut out: Vec<Vec<OutItem>> = Vec::new();
        let mut history_nav: Vec<NavState> = Vec::new();
        let mut nav_back: Vec<Vec<String>> = Vec::new();
        let mut nav_forward: Vec<Vec<String>> = Vec::new();
        let mut i: usize = 0;
        while i < n
            invariant
                i <= n,
                active_remote@.len() == i,
                cli_input@.len() == i,
                out@.len() == i,
                history_nav@.len() == i,
                nav_back@.len() == i,
                nav_forward@.len() == i,
                forall|j: int| 0 <= j < i ==> (#[trigger] active_remote@[j]) is None,
                forall|j: int| 0 <= j < i ==> (#[trigger] cli_input@[j])@.len() == 0,
                forall|j: int| 0 <= j < i ==> (#[trigger] out@[j])@.len() == 0,
                forall|j: int| 0 <= j < i ==> (#[trigger] history_nav@[j]) == types::nav_live(),
                forall|j: int| 0 <= j < i ==> (#[trigger] nav_back@[j])@.len() == 0,
                forall|j: int| 0 <= j < i ==> (#[trigger] nav_forward@[j])@.len() == 0,
            decreases n - i,
        {
            active_remote.push(None);
            cli_input.push(String::new());
            out.push(Vec::new());
            history_nav.push(NavState::new());
            nav_back.push(Vec::new());
            nav_forward.push(Vec::new());
            i += 1;
        }
        ui.active_tab = tabs.active;
        ui.cli_input = cli_input;
        ui.out = out;
        ui.history_nav = history_nav;
        ui.nav_back = nav_back;
        ui.nav_forward = nav_forward;
        let ghost fresh_tabs = Seq::new(
            tabs.paths@.len(),
            |j: int| fresh_tab(tabs.paths@[j]@, text::opt_text(branches@[j])),
        );
        let mut s = State {
            ui,
            home,
            history: loaded.history,
            cwd: tabs.paths,
            dir_bookmarks: loaded.bookmarks,
            recent_dirs: loaded.recent_dirs,
            remote_terminals: loaded.remote_terminals,
            active_remote,
            browser_files: files,
            state_path,
            style,
            branch: branches,
        };
        proof {
            assert forall|j: int| 0 <= j < n implies #[trigger] s@.tabs[j] == fresh_tabs[j] by {
                assert(s.ui.cli_input@[j]@.len() == 0);
                assert(s.ui.out@[j]@.len() == 0);
                assert(s.ui.nav_back@[j]@.len() == 0);
                assert(s.ui.nav_forward@[j]@.len() == 0);
                assert(s.active_remote@[j] is None);
                assert(s.ui.history_nav@[j] == types::nav_live());
                assert(s@.tabs[j] =~= fresh_tabs[j]);
            }
            assert(s@.tabs =~= fresh_tabs);
            assert(s@.search.bookmarks =~= Seq::empty());
            assert(s@.search.recent_dirs =~= Seq::empty());
            assert(s@.search.history =~= Seq::empty());
            assert(s@.search.cwd_history =~= Seq::empty());
            assert(s@.filter.bookmarks =~= Seq::empty());
            assert(s@.filter.recent_dirs =~= Seq::empty());
            assert(s@.filter.history =~= Seq::empty());
            assert(s@.filter.cwd_history =~= Seq::empty());
            assert(s@.form =~= empty_form());
        }
        s.refresh_all_filters();
        s
    }

    /// The state of a session with nothing to resume: one tab in the given
    /// directory, and empty lists.
    pub fn default(
        cwd: String,
        branch: Option<String>,
        home: Option<String>,
        state_path: String,
        files: Vec<BrowserFile>,
        panel_vis: PanelVis,
        style: PathStyle,
    ) -> (s: Self)
        ensures
            s.wf(),
            s@ == started(
                seq![fresh_tab(cwd@, text::opt_text(branch))],
                0,
                (SavedLists {
                    bookmarks: Seq::empty(),
                    recent: Seq::empty(),
                    history: Seq::empty(),
                    remotes: Seq::empty(),
                }),
                panel_vis,
                text::opt_text(home),
                state_path@,
                types::files(files@),
                style,
            ),
            s@.fresh(),
    {
        let loaded = LoadedState {
            bookmarks: Vec::new(),
            recent_dirs: Vec::new(),
            history: Vec::new(),
            remote_terminals: Vec::new(),
            panel_vis,
        };
        proof {
            assert(loaded.lists().bookmarks =~= Seq::empty());
            assert(loaded.lists().recent =~= Seq::empty());
            assert(loaded.lists().history =~= Seq::empty());
            assert(loaded.lists().remotes =~= Seq::empty());
        }
        let mut paths: Vec<String> = Vec::new();
        let ghost c = cwd@;
        let ghost b = text::opt_text(branch);
        paths.push(cwd);
        let mut branches: Vec<Option<String>> = Vec::new();
        branches.push(branch);
        let tabs = OpenTabs { paths, active: 0 };
        assert(Seq::new(
            tabs.paths@.len(),
            |i: int| fresh_tab(tabs.paths@[i]@, text::opt_text(branches@[i])),
        ) =~= seq![fresh_tab(c, b)]);
        State::load(loaded, tabs, branches, home, state_path, files, style)
    }

    /// Notes the git branch found for the active tab's directory.
    pub fn refresh_branch(&mut self, branch: Option<String>)
        requires
            old(self).wf(),
        ensures
            final(self).wf(),
            final(self)@ == old(self)@.with_branch(text::opt_text(branch)),
    {
        let i: usize = self.ui.active_tab;
        let ghost b = text::opt_text(branch);
        self.branch[i] = branch;
        assert(self@.tabs =~= old(self)@.with_branch(b).tabs);
    }

    /// Notes the files found in the active tab's directory.
    pub fn refresh_browser_files(&mut self, files: Vec<BrowserFile>)
        requires
            old(self).wf(),
        ensures
            final(self).wf(),
            final(self)@ == old(self)@.with_files(types::files(files@)),
    {
        self.browser_files = files;
    }

    /// Opens a new tab in the active tab's directory and selects it. The
    /// branch is inherited, a connection is not. `files` are the files of
    /// that directory.
    pub fn add_tab(&mut self, files: Vec<BrowserFile>)
        requires
            old(self).wf(),
        ensures
            final(self).wf(),
            final(self)@ == old(self)@.tab_added(types::files(files@)),
    {
        let i: usize = self.ui.active_tab;
        let new_cwd = self.cwd[i].clone();
        let branch = text::copy_opt(&self.branch[i]);
        self.cwd.push(new_cwd);
        self.ui.cli_input.push(String::new());
        self.ui.out.push(Vec::new());
        self.ui.history_nav.push(NavState::new());
        self.ui.nav_back.push(Vec::new());
        self.ui.nav_forward.push(Vec::new());
        self.branch.push(branch);
        self.active_remote.push(None);
        self.ui.active_tab = self.cwd.len() - 1;
        self.ui.focus_input = true;
        self.browser_files = files;
        proof {
            let t = fresh_tab(old(self)@.cur().cwd, old(self)@.cur().branch);
            let n = old(self).cwd@.len() as int;
            assert(self@.tabs[n].input =~= t.input);
            assert(self@.tabs[n].out =~= t.out);
            assert(self@.tabs[n].back =~= t.back);
            assert(self@.tabs[n].forward =~= t.forward);
            assert(self@.tabs =~= old(self)@.tabs.push(t));
        }
        self.refresh_cwd_history_filter();
    }

    /// Closes a tab and returns the session it held, which is to be taken
    /// down. `None` where nothing is closed: the last tab stays open. The
    /// branch and files of the tab that is now active are to be found again.
    #[verifier::rlimit(40)]
    pub fn close_tab(&mut self, idx: usize) -> (closed: Option<Option<RemoteSession>>)
        requires
            old(self).wf(),
        ensures
            final(self).wf(),
            final(self)@ == old(self)@.tab_closed(idx as int),
            closed is Some <==> old(self)@.can_close(idx as int),
            closed is Some ==> types::opt_session(closed->0) == old(self)@.tabs[idx as int].remote,
    {
        if self.cwd.len() <= 1 || idx >= self.cwd.len() {
            return None;
        }
        let _cwd = self.cwd.remove(idx);
        let _input = self.ui.cli_input.remove(idx);
        let _out = self.ui.out.remove(idx);
        let _nav = self.ui.history_nav.remove(idx);
        let _back = self.ui.nav_back.remove(idx);
        let _forward = self.ui.nav_forward.remove(idx);
        let _branch = self.branch.remove(idx);
        let session = self.active_remote.remove(idx);
        if self.ui.active_tab >= self.cwd.len() {
            self.ui.active_tab = self.cwd.len() - 1;
        } else if idx < self.ui.active_tab {
            self.ui.active_tab = self.ui.active_tab - 1;
        }
        assert(self@.tabs =~= old(self)@.tabs.remove(idx as int));
        self.refresh_cwd_history_filter();
        Some(session)
    }

    /// Selects a tab. `false` where that changes nothing. The branch and
    /// files of the tab that is now active are to be found again.
    pub fn select_tab(&mut self, idx: usize) -> (changed: bool)
        requires
            old(self).wf(),
        ensures
            final(self).wf(),
            final(self)@ == old(self)@.tab_selected(idx as int),
            changed == old(self)@.can_select(idx as int),
    {
        if idx >= self.cwd.len() || idx == self.ui.active_tab {
            return false;
        }
        self.ui.active_tab = idx;
        self.ui.focus_input = true;
        self.refresh_cwd_history_filter();
        true
    }

    /// Everything that is to be written to save the session: the lists, the
    /// panels, and the directory of each tab with the selection.
    pub fn save(&self) -> (r: SaveRequest)
        requires
            self.wf(),
        ensures
            text::texts(r.bookmarks@) == self@.bookmarks,
            types::recents(r.recent_dirs@) == self@.recent,
            types::histories(r.history@) == self@.history,
            types::remotes(r.remote_terminals@) == self@.remotes,
            r.panel_vis == self@.panel_vis,
            r.open_tabs.paths@.len() == self@.tabs.len(),
            forall|i: int|
                0 <= i < self@.tabs.len() ==> (#[trigger] r.open_tabs.paths@[i])@
                    == self@.tabs[i].cwd,
            r.open_tabs.active == self@.active,
            r.state_path@ == self@.state_path,
    {
        SaveRequest {
            bookmarks: text::copy_strings(&self.dir_bookmarks),
            recent_dirs: copy_recents(&self.recent_dirs),
            history: copy_histories(&self.history),
            remote_terminals: copy_remotes(&self.remote_terminals),
            panel_vis: self.ui.panel_vis,
            open_tabs: OpenTabs {
                paths: text::copy_strings(&self.cwd),
                active: self.ui.active_tab,
            },
            state_path: self.state_path.clone(),
        }
    }
}

/// A copy of a list of recent directories.
fn copy_recents(v: &Vec<RecentDir>) -> (r: Vec<RecentDir>)
    ensures
        r@ == v@,
{
    let mut r: Vec<RecentDir> = Vec::new();
    let mut i: usize = 0;
    while i < v.len()
        invariant
            i <= v@.len(),
            r@ == v@.take(i as int),
        decreases v@.len() - i,
    {
        r.push(v[i].copy());
        i += 1;
        assert(r@ =~= v@.take(i as int));
    }
    assert(v@.take(i as int) == v@);
    r
}

/// A copy of a list of commands.
fn copy_histories(v: &Vec<HistoryItem>) -> (r: Vec<HistoryItem>)
    ensures
        r@ == v@,
{
    let mut r: Vec<HistoryItem> = Vec::new();
    let mut i: usize = 0;
    while i < v.len()
        invariant
            i <= v@.len(),
            r@ == v@.take(i as int),
        decreases v@.len() - i,
    {
        r.push(v[i].copy());
        i += 1;
        assert(r@ =~= v@.take(i as int));
    }
    assert(v@.take(i as int) == v@);
    r
}

/// A copy of a list of saved remotes.
fn copy_remotes(v: &Vec<RemoteTerminal>) -> (r: Vec<RemoteTerminal>)
    ensures
        r@ == v@,
{
    let mut r: Vec<RemoteTerminal> = Vec::new();
    let mut i: usize = 0;
    while i < v.len()
        invariant
            i <= v@.len(),
            r@ == v@.take(i as int),
        decreases v@.len() - i,
    {
        r.push(v[i].copy());
        i += 1;
        assert(r@ =~= v@.take(i as int));
    }
    assert(v@.take(i as int) == v@);
    r
}

}
