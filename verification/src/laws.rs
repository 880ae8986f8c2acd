//! What holds of the terminal as a whole, whatever is done with it.

use vstd::prelude::*;

use crate::commands;
use crate::commands::ActionModel;
use crate::commands::StepModel;
use crate::display;
use crate::display::LabelsModel;
use crate::filter;
use crate::gui;
use crate::gui::ListActionModel;
use crate::gui::SubmittedModel;
use crate::navigation;
use crate::navigation::OutcomeModel;
use crate::path;
use crate::path::PathStyle;
use crate::remote;
use crate::state;
use crate::state::Model;
use crate::state::Searches;
use crate::state::Tab;
use crate::tabs;
use crate::text;
use crate::timestamp::Timestamp;
use crate::types;
use crate::types::FileModel;
use crate::types::HistoryModel;
use crate::types::NavState;
use crate::types::OutKind;
use crate::types::OutType;
use crate::types::PanelVis;
use crate::types::RecentModel;
use crate::types::RemoteModel;
use crate::types::SessionModel;
use crate::types::SshMode;

verus! {

/// The same tabs, of which only the active one may differ.
pub open spec fn only_active_differs(m: Model, r: Model) -> bool {
    &&& r.tabs.len() == m.tabs.len()
    &&& r.active == m.active
    &&& forall|i: int| 0 <= i < m.tabs.len() && i != m.active ==> #[trigger] r.tabs[i] == m.tabs[i]
}

/// Fresh matches stay fresh.
pub open spec fn stays_fresh(m: Model, r: Model) -> bool {
    m.fresh() ==> r.fresh()
}

/// Matches that nothing they depend on has changed stay fresh.
proof fn lemma_same_lists(m: Model, r: Model)
    requires
        m.search == r.search,
        m.filter == r.filter,
        m.history == r.history,
        m.bookmarks == r.bookmarks,
        m.recent == r.recent,
        m.style == r.style,
        m.cur().cwd == r.cur().cwd,
    ensures
        stays_fresh(m, r),
{
    assert(m.bookmarks_matching() == r.bookmarks_matching());
    assert(m.recent_dirs_matching() == r.recent_dirs_matching());
    assert(m.history_matching() == r.history_matching());
    assert(m.cwd_history_matching() == r.cwd_history_matching());
}

/// Lists of matches that were found again are fresh.
proof fn lemma_refreshed(m: Model)
    ensures
        m.refreshed_bookmarks().bookmarks_matching() == m.bookmarks_matching(),
        m.refreshed_bookmarks().recent_dirs_matching() == m.recent_dirs_matching(),
        m.refreshed_bookmarks().history_matching() == m.history_matching(),
        m.refreshed_bookmarks().cwd_history_matching() == m.cwd_history_matching(),
        m.refreshed_recent_dirs().bookmarks_matching() == m.bookmarks_matching(),
        m.refreshed_recent_dirs().recent_dirs_matching() == m.recent_dirs_matching(),
        m.refreshed_recent_dirs().history_matching() == m.history_matching(),
        m.refreshed_recent_dirs().cwd_history_matching() == m.cwd_history_matching(),
        m.refreshed_history().bookmarks_matching() == m.bookmarks_matching(),
        m.refreshed_history().recent_dirs_matching() == m.recent_dirs_matching(),
        m.refreshed_history().history_matching() == m.history_matching(),
        m.refreshed_history().cwd_history_matching() == m.cwd_history_matching(),
        m.refreshed_cwd_history().bookmarks_matching() == m.bookmarks_matching(),
        m.refreshed_cwd_history().recent_dirs_matching() == m.recent_dirs_matching(),
        m.refreshed_cwd_history().history_matching() == m.history_matching(),
        m.refreshed_cwd_history().cwd_history_matching() == m.cwd_history_matching(),
{
}

/// A new search text, once its matches are found again, leaves every list of
/// matches exact.
pub proof fn law_search_keeps_matches_exact(m: Model, t: Seq<char>)
    requires
        m.wf(),
    ensures
        stays_fresh(
            m,
            (Model { search: Searches { bookmarks: t, ..m.search }, ..m }).refreshed_bookmarks(),
        ),
        stays_fresh(
            m,
            (Model {
                search: Searches { recent_dirs: t, ..m.search },
                ..m
            }).refreshed_recent_dirs(),
        ),
        stays_fresh(
            m,
            (Model { search: Searches { history: t, ..m.search }, ..m }).refreshed_history(),
        ),
        stays_fresh(
            m,
            (Model {
                search: Searches { cwd_history: t, ..m.search },
                ..m
            }).refreshed_cwd_history(),
        ),
{
    let a = Model { search: Searches { bookmarks: t, ..m.search }, ..m };
    let b = Model { search: Searches { recent_dirs: t, ..m.search }, ..m };
    let c = Model { search: Searches { history: t, ..m.search }, ..m };
    let d = Model { search: Searches { cwd_history: t, ..m.search }, ..m };
    lemma_refreshed(a);
    lemma_refreshed(b);
    lemma_refreshed(c);
    lemma_refreshed(d);
    assert(m.bookmarks_matching() == b.bookmarks_matching());
    assert(m.bookmarks_matching() == c.bookmarks_matching());
    assert(m.bookmarks_matching() == d.bookmarks_matching());
    assert(m.recent_dirs_matching() == a.recent_dirs_matching());
    assert(m.recent_dirs_matching() == c.recent_dirs_matching());
    assert(m.recent_dirs_matching() == d.recent_dirs_matching());
    assert(m.history_matching() == a.history_matching());
    assert(m.history_matching() == b.history_matching());
    assert(m.history_matching() == d.history_matching());
    assert(m.cwd_history_matching() == a.cwd_history_matching());
    assert(m.cwd_history_matching() == b.cwd_history_matching());
    assert(m.cwd_history_matching() == c.cwd_history_matching());
}

/// Output, recall, branches, files and sessions touch no list of matches and
/// no other tab.
proof fn lemma_tab_data(m: Model, t: Tab)
    requires
        m.wf(),
        t.cwd == m.cur().cwd,
    ensures
        stays_fresh(m, m.with_cur(t)),
        only_active_differs(m, m.with_cur(t)),
        m.with_cur(t).wf(),
        m.with_cur(t).cur() == t,
{
    lemma_same_lists(m, m.with_cur(t));
}

/// Output touches no list of matches, no other tab, and of the active tab only
/// the output.
proof fn lemma_out(m: Model, t: Seq<char>, type_: OutType, now: Timestamp)
    requires
        m.wf(),
    ensures
        stays_fresh(m, m.with_out(t, type_, now)),
        only_active_differs(m, m.with_out(t, type_, now)),
        m.with_out(t, type_, now).wf(),
        m.with_out(t, type_, now).cur().cwd == m.cur().cwd,
        m.with_out(t, type_, now).cur().remote == m.cur().remote,
{
    lemma_same_lists(m, m.with_out(t, type_, now));
}

/// Going to a directory, however it comes out, keeps every list of matches
/// exact and leaves the other tabs alone.
pub proof fn law_navigation_is_local(m: Model, o: OutcomeModel, now: Timestamp)
    requires
        m.wf(),
    ensures
        stays_fresh(m, m.navigated(o, now)),
        stays_fresh(m, m.dir_changed(o, now)),
        stays_fresh(m, m.went_back(o, now)),
        stays_fresh(m, m.went_forward(o, now)),
        stays_fresh(m, m.back_taken()),
        stays_fresh(m, m.forward_taken()),
        only_active_differs(m, m.navigated(o, now)),
        only_active_differs(m, m.dir_changed(o, now)),
        only_active_differs(m, m.went_back(o, now)),
        only_active_differs(m, m.went_forward(o, now)),
        only_active_differs(m, m.back_taken()),
        only_active_differs(m, m.forward_taken()),
{
    let n = m.navigated(o, now);
    match o {
        OutcomeModel::Entered { cwd, branch, files } => {
            let c = m.with_cur(Tab { cwd, branch, ..m.cur() });
            let f = Model { files, ..c };
            lemma_refreshed(f);
            assert(f.bookmarks_matching() == m.bookmarks_matching());
            assert(f.recent_dirs_matching() == m.recent_dirs_matching());
            assert(f.history_matching() == m.history_matching());
        },
        OutcomeModel::Failed { error } => {
            lemma_out(m, "cd: "@ + error, OutType::StdErr, now);
        },
    }
    assert(stays_fresh(m, n));
    assert(n.wf());
    let before = m.cur().cwd;
    lemma_tab_data(n, Tab { back: n.cur().back.push(before), forward: Seq::empty(), ..n.cur() });
    lemma_tab_data(n, Tab { back: n.cur().back.push(before), ..n.cur() });
    lemma_tab_data(n, Tab { forward: n.cur().forward.push(before), ..n.cur() });
    lemma_tab_data(m, Tab { back: m.cur().back.drop_last(), ..m.cur() });
    lemma_tab_data(m, Tab { forward: m.cur().forward.drop_last(), ..m.cur() });
    assert(only_active_differs(m, n));
}

/// An attempt that fails shows its error and changes nothing else.
pub proof fn law_failed_move_changes_nothing(m: Model, error: Seq<char>, now: Timestamp)
    requires
        m.wf(),
    ensures
        ({
            let o = OutcomeModel::Failed { error };
            let shown = m.with_out("cd: "@ + error, OutType::StdErr, now);
            &&& !m.moves(o)
            &&& m.dir_changed(o, now) == shown
            &&& m.went_back(o, now) == shown
            &&& m.went_forward(o, now) == shown
        }),
{
}

/// A move can be taken back, and the way back taken back: Back returns to the
/// directory that was left, with the way back as it was before the move, and
/// Forward then returns to where the move had led, with both ways as they were
/// after it.
pub proof fn law_back_and_forward_undo_each_other(
    m: Model,
    cwd: Seq<char>,
    b1: Option<Seq<char>>,
    b2: Option<Seq<char>>,
    b3: Option<Seq<char>>,
    f1: Seq<FileModel>,
    f2: Seq<FileModel>,
    f3: Seq<FileModel>,
    now: Timestamp,
)
    requires
        m.wf(),
        !path::same_path(m.style, cwd, m.cur().cwd),
    ensures
        ({
            let there = m.dir_changed(OutcomeModel::Entered { cwd, branch: b1, files: f1 }, now);
            let home = there.back_taken().went_back(
                OutcomeModel::Entered { cwd: m.cur().cwd, branch: b2, files: f2 },
                now,
            );
            let again = home.forward_taken().went_forward(
                OutcomeModel::Entered { cwd, branch: b3, files: f3 },
                now,
            );
            &&& navigation::top(there.cur().back) == Some(m.cur().cwd)
            &&& there.cur().forward.len() == 0
            &&& home.cur().cwd == m.cur().cwd
            &&& home.cur().back == m.cur().back
            &&& navigation::top(home.cur().forward) == Some(cwd)
            &&& again.cur().cwd == cwd
            &&& again.cur().back == there.cur().back
            &&& again.cur().forward == there.cur().forward
        }),
{
    let there = m.dir_changed(OutcomeModel::Entered { cwd, branch: b1, files: f1 }, now);
    let t = there.back_taken();
    let home = t.went_back(
        OutcomeModel::Entered { cwd: m.cur().cwd, branch: b2, files: f2 },
        now,
    );
    assert(there.cur().back == m.cur().back.push(m.cur().cwd));
    assert(t.cur().back =~= m.cur().back);
    assert(t.cur().cwd == cwd);
    assert(home.cur().forward == t.cur().forward.push(cwd));
    let u = home.forward_taken();
    assert(u.cur().forward =~= there.cur().forward);
    assert(u.cur().cwd == m.cur().cwd);
}

/// Reading a line keeps every list of matches exact and leaves the other tabs
/// alone.
pub proof fn law_reading_a_line_is_local(
    m: Model,
    input: Seq<char>,
    labels: LabelsModel,
    now: Timestamp,
)
    requires
        m.wf(),
    ensures
        stays_fresh(m, m.line_read(input, labels, now).0),
        only_active_differs(m, m.line_read(input, labels, now).0),
{
    let line = text::trim(input);
    let cmd = commands::command_of(line);
    let args = commands::args_of(line);
    let r = m.recalled(None, types::nav_live());
    let e = m.echoed(line, labels, now);
    lemma_tab_data(m, r.cur());
    lemma_out(r, m.prompt(labels) + "> "@ + line, OutType::Prompt, now);
    assert(stays_fresh(m, e));
    assert(only_active_differs(m, e));
    let n = match commands::index_in(args) {
        Some(n) => n,
        None => 0,
    };
    lemma_out(e, cmd + ": no history item at index "@ + text::decimal(n), OutType::StdErr, now);
    lemma_out(e, cmd + ": usage: "@ + cmd + " <number>"@, OutType::StdErr, now);
    lemma_out(e, "hisd: no history item at index "@ + text::decimal(n), OutType::StdErr, now);
    lemma_out(e, "hisd: usage: hisd <number>"@, OutType::StdErr, now);
    let h = Model {
        history: e.history.push(HistoryModel { text: line, dir: e.cur().cwd, dt: now }),
        ..e
    };
    lemma_refreshed(h);
    lemma_refreshed(h.refreshed_history());
    assert(h.bookmarks_matching() == e.bookmarks_matching());
    assert(h.recent_dirs_matching() == e.recent_dirs_matching());
    let k = e.remembered(line, now);
    assert(stays_fresh(e, k));
    let v = Model { recent: navigation::recorded(k.recent, k.cur().cwd, now, k.style), ..k };
    lemma_refreshed(v);
    assert(v.bookmarks_matching() == k.bookmarks_matching());
    assert(v.history_matching() == k.history_matching());
    assert(v.cwd_history_matching() == k.cwd_history_matching());
    assert(stays_fresh(k, k.visited(now)));
}

/// Handling a command keeps every list of matches exact and leaves the other
/// tabs alone.
pub proof fn law_handling_a_command_is_local(
    m: Model,
    cmd: Seq<char>,
    input: Seq<char>,
    args: Seq<char>,
    default_user: Seq<char>,
    now: Timestamp,
)
    requires
        m.wf(),
    ensures
        stays_fresh(m, m.handled(cmd, input, args, default_user, now).0),
        only_active_differs(m, m.handled(cmd, input, args, default_user, now).0),
{
    let r = m.handled(cmd, input, args, default_user, now).0;
    lemma_same_lists(m, m.disconnected(now));
    if m.cur().remote is None && cmd == "del"@ {
        match commands::index_in(commands::args_of(args)) {
            Some(n) => {
                lemma_bookmark_removed(m, n as int, now);
            },
            None => {},
        }
    }
    if r.bookmarks == m.bookmarks && r.cur().remote == m.cur().remote {
        lemma_same_lists(m, r);
    }
}

/// Removing a bookmark keeps every list of matches exact.
proof fn lemma_bookmark_removed(m: Model, idx: int, now: Timestamp)
    requires
        m.wf(),
    ensures
        stays_fresh(m, m.bookmark_removed(idx, now)),
        only_active_differs(m, m.bookmark_removed(idx, now)),
{
    if 0 <= idx < m.bookmarks.len() {
        let b = Model { bookmarks: m.bookmarks.remove(idx), ..m };
        lemma_refreshed(b);
        assert(b.recent_dirs_matching() == m.recent_dirs_matching());
        assert(b.history_matching() == m.history_matching());
        assert(b.cwd_history_matching() == m.cwd_history_matching());
        lemma_out(
            b.refreshed_bookmarks(),
            "Deleted bookmark: "@ + m.bookmarks[idx],
            OutType::StdOut,
            now,
        );
    }
}

/// Lines of output touch no list of matches and no other tab.
proof fn lemma_lines(m: Model, lines: Seq<(OutKind, Seq<char>)>, now: Timestamp)
    requires
        m.wf(),
    ensures
        stays_fresh(m, m.with_lines(lines, now)),
        only_active_differs(m, m.with_lines(lines, now)),
        m.with_lines(lines, now).wf(),
        m.with_lines(lines, now).cur().remote == m.cur().remote,
    decreases lines.len(),
{
    if lines.len() > 0 {
        lemma_lines(m, lines.drop_last(), now);
        lemma_out(
            m.with_lines(lines.drop_last(), now),
            lines.last().1,
            types::out_type(lines.last().0),
            now,
        );
    }
}

/// Opening, changing and dropping the active tab's session touches no list of
/// matches and no other tab: each tab has a connection of its own.
pub proof fn law_sessions_are_local(m: Model, s: SessionModel, now: Timestamp)
    requires
        m.wf(),
    ensures
        forall|r: RemoteModel, result: Result<SessionModel, Seq<char>>|
            {
                &&& stays_fresh(m, #[trigger] m.connected(r, result, now))
                &&& only_active_differs(m, m.connected(r, result, now))
            },
        stays_fresh(m, m.disconnected(now)),
        only_active_differs(m, m.disconnected(now)),
        forall|wanted: SshMode, mode: SshMode, error: Option<Seq<char>>|
            {
                &&& stays_fresh(m, #[trigger] m.mode_set(wanted, mode, error, now))
                &&& only_active_differs(m, m.mode_set(wanted, mode, error, now))
            },
        forall|lines: Seq<(OutKind, Seq<char>)>, error: Option<Seq<char>>|
            {
                &&& stays_fresh(m, #[trigger] m.remote_ran(s, lines, error, now))
                &&& only_active_differs(m, m.remote_ran(s, lines, error, now))
            },
        forall|t: Seq<char>, closed: bool|
            {
                &&& stays_fresh(m, #[trigger] m.pumped(t, closed, now))
                &&& only_active_differs(m, m.pumped(t, closed, now))
            },
{
    assert forall|r: RemoteModel, result: Result<SessionModel, Seq<char>>| {
        &&& stays_fresh(m, #[trigger] m.connected(r, result, now))
        &&& only_active_differs(m, m.connected(r, result, now))
    } by {
        lemma_same_lists(m, m.connected(r, result, now));
    }
    lemma_same_lists(m, m.disconnected(now));
    assert forall|wanted: SshMode, mode: SshMode, error: Option<Seq<char>>| {
        &&& stays_fresh(m, #[trigger] m.mode_set(wanted, mode, error, now))
        &&& only_active_differs(m, m.mode_set(wanted, mode, error, now))
    } by {
        lemma_same_lists(m, m.mode_set(wanted, mode, error, now));
    }
    assert forall|lines: Seq<(OutKind, Seq<char>)>, error: Option<Seq<char>>| {
        &&& stays_fresh(m, #[trigger] m.remote_ran(s, lines, error, now))
        &&& only_active_differs(m, m.remote_ran(s, lines, error, now))
    } by {
        let w = m.with_session(Some(s));
        lemma_tab_data(m, w.cur());
        lemma_lines(w, lines, now);
        if error is Some {
            lemma_out(w.with_lines(lines, now), "ssh: "@ + error->0, OutType::StdErr, now);
        }
    }
    assert forall|t: Seq<char>, closed: bool| {
        &&& stays_fresh(m, #[trigger] m.pumped(t, closed, now))
        &&& only_active_differs(m, m.pumped(t, closed, now))
    } by {
        lemma_same_lists(m, m.pumped(t, closed, now));
    }
}

/// Clicks in the lists keep every list of matches exact and leave the other
/// tabs alone.
pub proof fn law_clicks_are_local(m: Model, a: ListActionModel, now: Timestamp)
    requires
        m.wf(),
    ensures
        stays_fresh(m, m.acted(a, now).0),
        only_active_differs(m, m.acted(a, now).0),
{
    match a {
        ListActionModel::RemoveBookmark(i) => {
            lemma_bookmark_removed(m, i as int, now);
        },
        _ => {
            lemma_same_lists(m, m.acted(a, now).0);
        },
    }
}

/// Whatever else the input line, the form and the shell do keeps every list of
/// matches exact and leaves the other tabs alone.
pub proof fn law_the_rest_is_local(
    m: Model,
    stepped: Option<Seq<char>>,
    nav: NavState,
    branch: Option<Seq<char>>,
    files: Seq<FileModel>,
    keyring_error: Option<Seq<char>>,
    stdout: Seq<u8>,
    stderr: Seq<u8>,
    now: Timestamp,
)
    requires
        m.wf(),
    ensures
        stays_fresh(m, m.recalled(stepped, nav)),
        only_active_differs(m, m.recalled(stepped, nav)),
        stays_fresh(m, m.with_branch(branch)),
        only_active_differs(m, m.with_branch(branch)),
        stays_fresh(m, m.with_files(files)),
        only_active_differs(m, m.with_files(files)),
        stays_fresh(m, m.form_saved(keyring_error)),
        only_active_differs(m, m.form_saved(keyring_error)),
        stays_fresh(m, m.form_toggled()),
        only_active_differs(m, m.form_toggled()),
        stays_fresh(m, m.form_cancelled()),
        only_active_differs(m, m.form_cancelled()),
        stays_fresh(m, m.program_ran(stdout, stderr, now)),
        only_active_differs(m, m.program_ran(stdout, stderr, now)),
{
    lemma_same_lists(m, m.recalled(stepped, nav));
    lemma_same_lists(m, m.with_branch(branch));
    lemma_same_lists(m, m.with_files(files));
    lemma_same_lists(m, m.form_saved(keyring_error));
    lemma_same_lists(m, m.form_toggled());
    lemma_same_lists(m, m.form_cancelled());
    lemma_same_lists(m, m.program_ran(stdout, stderr, now));
}

/// Output of whatever sort, the reports of an attempt to connect, removing a
/// remote, filling the input line, switching panels and handing on the keyboard
/// focus keep every list of matches exact and leave the other tabs alone.
pub proof fn law_output_and_controls_are_local(
    m: Model,
    t: Seq<char>,
    type_: OutType,
    lines: Seq<(OutKind, Seq<char>)>,
    r: RemoteModel,
    has_password: bool,
    idx: int,
    panels: PanelVis,
    focus: bool,
    now: Timestamp,
)
    requires
        m.wf(),
    ensures
        stays_fresh(m, m.with_out(t, type_, now)),
        only_active_differs(m, m.with_out(t, type_, now)),
        stays_fresh(m, m.with_lines(lines, now)),
        only_active_differs(m, m.with_lines(lines, now)),
        stays_fresh(m, m.connecting(r, has_password, now)),
        only_active_differs(m, m.connecting(r, has_password, now)),
        stays_fresh(m, m.ssh_reported(t, now)),
        only_active_differs(m, m.ssh_reported(t, now)),
        stays_fresh(m, m.remote_removed(idx, now)),
        only_active_differs(m, m.remote_removed(idx, now)),
        stays_fresh(m, m.input_filled(t)),
        only_active_differs(m, m.input_filled(t)),
        stays_fresh(m, (Model { panel_vis: panels, ..m })),
        only_active_differs(m, (Model { panel_vis: panels, ..m })),
        stays_fresh(m, (Model { focus, ..m })),
        only_active_differs(m, (Model { focus, ..m })),
{
    lemma_out(m, t, type_, now);
    lemma_lines(m, lines, now);
    lemma_same_lists(m, m.connecting(r, has_password, now));
    lemma_same_lists(m, m.ssh_reported(t, now));
    lemma_same_lists(m, m.remote_removed(idx, now));
    lemma_same_lists(m, m.input_filled(t));
    lemma_same_lists(m, (Model { panel_vis: panels, ..m }));
    lemma_same_lists(m, (Model { focus, ..m }));
}

/// Toggling a bookmark and finishing a `cd` keep every list of matches exact
/// and leave the other tabs alone.
pub proof fn law_places_are_local(
    m: Model,
    o: OutcomeModel,
    target: Seq<char>,
    recent: Option<usize>,
    missing: bool,
    now: Timestamp,
)
    requires
        m.wf(),
    ensures
        stays_fresh(m, m.bookmark_toggled()),
        only_active_differs(m, m.bookmark_toggled()),
        stays_fresh(m, m.cd_finished(o, target, recent, missing, now)),
        only_active_differs(m, m.cd_finished(o, target, recent, missing, now)),
{
    let b = Model { bookmarks: navigation::toggled(m.bookmarks, m.cur().cwd, m.style), ..m };
    lemma_refreshed(b);
    assert(b.recent_dirs_matching() == m.recent_dirs_matching());
    assert(b.history_matching() == m.history_matching());
    assert(b.cwd_history_matching() == m.cwd_history_matching());
    law_navigation_is_local(m, o, now);
    let d = m.dir_changed(o, now);
    if m.is_stale(o, target, recent, missing) {
        let p = Model { recent: d.recent.remove(recent->0 as int), ..d };
        lemma_refreshed(p);
        assert(p.bookmarks_matching() == d.bookmarks_matching());
        assert(p.history_matching() == d.history_matching());
        assert(p.cwd_history_matching() == d.cwd_history_matching());
        lemma_out(
            p.refreshed_recent_dirs(),
            "cd: removed stale recent-dir entry "@ + text::decimal(recent->0 as nat),
            OutType::StdErr,
            now,
        );
    }
}

/// Opening, closing and selecting tabs keeps every list of matches exact, and
/// there is always a tab that is active.
pub proof fn law_tabs_stay_well_formed(m: Model, idx: int, files: Seq<FileModel>)
    requires
        m.wf(),
    ensures
        m.tab_added(files).wf(),
        m.tab_closed(idx).wf(),
        m.tab_selected(idx).wf(),
        stays_fresh(m, m.tab_added(files)),
        stays_fresh(m, m.tab_closed(idx)),
        stays_fresh(m, m.tab_selected(idx)),
{
    let a = Model {
        tabs: m.tabs.push(tabs::fresh_tab(m.cur().cwd, m.cur().branch)),
        active: m.tabs.len() as int,
        focus: true,
        files,
        ..m
    };
    let c = Model {
        tabs: m.tabs.remove(idx),
        active: tabs::active_after_close(m.active, idx, m.tabs.len() as int),
        ..m
    };
    let s = Model { active: idx, focus: true, ..m };
    lemma_refreshed(a);
    lemma_refreshed(c);
    lemma_refreshed(s);
    assert(a.bookmarks_matching() == m.bookmarks_matching());
    assert(a.recent_dirs_matching() == m.recent_dirs_matching());
    assert(a.history_matching() == m.history_matching());
    assert(c.bookmarks_matching() == m.bookmarks_matching());
    assert(c.recent_dirs_matching() == m.recent_dirs_matching());
    assert(c.history_matching() == m.history_matching());
    assert(s.bookmarks_matching() == m.bookmarks_matching());
    assert(s.recent_dirs_matching() == m.recent_dirs_matching());
    assert(s.history_matching() == m.history_matching());
}

/// The last tab stays open; closing another tab leaves the active one active;
/// closing the active one makes its right neighbour active, or else its left.
pub proof fn law_closing_a_tab(m: Model, idx: int)
    requires
        m.wf(),
    ensures
        m.tabs.len() == 1 ==> m.tab_closed(idx) == m,
        m.can_close(idx) ==> m.tab_closed(idx).tabs.len() == m.tabs.len() - 1,
        m.can_close(idx) && idx != m.active ==> m.tab_closed(idx).cur() == m.cur(),
        m.can_close(idx) && idx == m.active && idx + 1 < m.tabs.len() ==> m.tab_closed(idx).cur()
            == m.tabs[idx + 1],
        m.can_close(idx) && idx == m.active && idx + 1 == m.tabs.len() ==> m.tab_closed(idx).cur()
            == m.tabs[idx - 1],
{
}

/// A new tab stands in the same directory with nothing in it and no
/// connection, and closing it gives the old tabs back.
pub proof fn law_a_new_tab_closed_again(m: Model, files: Seq<FileModel>)
    requires
        m.wf(),
    ensures
        m.tab_added(files).cur() == tabs::fresh_tab(m.cur().cwd, m.cur().branch),
        m.tab_added(files).tab_closed(m.tabs.len() as int).tabs == m.tabs,
{
    assert(m.tab_added(files).tab_closed(m.tabs.len() as int).tabs =~= m.tabs);
}

/// Selecting a tab changes no tab, and selecting the first one again leads
/// back to it.
pub proof fn law_selecting_tabs(m: Model, idx: int)
    requires
        m.wf(),
    ensures
        m.tab_selected(idx).tabs == m.tabs,
        m.can_select(idx) ==> m.tab_selected(idx).cur() == m.tabs[idx],
        m.tab_selected(idx).tab_selected(m.active).cur() == m.cur(),
{
}

/// No two of the paths are the same.
pub open spec fn distinct(list: Seq<Seq<char>>, style: PathStyle) -> bool {
    forall|i: int, j: int|
        0 <= i < j < list.len() ==> !path::same_path(style, #[trigger] list[i], #[trigger] list[j])
}

/// The paths of a list of recent directories.
pub open spec fn paths_of(list: Seq<RecentModel>) -> Seq<Seq<char>> {
    list.map_values(|r: RecentModel| r.path)
}

/// Toggling the bookmark of a directory that has none puts it at the end of the
/// bookmarks, and toggling it again gives the old bookmarks back.
pub proof fn law_toggling_a_new_bookmark_twice(m: Model)
    requires
        m.wf(),
        !m.is_bookmarked(m.cur().cwd),
    ensures
        m.bookmark_toggled().is_bookmarked(m.cur().cwd),
        m.bookmark_toggled().bookmarks.last() == m.cur().cwd,
        m.bookmark_toggled().bookmark_toggled().bookmarks == m.bookmarks,
{
    let p = m.cur().cwd;
    let a = navigation::toggled(m.bookmarks, p, m.style);
    navigation::lemma_first_same(m.bookmarks, p, m.style);
    navigation::lemma_first_same(a, p, m.style);
    assert(a == m.bookmarks.push(p));
    assert(path::same_path(m.style, a[m.bookmarks.len() as int], p));
    let k = navigation::first_same(a, p, m.style);
    assert(k == m.bookmarks.len()) by {
        if k < m.bookmarks.len() {
            assert(a[k] == m.bookmarks[k]);
        }
    }
    assert(a.remove(k) =~= m.bookmarks);
    assert(m.bookmark_toggled().bookmarks[m.bookmarks.len() as int] == p);
}

/// While no directory is bookmarked twice, toggling flips whether the active
/// tab's directory is bookmarked, keeps every other bookmark, and no directory
/// becomes bookmarked twice.
pub proof fn law_toggling_a_bookmark(m: Model, q: Seq<char>)
    requires
        m.wf(),
        distinct(m.bookmarks, m.style),
    ensures
        m.bookmark_toggled().is_bookmarked(m.cur().cwd) == !m.is_bookmarked(m.cur().cwd),
        !path::same_path(m.style, q, m.cur().cwd) ==> m.bookmark_toggled().is_bookmarked(q)
            == m.is_bookmarked(q),
        distinct(m.bookmark_toggled().bookmarks, m.style),
{
    let p = m.cur().cwd;
    let list = m.bookmarks;
    let a = m.bookmark_toggled().bookmarks;
    let k = navigation::first_same(list, p, m.style);
    navigation::lemma_first_same(list, p, m.style);
    if k < list.len() {
        assert(a =~= list.remove(k));
        assert(path::same_path(m.style, list[k], p));
        assert forall|i: int| 0 <= i < a.len() implies !path::same_path(m.style, #[trigger] a[i], p) by {
            let j = if i < k {
                i
            } else {
                i + 1
            };
            assert(a[i] == list[j]);
            if j < k {
                assert(!path::same_path(m.style, list[j], list[k]));
            } else {
                assert(!path::same_path(m.style, list[k], list[j]));
            }
        }
        assert(!m.bookmark_toggled().is_bookmarked(p));
        if !path::same_path(m.style, q, p) {
            if m.is_bookmarked(q) {
                let i = choose|i: int| 0 <= i < list.len() && path::same_path(m.style, #[trigger] list[i], q);
                assert(i != k);
                if i < k {
                    assert(a[i] == list[i]);
                } else {
                    assert(a[i - 1] == list[i]);
                }
            }
            if m.bookmark_toggled().is_bookmarked(q) {
                let i = choose|i: int| 0 <= i < a.len() && path::same_path(m.style, #[trigger] a[i], q);
                let j = if i < k {
                    i
                } else {
                    i + 1
                };
                assert(a[i] == list[j]);
            }
        }
    } else {
        assert(a == list.push(p));
        assert(a[list.len() as int] == p);
        if !path::same_path(m.style, q, p) {
            if m.is_bookmarked(q) {
                let i = choose|i: int| 0 <= i < list.len() && path::same_path(m.style, #[trigger] list[i], q);
                assert(a[i] == list[i]);
            }
            if m.bookmark_toggled().is_bookmarked(q) {
                let i = choose|i: int| 0 <= i < a.len() && path::same_path(m.style, #[trigger] a[i], q);
                assert(i < list.len());
                assert(a[i] == list[i]);
            }
        }
        if m.is_bookmarked(p) {
            let i = choose|i: int| 0 <= i < list.len() && path::same_path(m.style, #[trigger] list[i], p);
            assert(!path::same_path(m.style, list[i], p));
        }
    }
}

/// What is left of a list of recent directories without a path.
proof fn lemma_without(list: Seq<RecentModel>, p: Seq<char>, style: PathStyle)
    ensures
        ({
            let f = list.filter(|r: RecentModel| !path::same_path(style, r.path, p));
            &&& forall|i: int| 0 <= i < f.len() ==> !path::same_path(style, (#[trigger] f[i]).path, p)
            &&& forall|i: int| 0 <= i < f.len() ==> list.contains(#[trigger] f[i])
            &&& forall|i: int|
                0 <= i < list.len() && !path::same_path(style, (#[trigger] list[i]).path, p)
                    ==> f.contains(list[i])
            &&& distinct(paths_of(list), style) ==> distinct(paths_of(f), style)
        }),
    decreases list.len(),
{
    reveal(Seq::filter);
    let keep = |r: RecentModel| !path::same_path(style, r.path, p);
    let f = list.filter(keep);
    if list.len() > 0 {
        let before = list.drop_last();
        let g = before.filter(keep);
        lemma_without(before, p, style);
        assert forall|i: int| 0 <= i < f.len() implies list.contains(#[trigger] f[i]) by {
            if i < g.len() {
                assert(before.contains(g[i]));
                let j = choose|j: int| 0 <= j < before.len() && before[j] == g[i];
                assert(list[j] == f[i]);
            } else {
                assert(list[list.len() - 1] == f[i]);
            }
        }
        assert forall|i: int|
            0 <= i < list.len() && !path::same_path(style, (#[trigger] list[i]).path, p) implies f.contains(
            list[i],
        ) by {
            if i < before.len() {
                assert(before[i] == list[i]);
                assert(g.contains(before[i]));
                let j = choose|j: int| 0 <= j < g.len() && g[j] == before[i];
                assert(f[j] == list[i]);
            } else {
                assert(f[f.len() - 1] == list[i]);
            }
        }
        if distinct(paths_of(list), style) {
            assert(paths_of(before) =~= paths_of(list).drop_last());
            assert(distinct(paths_of(before), style));
            assert forall|i: int, j: int| 0 <= i < j < f.len() implies !path::same_path(
                style,
                #[trigger] paths_of(f)[i],
                #[trigger] paths_of(f)[j],
            ) by {
                if j < g.len() {
                    assert(paths_of(g)[i] == paths_of(f)[i]);
                    assert(paths_of(g)[j] == paths_of(f)[j]);
                } else {
                    assert(before.contains(g[i]));
                    let k = choose|k: int| 0 <= k < before.len() && before[k] == g[i];
                    assert(paths_of(list)[k] == paths_of(f)[i]);
                    assert(paths_of(list)[list.len() - 1] == paths_of(f)[j]);
                }
            }
        }
    }
}

/// A directory that a command was run from is the newest recent directory and
/// in the list only once; every other directory stays; and a list in which no
/// directory stands twice stays one.
pub proof fn law_recent_dirs_stay_distinct(
    list: Seq<RecentModel>,
    p: Seq<char>,
    dt: Timestamp,
    other: RecentModel,
    style: PathStyle,
)
    ensures
        navigation::recorded(list, p, dt, style).last() == (RecentModel { path: p, dt }),
        forall|i: int|
            0 <= i < navigation::recorded(list, p, dt, style).len() - 1 ==> !path::same_path(
                style,
                (#[trigger] navigation::recorded(list, p, dt, style)[i]).path,
                p,
            ),
        list.contains(other) && !path::same_path(style, other.path, p) ==> navigation::recorded(
            list,
            p,
            dt,
            style,
        ).contains(other),
        distinct(paths_of(list), style) ==> distinct(paths_of(navigation::recorded(list, p, dt, style)), style),
{
    let f = list.filter(|r: RecentModel| !path::same_path(style, r.path, p));
    let r = navigation::recorded(list, p, dt, style);
    lemma_without(list, p, style);
    if list.contains(other) && !path::same_path(style, other.path, p) {
        let i = choose|i: int| 0 <= i < list.len() && list[i] == other;
        assert(f.contains(list[i]));
        let j = choose|j: int| 0 <= j < f.len() && f[j] == other;
        assert(r[j] == other);
    }
    if distinct(paths_of(list), style) {
        assert forall|i: int, j: int| 0 <= i < j < r.len() implies !path::same_path(
                style,
            #[trigger] paths_of(r)[i],
            #[trigger] paths_of(r)[j],
        ) by {
            assert(paths_of(f)[i] == paths_of(r)[i]);
            if j < f.len() {
                assert(paths_of(f)[j] == paths_of(r)[j]);
            } else {
                assert(!path::same_path(style, f[i].path, p));
            }
        }
    }
}

/// The line asks for an earlier one.
pub open spec fn asks_for_earlier(line: Seq<char>) -> bool {
    let cmd = commands::command_of(text::trim(line));
    cmd == "his"@ || cmd == "hist"@ || cmd == "hisd"@
}

/// A line that asks for an earlier one is not recorded. Any other line is, as
/// it was typed but for the white space around it, in the directory of the
/// active tab; an empty line leaves everything as it was.
pub proof fn law_what_the_history_records(
    m: Model,
    input: Seq<char>,
    labels: LabelsModel,
    now: Timestamp,
)
    requires
        m.wf(),
    ensures
        ({
            let (r, step) = m.line_read(input, labels, now);
            let line = text::trim(input);
            &&& line.len() == 0 ==> r == m && step == StepModel::Ignored
            &&& asks_for_earlier(input) ==> r.history == m.history && r.recent == m.recent
            &&& line.len() > 0 && !asks_for_earlier(input) ==> r.history == m.history.push(
                HistoryModel { text: line, dir: m.cur().cwd, dt: now },
            )
            &&& step is Dispatch <==> line.len() > 0 && !asks_for_earlier(input)
        }),
{
}

/// `cd` leaves the recent directories as they are; any other line that is
/// recorded makes the active tab's directory the newest of them.
pub proof fn law_what_the_recent_dirs_record(
    m: Model,
    input: Seq<char>,
    labels: LabelsModel,
    now: Timestamp,
)
    requires
        m.wf(),
    ensures
        ({
            let (r, step) = m.line_read(input, labels, now);
            let cd = commands::command_of(text::trim(input)) == "cd"@;
            &&& cd || !(step is Dispatch) ==> r.recent == m.recent
            &&& !cd && step is Dispatch ==> r.recent == navigation::recorded(
                m.recent,
                m.cur().cwd,
                now,
                m.style,
            )
        }),
{
    reveal_strlit("cd");
    reveal_strlit("his");
    reveal_strlit("hist");
    reveal_strlit("hisd");
    assert("cd"@.len() == 2);
    assert("his"@.len() == 3);
    assert("hist"@.len() == 4);
    assert("hisd"@.len() == 4);
}

/// Every line that is not empty is echoed behind the prompt that was shown, and
/// takes the recall back to the live input.
pub proof fn law_lines_are_echoed(m: Model, input: Seq<char>, labels: LabelsModel, now: Timestamp)
    requires
        m.wf(),
        text::trim(input).len() > 0,
    ensures
        ({
            let r = m.line_read(input, labels, now).0;
            &&& r.cur().nav == types::nav_live()
            &&& r.cur().out.len() > m.cur().out.len()
            &&& r.cur().out[m.cur().out.len() as int].text == m.prompt(labels) + "> "@ + text::trim(
                input,
            )
            &&& r.cur().out[m.cur().out.len() as int].type_ == OutType::Prompt
            &&& r.cur().out.take(m.cur().out.len() as int) == m.cur().out
        }),
{
    let r = m.line_read(input, labels, now).0;
    assert(r.cur().out.take(m.cur().out.len() as int) =~= m.cur().out);
}

/// No line of the history asks for an earlier one.
pub open spec fn no_line_asks_for_earlier(history: Seq<HistoryModel>) -> bool {
    forall|i: int| 0 <= i < history.len() ==> !asks_for_earlier((#[trigger] history[i]).text)
}

/// Lines that ask for earlier ones never come into the history, and while none
/// is there, the line that such a line asks for is run at once: it does not ask
/// for yet another.
pub proof fn law_reruns_end(m: Model, input: Seq<char>, labels: LabelsModel, now: Timestamp)
    requires
        m.wf(),
        no_line_asks_for_earlier(m.history),
    ensures
        no_line_asks_for_earlier(m.line_read(input, labels, now).0.history),
        m.line_read(input, labels, now).1 matches StepModel::Rerun { text } ==> {
            let r = m.line_read(input, labels, now).0;
            let next = r.line_read(text, labels, now).1;
            next is Dispatch || next is Ignored
        },
{
    let (r, step) = m.line_read(input, labels, now);
    let line = text::trim(input);
    law_what_the_history_records(m, input, labels, now);
    lemma_trim_twice(input);
    if line.len() > 0 && !asks_for_earlier(input) {
        assert(!asks_for_earlier(line));
        assert forall|i: int| 0 <= i < r.history.len() implies !asks_for_earlier(
            (#[trigger] r.history[i]).text,
        ) by {
            if i < m.history.len() {
                assert(r.history[i] == m.history[i]);
            }
        }
    }
    if let StepModel::Rerun { text } = step {
        let n = commands::index_in(commands::args_of(line))->0;
        assert(text == m.history[n as int].text);
        law_what_the_history_records(r, text, labels, now);
    }
}

/// Trimming a text takes nothing off a trimmed text.
proof fn lemma_trim_twice(s: Seq<char>)
    ensures
        text::trim(text::trim(s)) == text::trim(s),
{
    lemma_trim_start_clean(s);
    lemma_trim_end_clean(text::trim_start(s));
    let t = text::trim(s);
    if t.len() > 0 {
        assert(text::trim_start(t) == t);
        assert(text::trim_end(t) == t);
    }
}

/// Leading white space is gone.
proof fn lemma_trim_start_clean(s: Seq<char>)
    ensures
        text::trim_start(s).len() > 0 ==> !text::is_white(text::trim_start(s)[0]),
    decreases s.len(),
{
    if s.len() > 0 && text::is_white(s[0]) {
        lemma_trim_start_clean(s.drop_first());
    }
}

/// Trailing white space is gone, and what is left begins as before.
proof fn lemma_trim_end_clean(s: Seq<char>)
    ensures
        text::trim_end(s).len() > 0 ==> !text::is_white(text::trim_end(s).last()),
        text::trim_end(s).len() > 0 ==> text::trim_end(s)[0] == s[0],
    decreases s.len(),
{
    if s.len() > 0 && text::is_white(s.last()) {
        lemma_trim_end_clean(s.drop_last());
    }
}

/// What handling a command asks for where the active tab is connected to the
/// given session: the session is managed, or the line goes to it as it was
/// typed.
pub open spec fn goes_to_session(session: SessionModel, input: Seq<char>, action: ActionModel) -> bool {
    match action {
        ActionModel::Disconnect { session: s } => s == session,
        ActionModel::SetMode { mode } => mode != session.mode,
        ActionModel::RunRemote { input: line } => line == input,
        _ => false,
    }
}

/// While the active tab is connected, no command that is handled runs on this
/// machine: the session is managed, or the line goes to it as it was typed.
pub proof fn law_a_connected_tab_handles_nothing_here(
    m: Model,
    cmd: Seq<char>,
    input: Seq<char>,
    args: Seq<char>,
    default_user: Seq<char>,
    now: Timestamp,
)
    requires
        m.wf(),
        m.cur().remote is Some,
    ensures
        goes_to_session(
            m.cur().remote->0,
            input,
            m.handled(cmd, input, args, default_user, now).1,
        ),
{
}

/// Reading a line leaves the session of a connected tab in place. Of what a line
/// can ask for, only `hisd` and the index of an earlier line runs anything on
/// this machine: it is answered before the session is asked. A line that is
/// dispatched goes to the session.
pub proof fn law_only_hisd_runs_here_while_connected(
    m: Model,
    input: Seq<char>,
    labels: LabelsModel,
    default_user: Seq<char>,
    now: Timestamp,
)
    requires
        m.wf(),
        m.cur().remote is Some,
    ensures
        ({
            let (r, step) = m.line_read(input, labels, now);
            let line = text::trim(input);
            let index = commands::index_in(commands::args_of(line));
            &&& r.cur().remote == m.cur().remote
            &&& step is RunIn <==> commands::command_of(line) == "hisd"@ && index is Some
                && index->0 < m.history.len()
            &&& step matches StepModel::Dispatch { cmd, args, input: typed } ==> {
                &&& typed == line
                &&& goes_to_session(
                    m.cur().remote->0,
                    line,
                    r.handled(cmd, typed, args, default_user, now).1,
                )
            }
        }),
{
    reveal_strlit("his");
    reveal_strlit("hist");
    reveal_strlit("hisd");
    assert("his"@.len() == 3);
    assert("hist"@[3] == 't');
    assert("hisd"@[3] == 'd');
}

/// A line that is submitted to an interactive session is sent to it, with a
/// carriage return, and else it is run; the input is left empty and keeps the
/// focus.
pub proof fn law_submitting_a_line(m: Model)
    requires
        m.wf(),
    ensures
        m.is_pty() ==> m.submitted() == (SubmittedModel::Send {
            bytes: vstd::utf8::encode_utf8(m.cur().input).push(13u8),
        }),
        !m.is_pty() ==> m.submitted() == (SubmittedModel::Run { line: m.cur().input }),
        m.input_filled(Seq::empty()).cur().input.len() == 0,
        m.input_filled(Seq::empty()).focus,
{
}

/// A tab is back to local once it is disconnected, or once its remote shell has
/// exited; and switching the mode twice leads back to the first.
pub proof fn law_sessions_end(m: Model, t: Seq<char>, now: Timestamp, mode: SshMode)
    requires
        m.wf(),
    ensures
        m.disconnected(now).cur().remote is None,
        m.is_pty() ==> m.pumped(t, true, now).cur().remote is None,
        m.pumped(t, false, now).cur().remote == m.cur().remote,
        remote::other_mode(remote::other_mode(mode)) == mode,
        remote::other_mode(mode) != mode,
{
}

/// In `[user@]host[:port] [port]` the port argument wins over the suffix, and
/// without either the port is the default one.
pub proof fn law_the_port_argument_wins(spec: Seq<char>, default_user: Seq<char>)
    ensures
        ({
            let arg = remote::port_in(remote::first_word(remote::after_first_word(spec)));
            let target = remote::first_word(spec);
            let r = remote::remote_meant(spec, default_user);
            &&& arg is Some ==> r.port == arg->0
            &&& arg is None && !target.contains(':') ==> r.port == remote::DEFAULT_PORT
            &&& !target.contains('@') ==> r.username == default_user
            &&& !target.contains('@') && !target.contains(':') ==> r.host == target
        }),
{
    let target = remote::first_word(spec);
    text::lemma_first_of(target, '@');
    let at = text::first_of(target, '@');
    let hostport = if at < target.len() {
        target.skip(at + 1)
    } else {
        target
    };
    text::lemma_first_of(hostport, ':');
    let colon = text::first_of(hostport, ':');
    if !target.contains(':') && colon < hostport.len() {
        let k = if at < target.len() {
            at + 1 + colon
        } else {
            colon
        };
        assert(target[k] == ':');
    }
    if colon == hostport.len() {
        assert(hostport.take(colon) =~= hostport);
    }
}

/// What is left of a list of remotes without one of them.
proof fn lemma_other_remotes(list: Seq<RemoteModel>, r: RemoteModel)
    ensures
        !list.filter(remote::other_than(r)).contains(r),
        forall|x: RemoteModel|
            x != r && #[trigger] list.contains(x) ==> list.filter(remote::other_than(r)).contains(x),
        !list.contains(r) ==> list.filter(remote::other_than(r)) == list,
    decreases list.len(),
{
    reveal(Seq::filter);
    let f = list.filter(remote::other_than(r));
    if list.len() > 0 {
        let before = list.drop_last();
        let g = before.filter(remote::other_than(r));
        lemma_other_remotes(before, r);
        assert(!f.contains(r)) by {
            if f.contains(r) {
                let i = choose|i: int| 0 <= i < f.len() && f[i] == r;
                if i < g.len() {
                    assert(g[i] == r);
                }
            }
        }
        assert forall|x: RemoteModel| x != r && #[trigger] list.contains(x) implies f.contains(
            x,
        ) by {
            let i = choose|i: int| 0 <= i < list.len() && list[i] == x;
            if i < before.len() {
                assert(before[i] == x);
                assert(before.contains(x));
                let j = choose|j: int| 0 <= j < g.len() && g[j] == x;
                assert(f[j] == x);
            } else {
                assert(f[f.len() - 1] == x);
            }
        }
        if !list.contains(r) {
            assert(list[list.len() - 1] != r);
            assert(!before.contains(r)) by {
                if before.contains(r) {
                    let i = choose|i: int| 0 <= i < before.len() && before[i] == r;
                    assert(list[i] == r);
                }
            }
            assert(f =~= list);
        }
    } else {
        assert(f =~= list);
    }
}

/// A remote that is added stands at the end and nowhere else, every other
/// remote stays, and adding it once more changes nothing. One that is edited
/// changes its own place alone.
pub proof fn law_saved_remotes_are_not_doubled(
    list: Seq<RemoteModel>,
    r: RemoteModel,
    other: RemoteModel,
    i: usize,
)
    ensures
        ({
            let a = remote::entered(list, None, r);
            &&& a.last() == r
            &&& !a.drop_last().contains(r)
            &&& list.contains(other) ==> a.contains(other)
            &&& remote::entered(a, None, r) == a
        }),
        i < list.len() ==> remote::entered(list, Some(i), r) == list.update(i as int, r),
{
    let f = list.filter(remote::other_than(r));
    let a = remote::entered(list, None, r);
    lemma_other_remotes(list, r);
    assert(a.drop_last() =~= f);
    if list.contains(other) {
        if other == r {
            assert(a[a.len() - 1] == r);
        } else {
            assert(f.contains(other));
            let j = choose|j: int| 0 <= j < f.len() && f[j] == other;
            assert(a[j] == other);
        }
    }
    lemma_other_remotes(f, r);
    reveal(Seq::filter);
    assert(a.filter(remote::other_than(r)) =~= f);
}

/// Saving a remote, cancelling the form and loading a remote each leave the
/// password in the form empty. A form that cannot be saved keeps it, and so does
/// one that is closed, or opened, by its button.
pub proof fn law_when_the_form_forgets_the_password(
    m: Model,
    i: int,
    keyring_error: Option<Seq<char>>,
)
    requires
        m.wf(),
    ensures
        m.form_result(keyring_error) is Ok ==> m.form_saved(keyring_error).form.password.len() == 0,
        m.form_cancelled().form.password.len() == 0,
        0 <= i < m.remotes.len() ==> m.form_loaded(i).form.password.len() == 0,
        m.form_result(keyring_error) is Err ==> m.form_saved(keyring_error) == m,
        m.form_toggled().form.password == m.form.password,
{
}

/// Typing `ssh` and the index of a saved remote means that remote, as its
/// button does.
pub proof fn law_ssh_by_index(m: Model, i: usize, default_user: Seq<char>, now: Timestamp)
    requires
        m.wf(),
        i < m.remotes.len(),
    ensures
        m.ssh_target(text::decimal(i as nat), default_user) == Some(m.remotes[i as int]),
        m.ssh_reported(text::decimal(i as nat), now) == m,
        m.acted(ListActionModel::ConnectRemote(i), now) == (
            m,
            gui::EffectModel::Connect { remote: m.remotes[i as int] },
        ),
{
    text::lemma_decimal(i as nat);
    text::lemma_decimal_read(i as nat, usize::MAX as nat);
}

/// A text without white space, followed by some.
proof fn lemma_first_white_at(s: Seq<char>, k: int)
    requires
        0 <= k < s.len(),
        text::is_white(s[k]),
        forall|i: int| 0 <= i < k ==> !text::is_white(#[trigger] s[i]),
    ensures
        text::first_white(s) == k,
    decreases s.len(),
{
    if k > 0 {
        assert(!text::is_white(s[0]));
        let t = s.drop_first();
        assert forall|i: int| 0 <= i < k - 1 implies !text::is_white(#[trigger] t[i]) by {
            assert(t[i] == s[i + 1]);
        }
        lemma_first_white_at(t, k - 1);
    }
}

/// Typing `his` and the index of a line of the history runs that line again.
pub proof fn law_his_by_index(m: Model, i: usize, labels: LabelsModel, now: Timestamp)
    requires
        m.wf(),
        i < m.history.len(),
    ensures
        m.line_read("his "@ + text::decimal(i as nat), labels, now).1 == (StepModel::Rerun {
            text: m.history[i as int].text,
        }),
{
    let d = text::decimal(i as nat);
    let line = "his "@ + d;
    reveal_strlit("his ");
    reveal_strlit("his");
    text::lemma_decimal(i as nat);
    text::lemma_decimal_read(i as nat, usize::MAX as nat);
    assert(line[0] == 'h');
    assert(line.last() == d[d.len() - 1]);
    assert(text::is_digit(d[d.len() - 1]));
    assert(text::trim_start(line) == line);
    assert(text::trim(line) == line);
    assert(line[1] == 'i' && line[2] == 's' && line[3] == ' ');
    lemma_first_white_at(line, 3);
    assert(commands::command_of(line) =~= "his"@);
    let rest = line.skip(3);
    assert(rest.drop_first() =~= d);
    assert(rest[0] == ' ');
    assert(text::is_digit(d[0]));
    assert(text::trim_start(rest) == text::trim_start(d));
    assert(text::trim_start(d) == d);
    assert(commands::args_of(line) == d);
}

/// The button that runs a command of the history in its directory asks for
/// exactly that: the line that it runs hands the command to the shell, in the
/// directory where it was recorded.
pub proof fn law_the_in_dir_button(m: Model, i: usize, labels: LabelsModel, now: Timestamp)
    requires
        m.wf(),
        i < m.history.len(),
    ensures
        ({
            let line = "hisd "@ + text::decimal(i as nat);
            &&& m.acted(ListActionModel::RunHistoryInDir(i), now) == (
                m,
                gui::EffectModel::Run { line },
            )
            &&& m.line_read(line, labels, now).1 == (StepModel::RunIn {
                text: m.history[i as int].text,
                dir: m.history[i as int].dir,
            })
        }),
{
    let d = text::decimal(i as nat);
    let line = "hisd "@ + d;
    reveal_strlit("hisd ");
    reveal_strlit("hisd");
    reveal_strlit("his");
    reveal_strlit("hist");
    text::lemma_decimal(i as nat);
    text::lemma_decimal_read(i as nat, usize::MAX as nat);
    assert(line[0] == 'h');
    assert(line.last() == d[d.len() - 1]);
    assert(text::is_digit(d[d.len() - 1]));
    assert(text::trim_start(line) == line);
    assert(text::trim(line) == line);
    assert(line[1] == 'i' && line[2] == 's' && line[3] == 'd' && line[4] == ' ');
    lemma_first_white_at(line, 4);
    assert(commands::command_of(line) =~= "hisd"@);
    assert("hisd"@[3] == 'd');
    assert("hist"@[3] == 't');
    assert("his"@.len() == 3);
    let rest = line.skip(4);
    assert(rest.drop_first() =~= d);
    assert(rest[0] == ' ');
    assert(text::is_digit(d[0]));
    assert(text::trim_start(rest) == text::trim_start(d));
    assert(text::trim_start(d) == d);
    assert(commands::args_of(line) == d);
}

/// A remote that the form can hold: no white space around its host or user,
/// and neither of them empty.
pub open spec fn form_keeps(r: RemoteModel) -> bool {
    &&& r.host.len() > 0
    &&& text::trim(r.host) == r.host
    &&& r.username.len() > 0
    &&& text::trim(r.username) == r.username
}

/// Every remote that the form saves is one that it can hold, and loading such a
/// remote into the form and saving it again changes none of the saved remotes.
pub proof fn law_editing_a_remote(m: Model, i: int, keyring_error: Option<Seq<char>>)
    requires
        m.wf(),
        m.remotes.len() <= usize::MAX,
    ensures
        remote::form_entry(m.form) is Ok ==> form_keeps(remote::form_entry(m.form)->Ok_0),
        0 <= i < m.remotes.len() && form_keeps(m.remotes[i]) ==> {
            let l = m.form_loaded(i);
            &&& l.form_result(keyring_error) == Ok::<RemoteModel, Seq<char>>(m.remotes[i])
            &&& l.form_saved(keyring_error).remotes == m.remotes
        },
{
    reveal_strlit("root");
    lemma_trim_twice(m.form.host);
    lemma_trim_twice(m.form.user);
    assert(text::trim("root"@) == "root"@) by {
        assert("root"@[0] == 'r');
        assert("root"@.last() == 't');
    }
    if 0 <= i < m.remotes.len() && form_keeps(m.remotes[i]) {
        let l = m.form_loaded(i);
        let r = m.remotes[i];
        text::lemma_decimal(r.port as nat);
        text::lemma_decimal_read(r.port as nat, remote::PORT_MAX as nat);
        assert(remote::port_in(l.form.port) == Some(r.port));
        assert(remote::form_entry(l.form)->Ok_0 =~= r);
        assert(l.form_saved(keyring_error).remotes =~= m.remotes);
    }
}

/// While the matches are exact, every one of them has a row, and the rows of
/// the recent directories and of the commands go from the newest to the oldest.
pub proof fn law_rows_show_every_match(m: Model)
    requires
        m.wf(),
        m.bookmarks.len() <= usize::MAX,
        m.recent.len() <= usize::MAX,
        m.history.len() <= usize::MAX,
    ensures
        m.fresh() ==> gui::listed(m.filter.bookmarks, m.bookmarks.len()) == m.filter.bookmarks,
        m.fresh() ==> gui::listed(m.filter.recent_dirs, m.recent.len()) == m.filter.recent_dirs,
        m.fresh() ==> gui::listed(m.filter.history, m.history.len()) == m.filter.history,
        m.fresh() ==> gui::listed(m.filter.cwd_history, m.history.len()) == m.filter.cwd_history,
        m.fresh() ==> forall|k: int, l: int|
            0 <= k < l < m.recent_dir_rows().len() ==> (#[trigger] m.recent_dir_rows()[k]).index
                > (#[trigger] m.recent_dir_rows()[l]).index,
        m.fresh() ==> forall|k: int, l: int|
            0 <= k < l < m.history_rows().len() ==> (#[trigger] m.history_rows()[k]).index
                > (#[trigger] m.history_rows()[l]).index,
        m.fresh() ==> forall|k: int, l: int|
            0 <= k < l < m.cwd_history_rows().len() ==> (#[trigger] m.cwd_history_rows()[k]).index
                > (#[trigger] m.cwd_history_rows()[l]).index,
{
    let pb = |i: int| state::matches_search(m.search.bookmarks, m.bookmarks[i]);
    let pr = |i: int| state::matches_search(m.search.recent_dirs, m.recent[i].path);
    let ph = |i: int| state::matches_search(m.search.history, m.history[i].text);
    let pc = |i: int|
        path::same_path(m.style, m.history[i].dir, m.cur().cwd) && state::matches_search(
            m.search.cwd_history,
            m.history[i].text,
        );
    filter::lemma_indices(m.bookmarks.len(), pb);
    filter::lemma_indices(m.recent.len(), pr);
    filter::lemma_indices(m.history.len(), ph);
    filter::lemma_indices(m.history.len(), pc);
    if m.fresh() {
        assert(m.filter.bookmarks == state::indices(m.bookmarks.len(), pb));
        assert(m.filter.recent_dirs == state::indices(m.recent.len(), pr));
        assert(m.filter.history == state::indices(m.history.len(), ph));
        assert(m.filter.cwd_history == state::indices(m.history.len(), pc));
        lemma_all_listed(m.filter.bookmarks, m.bookmarks.len());
        lemma_all_listed(m.filter.recent_dirs, m.recent.len());
        lemma_all_listed(m.filter.history, m.history.len());
        lemma_all_listed(m.filter.cwd_history, m.history.len());
    }
}

/// Matches that all stand for entries are all listed.
proof fn lemma_all_listed(v: Seq<usize>, n: nat)
    requires
        forall|k: int| 0 <= k < v.len() ==> (#[trigger] v[k]) < n,
    ensures
        gui::listed(v, n) == v,
    decreases v.len(),
{
    reveal(Seq::filter);
    if v.len() > 0 {
        let before = v.drop_last();
        assert forall|k: int| 0 <= k < before.len() implies (#[trigger] before[k]) < n by {
            assert(before[k] == v[k]);
        }
        lemma_all_listed(before, n);
        assert(v[v.len() - 1] < n);
        assert(gui::listed(v, n) =~= v);
    } else {
        assert(gui::listed(v, n) =~= v);
    }
}

/// A session that was saved with its tabs resumes all of them, where their
/// directories still exist.
pub proof fn law_all_tabs_resume(paths: Seq<Seq<char>>, is_dir: Seq<bool>, current: Seq<char>)
    requires
        paths.len() > 0,
        is_dir.len() == paths.len(),
        forall|i: int| 0 <= i < is_dir.len() ==> #[trigger] is_dir[i],
    ensures
        tabs::resumed(paths, is_dir, current) == paths,
{
    lemma_all_kept(paths, is_dir);
}

/// Nothing is dropped where every flag is set.
proof fn lemma_all_kept(paths: Seq<Seq<char>>, keep: Seq<bool>)
    requires
        keep.len() == paths.len(),
        forall|i: int| 0 <= i < keep.len() ==> #[trigger] keep[i],
    ensures
        tabs::kept(paths, keep) == paths,
    decreases paths.len(),
{
    if paths.len() > 0 {
        assert(keep[keep.len() - 1]);
        assert forall|i: int| 0 <= i < keep.drop_last().len() implies #[trigger] keep.drop_last()[i]
        by {
            assert(keep[i]);
        }
        lemma_all_kept(paths.drop_last(), keep.drop_last());
        assert(paths.drop_last().push(paths.last()) =~= paths);
    } else {
        assert(tabs::kept(paths, keep) =~= paths);
    }
}

/// The home directory is shown as `~`, and so is every way of writing it (but
/// for a bare drive with a `.` behind it); a path that does not lie there is
/// shown as it is.
pub proof fn law_home_is_a_tilde(p: Seq<char>, home: Seq<char>, style: PathStyle)
    requires
        p.len() <= usize::MAX,
    ensures
        path::same_path(style, p, home) && !path::is_drive_and_dot(style, p) ==> display::tilde(
            p,
            Some(home),
            style,
        ) == "~"@,
        path::below(style, p, home) is None ==> display::tilde(p, Some(home), style) == p,
        display::tilde(p, None, style) == p,
{
    if path::same_path(style, p, home) && !path::is_drive_and_dot(style, p) {
        path::lemma_head(style, p);
        let c = path::components(style, p);
        let k = c.len() as int;
        assert(c.subrange(0, k) =~= c);
        assert(path::below(style, p, home) == Some(path::text_from(style, p, k)));
        assert(k == path::lead(style, p).len() + path::names(style, p).len());
        if k == 0 {
            assert(path::start_of(style, p) == 0);
        } else if k == 1 && path::head(style, p).prefix is Some {
            assert(!path::is_rooted(style, p));
            assert(path::end_of(style, p) == path::head(style, p).len);
        }
        assert(path::text_from(style, p, k).len() == 0);
    }
}

/// A text that is cut keeps its end and is as long as the column is wide; one
/// that fits is shown whole.
pub proof fn law_a_cut_text_keeps_its_end(s: Seq<char>, max: nat)
    ensures
        s.len() <= max ==> display::truncated_start(s, max) == s,
        s.len() > max ==> display::truncated_start(s, max).len() == max,
        s.len() > max >= 3 ==> display::truncated_start(s, max).skip(3) == s.skip(
            s.len() - (max - 3),
        ),
{
    reveal_strlit("...");
    if s.len() > max >= 3 {
        assert(display::truncated_start(s, max).skip(3) =~= s.skip(s.len() - (max - 3)));
    }
}

/// Only entering a directory changes where a tab is: reading a line, handling a
/// command and running a program, in whatever directory, leave the active tab
/// in its own.
pub proof fn law_only_moves_change_the_directory(
    m: Model,
    input: Seq<char>,
    labels: LabelsModel,
    cmd: Seq<char>,
    args: Seq<char>,
    default_user: Seq<char>,
    stdout: Seq<u8>,
    stderr: Seq<u8>,
    now: Timestamp,
)
    requires
        m.wf(),
    ensures
        m.line_read(input, labels, now).0.cur().cwd == m.cur().cwd,
        m.handled(cmd, input, args, default_user, now).0.cur().cwd == m.cur().cwd,
        m.program_ran(stdout, stderr, now).cur().cwd == m.cur().cwd,
{
}

}
