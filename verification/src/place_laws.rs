//! Where the tabs are and how they get there: directories, bookmarks, tabs, and
//! how a place is shown.

use vstd::prelude::*;

use crate::display;
use crate::display::LabelsModel;
use crate::navigation;
use crate::navigation::OutcomeModel;
use crate::path;
use crate::path::PathStyle;
use crate::state::Filters;
use crate::state::Form;
use crate::state::Model;
use crate::state::Tab;
use crate::tabs;
use crate::tabs::SavedLists;
use crate::text;
use crate::timestamp::Timestamp;
use crate::types;
use crate::types::FileModel;
use crate::types::NavState;
use crate::types::OutKind;
use crate::types::OutType;
use crate::types::PanelVis;
use crate::types::RecentModel;
use crate::types::SessionModel;
use crate::types::SshMode;

verus! {

/// Entering a directory puts the active tab there, with that directory's branch
/// and files, and finds the commands that were run there. Nothing else of the
/// tab changes, no other tab, and nothing beside them.
pub proof fn law_entering_a_directory(
    m: Model,
    cwd: Seq<char>,
    branch: Option<Seq<char>>,
    files: Seq<FileModel>,
    error: Seq<char>,
    now: Timestamp,
)
    requires
        m.wf(),
    ensures
        ({
            let r = m.navigated(OutcomeModel::Entered { cwd, branch, files }, now);
            &&& r.tabs == m.tabs.update(m.active, Tab { cwd, branch, ..m.tabs[m.active] })
            &&& r.files == files
            &&& r.filter.cwd_history == r.refreshed_cwd_history().filter.cwd_history
            &&& r == (Model {
                tabs: r.tabs,
                files,
                filter: Filters { cwd_history: r.filter.cwd_history, ..m.filter },
                ..m
            })
        }),
        m.navigated(OutcomeModel::Failed { error }, now) == m.with_out(
            "cd: "@ + error,
            OutType::StdErr,
            now,
        ),
{
}

/// A change of directory leads to another place only where a directory is
/// entered that is not the active tab's own.
pub proof fn law_what_moves(
    m: Model,
    cwd: Seq<char>,
    branch: Option<Seq<char>>,
    files: Seq<FileModel>,
    error: Seq<char>,
)
    requires
        m.wf(),
    ensures
        m.moves(OutcomeModel::Entered { cwd, branch, files }) <==> !path::same_path(
            m.style,
            cwd,
            m.tabs[m.active].cwd,
        ),
        !m.moves(OutcomeModel::Failed { error }),
{
}

/// A change of directory that leads elsewhere can be gone back on, and leaves
/// nothing to go forward to; a step back can be gone forward on, and a step
/// forward back. Each leaves the other stack alone, and everything else is as
/// entering the directory makes it. Where it leads nowhere, no stack changes.
pub proof fn law_stacks(m: Model, o: OutcomeModel, now: Timestamp)
    requires
        m.wf(),
    ensures
        ({
            let left = m.tabs[m.active].cwd;
            let n = m.navigated(o, now);
            let t = n.tabs[m.active];
            let c = m.dir_changed(o, now);
            let b = m.went_back(o, now);
            let f = m.went_forward(o, now);
            &&& t.back == m.tabs[m.active].back
            &&& t.forward == m.tabs[m.active].forward
            &&& !m.moves(o) ==> c == n && b == n && f == n
            &&& m.moves(o) ==> {
                &&& c.tabs == n.tabs.update(
                    m.active,
                    Tab { back: t.back + seq![left], forward: seq![], ..t },
                )
                &&& b.tabs == n.tabs.update(
                    m.active,
                    Tab { forward: t.forward + seq![left], ..t },
                )
                &&& f.tabs == n.tabs.update(m.active, Tab { back: t.back + seq![left], ..t })
                &&& c == (Model { tabs: c.tabs, ..n })
                &&& b == (Model { tabs: b.tabs, ..n })
                &&& f == (Model { tabs: f.tabs, ..n })
            }
        }),
{
    let left = m.tabs[m.active].cwd;
    let n = m.navigated(o, now);
    let t = n.tabs[m.active];
    assert(t.back.push(left) =~= t.back + seq![left]);
    assert(t.forward.push(left) =~= t.forward + seq![left]);
    let e: Seq<Seq<char>> = Seq::empty();
    assert(e =~= seq![]);
}

/// Taking a step off a stack takes its last directory, which is the one that is
/// gone to, and nothing else; an empty stack stays empty.
pub proof fn law_taking_a_step(m: Model, s: Seq<Seq<char>>, p: Seq<char>)
    requires
        m.wf(),
    ensures
        navigation::top(s + seq![p]) == Some(p),
        navigation::top(seq![]) is None,
        m.tabs[m.active].back == s + seq![p] ==> m.back_taken() == (Model {
            tabs: m.tabs.update(m.active, Tab { back: s, ..m.tabs[m.active] }),
            ..m
        }),
        m.tabs[m.active].forward == s + seq![p] ==> m.forward_taken() == (Model {
            tabs: m.tabs.update(m.active, Tab { forward: s, ..m.tabs[m.active] }),
            ..m
        }),
        m.tabs[m.active].back.len() == 0 ==> m.back_taken() == m,
        m.tabs[m.active].forward.len() == 0 ==> m.forward_taken() == m,
{
    assert((s + seq![p]).last() == p);
    assert((s + seq![p]).drop_last() =~= s);
}

/// A step of recall sets the recall of the active tab, and its input where the
/// step gives one. The live input is where nothing is recalled.
pub proof fn law_recall(m: Model, t: Seq<char>, nav: NavState)
    requires
        m.wf(),
    ensures
        m.recalled(Some(t), nav) == (Model {
            tabs: m.tabs.update(m.active, Tab { nav, input: t, ..m.tabs[m.active] }),
            ..m
        }),
        m.recalled(None, nav) == (Model {
            tabs: m.tabs.update(m.active, Tab { nav, ..m.tabs[m.active] }),
            ..m
        }),
        types::nav_live().his_cursor is None,
        types::nav_live().cd_cursor is None,
{
}

/// Toggling takes the first entry out that is the same path, and puts the path
/// at the end where no entry is. Every other entry stays in its place.
pub proof fn law_toggled(list: Seq<Seq<char>>, p: Seq<char>, style: PathStyle, i: int)
    requires
        0 <= i <= list.len(),
        forall|j: int| 0 <= j < i ==> !path::same_path(style, #[trigger] list[j], p),
        i < list.len() ==> path::same_path(style, list[i], p),
    ensures
        i < list.len() ==> navigation::toggled(list, p, style) == list.take(i) + list.skip(i + 1),
        i == list.len() ==> navigation::toggled(list, p, style) == list + seq![p],
{
    navigation::lemma_first_same(list, p, style);
    let k = navigation::first_same(list, p, style);
    if k < i {
        assert(!path::same_path(style, list[k], p));
    }
    if i < k {
        assert(!path::same_path(style, list[i], p));
    }
    if i < list.len() {
        assert(list.remove(i) =~= list.take(i) + list.skip(i + 1));
    } else {
        assert(list.push(p) =~= list + seq![p]);
    }
}

/// Toggling the bookmark of the active tab's directory changes the bookmarks as
/// toggling that path in them does, finds what matches again, and changes
/// nothing else. A path is bookmarked where some bookmark is the same path.
pub proof fn law_toggling_is_of_the_active_directory(m: Model, p: Seq<char>, i: int)
    requires
        m.wf(),
    ensures
        ({
            let r = m.bookmark_toggled();
            &&& r.bookmarks == navigation::toggled(m.bookmarks, m.tabs[m.active].cwd, m.style)
            &&& r.filter.bookmarks == r.refreshed_bookmarks().filter.bookmarks
            &&& r == (Model {
                bookmarks: r.bookmarks,
                filter: Filters { bookmarks: r.filter.bookmarks, ..m.filter },
                ..m
            })
        }),
        0 <= i < m.bookmarks.len() && path::same_path(m.style, m.bookmarks[i], p)
            ==> m.is_bookmarked(p),
        m.is_bookmarked(p) ==> exists|k: int|
            0 <= k < m.bookmarks.len() && path::same_path(m.style, #[trigger] m.bookmarks[k], p),
{
}

/// A directory that is recorded stands at the end. Before it stand the entries
/// of other directories, in their order: an entry that was last stays last of
/// them unless it is the same path.
pub proof fn law_recorded(
    list: Seq<RecentModel>,
    x: RecentModel,
    p: Seq<char>,
    dt: Timestamp,
    style: PathStyle,
)
    ensures
        navigation::recorded(seq![], p, dt, style) == seq![RecentModel { path: p, dt }],
        path::same_path(style, x.path, p) ==> navigation::recorded(list + seq![x], p, dt, style)
            == navigation::recorded(list, p, dt, style),
        !path::same_path(style, x.path, p) ==> navigation::recorded(list + seq![x], p, dt, style)
            == navigation::recorded(list, p, dt, style).drop_last() + seq![
            x,
            RecentModel { path: p, dt },
        ],
{
    reveal(Seq::filter);
    let l = list + seq![x];
    assert(l.drop_last() =~= list);
    assert(l.last() == x);
    let f = |r: RecentModel| !path::same_path(style, r.path, p);
    let n = RecentModel { path: p, dt };
    let e: Seq<RecentModel> = seq![];
    assert(e.filter(f) =~= e);
    assert(navigation::recorded(e, p, dt, style) =~= seq![n]);
    assert(navigation::recorded(list, p, dt, style).drop_last() =~= list.filter(f));
    if !path::same_path(style, x.path, p) {
        assert(navigation::recorded(l, p, dt, style) =~= list.filter(f) + seq![x, n]);
    }
}

/// Recording the active tab's directory does that to the recent directories,
/// finds what matches again, and changes nothing else.
pub proof fn law_visited(m: Model, now: Timestamp)
    requires
        m.wf(),
    ensures
        ({
            let r = m.visited(now);
            &&& r.recent == navigation::recorded(m.recent, m.tabs[m.active].cwd, now, m.style)
            &&& r.filter.recent_dirs == r.refreshed_recent_dirs().filter.recent_dirs
            &&& r == (Model {
                recent: r.recent,
                filter: Filters { recent_dirs: r.filter.recent_dirs, ..m.filter },
                ..m
            })
        }),
{
}

/// A new tab stands behind the others and is the active one. It is in the same
/// directory, on the same branch, and empty: no input, no output, nothing
/// recalled, nowhere to go back or forward to, and no session.
pub proof fn law_a_new_tab(m: Model, files: Seq<FileModel>)
    requires
        m.wf(),
    ensures
        ({
            let r = m.tab_added(files);
            let t = r.tabs.last();
            &&& r.tabs.drop_last() == m.tabs
            &&& r.tabs.len() == m.tabs.len() + 1
            &&& t.cwd == m.tabs[m.active].cwd
            &&& t.branch == m.tabs[m.active].branch
            &&& t.input.len() == 0
            &&& t.out.len() == 0
            &&& t.nav.his_cursor is None
            &&& t.nav.cd_cursor is None
            &&& t.back.len() == 0
            &&& t.forward.len() == 0
            &&& t.remote is None
            &&& r.active == m.tabs.len()
            &&& r.focus
            &&& r.files == files
            &&& r.filter.cwd_history == r.refreshed_cwd_history().filter.cwd_history
            &&& r == (Model {
                tabs: r.tabs,
                active: r.active,
                focus: true,
                files,
                filter: Filters { cwd_history: r.filter.cwd_history, ..m.filter },
                ..m
            })
        }),
{
    let r = m.tab_added(files);
    assert(r.tabs.drop_last() =~= m.tabs);
}

/// Closing a tab takes that tab out and no other, and only where another is left.
/// The tab that was active stays so; where it was the one that is closed, the one
/// behind it is active, or the last.
pub proof fn law_a_closed_tab(m: Model, idx: int)
    requires
        m.wf(),
    ensures
        m.tabs.len() < 2 || idx < 0 || idx >= m.tabs.len() ==> m.tab_closed(idx) == m
            && !m.can_close(idx),
        m.tabs.len() >= 2 && 0 <= idx < m.tabs.len() ==> {
            let r = m.tab_closed(idx);
            &&& m.can_close(idx)
            &&& r.tabs == m.tabs.take(idx) + m.tabs.skip(idx + 1)
            &&& idx < m.active ==> r.active == m.active - 1
            &&& idx > m.active ==> r.active == m.active
            &&& idx == m.active && idx < m.tabs.len() - 1 ==> r.active == idx
            &&& idx == m.active && idx == m.tabs.len() - 1 ==> r.active == idx - 1
            &&& r.filter.cwd_history == r.refreshed_cwd_history().filter.cwd_history
            &&& r == (Model {
                tabs: r.tabs,
                active: r.active,
                filter: Filters { cwd_history: r.filter.cwd_history, ..m.filter },
                ..m
            })
        },
{
    if m.tabs.len() >= 2 && 0 <= idx < m.tabs.len() {
        assert(m.tab_closed(idx).tabs =~= m.tabs.take(idx) + m.tabs.skip(idx + 1));
    }
}

/// Selecting another tab makes it the active one, puts the keyboard focus on the
/// input line and finds the commands of that tab's directory; selecting the
/// active tab, or none that there is, does nothing.
pub proof fn law_a_selected_tab(m: Model, idx: int)
    requires
        m.wf(),
    ensures
        idx == m.active || idx < 0 || idx >= m.tabs.len() ==> m.tab_selected(idx) == m
            && !m.can_select(idx),
        idx != m.active && 0 <= idx < m.tabs.len() ==> {
            let r = m.tab_selected(idx);
            &&& m.can_select(idx)
            &&& r.active == idx
            &&& r.focus
            &&& r.filter.cwd_history == r.refreshed_cwd_history().filter.cwd_history
            &&& r == (Model {
                active: idx,
                focus: true,
                filter: Filters { cwd_history: r.filter.cwd_history, ..m.filter },
                ..m
            })
        },
{
}

/// A branch is set in the active tab alone, and the files are those of the
/// window.
pub proof fn law_branch_and_files(m: Model, branch: Option<Seq<char>>, files: Seq<FileModel>)
    requires
        m.wf(),
    ensures
        m.with_branch(branch) == (Model {
            tabs: m.tabs.update(m.active, Tab { branch, ..m.tabs[m.active] }),
            ..m
        }),
        m.with_files(files) == (Model { files, ..m }),
{
}

/// A window starts with the tabs and lists that it is given, with nothing
/// searched for, so that every entry of each list matches, with a closed and
/// empty form, and with the keyboard focus on the input line.
pub proof fn law_a_window_starts(
    list_of_tabs: Seq<Tab>,
    active: int,
    lists: SavedLists,
    panel_vis: PanelVis,
    home: Option<Seq<char>>,
    state_path: Seq<char>,
    files: Seq<FileModel>,
    style: PathStyle,
)
    ensures
        ({
            let r = tabs::started(
                list_of_tabs,
                active,
                lists,
                panel_vis,
                home,
                state_path,
                files,
                style,
            );
            &&& r.tabs == list_of_tabs
            &&& r.active == active
            &&& r.focus
            &&& r.search.bookmarks.len() == 0
            &&& r.search.recent_dirs.len() == 0
            &&& r.search.history.len() == 0
            &&& r.search.cwd_history.len() == 0
            &&& r.filter.bookmarks == r.refreshed_bookmarks().filter.bookmarks
            &&& r.filter.recent_dirs == r.refreshed_recent_dirs().filter.recent_dirs
            &&& r.filter.history == r.refreshed_history().filter.history
            &&& r.filter.cwd_history == r.refreshed_cwd_history().filter.cwd_history
            &&& r.panel_vis == panel_vis
            &&& is_empty_form(r.form)
            &&& r.home == home
            &&& r.history == lists.history
            &&& r.bookmarks == lists.bookmarks
            &&& r.recent == lists.recent
            &&& r.remotes == lists.remotes
            &&& r.files == files
            &&& r.state_path == state_path
            &&& r.style == style
        }),
{
}

/// The form is closed, holds nothing and edits nothing.
pub open spec fn is_empty_form(f: Form) -> bool {
    &&& !f.open
    &&& f.host.len() == 0
    &&& f.port.len() == 0
    &&& f.user.len() == 0
    &&& f.password.len() == 0
    &&& f.edit_idx is None
}

/// Of the directories that were saved, those that still exist are resumed, in
/// order; where none does, the current one is.
pub proof fn law_resumed_tabs(
    paths: Seq<Seq<char>>,
    is_dir: Seq<bool>,
    p: Seq<char>,
    d: bool,
    current: Seq<char>,
)
    requires
        paths.len() == is_dir.len(),
    ensures
        tabs::kept(seq![], seq![]).len() == 0,
        tabs::kept(paths + seq![p], is_dir + seq![d]) == if d {
            tabs::kept(paths, is_dir) + seq![p]
        } else {
            tabs::kept(paths, is_dir)
        },
        tabs::kept(paths, is_dir).len() == 0 ==> tabs::resumed(paths, is_dir, current) == seq![
            current,
        ],
        tabs::kept(paths, is_dir).len() > 0 ==> tabs::resumed(paths, is_dir, current)
            == tabs::kept(paths, is_dir),
{
    let a = paths + seq![p];
    let b = is_dir + seq![d];
    assert(a.drop_last() =~= paths);
    assert(b.drop_last() =~= is_dir);
    assert(a.last() == p);
    assert(b.last() == d);
    assert(tabs::kept(a, b) =~= if d {
        tabs::kept(paths, is_dir) + seq![p]
    } else {
        tabs::kept(paths, is_dir)
    });
}

/// A place below the home directory is shown behind `~/`, with forward slashes
/// and otherwise as it is written; the home directory itself as `~`; any other
/// place as it is.
pub proof fn law_places_below_home(
    p: Seq<char>,
    h: Seq<char>,
    rest: Seq<char>,
    style: PathStyle,
)
    ensures
        display::tilde(p, None, style) == p,
        path::below(style, p, h) is None ==> display::tilde(p, Some(h), style) == p,
        path::below(style, p, h) == Some(rest) && rest.len() == 0 ==> display::tilde(
            p,
            Some(h),
            style,
        ) == "~"@,
        path::below(style, p, h) == Some(rest) && rest.len() > 0 && !rest.contains('\\')
            ==> display::tilde(p, Some(h), style) == "~/"@ + rest,
        path::below(style, p, h) == Some(rest) && rest.len() > 0 ==> display::tilde(
            p,
            Some(h),
            style,
        ) == "~/"@ + Seq::new(
            rest.len(),
            |i: int|
                if rest[i] == '\\' {
                    '/'
                } else {
                    rest[i]
                },
        ),
{
    let s = text::replaced(rest, '\\', '/');
    assert(s =~= Seq::new(
        rest.len(),
        |i: int|
            if rest[i] == '\\' {
                '/'
            } else {
                rest[i]
            },
    ));
    if !rest.contains('\\') {
        assert forall|i: int| 0 <= i < rest.len() implies rest[i] == s[i] by {
            assert(rest.contains(rest[i]));
        }
        assert(s =~= rest);
    }
}

/// A text that does not fit its column is three dots and as much of its end as
/// there is room for; in a column of fewer than three it is dots alone. One that
/// fits is shown whole.
pub proof fn law_a_narrow_column(a: Seq<char>, b: Seq<char>, max: nat)
    ensures
        a.len() <= max ==> display::truncated_start(a, max) == a,
        b.len() + 3 == max && (a + b).len() > max ==> display::truncated_start(a + b, max) == seq![
            '.',
            '.',
            '.',
        ] + b,
        max < 3 && a.len() > max ==> display::truncated_start(a, max) == Seq::new(
            max,
            |i: int| '.',
        ),
{
    reveal_strlit("...");
    assert("..."@ =~= seq!['.', '.', '.']);
    if b.len() + 3 == max {
        assert((a + b).skip((a + b).len() - (max - 3)) =~= b);
    }
    if max < 3 && a.len() > max {
        assert(display::truncated_start(a, max) =~= Seq::new(max, |i: int| '.'));
    }
}

/// A session is shown as its label and, behind a colon, its directory, or `~`
/// where none is known; an interactive one is marked.
pub proof fn law_where_a_session_is(s: SessionModel)
    ensures
        s.mode == SshMode::Exec && s.cwd.len() > 0 ==> display::session_display(s) == s.label
            + ":"@ + s.cwd,
        s.mode == SshMode::Exec && s.cwd.len() == 0 ==> display::session_display(s) == s.label
            + ":~"@,
        s.mode == SshMode::Pty && s.cwd.len() > 0 ==> display::session_display(s) == s.label + ":"@
            + s.cwd + " (pty)"@,
        s.mode == SshMode::Pty && s.cwd.len() == 0 ==> display::session_display(s) == s.label
            + ":~"@ + " (pty)"@,
{
    reveal_strlit("");
    reveal_strlit(":~");
    reveal_strlit(":");
    reveal_strlit("~");
    assert(s.label + ":~"@ =~= s.label + ":"@ + "~"@);
    assert(s.label + ":"@ + s.cwd =~= s.label + ":"@ + s.cwd + ""@);
    assert(s.label + ":~"@ =~= s.label + ":"@ + "~"@ + ""@);
}

/// The active tab's place is its session's where it is connected, and else its
/// directory as it is written, behind a star where some bookmark is the same
/// path.
pub proof fn law_where_a_tab_is(m: Model, i: int)
    requires
        m.wf(),
    ensures
        m.tabs[m.active].remote matches Some(s) ==> m.cwd_display() == display::session_display(s),
        m.tabs[m.active].remote is None && 0 <= i < m.bookmarks.len() && path::same_path(
            m.style,
            m.bookmarks[i],
            m.tabs[m.active].cwd,
        ) ==> m.cwd_display() == "*"@ + m.tabs[m.active].cwd,
        m.tabs[m.active].remote is None && (forall|k: int|
            0 <= k < m.bookmarks.len() ==> !path::same_path(
                m.style,
                #[trigger] m.bookmarks[k],
                m.tabs[m.active].cwd,
            )) ==> m.cwd_display() == m.tabs[m.active].cwd,
{
}

/// The prompt is the place, the branch in magenta where a local tab has one, and
/// the marks of what is recalled.
pub proof fn law_prompts(m: Model, labels: LabelsModel)
    requires
        m.wf(),
    ensures
        m.tabs[m.active].remote is Some || m.tabs[m.active].branch is None ==> m.prompt(labels)
            == m.cwd_display() + labels.his + labels.cd,
        m.tabs[m.active].remote is None && m.tabs[m.active].branch is Some ==> m.prompt(labels)
            == m.cwd_display() + " \u{1b}[95mbranch: "@ + labels.branch + "\u{1b}[0m"@ + labels.his
            + labels.cd,
{
    let e: Seq<char> = seq![];
    assert(m.cwd_display() + e =~= m.cwd_display());
    assert(m.cwd_display() + (" \u{1b}[95mbranch: "@ + labels.branch + "\u{1b}[0m"@)
        =~= m.cwd_display() + " \u{1b}[95mbranch: "@ + labels.branch + "\u{1b}[0m"@);
}

/// Each stream of a command is shown as that stream.
pub proof fn law_streams()
    ensures
        types::out_type(OutKind::Stdout) == OutType::StdOut,
        types::out_type(OutKind::Stderr) == OutType::StdErr,
{
}

}
