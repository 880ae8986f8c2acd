//! What the panels show and what a click or a key in them asks for.

use vstd::prelude::*;

use crate::ansi::Color32;
use crate::commands::ActionModel;
use crate::command_laws;
use crate::display;
use crate::gui;
use crate::gui::EffectModel;
use crate::gui::KeyStep;
use crate::gui::Keys;
use crate::gui::ListActionModel;
use crate::gui::SubmittedModel;
use crate::path;
use crate::path::PathStyle;
use crate::state::Filters;
use crate::state::Form;
use crate::state::Model;
use crate::state::Tab;
use crate::text;
use crate::timestamp::Timestamp;
use crate::types::FileModel;
use crate::types::OutType;
use crate::types::RemoteModel;
use crate::types::SessionModel;
use crate::types::SshMode;

verus! {

/// Every position is one of the list.
pub open spec fn all_below(v: Seq<usize>, n: nat) -> bool {
    forall|k: int| 0 <= k < v.len() ==> (#[trigger] v[k]) < n
}

/// What is listed are matches that stand for entries, and all of them where
/// every match does.
proof fn lemma_listed(v: Seq<usize>, n: nat)
    ensures
        forall|k: int|
            0 <= k < gui::listed(v, n).len() ==> {
                &&& (#[trigger] gui::listed(v, n)[k]) < n
                &&& v.contains(gui::listed(v, n)[k])
            },
        all_below(v, n) ==> gui::listed(v, n) == v,
    decreases v.len(),
{
    reveal(Seq::filter);
    if v.len() > 0 {
        let d = v.drop_last();
        lemma_listed(d, n);
        let l = gui::listed(v, n);
        let b = gui::listed(d, n);
        assert forall|k: int| 0 <= k < l.len() implies (#[trigger] l[k]) < n && v.contains(l[k]) by {
            if k < b.len() {
                assert(l[k] == b[k]);
                assert(d.contains(b[k]));
                let j = choose|j: int| 0 <= j < d.len() && d[j] == b[k];
                assert(v[j] == b[k]);
            } else {
                assert(l[k] == v.last());
                assert(v[v.len() - 1] == l[k]);
            }
        }
        if all_below(v, n) {
            assert forall|k: int| 0 <= k < d.len() implies (#[trigger] d[k]) < n by {
                assert(v[k] == d[k]);
            }
            assert(v[v.len() - 1] < n);
            assert(l =~= v);
        }
    } else {
        assert(gui::listed(v, n) =~= v);
    }
}

/// The path of an entry as a column of 22 characters shows it.
pub open spec fn in_column(m: Model, p: Seq<char>, shown: Seq<char>) -> bool {
    let t = display::tilde(p, m.home, m.style);
    &&& t.len() <= 22 ==> shown == t
    &&& t.len() > 22 ==> shown.len() == 22 && shown.take(3) == seq!['.', '.', '.'] && shown.skip(3)
        == t.skip(t.len() - 19)
}

/// How a path is cut for a column.
proof fn lemma_in_column(m: Model, p: Seq<char>)
    ensures
        in_column(
            m,
            p,
            display::truncated_start(
                display::tilde(p, m.home, m.style),
                gui::BOOKMARK_MAX_LEN as nat,
            ),
        ),
{
    reveal_strlit("...");
    let t = display::tilde(p, m.home, m.style);
    let s = display::truncated_start(t, gui::BOOKMARK_MAX_LEN as nat);
    if t.len() > 22 {
        assert(s.take(3) =~= seq!['.', '.', '.']);
        assert(s.skip(3) =~= t.skip(t.len() - 19));
    }
}

/// A row of the bookmarks stands for one of them, and a click on it goes to that
/// bookmark itself, as `bm` and its index does. It is labelled with its index
/// and its path, shortened and cut to its column. The rows are the matches, in
/// order.
pub proof fn law_bookmark_rows(
    m: Model,
    k: int,
    input: Seq<char>,
    user: Seq<char>,
    now: Timestamp,
)
    requires
        m.wf(),
        0 <= k < m.bookmark_rows().len(),
    ensures
        ({
            let row = m.bookmark_rows()[k];
            let p = m.bookmarks[row.index as int];
            &&& row.index < m.bookmarks.len()
            &&& m.filter.bookmarks.contains(row.index)
            &&& row.click == ListActionModel::ChangeDir(p)
            &&& m.acted(row.click, now) == (m, EffectModel::Enter { target: p })
            &&& m.tabs[m.active].remote is None ==> m.handled(
                "bm"@,
                input,
                text::decimal(row.index as nat),
                user,
                now,
            ) == (m, ActionModel::EnterBookmark { target: p })
            &&& exists|shown: Seq<char>| #[trigger]
                in_column(m, p, shown) && row.label == text::decimal(row.index as nat) + ": "@
                    + shown
            &&& all_below(m.filter.bookmarks, m.bookmarks.len()) ==> m.bookmark_rows().len()
                == m.filter.bookmarks.len() && row.index == m.filter.bookmarks[k]
        }),
{
    lemma_listed(m.filter.bookmarks, m.bookmarks.len());
    let i = gui::listed(m.filter.bookmarks, m.bookmarks.len())[k];
    assert(m.bookmark_rows()[k] == m.bookmark_row(i));
    lemma_in_column(m, m.bookmarks[i as int]);
    if m.tabs[m.active].remote is None {
        command_laws::law_bm(m, i as nat, input, input, user, now);
    }
}

/// A row of the recent directories stands for one of them, and a click on it
/// goes to that directory itself, as `cd` and its index does. It is labelled
/// with its index and its path, shortened and cut to its column, with a star
/// before the path where it is bookmarked. The rows are the matches, the last
/// one first.
pub proof fn law_recent_dir_rows(
    m: Model,
    k: int,
    input: Seq<char>,
    user: Seq<char>,
    now: Timestamp,
)
    requires
        m.wf(),
        0 <= k < m.recent_dir_rows().len(),
    ensures
        ({
            let row = m.recent_dir_rows()[k];
            let p = m.recent[row.index as int].path;
            let star = exists|j: int|
                0 <= j < m.bookmarks.len() && path::same_path(
                    m.style,
                    #[trigger] m.bookmarks[j],
                    p,
                );
            let n = m.filter.recent_dirs.len();
            &&& row.index < m.recent.len()
            &&& m.filter.recent_dirs.contains(row.index)
            &&& row.click == ListActionModel::ChangeDir(p)
            &&& m.acted(row.click, now) == (m, EffectModel::Enter { target: p })
            &&& m.tabs[m.active].remote is None ==> m.handled(
                "cd"@,
                input,
                text::decimal(row.index as nat),
                user,
                now,
            ) == (m, ActionModel::EnterRecent { target: p, index: row.index as nat })
            &&& exists|shown: Seq<char>| #[trigger]
                in_column(m, p, shown) && row.label == text::decimal(row.index as nat) + ": "@ + (
                if star {
                    "*"@ + shown
                } else {
                    shown
                })
            &&& all_below(m.filter.recent_dirs, m.recent.len()) ==> m.recent_dir_rows().len() == n
                && row.index == m.filter.recent_dirs[n - 1 - k]
        }),
{
    lemma_listed(m.filter.recent_dirs, m.recent.len());
    let l = gui::listed(m.filter.recent_dirs, m.recent.len());
    let i = l[l.len() - 1 - k];
    assert(l.reverse()[k] == i);
    assert(m.recent_dir_rows()[k] == m.recent_row(i));
    let p = m.recent[i as int].path;
    lemma_in_column(m, p);
    let shown = display::truncated_start(
        display::tilde(p, m.home, m.style),
        gui::BOOKMARK_MAX_LEN as nat,
    );
    reveal_strlit("");
    assert(""@ + shown =~= shown);
    if m.tabs[m.active].remote is None {
        command_laws::law_cd(m, i as nat, input, input, user, now);
    }
}

/// A row of commands.
pub open spec fn is_command_row(m: Model, row: gui::RowModel, now: Timestamp) -> bool {
    let t = m.history[row.index as int].text;
    &&& row.index < m.history.len()
    &&& row.click == ListActionModel::FillInput(t)
    &&& row.label == text::decimal(row.index as nat) + ": "@ + t
    &&& m.acted(row.click, now) == (
        Model {
            tabs: m.tabs.update(m.active, Tab { input: t, ..m.tabs[m.active] }),
            focus: true,
            ..m
        },
        EffectModel::Done,
    )
}

/// A row of the history stands for one of its commands, is labelled with its
/// index and text, and a click on it puts that text into the input line, which
/// takes the keyboard focus. The rows are the matches, the last one first.
pub proof fn law_history_rows(m: Model, k: int, now: Timestamp)
    requires
        m.wf(),
        0 <= k < m.history_rows().len(),
    ensures
        ({
            let row = m.history_rows()[k];
            let n = m.filter.history.len();
            &&& is_command_row(m, row, now)
            &&& m.filter.history.contains(row.index)
            &&& all_below(m.filter.history, m.history.len()) ==> m.history_rows().len() == n
                && row.index == m.filter.history[n - 1 - k]
        }),
{
    lemma_listed(m.filter.history, m.history.len());
    let l = gui::listed(m.filter.history, m.history.len());
    let i = l[l.len() - 1 - k];
    assert(l.reverse()[k] == i);
    assert(m.history_rows()[k] == m.history_row(i));
}

/// A row of the commands of the active tab's directory is as one of the history.
/// The rows are that list's matches, the last one first.
pub proof fn law_cwd_history_rows(m: Model, k: int, now: Timestamp)
    requires
        m.wf(),
        0 <= k < m.cwd_history_rows().len(),
    ensures
        ({
            let row = m.cwd_history_rows()[k];
            let n = m.filter.cwd_history.len();
            &&& is_command_row(m, row, now)
            &&& m.filter.cwd_history.contains(row.index)
            &&& all_below(m.filter.cwd_history, m.history.len()) ==> m.cwd_history_rows().len()
                == n && row.index == m.filter.cwd_history[n - 1 - k]
        }),
{
    lemma_listed(m.filter.cwd_history, m.history.len());
    let l = gui::listed(m.filter.cwd_history, m.history.len());
    let i = l[l.len() - 1 - k];
    assert(l.reverse()[k] == i);
    assert(m.cwd_history_rows()[k] == m.history_row(i));
}

/// Where every match stands for an entry, every match has a row.
pub proof fn law_every_match_has_a_row(m: Model)
    ensures
        all_below(m.filter.bookmarks, m.bookmarks.len()) ==> m.bookmark_rows().len()
            == m.filter.bookmarks.len(),
        all_below(m.filter.recent_dirs, m.recent.len()) ==> m.recent_dir_rows().len()
            == m.filter.recent_dirs.len(),
        all_below(m.filter.history, m.history.len()) ==> m.history_rows().len()
            == m.filter.history.len(),
        all_below(m.filter.cwd_history, m.history.len()) ==> m.cwd_history_rows().len()
            == m.filter.cwd_history.len(),
{
    lemma_listed(m.filter.bookmarks, m.bookmarks.len());
    lemma_listed(m.filter.recent_dirs, m.recent.len());
    lemma_listed(m.filter.history, m.history.len());
    lemma_listed(m.filter.cwd_history, m.history.len());
}

/// A click that goes to a directory or opens a file hands that path on and
/// changes nothing; one that runs a command in its directory runs `hisd` and its
/// index; one that fills the input line puts the text there.
pub proof fn law_clicks(m: Model, p: Seq<char>, i: usize, now: Timestamp)
    requires
        m.wf(),
    ensures
        m.acted(ListActionModel::ChangeDir(p), now) == (m, EffectModel::Enter { target: p }),
        m.acted(ListActionModel::OpenFile(p), now) == (m, EffectModel::Open { path: p }),
        m.acted(ListActionModel::RunHistoryInDir(i), now) == (
            m,
            EffectModel::Run { line: "hisd "@ + text::decimal(i as nat) },
        ),
        m.acted(ListActionModel::FillInput(p), now) == (
            Model {
                tabs: m.tabs.update(m.active, Tab { input: p, ..m.tabs[m.active] }),
                focus: true,
                ..m
            },
            EffectModel::Done,
        ),
{
}

/// A click that removes a bookmark takes that one out, reports it, and asks for
/// the state to be saved; where there is none it does nothing.
pub proof fn law_removing_a_bookmark(m: Model, i: usize, now: Timestamp)
    requires
        m.wf(),
    ensures
        i >= m.bookmarks.len() ==> m.acted(ListActionModel::RemoveBookmark(i), now) == (
            m,
            EffectModel::Done,
        ),
        i < m.bookmarks.len() ==> {
            let (r, effect) = m.acted(ListActionModel::RemoveBookmark(i), now);
            &&& effect == EffectModel::Save
            &&& r.bookmarks == m.bookmarks.take(i as int) + m.bookmarks.skip(i as int + 1)
            &&& r.tabs == m.with_out(
                "Deleted bookmark: "@ + m.bookmarks[i as int],
                OutType::StdOut,
                now,
            ).tabs
            &&& r.filter.bookmarks == r.refreshed_bookmarks().filter.bookmarks
            &&& r == (Model {
                tabs: r.tabs,
                bookmarks: r.bookmarks,
                filter: Filters { bookmarks: r.filter.bookmarks, ..m.filter },
                ..m
            })
        },
{
    if i < m.bookmarks.len() {
        let r = m.acted(ListActionModel::RemoveBookmark(i), now).0;
        assert(r.bookmarks =~= m.bookmarks.take(i as int) + m.bookmarks.skip(i as int + 1));
    }
}

/// A click on a saved remote connects to that remote; one that edits it opens
/// the form with its host, port and user, and no password; one that removes it
/// takes it out, reports its address and asks for its password to be forgotten.
/// Where there is no such remote, connecting is an error and the rest does
/// nothing.
pub proof fn law_clicks_on_remotes(m: Model, i: usize, now: Timestamp)
    requires
        m.wf(),
    ensures
        i >= m.remotes.len() ==> {
            &&& m.acted(ListActionModel::ConnectRemote(i), now) == (
                m.with_out(
                    "ssh: no saved remote at index "@ + text::decimal(i as nat),
                    OutType::StdErr,
                    now,
                ),
                EffectModel::Done,
            )
            &&& m.acted(ListActionModel::EditRemote(i), now) == (m, EffectModel::Done)
            &&& m.acted(ListActionModel::RemoveRemote(i), now) == (m, EffectModel::Done)
        },
        i < m.remotes.len() ==> {
            let remote = m.remotes[i as int];
            let (e, edit) = m.acted(ListActionModel::EditRemote(i), now);
            let (d, forget) = m.acted(ListActionModel::RemoveRemote(i), now);
            &&& m.acted(ListActionModel::ConnectRemote(i), now) == (
                m,
                EffectModel::Connect { remote },
            )
            &&& edit == EffectModel::Done
            &&& e.form.open
            &&& e.form.host == remote.host
            &&& e.form.port == text::decimal(remote.port as nat)
            &&& e.form.user == remote.username
            &&& e.form.password.len() == 0
            &&& e.form.edit_idx == Some(i)
            &&& e == (Model { form: e.form, ..m })
            &&& forget == EffectModel::Forget { remote }
            &&& d.remotes == m.remotes.take(i as int) + m.remotes.skip(i as int + 1)
            &&& d.tabs == m.with_out(
                "Removed remote "@ + remote.username + "@"@ + remote.host + ":"@ + text::decimal(
                    remote.port as nat,
                ),
                OutType::StdOut,
                now,
            ).tabs
            &&& d == (Model { tabs: d.tabs, remotes: d.remotes, ..m })
        },
{
    if i < m.remotes.len() {
        let r = m.remotes[i as int];
        let d = m.acted(ListActionModel::RemoveRemote(i), now).0;
        assert(d.remotes =~= m.remotes.take(i as int) + m.remotes.skip(i as int + 1));
        assert("Removed remote "@ + (r.username + "@"@ + r.host + ":"@ + text::decimal(
            r.port as nat,
        )) =~= "Removed remote "@ + r.username + "@"@ + r.host + ":"@ + text::decimal(
            r.port as nat,
        ));
    }
}

/// Tab completes, before all else; then up and down go through the history; left
/// and right go through the recent directories, but only where the input is
/// empty or a recall of directories is active. Other keys are left alone.
pub proof fn law_keys(m: Model, keys: Keys)
    requires
        m.wf(),
    ensures
        ({
            let t = m.tabs[m.active];
            let arrows = t.input.len() == 0 || t.nav.cd_cursor is Some;
            &&& m.takes_arrows() == arrows
            &&& keys.tab ==> m.key_step(keys) == KeyStep::Complete
            &&& !keys.tab && keys.up ==> m.key_step(keys) == (KeyStep::History { up: true })
            &&& !keys.tab && !keys.up && keys.down ==> m.key_step(keys) == (KeyStep::History {
                up: false,
            })
            &&& !keys.tab && !keys.up && !keys.down ==> {
                &&& !arrows ==> m.key_step(keys) == KeyStep::Nothing
                &&& arrows && keys.left ==> m.key_step(keys) == (KeyStep::RecentDir { left: true })
                &&& arrows && !keys.left && keys.right ==> m.key_step(keys)
                    == (KeyStep::RecentDir { left: false })
                &&& !keys.left && !keys.right ==> m.key_step(keys) == KeyStep::Nothing
            }
        }),
{
}

/// A submitted line goes to an interactive session byte by byte, with a carriage
/// return behind it, and is run in every other tab. It leaves the input empty.
pub proof fn law_submitted_lines(m: Model)
    requires
        m.wf(),
    ensures
        ({
            let t = m.tabs[m.active];
            let interactive = t.remote is Some && t.remote->0.mode == SshMode::Pty;
            &&& m.is_pty() == interactive
            &&& interactive ==> m.submitted() == (SubmittedModel::Send {
                bytes: vstd::utf8::encode_utf8(t.input) + seq![13u8],
            })
            &&& !interactive ==> m.submitted() == (SubmittedModel::Run { line: t.input })
            &&& m.input_filled(seq![]) == (Model {
                tabs: m.tabs.update(m.active, Tab { input: seq![], ..t }),
                focus: true,
                ..m
            })
        }),
{
    let b = vstd::utf8::encode_utf8(m.tabs[m.active].input);
    assert(b.push(13u8) =~= b + seq![13u8]);
}

/// A folder is marked and entered, and has no colour; a file is opened, and is
/// green where it can be executed.
pub proof fn law_file_rows(f: FileModel)
    ensures
        f.is_folder ==> {
            &&& gui::file_row(f).label == "📁 "@ + f.disp_name
            &&& gui::file_row(f).color is None
            &&& gui::file_row(f).open == ListActionModel::ChangeDir(f.path)
        },
        !f.is_folder ==> {
            &&& gui::file_row(f).label == f.disp_name
            &&& gui::file_row(f).open == ListActionModel::OpenFile(f.path)
            &&& f.is_executable ==> gui::file_row(f).color == Some(
                Color32 { r: 120, g: 220, b: 120, a: 255 },
            )
            &&& !f.is_executable ==> gui::file_row(f).color is None
        },
{
}

/// The status of a session is its label and, in brackets, the name of its mode.
pub proof fn law_status_lines(s: SessionModel)
    ensures
        s.mode == SshMode::Exec ==> gui::status_line(s) == "● "@ + s.label + "  [exec]"@,
        s.mode == SshMode::Pty ==> gui::status_line(s) == "● "@ + s.label + "  [interactive]"@,
{
    reveal_strlit("  [");
    reveal_strlit("]");
    reveal_strlit("exec");
    reveal_strlit("interactive");
    reveal_strlit("  [exec]");
    reveal_strlit("  [interactive]");
    assert("● "@ + s.label + "  ["@ + "exec"@ + "]"@ =~= "● "@ + s.label + "  [exec]"@);
    assert("● "@ + s.label + "  ["@ + "interactive"@ + "]"@ =~= "● "@ + s.label
        + "  [interactive]"@);
}

/// A tab goes by the last name of its directory, or by the place as it is shown
/// where there is none. The button that runs a command in its directory shows
/// that name, cut to its first 20 characters, or the whole path.
pub proof fn law_names_on_buttons(
    dir: Seq<char>,
    name: Seq<char>,
    home: Option<Seq<char>>,
    style: PathStyle,
)
    ensures
        path::name_of(style, dir) == Some(name) ==> gui::tab_name(dir, home, style) == name,
        path::name_of(style, dir) is None ==> gui::tab_name(dir, home, style) == display::tilde(
            dir,
            home,
            style,
        ),
        path::name_of(style, dir) == Some(name) && name.len() <= 20 ==> gui::in_dir(dir, style)
            == "In "@ + name,
        path::name_of(style, dir) == Some(name) && name.len() > 20 ==> gui::in_dir(dir, style)
            == "In "@ + name.take(20),
        path::name_of(style, dir) is None && dir.len() <= 20 ==> gui::in_dir(dir, style) == "In "@
            + dir,
        path::name_of(style, dir) is None && dir.len() > 20 ==> gui::in_dir(dir, style) == "In "@
            + dir.take(20),
{
}

/// The button of a saved remote shows its index and its host, and the mark of a
/// recall shows where that stands.
pub proof fn law_marks(i: usize, r: RemoteModel, what: Seq<char>)
    ensures
        gui::connect_label(i, r) == "+ ssh "@ + text::decimal(i as nat) + " "@ + r.host,
        gui::recall_mark(what, Some(i)) == Some(what + text::decimal(i as nat)),
        gui::recall_mark(what, None) is None,
{
}

/// The button of the form opens it, or closes it and ends the edit. Cancelling
/// closes it, ends the edit and forgets the password. Both keep everything else.
pub proof fn law_the_form_opens_and_closes(m: Model)
    ensures
        ({
            let t = m.form_toggled();
            let c = m.form_cancelled();
            &&& t.form.open != m.form.open
            &&& m.form.open ==> t.form.edit_idx is None
            &&& !m.form.open ==> t.form.edit_idx == m.form.edit_idx
            &&& t == (Model {
                form: Form { open: t.form.open, edit_idx: t.form.edit_idx, ..m.form },
                ..m
            })
            &&& !c.form.open
            &&& c.form.edit_idx is None
            &&& c.form.password.len() == 0
            &&& c == (Model {
                form: Form {
                    open: false,
                    edit_idx: None,
                    password: c.form.password,
                    ..m.form
                },
                ..m
            })
        }),
{
}

}
