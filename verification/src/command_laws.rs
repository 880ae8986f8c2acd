//! What each command does, stated of the words that are typed.

use vstd::prelude::*;

use crate::commands;
use crate::commands::ActionModel;
use crate::commands::StepModel;
use crate::display::LabelsModel;
use crate::gui::ListActionModel;
use crate::navigation::OutcomeModel;
use crate::path;
use crate::state::Filters;
use crate::state::Model;
use crate::state::Tab;
use crate::text;
use crate::text_laws;
use crate::timestamp::Timestamp;
use crate::types::HistoryModel;
use crate::types::NavState;
use crate::types::OutModel;
use crate::types::OutType;
use crate::types::RecentModel;
use crate::types::SshMode;

verus! {

/// A chunk of output goes to the end of the active tab's output, and changes
/// nothing else: no other tab, and nothing beside the tabs.
pub proof fn law_output_is_appended(m: Model, t: Seq<char>, type_: OutType, now: Timestamp, i: int)
    requires
        m.wf(),
    ensures
        ({
            let r = m.with_out(t, type_, now);
            let old_tab = m.tabs[m.active];
            &&& r.tabs.len() == m.tabs.len()
            &&& r.tabs[m.active] == (Tab { out: r.tabs[m.active].out, ..old_tab })
            &&& r.tabs[m.active].out.len() == old_tab.out.len() + 1
            &&& r.tabs[m.active].out.drop_last() == old_tab.out
            &&& r.tabs[m.active].out.last().text == t
            &&& r.tabs[m.active].out.last().type_ == type_
            &&& r.tabs[m.active].out.last().dt == now
            &&& 0 <= i < m.tabs.len() && i != m.active ==> r.tabs[i] == m.tabs[i]
            &&& r == (Model { tabs: r.tabs, ..m })
        }),
{
}

/// The active tab is the one at the active position, and putting another in its
/// place changes that position alone.
pub proof fn law_the_active_tab(m: Model, t: Tab, i: int)
    requires
        m.wf(),
    ensures
        m.cur() == m.tabs[m.active],
        m.with_cur(t).tabs.len() == m.tabs.len(),
        m.with_cur(t).tabs[m.active] == t,
        0 <= i < m.tabs.len() && i != m.active ==> m.with_cur(t).tabs[i] == m.tabs[i],
        m.with_cur(t) == (Model { tabs: m.with_cur(t).tabs, ..m }),
{
}

/// A line is a command and what follows it: the first word, and the rest without
/// the white space around it.
pub proof fn law_words_of_a_line(w: Seq<char>, gap: Seq<char>, args: Seq<char>, tail: Seq<char>)
    requires
        text_laws::unbroken(w),
        gap.len() > 0,
        text_laws::blank(gap),
        text_laws::tight(args),
        text_laws::blank(tail),
    ensures
        commands::command_of(w + gap + args + tail) == w,
        commands::args_of(w + gap + args + tail) == args,
        commands::command_of(w) == w,
        commands::args_of(w).len() == 0,
{
    let line = w + gap + args + tail;
    let rest = gap + args + tail;
    let e: Seq<char> = seq![];
    assert(line =~= w + rest);
    assert(rest[0] == gap[0]);
    text_laws::law_first_word(w, rest);
    assert(line.take(w.len() as int) =~= w);
    assert(line.skip(w.len() as int) =~= rest);
    text_laws::law_trim(gap, args, tail);
    text_laws::law_first_word(w, e);
    assert(w + e =~= w);
    assert(w.take(w.len() as int) =~= w);
    assert(w.skip(w.len() as int) =~= e + e + e);
    text_laws::law_trim(e, e, e);
}

/// White space around a line counts for nothing.
pub proof fn law_space_around_a_line(
    m: Model,
    a: Seq<char>,
    line: Seq<char>,
    b: Seq<char>,
    labels: LabelsModel,
    now: Timestamp,
)
    requires
        text_laws::blank(a),
        text_laws::tight(line),
        text_laws::blank(b),
    ensures
        m.line_read(a + line + b, labels, now) == m.line_read(line, labels, now),
        line.len() == 0 ==> m.line_read(line, labels, now) == (m, StepModel::Ignored),
{
    let e: Seq<char> = seq![];
    text_laws::law_trim(a, line, b);
    text_laws::law_trim(e, line, e);
    assert(e + line + e =~= line);
}

/// A line of one word and what follows it, without white space around it.
pub open spec fn is_line(line: Seq<char>, w: Seq<char>, args: Seq<char>) -> bool {
    &&& w.len() > 0
    &&& text_laws::unbroken(w)
    &&& text_laws::tight(args)
    &&& exists|gap: Seq<char>|
        {
            &&& text_laws::blank(gap)
            &&& args.len() > 0 <==> gap.len() > 0
            &&& line == #[trigger] w.add(gap).add(args)
        }
}

/// The command and the arguments of such a line.
proof fn lemma_line(line: Seq<char>, w: Seq<char>, args: Seq<char>)
    requires
        is_line(line, w, args),
    ensures
        line.len() > 0,
        text::trim(line) == line,
        commands::command_of(line) == w,
        commands::args_of(line) == args,
{
    let gap = choose|gap: Seq<char>|
        {
            &&& text_laws::blank(gap)
            &&& args.len() > 0 <==> gap.len() > 0
            &&& line == #[trigger] w.add(gap).add(args)
        };
    let e: Seq<char> = seq![];
    assert(line == w + gap + args);
    assert(line[0] == w[0]);
    assert(!text::is_white(w[0]));
    if args.len() == 0 {
        assert(line =~= w);
        assert(!text::is_white(w[w.len() - 1]));
        law_words_of_a_line(w, seq![' '], e, e);
        assert(args =~= e);
        assert(commands::args_of(line) =~= args);
    } else {
        assert(line.last() == args.last());
        assert(w + gap + args + e =~= line);
        law_words_of_a_line(w, gap, args, e);
    }
    assert(text_laws::tight(line));
    text_laws::law_trim(e, line, e);
    assert(e + line + e =~= line);
}

/// Any line but `his`, `hist` and `hisd` is handed on, as its command, its
/// arguments and itself. It stands at the end of the history, with the active
/// tab's directory and the moment; the recent directories have that directory
/// at their end, or are as they were where the command is `cd`. What matches is
/// found again, the line is echoed, and nothing else changes.
pub proof fn law_a_line_is_handed_on(
    m: Model,
    line: Seq<char>,
    w: Seq<char>,
    args: Seq<char>,
    labels: LabelsModel,
    now: Timestamp,
)
    requires
        m.wf(),
        is_line(line, w, args),
        w != "his"@,
        w != "hist"@,
        w != "hisd"@,
    ensures
        ({
            let (r, step) = m.line_read(line, labels, now);
            &&& step == StepModel::Dispatch { cmd: w, args, input: line }
            &&& r.history == m.history + seq![
                HistoryModel { text: line, dir: m.tabs[m.active].cwd, dt: now },
            ]
            &&& w == "cd"@ ==> r.recent == m.recent
            &&& w != "cd"@ ==> r.recent.len() > 0 && r.recent.last() == (RecentModel {
                path: m.tabs[m.active].cwd,
                dt: now,
            })
            &&& r.tabs == echo_of(m, line, labels, now).tabs
            &&& r == (Model {
                tabs: r.tabs,
                history: r.history,
                recent: r.recent,
                filter: Filters { bookmarks: m.filter.bookmarks, ..r.filter },
                ..m
            })
            &&& r.filter.history == r.refreshed_history().filter.history
            &&& r.filter.cwd_history == r.refreshed_cwd_history().filter.cwd_history
            &&& w == "cd"@ ==> r.filter.recent_dirs == m.filter.recent_dirs
            &&& w != "cd"@ ==> r.filter.recent_dirs
                == r.refreshed_recent_dirs().filter.recent_dirs
        }),
{
    lemma_line(line, w, args);
    lemma_echo(m, line, labels, now);
}

/// `his` and `hist` run the line again that stands at the index; `hisd` hands
/// it to the system's shell, in the directory where it was run. The line is
/// echoed and nothing else changes.
pub proof fn law_earlier_lines(
    m: Model,
    line: Seq<char>,
    w: Seq<char>,
    i: nat,
    labels: LabelsModel,
    now: Timestamp,
)
    requires
        m.wf(),
        is_line(line, w, text::decimal(i)),
        w == "his"@ || w == "hist"@ || w == "hisd"@,
        i < m.history.len() <= usize::MAX,
    ensures
        ({
            let (r, step) = m.line_read(line, labels, now);
            &&& w != "hisd"@ ==> step == (StepModel::Rerun { text: m.history[i as int].text })
            &&& w == "hisd"@ ==> step == (StepModel::RunIn {
                text: m.history[i as int].text,
                dir: m.history[i as int].dir,
            })
            &&& r == echo_of(m, line, labels, now)
        }),
{
    lemma_line(line, w, text::decimal(i));
    text_laws::law_decimal(i, usize::MAX as nat);
    lemma_names();
    lemma_echo(m, line, labels, now);
}

/// The line behind the prompt at the end of the active tab's output, and that
/// tab's recall at the live input.
pub open spec fn echo_of(m: Model, line: Seq<char>, labels: LabelsModel, now: Timestamp) -> Model {
    let t = m.tabs[m.active];
    Model {
        tabs: m.tabs.update(
            m.active,
            Tab {
                out: t.out + seq![
                    OutModel {
                        text: m.prompt(labels) + "> "@ + line,
                        type_: OutType::Prompt,
                        dt: now,
                    },
                ],
                nav: NavState { his_cursor: None, cd_cursor: None },
                ..t
            },
        ),
        ..m
    }
}

/// The echo of a line is what the terminal adds when it reads one.
proof fn lemma_echo(m: Model, line: Seq<char>, labels: LabelsModel, now: Timestamp)
    requires
        m.wf(),
    ensures
        m.echoed(line, labels, now) == echo_of(m, line, labels, now),
{
    let a = m.echoed(line, labels, now);
    let b = echo_of(m, line, labels, now);
    assert(a.tabs[m.active].out =~= b.tabs[m.active].out);
    assert(a.tabs =~= b.tabs);
}

/// The commands that the terminal knows have different names.
proof fn lemma_names()
    ensures
        "his"@ != "hisd"@,
        "hist"@ != "hisd"@,
        "cd"@ != "his"@,
        "cd"@ != "hist"@,
        "cd"@ != "hisd"@,
        "ssh"@ != "exit"@,
        "ssh"@ != "quit"@,
        "sync"@ != "exit"@,
        "sync"@ != "quit"@,
        "sync"@ != "ssh"@,
        "logs"@ != "exit"@,
        "logs"@ != "quit"@,
        "logs"@ != "ssh"@,
        "logs"@ != "sync"@,
        "cat"@ != "exit"@,
        "cat"@ != "quit"@,
        "cat"@ != "ssh"@,
        "cat"@ != "sync"@,
        "cat"@ != "logs"@,
        "del"@ != "exit"@,
        "del"@ != "quit"@,
        "del"@ != "ssh"@,
        "del"@ != "sync"@,
        "del"@ != "logs"@,
        "del"@ != "cat"@,
        "cd"@ != "exit"@,
        "cd"@ != "quit"@,
        "cd"@ != "ssh"@,
        "cd"@ != "sync"@,
        "cd"@ != "logs"@,
        "cd"@ != "cat"@,
        "cd"@ != "del"@,
        "bm"@ != "exit"@,
        "bm"@ != "quit"@,
        "bm"@ != "ssh"@,
        "bm"@ != "sync"@,
        "bm"@ != "logs"@,
        "bm"@ != "cat"@,
        "bm"@ != "del"@,
        "bm"@ != "cd"@,
        "mode"@ != "exit"@,
        "mode"@ != "quit"@,
        "mode"@ != "logout"@,
        "mode"@ != "disconnect"@,
        text_laws::unbroken("bm"@),
        "bm"@.len() > 0,
{
    reveal_strlit("his");
    reveal_strlit("hist");
    reveal_strlit("hisd");
    reveal_strlit("cd");
    reveal_strlit("ssh");
    reveal_strlit("exit");
    reveal_strlit("quit");
    reveal_strlit("sync");
    reveal_strlit("logs");
    reveal_strlit("cat");
    reveal_strlit("del");
    reveal_strlit("bm");
    reveal_strlit("mode");
    reveal_strlit("logout");
    reveal_strlit("disconnect");
    assert("his"@.len() == 3);
    assert("hist"@.len() == 4);
    assert("hisd"@.len() == 4);
    assert("cd"@.len() == 2);
    assert("ssh"@.len() == 3);
    assert("exit"@.len() == 4);
    assert("quit"@.len() == 4);
    assert("sync"@.len() == 4);
    assert("logs"@.len() == 4);
    assert("cat"@.len() == 3);
    assert("del"@.len() == 3);
    assert("bm"@.len() == 2);
    assert("mode"@.len() == 4);
    assert("logout"@.len() == 6);
    assert("disconnect"@.len() == 10);
    assert("hist"@[3] != "hisd"@[3]);
    assert("sync"@[0] != "exit"@[0]);
    assert("sync"@[0] != "quit"@[0]);
    assert("logs"@[0] != "exit"@[0]);
    assert("logs"@[0] != "quit"@[0]);
    assert("logs"@[0] != "sync"@[0]);
    assert("cat"@[0] != "ssh"@[0]);
    assert("del"@[0] != "ssh"@[0]);
    assert("del"@[0] != "cat"@[0]);
    assert("bm"@[0] != "cd"@[0]);
    assert("mode"@[0] != "exit"@[0]);
    assert("mode"@[0] != "quit"@[0]);
}

/// An index that no line of the history has is answered with an error, and so is
/// what is no index; nothing is run.
pub proof fn law_earlier_lines_that_are_not_there(
    m: Model,
    line: Seq<char>,
    w: Seq<char>,
    args: Seq<char>,
    labels: LabelsModel,
    now: Timestamp,
)
    requires
        m.wf(),
        is_line(line, w, args),
        w == "his"@ || w == "hist"@ || w == "hisd"@,
    ensures
        ({
            let (r, step) = m.line_read(line, labels, now);
            let echo = echo_of(m, line, labels, now);
            let index = text::parsed_uint(args, usize::MAX as nat);
            &&& index is None ==> step == StepModel::Reported && r == echo.with_out(
                w + ": usage: "@ + w + " <number>"@,
                OutType::StdErr,
                now,
            )
            &&& index matches Some(n) ==> n >= m.history.len() ==> step == StepModel::Reported
                && r == echo.with_out(
                w + ": no history item at index "@ + text::decimal(n),
                OutType::StdErr,
                now,
            )
        }),
{
    lemma_line(line, w, args);
    lemma_names();
    lemma_echo(m, line, labels, now);
    if w == "hisd"@ {
        reveal_strlit("hisd");
        reveal_strlit(": usage: ");
        reveal_strlit(" <number>");
        reveal_strlit("hisd: usage: hisd <number>");
        reveal_strlit(": no history item at index ");
        reveal_strlit("hisd: no history item at index ");
        assert("hisd: usage: hisd <number>"@ =~= w + ": usage: "@ + w + " <number>"@);
        assert("hisd: no history item at index "@ =~= w + ": no history item at index "@);
    }
}

/// `cd` and the index of a recent directory asks for that directory, as a click
/// on its row does. An index that none has is an error, and anything else names
/// the directory itself.
pub proof fn law_cd(
    m: Model,
    i: nat,
    args: Seq<char>,
    input: Seq<char>,
    user: Seq<char>,
    now: Timestamp,
)
    requires
        m.wf(),
        m.cur().remote is None,
        i <= usize::MAX,
    ensures
        i < m.recent.len() ==> {
            &&& m.handled("cd"@, input, text::decimal(i), user, now) == (
                m,
                ActionModel::EnterRecent { target: m.recent[i as int].path, index: i },
            )
            &&& m.recent_row(i as usize).click == ListActionModel::ChangeDir(m.recent[i as int].path)
            &&& m.recent_row(i as usize).index == i
        },
        i >= m.recent.len() ==> m.handled("cd"@, input, text::decimal(i), user, now) == (
            m.with_out(
                "cd: no recent directory at index "@ + text::decimal(i),
                OutType::StdErr,
                now,
            ),
            ActionModel::Done,
        ),
        text::parsed_uint(args, usize::MAX as nat) is None ==> m.handled(
            "cd"@,
            input,
            args,
            user,
            now,
        ) == (m, ActionModel::EnterNamed { args }),
{
    lemma_names();
    text_laws::law_decimal(i, usize::MAX as nat);
}

/// `bm` and the index of a bookmark asks for that bookmark, as a click on its row
/// does. An index that none has is an error, and so is what is no index.
pub proof fn law_bm(
    m: Model,
    i: nat,
    args: Seq<char>,
    input: Seq<char>,
    user: Seq<char>,
    now: Timestamp,
)
    requires
        m.wf(),
        m.cur().remote is None,
        i <= usize::MAX,
    ensures
        i < m.bookmarks.len() ==> {
            &&& m.handled("bm"@, input, text::decimal(i), user, now) == (
                m,
                ActionModel::EnterBookmark { target: m.bookmarks[i as int] },
            )
            &&& m.bookmark_row(i as usize).click == ListActionModel::ChangeDir(
                m.bookmarks[i as int],
            )
        },
        i >= m.bookmarks.len() ==> m.handled("bm"@, input, text::decimal(i), user, now) == (
            m.with_out("bm: no bookmark at index "@ + text::decimal(i), OutType::StdErr, now),
            ActionModel::Done,
        ),
        text::parsed_uint(args, usize::MAX as nat) is None ==> m.handled(
            "bm"@,
            input,
            args,
            user,
            now,
        ) == (m.with_out("bm: usage: bm <number>"@, OutType::StdErr, now), ActionModel::Done),
{
    lemma_names();
    text_laws::law_decimal(i, usize::MAX as nat);
}

/// `del bm` and the index of a bookmark takes that bookmark out, reports it and
/// asks for the bookmarks to be saved. An index that none has is an error, and
/// so is what is no index.
pub proof fn law_del_bm(
    m: Model,
    i: nat,
    args: Seq<char>,
    rest: Seq<char>,
    input: Seq<char>,
    user: Seq<char>,
    now: Timestamp,
)
    requires
        m.wf(),
        m.cur().remote is None,
        i <= usize::MAX,
        is_line(args, "bm"@, rest),
    ensures
        ({
            let (r, action) = m.handled("del"@, input, args, user, now);
            &&& rest == text::decimal(i) && i < m.bookmarks.len() ==> {
                &&& action == ActionModel::SaveBookmarks
                &&& r.bookmarks == m.bookmarks.take(i as int) + m.bookmarks.skip(i as int + 1)
                &&& r.tabs == m.with_out(
                    "Deleted bookmark: "@ + m.bookmarks[i as int],
                    OutType::StdOut,
                    now,
                ).tabs
                &&& r == (Model {
                    tabs: r.tabs,
                    bookmarks: r.bookmarks,
                    filter: Filters { bookmarks: r.filter.bookmarks, ..m.filter },
                    ..m
                })
                &&& r.filter.bookmarks == r.refreshed_bookmarks().filter.bookmarks
            }
            &&& rest == text::decimal(i) && i >= m.bookmarks.len() ==> (r, action) == (
                m.with_out(
                    "del bm: no bookmark at index "@ + text::decimal(i) + " (have "@
                        + text::decimal(m.bookmarks.len()) + ")"@,
                    OutType::StdErr,
                    now,
                ),
                ActionModel::Done,
            )
            &&& text::parsed_uint(rest, usize::MAX as nat) is None ==> (r, action) == (
                m.with_out(
                    "del bm: expected a number, e.g. `del bm 4`"@,
                    OutType::StdErr,
                    now,
                ),
                ActionModel::Done,
            )
        }),
{
    lemma_names();
    lemma_line(args, "bm"@, rest);
    text_laws::law_decimal(i, usize::MAX as nat);
    let (r, action) = m.handled("del"@, input, args, user, now);
    if rest == text::decimal(i) && i < m.bookmarks.len() {
        assert(r.bookmarks =~= m.bookmarks.take(i as int) + m.bookmarks.skip(i as int + 1));
    }
}

/// `del` without anything behind it is answered with how it is used, and `del`
/// of anything but a bookmark with what it does not know.
pub proof fn law_del_of_something_else(
    m: Model,
    args: Seq<char>,
    w: Seq<char>,
    rest: Seq<char>,
    input: Seq<char>,
    user: Seq<char>,
    now: Timestamp,
)
    requires
        m.wf(),
        m.cur().remote is None,
        is_line(args, w, rest),
        w != "bm"@,
    ensures
        m.handled("del"@, input, args, user, now) == (
            m.with_out(
                "del: unknown target `"@ + w + "` (expected `bm`)"@,
                OutType::StdErr,
                now,
            ),
            ActionModel::Done,
        ),
        m.handled("del"@, input, Seq::empty(), user, now) == (
            m.with_out("del: usage: del bm <number>"@, OutType::StdErr, now),
            ActionModel::Done,
        ),
{
    lemma_names();
    lemma_line(args, w, rest);
    let e: Seq<char> = Seq::empty();
    assert(commands::command_of(e) =~= e);
}

/// The commands that are handed on as they are, and the ones that the window
/// answers. A command that the terminal does not know goes to the system's shell
/// whole, in the active tab's directory.
pub proof fn law_other_commands(
    m: Model,
    cmd: Seq<char>,
    input: Seq<char>,
    args: Seq<char>,
    user: Seq<char>,
    now: Timestamp,
)
    requires
        m.wf(),
        m.cur().remote is None,
    ensures
        cmd == "exit"@ || cmd == "quit"@ ==> m.handled(cmd, input, args, user, now) == (
            m.with_out("(use the window close button to exit)"@, OutType::StdErr, now),
            ActionModel::Done,
        ),
        m.handled("sync"@, input, args, user, now) == (
            m,
            ActionModel::Sync { args, cwd: m.tabs[m.active].cwd },
        ),
        m.handled("logs"@, input, args, user, now) == (m, ActionModel::Logs { args }),
        m.handled("cat"@, input, args, user, now) == (m, ActionModel::Cat { args }),
        cmd != "exit"@ && cmd != "quit"@ && cmd != "ssh"@ && cmd != "sync"@ && cmd != "logs"@ && cmd
            != "cat"@ && cmd != "del"@ && cmd != "cd"@ && cmd != "bm"@ ==> m.handled(
            cmd,
            input,
            args,
            user,
            now,
        ) == (m, ActionModel::Shell { input, cwd: m.tabs[m.active].cwd }),
{
    lemma_names();
}

/// In a connected tab `exit`, `quit`, `logout` and `disconnect` end the session,
/// `mode` switches to the other mode, and every other command goes to the
/// session as it was typed.
pub proof fn law_commands_of_a_connected_tab(
    m: Model,
    cmd: Seq<char>,
    input: Seq<char>,
    args: Seq<char>,
    user: Seq<char>,
    now: Timestamp,
)
    requires
        m.wf(),
        m.tabs[m.active].remote is Some,
    ensures
        ({
            let s = m.tabs[m.active].remote->0;
            let (r, action) = m.handled(cmd, input, args, user, now);
            let ends = cmd == "exit"@ || cmd == "quit"@ || cmd == "logout"@ || cmd
                == "disconnect"@;
            &&& ends ==> {
                let t = m.tabs[m.active];
                &&& action == ActionModel::Disconnect { session: s }
                &&& r == (Model {
                    tabs: m.tabs.update(
                        m.active,
                        Tab {
                            remote: None,
                            out: t.out + seq![
                                OutModel {
                                    text: "ssh: disconnected"@,
                                    type_: OutType::StdOut,
                                    dt: now,
                                },
                            ],
                            ..t
                        },
                    ),
                    ..m
                })
            }
            &&& !ends ==> r == m
            &&& cmd == "mode"@ && s.mode == SshMode::Exec ==> action == (ActionModel::SetMode {
                mode: SshMode::Pty,
            })
            &&& cmd == "mode"@ && s.mode == SshMode::Pty ==> action == (ActionModel::SetMode {
                mode: SshMode::Exec,
            })
            &&& !ends && cmd != "mode"@ ==> action == (ActionModel::RunRemote { input })
        }),
{
    lemma_names();
    let t = m.tabs[m.active];
    let o = OutModel { text: "ssh: disconnected"@, type_: OutType::StdOut, dt: now };
    let d = m.disconnected(now);
    assert(d.tabs[m.active].out =~= t.out + seq![o]);
    assert(d.tabs =~= m.tabs.update(m.active, Tab { remote: None, out: t.out + seq![o], ..t }));
}

/// A recent directory that could not be entered because it is no longer there
/// leaves the list, with a report behind the error; one that is there, or that
/// is no longer the entry which was asked for, stays. Once a directory has been
/// entered the list is as it was.
pub proof fn law_stale_recent_dirs(
    m: Model,
    o: OutcomeModel,
    error: Seq<char>,
    target: Seq<char>,
    i: usize,
    missing: bool,
    now: Timestamp,
)
    requires
        m.wf(),
    ensures
        ({
            let failed = OutcomeModel::Failed { error };
            let r = m.cd_finished(failed, target, Some(i), missing, now);
            let told = m.with_out("cd: "@ + error, OutType::StdErr, now);
            let stale = missing && i < m.recent.len() && path::same_path(
                m.style,
                m.recent[i as int].path,
                target,
            );
            &&& m.cd_finished(failed, target, None, missing, now) == told
            &&& !stale ==> r == told
            &&& stale ==> {
                &&& r.recent == m.recent.take(i as int) + m.recent.skip(i as int + 1)
                &&& r.tabs == told.with_out(
                    "cd: removed stale recent-dir entry "@ + text::decimal(i as nat),
                    OutType::StdErr,
                    now,
                ).tabs
                &&& r == (Model {
                    tabs: r.tabs,
                    recent: r.recent,
                    filter: Filters { recent_dirs: r.filter.recent_dirs, ..m.filter },
                    ..m
                })
                &&& r.filter.recent_dirs == r.refreshed_recent_dirs().filter.recent_dirs
            }
        }),
        m.moves(o) ==> m.cd_finished(o, target, Some(i), missing, now) == m.dir_changed(o, now),
{
    let failed = OutcomeModel::Failed { error };
    let r = m.cd_finished(failed, target, Some(i), missing, now);
    if i < m.recent.len() && m.is_stale(failed, target, Some(i), missing) {
        assert(r.recent =~= m.recent.take(i as int) + m.recent.skip(i as int + 1));
    }
}

/// What a program printed is added to the output: first its standard output and
/// then its errors, each as one chunk of its own stream, and neither where there
/// is nothing on it.
pub proof fn law_what_programs_print(m: Model, stdout: Seq<u8>, stderr: Seq<u8>, now: Timestamp)
    requires
        m.wf(),
    ensures
        ({
            let r = m.program_ran(stdout, stderr, now);
            let o = OutModel { text: text::utf8_lossy(stdout), type_: OutType::StdOut, dt: now };
            let e = OutModel { text: text::utf8_lossy(stderr), type_: OutType::StdErr, dt: now };
            let t = m.tabs[m.active];
            &&& r == (Model {
                tabs: m.tabs.update(m.active, Tab { out: r.tabs[m.active].out, ..t }),
                ..m
            })
            &&& r.tabs[m.active].out == t.out + (if stdout.len() > 0 {
                seq![o]
            } else {
                seq![]
            }) + (if stderr.len() > 0 {
                seq![e]
            } else {
                seq![]
            })
        }),
{
    let r = m.program_ran(stdout, stderr, now);
    assert(r.tabs =~= m.tabs.update(
        m.active,
        Tab { out: r.tabs[m.active].out, ..m.tabs[m.active] },
    ));
}

}
