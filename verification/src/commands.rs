//! The command line: what a line of input asks for, and what is shown of its
//! outcome.

use vstd::prelude::*;

use crate::display::LabelsModel;
use crate::display::PromptLabels;
use crate::navigation;
use crate::navigation::DirOutcome;
use crate::navigation::OutcomeModel;
use crate::path;
use crate::remote;
use crate::state::Model;
use crate::state::State;
use crate::text;
use crate::timestamp::Timestamp;
use crate::types;
use crate::types::HistoryItem;
use crate::types::HistoryModel;
use crate::types::OutType;
use crate::types::RemoteModel;
use crate::types::RemoteSession;
use crate::types::RemoteTerminal;
use crate::types::SessionModel;
use crate::types::SshMode;

verus! {

broadcast use vstd::string::group_string_axioms;

/// The command of a line: its first word.
pub open spec fn command_of(line: Seq<char>) -> Seq<char> {
    line.take(text::first_white(line))
}

/// The arguments of a line: what follows its first word.
pub open spec fn args_of(line: Seq<char>) -> Seq<char> {
    text::trim(line.skip(text::first_white(line)))
}

/// The index that a text gives, if it gives one.
pub open spec fn index_in(s: Seq<char>) -> Option<nat> {
    text::parsed_uint(s, usize::MAX as nat)
}

/// What is to be done once a line has been read.
pub enum Step {
    /// There was nothing on the line.
    Ignored,
    /// The line has been answered.
    Reported,
    /// An earlier line is to be run in place of this one.
    Rerun { text: String },
    /// An earlier line is to be handed to the system's shell, in the directory
    /// where it was run.
    RunIn { text: String, dir: String },
    /// The line has been recorded; the state is to be saved and the command
    /// handled.
    Dispatch { cmd: String, args: String, input: String },
}

pub enum StepModel {
    Ignored,
    Reported,
    Rerun { text: Seq<char> },
    RunIn { text: Seq<char>, dir: Seq<char> },
    Dispatch { cmd: Seq<char>, args: Seq<char>, input: Seq<char> },
}

impl View for Step {
    type V = StepModel;

    open spec fn view(&self) -> StepModel {
        match *self {
            Step::Ignored => StepModel::Ignored,
            Step::Reported => StepModel::Reported,
            Step::Rerun { text } => StepModel::Rerun { text: text@ },
            Step::RunIn { text, dir } => StepModel::RunIn { text: text@, dir: dir@ },
            Step::Dispatch { cmd, args, input } => StepModel::Dispatch {
                cmd: cmd@,
                args: args@,
                input: input@,
            },
        }
    }
}

impl Model {
    /// The line echoed behind the prompt, and the recall back at the live
    /// input.
    pub open spec fn echoed(self, line: Seq<char>, labels: LabelsModel, now: Timestamp) -> Model {
        self.recalled(None, types::nav_live()).with_out(
            self.prompt(labels) + "> "@ + line,
            OutType::Prompt,
            now,
        )
    }

    /// The line in the history.
    pub open spec fn remembered(self, line: Seq<char>, now: Timestamp) -> Model {
        (Model {
            history: self.history.push(HistoryModel { text: line, dir: self.cur().cwd, dt: now }),
            ..self
        }).refreshed_history().refreshed_cwd_history()
    }

    /// The active tab's directory as the latest recent directory.
    pub open spec fn visited(self, now: Timestamp) -> Model {
        (Model {
            recent: navigation::recorded(self.recent, self.cur().cwd, now, self.style),
            ..self
        }).refreshed_recent_dirs()
    }

    /// What a line asks for, and the state once it has been read.
    pub open spec fn line_read(self, input: Seq<char>, labels: LabelsModel, now: Timestamp) -> (
        Model,
        StepModel,
    ) {
        let line = text::trim(input);
        let cmd = command_of(line);
        let args = args_of(line);
        let m = self.echoed(line, labels, now);
        if line.len() == 0 {
            (self, StepModel::Ignored)
        } else if cmd == "his"@ || cmd == "hist"@ {
            match index_in(args) {
                Some(n) => if n < self.history.len() {
                    (m, StepModel::Rerun { text: self.history[n as int].text })
                } else {
                    (
                        m.with_out(
                            cmd + ": no history item at index "@ + text::decimal(n),
                            OutType::StdErr,
                            now,
                        ),
                        StepModel::Reported,
                    )
                },
                None => (
                    m.with_out(
                        cmd + ": usage: "@ + cmd + " <number>"@,
                        OutType::StdErr,
                        now,
                    ),
                    StepModel::Reported,
                ),
            }
        } else if cmd == "hisd"@ {
            match index_in(args) {
                Some(n) => if n < self.history.len() {
                    (
                        m,
                        StepModel::RunIn {
                            text: self.history[n as int].text,
                            dir: self.history[n as int].dir,
                        },
                    )
                } else {
                    (
                        m.with_out(
                            "hisd: no history item at index "@ + text::decimal(n),
                            OutType::StdErr,
                            now,
                        ),
                        StepModel::Reported,
                    )
                },
                None => (
                    m.with_out("hisd: usage: hisd <number>"@, OutType::StdErr, now),
                    StepModel::Reported,
                ),
            }
        } else {
            (
                if cmd == "cd"@ {
                    m.remembered(line, now)
                } else {
                    m.remembered(line, now).visited(now)
                },
                StepModel::Dispatch { cmd, args, input: line },
            )
        }
    }
}

/// Splits a line into its first word and what follows it, without the white
/// space around that.
fn split_command(line: &str) -> (r: (String, String))
    ensures
        r.0@ == command_of(line@),
        r.1@ == args_of(line@),
{
    let v = text::chars_of(line);
    let n = text::find_white(v.as_slice());
    let cmd = text::string_of(v.as_slice(), 0, n);
    let rest = text::string_of(v.as_slice(), n, v.len());
    proof {
        assert(cmd@ =~= v@.take(n as int));
        assert(rest@ =~= v@.skip(n as int));
    }
    let args = text::trimmed(rest.as_str());
    (cmd, args)
}

/// Reads an index.
fn parse_index(s: &str) -> (r: Option<usize>)
    ensures
        match r {
            Some(n) => index_in(s@) == Some(n as nat),
            None => index_in(s@) is None,
        },
{
    match text::parse_uint(s, usize::MAX as u64) {
        Some(n) => Some(n as usize),
        None => None,
    }
}

/// A message that ends in an index.
fn indexed(what: &str, n: usize) -> (r: String)
    ensures
        r@ == what@ + text::decimal(n as nat),
{
    let mut r = what.to_string();
    text::push_decimal(&mut r, n as u64);
    r
}

/// Reads one line of input, now: echoes it behind the prompt, records it in the
/// history and its directory among the recent ones (but for `cd`), or looks up
/// the earlier line that `his`, `hist` or `hisd` asks for, which are not
/// recorded. Returns what is to be done.
pub fn run_command(state: &mut State, input: &str, labels: &PromptLabels) -> (step: Step)
    requires
        old(state).wf(),
    ensures
        final(state).wf(),
        exists|now: Timestamp|
            now.valid() && (final(state)@, step@) == #[trigger] old(state)@.line_read(
                input@,
                labels@,
                now,
            ),
{
    let now = Timestamp::current();
    run_command_at(state, input, labels, now)
}

/// Reads one line of input at the given moment.
pub fn run_command_at(state: &mut State, input: &str, labels: &PromptLabels, now: Timestamp) -> (step:
    Step)
    requires
        old(state).wf(),
    ensures
        final(state).wf(),
        final(state)@ == old(state)@.line_read(input@, labels@, now).0,
        step@ == old(state)@.line_read(input@, labels@, now).1,
{
    let line = text::trimmed(input);
    if line.as_str().is_empty() {
        return Step::Ignored;
    }
    let mut echo = state.prompt(labels);
    echo.append("> ");
    echo.append(line.as_str());
    state.reset_history_nav();
    state.push_out_at(echo, OutType::Prompt, now);
    let (cmd, args) = split_command(line.as_str());
    if text::same_text(cmd.as_str(), "his") || text::same_text(cmd.as_str(), "hist") {
        match parse_index(args.as_str()) {
            Some(idx) => {
                if idx < state.history.len() {
                    return Step::Rerun { text: state.history[idx].text.clone() };
                }
                let mut msg = cmd;
                msg.append(": no history item at index ");
                text::push_decimal(&mut msg, idx as u64);
                state.push_out_at(msg, OutType::StdErr, now);
            },
            None => {
                let mut msg = cmd.clone();
                msg.append(": usage: ");
                msg.append(cmd.as_str());
                msg.append(" <number>");
                state.push_out_at(msg, OutType::StdErr, now);
            },
        }
        return Step::Reported;
    }
    if text::same_text(cmd.as_str(), "hisd") {
        match parse_index(args.as_str()) {
            Some(idx) => {
                if idx < state.history.len() {
                    return Step::RunIn {
                        text: state.history[idx].text.clone(),
                        dir: state.history[idx].dir.clone(),
                    };
                }
                state.push_out_at(
                    indexed("hisd: no history item at index ", idx),
                    OutType::StdErr,
                    now,
                );
            },
            None => {
                state.push_out_at("hisd: usage: hisd <number>".to_string(), OutType::StdErr, now);
            },
        }
        return Step::Reported;
    }
    state.remember(line.as_str(), now);
    if !text::same_text(cmd.as_str(), "cd") {
        state.visit(now);
    }
    Step::Dispatch { cmd, args, input: line }
}

impl State {
    /// Records a line in the history.
    fn remember(&mut self, line: &str, now: Timestamp)
        requires
            old(self).wf(),
        ensures
            final(self).wf(),
            final(self)@ == old(self)@.remembered(line@, now),
    {
        let item = HistoryItem { text: line.to_string(), dir: self.cwd().to_string(), dt: now };
        let ghost m = item@;
        self.history.push(item);
        assert(self@.history =~= old(self)@.history.push(m));
        self.refresh_history_filter();
        self.refresh_cwd_history_filter();
    }

    /// Records the active tab's directory as the latest recent one.
    fn visit(&mut self, now: Timestamp)
        requires
            old(self).wf(),
        ensures
            final(self).wf(),
            final(self)@ == old(self)@.visited(now),
    {
        let cwd = self.cwd().to_string();
        navigation::record_recent_dir_at(&mut self.recent_dirs, cwd.as_str(), now, self.style);
        self.refresh_recent_dirs_filter();
    }
}

/// What is to be done to handle a command.
pub enum Action {
    /// Nothing more.
    Done,
    /// The session is to be taken down.
    Disconnect { session: RemoteSession },
    /// The active tab's session is to switch its mode.
    SetMode { mode: SshMode },
    /// The line is to be run by the active tab's session.
    RunRemote { input: String },
    /// The active tab is to be connected.
    Connect { remote: RemoteTerminal },
    /// The directory is to be synchronised.
    Sync { args: String, cwd: String },
    /// The logs are to be shown.
    Logs { args: String },
    /// The file that the arguments name is to be shown.
    Cat { args: String },
    /// The state is to be saved, with a report where that fails.
    SaveBookmarks,
    /// The recent directory is to be entered.
    EnterRecent { target: String, index: usize },
    /// The directory that the arguments name is to be entered.
    EnterNamed { args: String },
    /// The bookmark is to be entered.
    EnterBookmark { target: String },
    /// The line is to be handed to the system's shell.
    Shell { input: String, cwd: String },
}

pub enum ActionModel {
    Done,
    Disconnect { session: SessionModel },
    SetMode { mode: SshMode },
    RunRemote { input: Seq<char> },
    Connect { remote: RemoteModel },
    Sync { args: Seq<char>, cwd: Seq<char> },
    Logs { args: Seq<char> },
    Cat { args: Seq<char> },
    SaveBookmarks,
    EnterRecent { target: Seq<char>, index: nat },
    EnterNamed { args: Seq<char> },
    EnterBookmark { target: Seq<char> },
    Shell { input: Seq<char>, cwd: Seq<char> },
}

impl View for Action {
    type V = ActionModel;

    open spec fn view(&self) -> ActionModel {
        match *self {
            Action::Done => ActionModel::Done,
            Action::Disconnect { session } => ActionModel::Disconnect { session: session@ },
            Action::SetMode { mode } => ActionModel::SetMode { mode },
            Action::RunRemote { input } => ActionModel::RunRemote { input: input@ },
            Action::Connect { remote } => ActionModel::Connect { remote: remote@ },
            Action::Sync { args, cwd } => ActionModel::Sync { args: args@, cwd: cwd@ },
            Action::Logs { args } => ActionModel::Logs { args: args@ },
            Action::Cat { args } => ActionModel::Cat { args: args@ },
            Action::SaveBookmarks => ActionModel::SaveBookmarks,
            Action::EnterRecent { target, index } => ActionModel::EnterRecent {
                target: target@,
                index: index as nat,
            },
            Action::EnterNamed { args } => ActionModel::EnterNamed { args: args@ },
            Action::EnterBookmark { target } => ActionModel::EnterBookmark { target: target@ },
            Action::Shell { input, cwd } => ActionModel::Shell { input: input@, cwd: cwd@ },
        }
    }
}

impl Model {
    /// A bookmark removed, where there is one at the index.
    pub open spec fn bookmark_removed(self, idx: int, now: Timestamp) -> Model {
        if 0 <= idx < self.bookmarks.len() {
            (Model {
                bookmarks: self.bookmarks.remove(idx),
                ..self
            }).refreshed_bookmarks().with_out(
                "Deleted bookmark: "@ + self.bookmarks[idx],
                OutType::StdOut,
                now,
            )
        } else {
            self
        }
    }

    /// A command while the active tab is connected: only those that manage the
    /// session are kept, all else goes to the remote.
    pub open spec fn handled_remotely(
        self,
        session: SessionModel,
        cmd: Seq<char>,
        input: Seq<char>,
        now: Timestamp,
    ) -> (Model, ActionModel) {
        if cmd == "exit"@ || cmd == "quit"@ || cmd == "logout"@ || cmd == "disconnect"@ {
            (self.disconnected(now), ActionModel::Disconnect { session })
        } else if cmd == "mode"@ {
            (self, ActionModel::SetMode { mode: remote::other_mode(session.mode) })
        } else {
            (self, ActionModel::RunRemote { input })
        }
    }

    /// The `del` command.
    pub open spec fn handled_del(self, args: Seq<char>, now: Timestamp) -> (Model, ActionModel) {
        let sub = command_of(args);
        if sub == "bm"@ {
            match index_in(args_of(args)) {
                Some(n) => if n < self.bookmarks.len() {
                    (self.bookmark_removed(n as int, now), ActionModel::SaveBookmarks)
                } else {
                    (
                        self.with_out(
                            "del bm: no bookmark at index "@ + text::decimal(n) + " (have "@
                                + text::decimal(self.bookmarks.len()) + ")"@,
                            OutType::StdErr,
                            now,
                        ),
                        ActionModel::Done,
                    )
                },
                None => (
                    self.with_out(
                        "del bm: expected a number, e.g. `del bm 4`"@,
                        OutType::StdErr,
                        now,
                    ),
                    ActionModel::Done,
                ),
            }
        } else if sub.len() == 0 {
            (
                self.with_out("del: usage: del bm <number>"@, OutType::StdErr, now),
                ActionModel::Done,
            )
        } else {
            (
                self.with_out(
                    "del: unknown target `"@ + sub + "` (expected `bm`)"@,
                    OutType::StdErr,
                    now,
                ),
                ActionModel::Done,
            )
        }
    }

    /// The `cd` command: a recent directory by its index, or a named one.
    pub open spec fn handled_cd(self, args: Seq<char>, now: Timestamp) -> (Model, ActionModel) {
        match index_in(args) {
            Some(n) => if n < self.recent.len() {
                (self, ActionModel::EnterRecent { target: self.recent[n as int].path, index: n })
            } else {
                (
                    self.with_out(
                        "cd: no recent directory at index "@ + text::decimal(n),
                        OutType::StdErr,
                        now,
                    ),
                    ActionModel::Done,
                )
            },
            None => (self, ActionModel::EnterNamed { args }),
        }
    }

    /// The `bm` command: a bookmark by its index.
    pub open spec fn handled_bm(self, args: Seq<char>, now: Timestamp) -> (Model, ActionModel) {
        match index_in(args) {
            Some(n) => if n < self.bookmarks.len() {
                (self, ActionModel::EnterBookmark { target: self.bookmarks[n as int] })
            } else {
                (
                    self.with_out(
                        "bm: no bookmark at index "@ + text::decimal(n),
                        OutType::StdErr,
                        now,
                    ),
                    ActionModel::Done,
                )
            },
            None => (
                self.with_out("bm: usage: bm <number>"@, OutType::StdErr, now),
                ActionModel::Done,
            ),
        }
    }

    /// What a command asks for, and the state once that is known.
    pub open spec fn handled(
        self,
        cmd: Seq<char>,
        input: Seq<char>,
        args: Seq<char>,
        default_user: Seq<char>,
        now: Timestamp,
    ) -> (Model, ActionModel) {
        if self.cur().remote is Some {
            self.handled_remotely(self.cur().remote->0, cmd, input, now)
        } else if cmd == "exit"@ || cmd == "quit"@ {
            (
                self.with_out("(use the window close button to exit)"@, OutType::StdErr, now),
                ActionModel::Done,
            )
        } else if cmd == "ssh"@ {
            (
                self.ssh_reported(args, now),
                match self.ssh_target(args, default_user) {
                    Some(remote) => ActionModel::Connect { remote },
                    None => ActionModel::Done,
                },
            )
        } else if cmd == "sync"@ {
            (self, ActionModel::Sync { args, cwd: self.cur().cwd })
        } else if cmd == "logs"@ {
            (self, ActionModel::Logs { args })
        } else if cmd == "cat"@ {
            (self, ActionModel::Cat { args })
        } else if cmd == "del"@ {
            self.handled_del(args, now)
        } else if cmd == "cd"@ {
            self.handled_cd(args, now)
        } else if cmd == "bm"@ {
            self.handled_bm(args, now)
        } else {
            (self, ActionModel::Shell { input, cwd: self.cur().cwd })
        }
    }

    /// The outcome of `cd`. A recent directory that is no longer there leaves
    /// the list.
    pub open spec fn cd_finished(
        self,
        o: OutcomeModel,
        target: Seq<char>,
        recent: Option<usize>,
        missing: bool,
        now: Timestamp,
    ) -> Model {
        let m = self.dir_changed(o, now);
        if self.is_stale(o, target, recent, missing) {
            (Model { recent: m.recent.remove(recent->0 as int), ..m }).refreshed_recent_dirs().with_out(
                "cd: removed stale recent-dir entry "@ + text::decimal(recent->0 as nat),
                OutType::StdErr,
                now,
            )
        } else {
            m
        }
    }

    /// Whether a recent directory that could not be entered is to leave the
    /// list: it is missing, and still the entry that was asked for.
    pub open spec fn is_stale(
        self,
        o: OutcomeModel,
        target: Seq<char>,
        recent: Option<usize>,
        missing: bool,
    ) -> bool {
        !self.moves(o) && missing && recent is Some && recent->0 < self.recent.len()
            && path::same_path(self.style, self.recent[recent->0 as int].path, target)
    }

    /// What a program printed, each stream where there is anything on it.
    pub open spec fn program_ran(self, stdout: Seq<u8>, stderr: Seq<u8>, now: Timestamp) -> Model {
        let m = if stdout.len() > 0 {
            self.with_out(text::utf8_lossy(stdout), OutType::StdOut, now)
        } else {
            self
        };
        if stderr.len() > 0 {
            m.with_out(text::utf8_lossy(stderr), OutType::StdErr, now)
        } else {
            m
        }
    }
}

/// Handles one command that has been recorded: answers it, or returns what is
/// to be done. While the active tab is connected, only the commands that manage
/// the session are kept back.
pub fn handle_cmd(
    state: &mut State,
    cmd: &str,
    input: &str,
    args: &str,
    default_user: &str,
    now: Timestamp,
) -> (action: Action)
    requires
        old(state).wf(),
    ensures
        final(state).wf(),
        final(state)@ == old(state)@.handled(cmd@, input@, args@, default_user@, now).0,
        action@ == old(state)@.handled(cmd@, input@, args@, default_user@, now).1,
{
    if state.is_remote() {
        return state.handle_remotely(cmd, input, now);
    }
    if text::same_text(cmd, "exit") || text::same_text(cmd, "quit") {
        state.push_out_at(
            "(use the window close button to exit)".to_string(),
            OutType::StdErr,
            now,
        );
        return Action::Done;
    }
    if text::same_text(cmd, "ssh") {
        return match state.cmd_ssh(args, default_user, now) {
            Some(remote) => Action::Connect { remote },
            None => Action::Done,
        };
    }
    if text::same_text(cmd, "sync") {
        return Action::Sync { args: args.to_string(), cwd: state.cwd().to_string() };
    }
    if text::same_text(cmd, "logs") {
        return Action::Logs { args: args.to_string() };
    }
    if text::same_text(cmd, "cat") {
        return Action::Cat { args: args.to_string() };
    }
    if text::same_text(cmd, "del") {
        return state.handle_del(args, now);
    }
    if text::same_text(cmd, "cd") {
        return state.handle_cd(args, now);
    }
    if text::same_text(cmd, "bm") {
        return state.handle_bm(args, now);
    }
    Action::Shell { input: input.to_string(), cwd: state.cwd().to_string() }
}

impl State {
    /// Handles a command while the active tab is connected.
    fn handle_remotely(&mut self, cmd: &str, input: &str, now: Timestamp) -> (action: Action)
        requires
            old(self).wf(),
            old(self)@.cur().remote is Some,
        ensures
            final(self).wf(),
            final(self)@ == old(self)@.handled_remotely(
                old(self)@.cur().remote->0,
                cmd@,
                input@,
                now,
            ).0,
            action@ == old(self)@.handled_remotely(
                old(self)@.cur().remote->0,
                cmd@,
                input@,
                now,
            ).1,
    {
        if text::same_text(cmd, "exit") || text::same_text(cmd, "quit") || text::same_text(
            cmd,
            "logout",
        ) || text::same_text(cmd, "disconnect") {
            return match self.disconnect_remote(now) {
                Some(session) => Action::Disconnect { session },
                None => Action::Done,
            };
        }
        if text::same_text(cmd, "mode") {
            return match self.toggle_remote_mode() {
                Some(mode) => Action::SetMode { mode },
                None => Action::Done,
            };
        }
        Action::RunRemote { input: input.to_string() }
    }

    /// Handles `del`.
    fn handle_del(&mut self, args: &str, now: Timestamp) -> (action: Action)
        requires
            old(self).wf(),
        ensures
            final(self).wf(),
            final(self)@ == old(self)@.handled_del(args@, now).0,
            action@ == old(self)@.handled_del(args@, now).1,
    {
        let (sub, rest) = split_command(args);
        if text::same_text(sub.as_str(), "bm") {
            match parse_index(rest.as_str()) {
                Some(idx) => {
                    if self.remove_bookmark(idx, now) {
                        return Action::SaveBookmarks;
                    }
                    let mut msg = indexed("del bm: no bookmark at index ", idx);
                    msg.append(" (have ");
                    text::push_decimal(&mut msg, self.dir_bookmarks.len() as u64);
                    msg.append(")");
                    self.push_out_at(msg, OutType::StdErr, now);
                },
                None => {
                    self.push_out_at(
                        "del bm: expected a number, e.g. `del bm 4`".to_string(),
                        OutType::StdErr,
                        now,
                    );
                },
            }
            return Action::Done;
        }
        if sub.as_str().is_empty() {
            self.push_out_at("del: usage: del bm <number>".to_string(), OutType::StdErr, now);
            return Action::Done;
        }
        let mut msg = "del: unknown target `".to_string();
        msg.append(sub.as_str());
        msg.append("` (expected `bm`)");
        self.push_out_at(msg, OutType::StdErr, now);
        Action::Done
    }

    /// Removes the bookmark at an index. `false` where there is none.
    pub fn remove_bookmark(&mut self, idx: usize, now: Timestamp) -> (removed: bool)
        requires
            old(self).wf(),
        ensures
            final(self).wf(),
            final(self)@ == old(self)@.bookmark_removed(idx as int, now),
            removed == (idx < old(self)@.bookmarks.len()),
    {
        if idx >= self.dir_bookmarks.len() {
            return false;
        }
        let gone = self.dir_bookmarks.remove(idx);
        assert(self@.bookmarks =~= old(self)@.bookmarks.remove(idx as int));
        self.refresh_bookmarks_filter();
        let mut msg = "Deleted bookmark: ".to_string();
        msg.append(gone.as_str());
        self.push_out_at(msg, OutType::StdOut, now);
        true
    }

    /// Handles `cd`.
    fn handle_cd(&mut self, args: &str, now: Timestamp) -> (action: Action)
        requires
            old(self).wf(),
        ensures
            final(self).wf(),
            final(self)@ == old(self)@.handled_cd(args@, now).0,
            action@ == old(self)@.handled_cd(args@, now).1,
    {
        match parse_index(args) {
            Some(index) => {
                if index < self.recent_dirs.len() {
                    return Action::EnterRecent {
                        target: self.recent_dirs[index].path.clone(),
                        index,
                    };
                }
                self.push_out_at(
                    indexed("cd: no recent directory at index ", index),
                    OutType::StdErr,
                    now,
                );
                Action::Done
            },
            None => Action::EnterNamed { args: args.to_string() },
        }
    }

    /// Handles `bm`.
    fn handle_bm(&mut self, args: &str, now: Timestamp) -> (action: Action)
        requires
            old(self).wf(),
        ensures
            final(self).wf(),
            final(self)@ == old(self)@.handled_bm(args@, now).0,
            action@ == old(self)@.handled_bm(args@, now).1,
    {
        match parse_index(args) {
            Some(idx) => {
                if idx < self.dir_bookmarks.len() {
                    return Action::EnterBookmark { target: self.dir_bookmarks[idx].clone() };
                }
                self.push_out_at(
                    indexed("bm: no bookmark at index ", idx),
                    OutType::StdErr,
                    now,
                );
            },
            None => {
                self.push_out_at("bm: usage: bm <number>".to_string(), OutType::StdErr, now);
            },
        }
        Action::Done
    }

    /// Takes over the outcome of `cd`. `recent` is the index of the recent
    /// directory that was asked for, if one was; `missing` says that there is
    /// nothing at the target. Returns whether the state is to be saved.
    pub fn cd_done(
        &mut self,
        outcome: DirOutcome,
        target: &str,
        recent: Option<usize>,
        missing: bool,
        now: Timestamp,
    ) -> (save: bool)
        requires
            old(self).wf(),
        ensures
            final(self).wf(),
            final(self)@ == old(self)@.cd_finished(outcome@, target@, recent, missing, now),
            save == old(self)@.is_stale(outcome@, target@, recent, missing),
    {
        let moved = self.change_dir(outcome, now);
        if moved || !missing {
            return false;
        }
        let i: usize = match recent {
            Some(i) => i,
            None => {
                return false;
            },
        };
        if i >= self.recent_dirs.len() {
            return false;
        }
        let ghost m = self@;
        assert(m.recent[i as int] == self.recent_dirs@[i as int]@);
        if !path::is_same_path(self.style, self.recent_dirs[i].path.as_str(), target) {
            return false;
        }
        let _gone = self.recent_dirs.remove(i);
        assert(self@.recent =~= m.recent.remove(i as int));
        self.refresh_recent_dirs_filter();
        self.push_out_at(
            indexed("cd: removed stale recent-dir entry ", i),
            OutType::StdErr,
            now,
        );
        true
    }

    /// Shows what a program printed, or the error where it could not be run.
    pub fn shell_done(&mut self, result: Result<(Vec<u8>, Vec<u8>), String>, now: Timestamp)
        requires
            old(self).wf(),
        ensures
            final(self).wf(),
            final(self)@ == match result {
                Ok(out) => old(self)@.program_ran(out.0@, out.1@, now),
                Err(e) => old(self)@.with_out("shell: "@ + e@, OutType::StdErr, now),
            },
            result matches Ok(out) ==> {
                &&& out.0@.len() > 0 && vstd::utf8::valid_utf8(out.0@) ==> text::utf8_lossy(out.0@)
                    == vstd::utf8::decode_utf8(out.0@)
                &&& out.1@.len() > 0 && vstd::utf8::valid_utf8(out.1@) ==> text::utf8_lossy(out.1@)
                    == vstd::utf8::decode_utf8(out.1@)
            },
    {
        match result {
            Ok(out) => {
                if out.0.len() > 0 {
                    let shown = text::from_utf8_lossy(out.0.as_slice());
                    self.push_out_at(shown, OutType::StdOut, now);
                }
                if out.1.len() > 0 {
                    let shown = text::from_utf8_lossy(out.1.as_slice());
                    self.push_out_at(shown, OutType::StdErr, now);
                }
            },
            Err(e) => self.report("shell: ", e.as_str(), now),
        }
    }

    /// Shows the contents of a file, or the error where it could not be read.
    pub fn cat_done(&mut self, target: &str, result: Result<String, String>, now: Timestamp)
        requires
            old(self).wf(),
        ensures
            final(self).wf(),
            final(self)@ == match result {
                Ok(t) => old(self)@.with_out(t@, OutType::StdOut, now),
                Err(e) => old(self)@.with_out(
                    "cat: "@ + target@ + ": "@ + e@,
                    OutType::StdErr,
                    now,
                ),
            },
    {
        match result {
            Ok(t) => self.push_out_at(t, OutType::StdOut, now),
            Err(e) => {
                let mut what = "cat: ".to_string();
                what.append(target);
                what.append(": ");
                self.report(what.as_str(), e.as_str(), now);
            },
        }
    }

    /// Reports that the state could not be saved after a command was recorded.
    pub fn save_failed(&mut self, error: &str, now: Timestamp)
        requires
            old(self).wf(),
        ensures
            final(self).wf(),
            final(self)@ == old(self)@.with_out(
                "warning: failed to save state: "@ + error@,
                OutType::StdErr,
                now,
            ),
    {
        self.report("warning: failed to save state: ", error, now);
    }

    /// Reports that the state could not be saved after `del bm`.
    pub fn bookmarks_save_failed(&mut self, error: &str, now: Timestamp)
        requires
            old(self).wf(),
        ensures
            final(self).wf(),
            final(self)@ == old(self)@.with_out(
                "del bm: failed to save bookmarks: "@ + error@,
                OutType::StdErr,
                now,
            ),
    {
        self.report("del bm: failed to save bookmarks: ", error, now);
    }
}

}
