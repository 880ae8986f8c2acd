//! What the window shows and what its controls ask for: the rows of each
//! panel, the colours of the output, and the effect of clicks and keys.

use vstd::prelude::*;

use crate::ansi;
use crate::ansi::Color32;
use crate::ansi::LayoutJob;
use crate::ansi::SectionModel;
use crate::display;
use crate::path;
use crate::path::PathStyle;
use crate::remote;
use crate::state::Form;
use crate::state::Model;
use crate::state::State;
use crate::state::Tab;
use crate::text;
use crate::timestamp::Timestamp;
use crate::types::BrowserFile;
use crate::types::FileModel;
use crate::types::OutItem;
use crate::types::OutModel;
use crate::types::OutType;
use crate::types::PanelVis;
use crate::types::RemoteModel;
use crate::types::RemoteTerminal;
use crate::types::SessionModel;
use crate::types::SshMode;

verus! {

broadcast use vstd::string::group_string_axioms;

/// How many characters of a path a narrow column shows.
pub const BOOKMARK_MAX_LEN: usize = 22;

/// How many characters of a directory's name a button shows.
pub const LEAF_MAX_LEN: usize = 20;

/// The colour of a row of output that sets none of its own.
pub open spec fn row_color(t: OutType) -> Color32 {
    match t {
        OutType::Prompt => ansi::rgb(220, 220, 90),
        OutType::StdOut => ansi::rgb(210, 210, 210),
        OutType::StdErr => ansi::rgb(240, 110, 110),
    }
}

/// The colour of a row of output that sets none of its own.
pub fn out_color(t: OutType) -> (c: Color32)
    ensures
        c == row_color(t),
{
    match t {
        OutType::Prompt => Color32::from_rgb(220, 220, 90),
        OutType::StdOut => Color32::from_rgb(210, 210, 210),
        OutType::StdErr => Color32::from_rgb(240, 110, 110),
    }
}

/// The colour of the marks of an active recall: light green.
pub fn his_color() -> (c: Color32)
    ensures
        c == ansi::rgb(120, 240, 120),
{
    Color32::from_rgb(120, 240, 120)
}

/// The colour of the branch: magenta, as the echoed prompt has it.
pub fn branch_color() -> (c: Color32)
    ensures
        c == ansi::rgb(255, 130, 255),
        ansi::palette16(5, true) == Some(c),
{
    Color32::from_rgb(255, 130, 255)
}

/// The colour of executable files and of a live connection.
pub fn executable_color() -> (c: Color32)
    ensures
        c == ansi::rgb(120, 220, 120),
{
    Color32::from_rgb(120, 220, 120)
}

/// What a click in a list asks for.
pub enum ListAction {
    /// Go to a directory.
    ChangeDir(String),
    /// Open a file with the program that is associated with it.
    OpenFile(String),
    RemoveBookmark(usize),
    /// Put a text into the input line.
    FillInput(String),
    /// Run a command of the history again, in the directory where it was run.
    RunHistoryInDir(usize),
    ConnectRemote(usize),
    /// Load a saved remote into the form.
    EditRemote(usize),
    RemoveRemote(usize),
}

pub enum ListActionModel {
    ChangeDir(Seq<char>),
    OpenFile(Seq<char>),
    RemoveBookmark(usize),
    FillInput(Seq<char>),
    RunHistoryInDir(usize),
    ConnectRemote(usize),
    EditRemote(usize),
    RemoveRemote(usize),
}

impl View for ListAction {
    type V = ListActionModel;

    open spec fn view(&self) -> ListActionModel {
        match *self {
            ListAction::ChangeDir(p) => ListActionModel::ChangeDir(p@),
            ListAction::OpenFile(p) => ListActionModel::OpenFile(p@),
            ListAction::RemoveBookmark(i) => ListActionModel::RemoveBookmark(i),
            ListAction::FillInput(s) => ListActionModel::FillInput(s@),
            ListAction::RunHistoryInDir(i) => ListActionModel::RunHistoryInDir(i),
            ListAction::ConnectRemote(i) => ListActionModel::ConnectRemote(i),
            ListAction::EditRemote(i) => ListActionModel::EditRemote(i),
            ListAction::RemoveRemote(i) => ListActionModel::RemoveRemote(i),
        }
    }
}

/// What is left to do of a list action.
pub enum Effect {
    Done,
    /// The directory is to be entered.
    Enter { target: String },
    /// The file is to be opened.
    Open { path: String },
    /// The state is to be saved.
    Save,
    /// The line is to be run.
    Run { line: String },
    /// The active tab is to be connected.
    Connect { remote: RemoteTerminal },
    /// The password of a remote is to be deleted and the state saved.
    Forget { remote: RemoteTerminal },
}

pub enum EffectModel {
    Done,
    Enter { target: Seq<char> },
    Open { path: Seq<char> },
    Save,
    Run { line: Seq<char> },
    Connect { remote: RemoteModel },
    Forget { remote: RemoteModel },
}

impl View for Effect {
    type V = EffectModel;

    open spec fn view(&self) -> EffectModel {
        match *self {
            Effect::Done => EffectModel::Done,
            Effect::Enter { target } => EffectModel::Enter { target: target@ },
            Effect::Open { path } => EffectModel::Open { path: path@ },
            Effect::Save => EffectModel::Save,
            Effect::Run { line } => EffectModel::Run { line: line@ },
            Effect::Connect { remote } => EffectModel::Connect { remote: remote@ },
            Effect::Forget { remote } => EffectModel::Forget { remote: remote@ },
        }
    }
}

impl Model {
    /// The input line filled, and the keyboard focus on it.
    pub open spec fn input_filled(self, t: Seq<char>) -> Model {
        let m = self.with_cur(Tab { input: t, ..self.cur() });
        Model { focus: true, ..m }
    }

    /// A saved remote loaded into the form.
    pub open spec fn form_loaded(self, i: int) -> Model {
        if 0 <= i < self.remotes.len() {
            let r = self.remotes[i];
            Model {
                form: Form {
                    open: true,
                    host: r.host,
                    port: text::decimal(r.port as nat),
                    user: r.username,
                    password: Seq::empty(),
                    edit_idx: Some(i as usize),
                },
                ..self
            }
        } else {
            self
        }
    }

    /// What a list action does to the state, and what is left to do.
    pub open spec fn acted(self, a: ListActionModel, now: Timestamp) -> (Model, EffectModel) {
        match a {
            ListActionModel::ChangeDir(p) => (self, EffectModel::Enter { target: p }),
            ListActionModel::OpenFile(p) => (self, EffectModel::Open { path: p }),
            ListActionModel::RemoveBookmark(i) => (
                self.bookmark_removed(i as int, now),
                if i < self.bookmarks.len() {
                    EffectModel::Save
                } else {
                    EffectModel::Done
                },
            ),
            ListActionModel::FillInput(t) => (self.input_filled(t), EffectModel::Done),
            ListActionModel::RunHistoryInDir(i) => (
                self,
                EffectModel::Run { line: "hisd "@ + text::decimal(i as nat) },
            ),
            ListActionModel::ConnectRemote(i) => if i < self.remotes.len() {
                (self, EffectModel::Connect { remote: self.remotes[i as int] })
            } else {
                (
                    self.with_out(
                        "ssh: no saved remote at index "@ + text::decimal(i as nat),
                        OutType::StdErr,
                        now,
                    ),
                    EffectModel::Done,
                )
            },
            ListActionModel::EditRemote(i) => (self.form_loaded(i as int), EffectModel::Done),
            ListActionModel::RemoveRemote(i) => (
                self.remote_removed(i as int, now),
                if i < self.remotes.len() {
                    EffectModel::Forget { remote: self.remotes[i as int] }
                } else {
                    EffectModel::Done
                },
            ),
        }
    }
}

/// Carries a list action out, as far as the state goes. Returns what is left
/// to do.
pub fn apply_action(state: &mut State, action: ListAction, now: Timestamp) -> (effect: Effect)
    requires
        old(state).wf(),
    ensures
        final(state).wf(),
        final(state)@ == old(state)@.acted(action@, now).0,
        effect@ == old(state)@.acted(action@, now).1,
{
    match action {
        ListAction::ChangeDir(target) => Effect::Enter { target },
        ListAction::OpenFile(path) => Effect::Open { path },
        ListAction::RemoveBookmark(i) => {
            if state.remove_bookmark(i, now) {
                Effect::Save
            } else {
                Effect::Done
            }
        },
        ListAction::FillInput(t) => {
            let i: usize = state.ui.active_tab;
            let ghost s = t@;
            state.ui.cli_input[i] = t;
            state.ui.focus_input = true;
            assert(state@.tabs =~= old(state)@.input_filled(s).tabs);
            Effect::Done
        },
        ListAction::RunHistoryInDir(i) => {
            let mut line = "hisd ".to_string();
            text::push_decimal(&mut line, i as u64);
            Effect::Run { line }
        },
        ListAction::ConnectRemote(i) => match state.connect_remote(i, now) {
            Some(remote) => Effect::Connect { remote },
            None => Effect::Done,
        },
        ListAction::EditRemote(i) => {
            state.edit_remote(i);
            Effect::Done
        },
        ListAction::RemoveRemote(i) => match state.remove_remote(i, now) {
            Some(remote) => Effect::Forget { remote },
            None => Effect::Done,
        },
    }
}

impl State {
    /// Loads a saved remote into the form.
    fn edit_remote(&mut self, i: usize)
        requires
            old(self).wf(),
        ensures
            final(self).wf(),
            final(self)@ == old(self)@.form_loaded(i as int),
    {
        if i >= self.remote_terminals.len() {
            return;
        }
        let mut port = String::new();
        text::push_decimal(&mut port, self.remote_terminals[i].port as u64);
        assert(port@ =~= text::decimal(self.remote_terminals@[i as int].port as nat));
        self.ui.remote_host = self.remote_terminals[i].host.clone();
        self.ui.remote_port = port;
        self.ui.remote_user = self.remote_terminals[i].username.clone();
        self.ui.remote_password = String::new();
        self.ui.remote_edit_idx = Some(i);
        self.ui.remote_form_open = true;
        proof {
            assert(self@.form =~= old(self)@.form_loaded(i as int).form);
            assert(self@.tabs =~= old(self)@.tabs);
        }
    }

    /// Reports that a file could not be opened.
    pub fn open_failed(&mut self, path: &str, error: &str, now: Timestamp)
        requires
            old(self).wf(),
        ensures
            final(self).wf(),
            final(self)@ == old(self)@.with_out(
                "open: failed to open "@ + path@ + ": "@ + error@,
                OutType::StdErr,
                now,
            ),
    {
        let mut what = "open: failed to open ".to_string();
        what.append(path);
        what.append(": ");
        self.report(what.as_str(), error, now);
    }

    /// Reports what is wrong with the form.
    pub fn form_failed(&mut self, error: &str, now: Timestamp)
        requires
            old(self).wf(),
        ensures
            final(self).wf(),
            final(self)@ == old(self)@.with_out("remote: "@ + error@, OutType::StdErr, now),
    {
        self.report("remote: ", error, now);
    }
}

/// A row of a list: the entry it stands for, its label, and what a click on it
/// asks for.
pub struct Row {
    pub index: usize,
    pub label: String,
    pub click: ListAction,
}

#[verifier::ext_equal]
pub struct RowModel {
    pub index: usize,
    pub label: Seq<char>,
    pub click: ListActionModel,
}

impl View for Row {
    type V = RowModel;

    open spec fn view(&self) -> RowModel {
        RowModel { index: self.index, label: self.label@, click: self.click@ }
    }
}

/// The models of a list of rows.
pub open spec fn rows_view(v: Seq<Row>) -> Seq<RowModel> {
    v.map_values(|r: Row| r@)
}

/// The label of an entry: its index and its text.
pub open spec fn numbered(i: usize, t: Seq<char>) -> Seq<char> {
    text::decimal(i as nat) + ": "@ + t
}

/// The matches that stand for entries of a list of `n`.
pub open spec fn listed(matches: Seq<usize>, n: nat) -> Seq<usize> {
    matches.filter(|i: usize| i < n)
}

/// The name that a directory goes by: its last component, or else the whole
/// path.
pub open spec fn leaf(dir: Seq<char>, style: PathStyle) -> Seq<char> {
    match path::name_of(style, dir) {
        Some(n) => n,
        None => dir,
    }
}

/// The label of the button that runs a command in its directory.
pub open spec fn in_dir(dir: Seq<char>, style: PathStyle) -> Seq<char> {
    "In "@ + if leaf(dir, style).len() > LEAF_MAX_LEN {
        leaf(dir, style).take(LEAF_MAX_LEN as int)
    } else {
        leaf(dir, style)
    }
}

impl Model {
    /// The row of a bookmark.
    pub open spec fn bookmark_row(self, i: usize) -> RowModel {
        let p = self.bookmarks[i as int];
        RowModel {
            index: i,
            label: numbered(
                i,
                display::truncated_start(display::tilde(p, self.home, self.style), BOOKMARK_MAX_LEN as nat),
            ),
            click: ListActionModel::ChangeDir(p),
        }
    }

    /// The row of a recent directory, with a star where it is bookmarked.
    pub open spec fn recent_row(self, i: usize) -> RowModel {
        let p = self.recent[i as int].path;
        RowModel {
            index: i,
            label: numbered(
                i,
                (if self.is_bookmarked(p) {
                    "*"@
                } else {
                    ""@
                }) + display::truncated_start(
                    display::tilde(p, self.home, self.style),
                    BOOKMARK_MAX_LEN as nat,
                ),
            ),
            click: ListActionModel::ChangeDir(p),
        }
    }

    /// The row of a command of the history.
    pub open spec fn history_row(self, i: usize) -> RowModel {
        let t = self.history[i as int].text;
        RowModel { index: i, label: numbered(i, t), click: ListActionModel::FillInput(t) }
    }

    /// The rows of the bookmarks that match, in order.
    pub open spec fn bookmark_rows(self) -> Seq<RowModel> {
        listed(self.filter.bookmarks, self.bookmarks.len()).map_values(
            |i: usize| self.bookmark_row(i),
        )
    }

    /// The rows of the recent directories that match, the newest first.
    pub open spec fn recent_dir_rows(self) -> Seq<RowModel> {
        listed(self.filter.recent_dirs, self.recent.len()).reverse().map_values(
            |i: usize| self.recent_row(i),
        )
    }

    /// The rows of the commands that match, the newest first.
    pub open spec fn history_rows(self) -> Seq<RowModel> {
        listed(self.filter.history, self.history.len()).reverse().map_values(
            |i: usize| self.history_row(i),
        )
    }

    /// The rows of the matching commands of the active tab's directory, the
    /// newest first.
    pub open spec fn cwd_history_rows(self) -> Seq<RowModel> {
        listed(self.filter.cwd_history, self.history.len()).reverse().map_values(
            |i: usize| self.history_row(i),
        )
    }
}

/// The matches that stand for entries of a list of `n`, in order.
fn list_matches(matches: &Vec<usize>, n: usize) -> (r: Vec<usize>)
    ensures
        r@ == listed(matches@, n as nat),
        forall|k: int| 0 <= k < r@.len() ==> (#[trigger] r@[k]) < n,
{
    let ghost p = |i: usize| i < n as nat;
    let mut r: Vec<usize> = Vec::new();
    let mut k: usize = 0;
    proof {
        reveal(Seq::filter);
        assert(matches@.take(0) =~= seq![]);
    }
    while k < matches.len()
        invariant
            k <= matches@.len(),
            p == (|i: usize| i < n as nat),
            r@ == matches@.take(k as int).filter(p),
            forall|j: int| 0 <= j < r@.len() ==> (#[trigger] r@[j]) < n,
        decreases matches@.len() - k,
    {
        proof {
            reveal(Seq::filter);
            assert(matches@.take(k + 1).drop_last() =~= matches@.take(k as int));
        }
        if matches[k] < n {
            r.push(matches[k]);
        }
        k += 1;
    }
    assert(matches@.take(k as int) =~= matches@);
    r
}

/// The matches that stand for entries of a list of `n`, the last one first.
fn list_newest(matches: &Vec<usize>, n: usize) -> (r: Vec<usize>)
    ensures
        r@ == listed(matches@, n as nat).reverse(),
        forall|k: int| 0 <= k < r@.len() ==> (#[trigger] r@[k]) < n,
{
    let v = list_matches(matches, n);
    let len: usize = v.len();
    let mut r: Vec<usize> = Vec::new();
    let mut k: usize = 0;
    while k < len
        invariant
            k <= len == v@.len(),
            r@.len() == k,
            forall|j: int| 0 <= j < k ==> (#[trigger] r@[j]) == v@[len - 1 - j],
            forall|j: int| 0 <= j < v@.len() ==> (#[trigger] v@[j]) < n,
        decreases len - k,
    {
        r.push(v[len - 1 - k]);
        k += 1;
    }
    assert(r@ =~= v@.reverse());
    r
}

/// The label of an entry.
fn number(i: usize, t: &str) -> (r: String)
    ensures
        r@ == numbered(i, t@),
{
    let mut r = String::new();
    text::push_decimal(&mut r, i as u64);
    assert(r@ =~= text::decimal(i as nat));
    r.append(": ");
    r.append(t);
    r
}

/// The label of the button that runs a command in its directory.
pub fn in_dir_label(dir: &str, style: PathStyle) -> (r: String)
    ensures
        r@ == in_dir(dir@, style),
{
    let name = match path::file_name(style, dir) {
        Some(n) => n,
        None => dir.to_string(),
    };
    let cut = display::truncate_end(name.as_str(), LEAF_MAX_LEN);
    let mut r = "In ".to_string();
    r.append(cut.as_str());
    r
}

impl State {
    /// A path as a narrow column shows it.
    fn short_path(&self, p: &str) -> (r: String)
        ensures
            r@ == display::truncated_start(
                display::tilde(p@, self@.home, self@.style),
                BOOKMARK_MAX_LEN as nat,
            ),
    {
        let home = match &self.home {
            Some(h) => Some(h.as_str()),
            None => None,
        };
        let shown = display::render_with_tilde(p, home, self.style);
        display::truncate_start(shown.as_str(), BOOKMARK_MAX_LEN)
    }

    /// The rows of the bookmarks panel.
    pub fn bookmark_rows(&self) -> (rows: Vec<Row>)
        ensures
            rows_view(rows@) == self@.bookmark_rows(),
    {
        let all = list_matches(&self.ui.bookmarks_filter, self.dir_bookmarks.len());
        let mut rows: Vec<Row> = Vec::new();
        let mut k: usize = 0;
        while k < all.len()
            invariant
                k <= all@.len(),
                rows@.len() == k,
                forall|j: int| 0 <= j < all@.len() ==> (#[trigger] all@[j]) < self.dir_bookmarks@.len(),
                forall|j: int| 0 <= j < k ==> (#[trigger] rows@[j])@ == self@.bookmark_row(all@[j]),
            decreases all@.len() - k,
        {
            let i: usize = all[k];
            let p = self.dir_bookmarks[i].clone();
            let label = number(i, self.short_path(p.as_str()).as_str());
            rows.push(Row { index: i, label, click: ListAction::ChangeDir(p) });
            assert(rows@[k as int]@ == self@.bookmark_row(all@[k as int]));
            k += 1;
        }
        assert(rows_view(rows@) =~= self@.bookmark_rows());
        rows
    }

    /// The rows of the recent directories panel, the newest first.
    pub fn recent_dir_rows(&self) -> (rows: Vec<Row>)
        ensures
            rows_view(rows@) == self@.recent_dir_rows(),
    {
        let all = list_newest(&self.ui.recent_dirs_filter, self.recent_dirs.len());
        let mut rows: Vec<Row> = Vec::new();
        let mut k: usize = 0;
        while k < all.len()
            invariant
                k <= all@.len(),
                rows@.len() == k,
                forall|j: int| 0 <= j < all@.len() ==> (#[trigger] all@[j]) < self.recent_dirs@.len(),
                forall|j: int| 0 <= j < k ==> (#[trigger] rows@[j])@ == self@.recent_row(all@[j]),
            decreases all@.len() - k,
        {
            let i: usize = all[k];
            let p = self.recent_dirs[i].path.clone();
            let mut shown = String::new();
            if self.is_bookmarked(p.as_str()) {
                shown.append("*");
                assert(shown@ =~= "*"@);
            } else {
                shown.append("");
                assert(shown@ =~= ""@);
            }
            shown.append(self.short_path(p.as_str()).as_str());
            let label = number(i, shown.as_str());
            rows.push(Row { index: i, label, click: ListAction::ChangeDir(p) });
            assert(rows@[k as int]@ == self@.recent_row(all@[k as int]));
            k += 1;
        }
        assert(rows_view(rows@) =~= self@.recent_dir_rows());
        rows
    }

    /// The row of a command of the history.
    fn history_row(&self, i: usize) -> (r: Row)
        requires
            i < self.history@.len(),
        ensures
            r@ == self@.history_row(i),
    {
        let t = self.history[i].text.clone();
        let label = number(i, t.as_str());
        Row { index: i, label, click: ListAction::FillInput(t) }
    }

    /// The rows of the given commands.
    fn rows_of_commands(&self, all: &Vec<usize>) -> (rows: Vec<Row>)
        requires
            forall|j: int| 0 <= j < all@.len() ==> (#[trigger] all@[j]) < self.history@.len(),
        ensures
            rows_view(rows@) == all@.map_values(|i: usize| self@.history_row(i)),
    {
        let mut rows: Vec<Row> = Vec::new();
        let mut k: usize = 0;
        while k < all.len()
            invariant
                k <= all@.len(),
                rows@.len() == k,
                forall|j: int| 0 <= j < all@.len() ==> (#[trigger] all@[j]) < self.history@.len(),
                forall|j: int| 0 <= j < k ==> (#[trigger] rows@[j])@ == self@.history_row(all@[j]),
            decreases all@.len() - k,
        {
            rows.push(self.history_row(all[k]));
            k += 1;
        }
        assert(rows_view(rows@) =~= all@.map_values(|i: usize| self@.history_row(i)));
        rows
    }

    /// The rows of the command history panel, the newest first.
    pub fn history_rows(&self) -> (rows: Vec<Row>)
        ensures
            rows_view(rows@) == self@.history_rows(),
    {
        let all = list_newest(&self.ui.history_filter, self.history.len());
        self.rows_of_commands(&all)
    }

    /// The rows of the panel with the commands of the active tab's directory,
    /// the newest first.
    pub fn cwd_history_rows(&self) -> (rows: Vec<Row>)
        ensures
            rows_view(rows@) == self@.cwd_history_rows(),
    {
        let all = list_newest(&self.ui.cwd_history_filter, self.history.len());
        self.rows_of_commands(&all)
    }
}

/// How one chunk of output is shown: without the line breaks it ends with, in
/// its own colours or else that of its stream.
pub open spec fn out_sections(o: OutModel) -> Seq<SectionModel> {
    ansi::layout(ansi::parsed(text::trim_end_of(o.text, '\n')), row_color(o.type_))
}

/// How one chunk of output is shown.
fn out_job(item: &OutItem) -> (job: LayoutJob)
    ensures
        job@ == out_sections(item@),
{
    let shown = text::without_trailing(item.text.as_str(), '\n');
    let segments = ansi::parse(shown.as_str());
    ansi::to_layout_job(segments.as_slice(), out_color(item.type_))
}

/// A key press that the input line takes for itself.
#[derive(Clone, Copy, Debug, PartialEq, Eq, Structural)]
pub enum KeyStep {
    Nothing,
    Complete,
    /// Through the history: to an older command, or to a newer one.
    History { up: bool },
    /// Through the recent directories: to an older one, or to a newer one.
    RecentDir { left: bool },
}

/// Which of the keys was pressed.
#[derive(Clone, Copy, Debug, PartialEq, Eq, Structural)]
pub struct Keys {
    pub tab: bool,
    pub up: bool,
    pub down: bool,
    pub left: bool,
    pub right: bool,
}

/// What a submitted line asks for.
pub enum Submitted {
    /// The bytes are to be sent to the interactive session.
    Send { bytes: Vec<u8> },
    /// The line is to be run.
    Run { line: String },
}

pub enum SubmittedModel {
    Send { bytes: Seq<u8> },
    Run { line: Seq<char> },
}

impl View for Submitted {
    type V = SubmittedModel;

    open spec fn view(&self) -> SubmittedModel {
        match *self {
            Submitted::Send { bytes } => SubmittedModel::Send { bytes: bytes@ },
            Submitted::Run { line } => SubmittedModel::Run { line: line@ },
        }
    }
}

/// The labels in front of the input line.
pub struct InputLabels {
    pub place: String,
    pub branch: Option<String>,
    pub his: Option<String>,
    pub cd: Option<String>,
}

/// The mark of an active recall.
pub open spec fn recall_mark(what: Seq<char>, cursor: Option<usize>) -> Option<Seq<char>> {
    match cursor {
        Some(i) => Some(what + text::decimal(i as nat)),
        None => None,
    }
}

/// The mark of an active recall.
fn mark(what: &str, cursor: Option<usize>) -> (r: Option<String>)
    ensures
        text::opt_text(r) == recall_mark(what@, cursor),
{
    match cursor {
        Some(i) => {
            let mut r = what.to_string();
            text::push_decimal(&mut r, i as u64);
            Some(r)
        },
        None => None,
    }
}

impl Model {
    /// Whether the input line takes the left and right arrows for itself: it
    /// is empty, or a recall of directories is active.
    pub open spec fn takes_arrows(self) -> bool {
        self.cur().nav.cd_cursor is Some || self.cur().input.len() == 0
    }

    /// What the input line does with the keys that were pressed.
    pub open spec fn key_step(self, keys: Keys) -> KeyStep {
        if keys.tab {
            KeyStep::Complete
        } else if keys.up {
            KeyStep::History { up: true }
        } else if keys.down {
            KeyStep::History { up: false }
        } else if self.takes_arrows() && keys.left {
            KeyStep::RecentDir { left: true }
        } else if self.takes_arrows() && keys.right {
            KeyStep::RecentDir { left: false }
        } else {
            KeyStep::Nothing
        }
    }

    /// What the submitted line asks for: an interactive session gets it as it
    /// is, and else it is run.
    pub open spec fn submitted(self) -> SubmittedModel {
        if self.is_pty() {
            SubmittedModel::Send { bytes: vstd::utf8::encode_utf8(self.cur().input).push(13u8) }
        } else {
            SubmittedModel::Run { line: self.cur().input }
        }
    }
}

impl State {
    /// The output of the active tab, ready to be laid out, chunk by chunk.
    pub fn out_jobs(&self) -> (jobs: Vec<LayoutJob>)
        requires
            self.wf(),
        ensures
            jobs@.map_values(|j: LayoutJob| j@) == self@.cur().out.map_values(
                |o: OutModel| out_sections(o),
            ),
    {
        let i: usize = self.ui.active_tab;
        let mut jobs: Vec<LayoutJob> = Vec::new();
        let mut k: usize = 0;
        while k < self.ui.out[i].len()
            invariant
                self.wf(),
                i == self.ui.active_tab,
                k <= self.ui.out@[i as int]@.len(),
                jobs@.len() == k,
                forall|j: int|
                    0 <= j < k ==> (#[trigger] jobs@[j])@ == out_sections(
                        self.ui.out@[i as int]@[j]@,
                    ),
            decreases self.ui.out@[i as int]@.len() - k,
        {
            jobs.push(out_job(&self.ui.out[i][k]));
            k += 1;
        }
        assert(jobs@.map_values(|j: LayoutJob| j@) =~= self@.cur().out.map_values(
            |o: OutModel| out_sections(o),
        ));
        jobs
    }

    /// The labels in front of the input line. `branch` is the branch's name
    /// cut to its column; it is not shown while the tab is connected.
    pub fn input_labels(&self, branch: &str) -> (r: InputLabels)
        requires
            self.wf(),
        ensures
            r.place@ == self@.cwd_display(),
            text::opt_text(r.branch) == if self@.cur().branch is Some && self@.cur().remote is None {
                Some("branch: "@ + branch@)
            } else {
                None
            },
            text::opt_text(r.his) == recall_mark("his "@, self@.cur().nav.his_cursor),
            text::opt_text(r.cd) == recall_mark("cd "@, self@.cur().nav.cd_cursor),
    {
        let (his_cursor, cd_cursor) = self.active_nav_cursors();
        let mut shown = None;
        if self.branch[self.ui.active_tab].is_some() && !self.is_remote() {
            let mut b = "branch: ".to_string();
            b.append(branch);
            shown = Some(b);
        }
        InputLabels {
            place: self.cwd_display(),
            branch: shown,
            his: mark("his ", his_cursor),
            cd: mark("cd ", cd_cursor),
        }
    }

    /// Whether the input line is to take the keyboard focus, once.
    pub fn take_focus(&mut self) -> (focus: bool)
        requires
            old(self).wf(),
        ensures
            final(self).wf(),
            final(self)@ == (Model { focus: false, ..old(self)@ }),
            focus == old(self)@.focus,
    {
        let focus = self.ui.focus_input;
        self.ui.focus_input = false;
        assert(self@.tabs =~= old(self)@.tabs);
        focus
    }

    /// Whether the input line takes the left and right arrows for itself.
    pub fn takes_arrows(&self) -> (r: bool)
        requires
            self.wf(),
        ensures
            r == self@.takes_arrows(),
    {
        let (_his, cd_cursor) = self.active_nav_cursors();
        cd_cursor.is_some() || self.ui.cli_input[self.ui.active_tab].as_str().is_empty()
    }

    /// What the input line does with the keys that were pressed.
    pub fn key_step(&self, keys: Keys) -> (r: KeyStep)
        requires
            self.wf(),
        ensures
            r == self@.key_step(keys),
    {
        if keys.tab {
            KeyStep::Complete
        } else if keys.up {
            KeyStep::History { up: true }
        } else if keys.down {
            KeyStep::History { up: false }
        } else if !self.takes_arrows() {
            KeyStep::Nothing
        } else if keys.left {
            KeyStep::RecentDir { left: true }
        } else if keys.right {
            KeyStep::RecentDir { left: false }
        } else {
            KeyStep::Nothing
        }
    }

    /// Takes the line out of the input, which keeps the keyboard focus, and
    /// says what it asks for.
    pub fn submit(&mut self) -> (r: Submitted)
        requires
            old(self).wf(),
        ensures
            final(self).wf(),
            final(self)@ == old(self)@.input_filled(Seq::empty()),
            r@ == old(self)@.submitted(),
    {
        let i: usize = self.ui.active_tab;
        let line = self.ui.cli_input[i].clone();
        self.ui.cli_input[i] = String::new();
        self.ui.focus_input = true;
        proof {
            assert(self.ui.cli_input@[i as int]@ =~= Seq::empty());
            assert(self@.tabs =~= old(self)@.input_filled(Seq::empty()).tabs);
        }
        if self.is_pty() {
            if let Some(bytes) = self.send_remote_line(line.as_str()) {
                return Submitted::Send { bytes };
            }
        }
        Submitted::Run { line }
    }
}

/// A row of the file browser: its label, its colour where it has one, and what
/// a double click on it asks for.
pub struct FileRow {
    pub label: String,
    pub color: Option<Color32>,
    pub open: ListAction,
}

#[verifier::ext_equal]
pub struct FileRowModel {
    pub label: Seq<char>,
    pub color: Option<Color32>,
    pub open: ListActionModel,
}

impl View for FileRow {
    type V = FileRowModel;

    open spec fn view(&self) -> FileRowModel {
        FileRowModel { label: self.label@, color: self.color, open: self.open@ }
    }
}

/// The row of a file: a folder has a mark and is entered, an executable file
/// is green, and a file is opened.
pub open spec fn file_row(f: FileModel) -> FileRowModel {
    FileRowModel {
        label: if f.is_folder {
            "📁 "@ + f.disp_name
        } else {
            f.disp_name
        },
        color: if !f.is_folder && f.is_executable {
            Some(ansi::rgb(120, 220, 120))
        } else {
            None
        },
        open: if f.is_folder {
            ListActionModel::ChangeDir(f.path)
        } else {
            ListActionModel::OpenFile(f.path)
        },
    }
}

/// The row of a file.
fn row_of_file(f: &BrowserFile) -> (r: FileRow)
    ensures
        r@ == file_row(f@),
{
    if f.is_folder {
        let mut label = "📁 ".to_string();
        label.append(f.disp_name.as_str());
        return FileRow { label, color: None, open: ListAction::ChangeDir(f.path.clone()) };
    }
    let color = if f.is_executable {
        Some(executable_color())
    } else {
        None
    };
    FileRow { label: f.disp_name.clone(), color, open: ListAction::OpenFile(f.path.clone()) }
}

/// Which ways the file browser can go.
#[derive(Clone, Copy, Debug, PartialEq, Eq, Structural)]
pub struct NavButtons {
    pub up: bool,
    pub back: bool,
    pub forward: bool,
}

/// Where the file browser is to go.
pub enum Move {
    Stay,
    Up,
    Back,
    Forward,
    To { target: String },
}

/// Where the file browser is to go: of the buttons that were clicked, the
/// first.
pub fn browser_move(up: bool, back: bool, forward: bool, to: Option<String>) -> (r: Move)
    ensures
        match r {
            Move::Up => up,
            Move::Back => !up && back,
            Move::Forward => !up && !back && forward,
            Move::To { target } => !up && !back && !forward && to == Some(target),
            Move::Stay => !up && !back && !forward && to is None,
        },
{
    if up {
        Move::Up
    } else if back {
        Move::Back
    } else if forward {
        Move::Forward
    } else {
        match to {
            Some(target) => Move::To { target },
            None => Move::Stay,
        }
    }
}

impl State {
    /// Which ways the file browser can go: up unless at a root, back and
    /// forward where there is somewhere to go.
    pub fn nav_buttons(&self) -> (r: NavButtons)
        requires
            self.wf(),
        ensures
            r.up == path::parent_of(self@.style, self@.cur().cwd) is Some,
            r.back == (self@.cur().back.len() > 0),
            r.forward == (self@.cur().forward.len() > 0),
    {
        let i: usize = self.ui.active_tab;
        NavButtons {
            up: self.nav_up().is_some(),
            back: self.ui.nav_back[i].len() > 0,
            forward: self.ui.nav_forward[i].len() > 0,
        }
    }

    /// The desktop of the home directory, if that is known.
    pub fn desktop(&self) -> (r: Option<String>)
        ensures
            text::opt_text(r) == match self@.home {
                Some(h) => Some(path::entry_of(self@.style, h, "Desktop"@)),
                None => None,
            },
    {
        match &self.home {
            Some(h) => Some(path::entry(self.style, h.as_str(), "Desktop")),
            None => None,
        }
    }

    /// The downloads of the home directory, if that is known.
    pub fn downloads(&self) -> (r: Option<String>)
        ensures
            text::opt_text(r) == match self@.home {
                Some(h) => Some(path::entry_of(self@.style, h, "Downloads"@)),
                None => None,
            },
    {
        match &self.home {
            Some(h) => Some(path::entry(self.style, h.as_str(), "Downloads")),
            None => None,
        }
    }

    /// The rows of the file browser.
    pub fn file_rows(&self) -> (rows: Vec<FileRow>)
        ensures
            rows@.map_values(|r: FileRow| r@) == self@.files.map_values(
                |f: FileModel| file_row(f),
            ),
    {
        let mut rows: Vec<FileRow> = Vec::new();
        let mut k: usize = 0;
        while k < self.browser_files.len()
            invariant
                k <= self.browser_files@.len(),
                rows@.len() == k,
                forall|j: int|
                    0 <= j < k ==> (#[trigger] rows@[j])@ == file_row(self.browser_files@[j]@),
            decreases self.browser_files@.len() - k,
        {
            rows.push(row_of_file(&self.browser_files[k]));
            k += 1;
        }
        assert(rows@.map_values(|r: FileRow| r@) =~= self@.files.map_values(
            |f: FileModel| file_row(f),
        ));
        rows
    }
}

/// The status line of a session.
pub open spec fn status_line(s: SessionModel) -> Seq<char> {
    "● "@ + s.label + "  ["@ + remote::mode_name(s.mode) + "]"@
}

/// The name that a tab goes by: its directory's last component, or else the
/// path as it is shown.
pub open spec fn tab_name(cwd: Seq<char>, home: Option<Seq<char>>, style: PathStyle) -> Seq<char> {
    match path::name_of(style, cwd) {
        Some(n) => n,
        None => display::tilde(cwd, home, style),
    }
}

/// The button that connects to a saved remote.
pub open spec fn connect_label(i: usize, r: RemoteModel) -> Seq<char> {
    "+ ssh "@ + text::decimal(i as nat) + " "@ + r.host
}

impl Model {
    /// The form opened, or closed; a form that is closed edits nothing.
    pub open spec fn form_toggled(self) -> Model {
        Model {
            form: Form {
                open: !self.form.open,
                edit_idx: if self.form.open {
                    None
                } else {
                    self.form.edit_idx
                },
                ..self.form
            },
            ..self
        }
    }

    /// The form closed without saving; the password is forgotten.
    pub open spec fn form_cancelled(self) -> Model {
        Model {
            form: Form { open: false, edit_idx: None, password: Seq::empty(), ..self.form },
            ..self
        }
    }
}

impl State {
    /// The status line of the active tab's session, if it is connected.
    pub fn remote_status(&self) -> (r: Option<String>)
        requires
            self.wf(),
        ensures
            text::opt_text(r) == match self@.cur().remote {
                Some(s) => Some(status_line(s)),
                None => None,
            },
    {
        match self.active_remote() {
            Some(s) => {
                let mut line = "● ".to_string();
                line.append(s.label.as_str());
                line.append("  [");
                match s.mode {
                    SshMode::Exec => line.append("exec"),
                    SshMode::Pty => line.append("interactive"),
                }
                line.append("]");
                Some(line)
            },
            None => None,
        }
    }

    /// The label of the button that switches the mode.
    pub fn mode_button(&self) -> (r: String)
        requires
            self.wf(),
        ensures
            r@ == if self@.is_pty() {
                "PTY mode"@
            } else {
                "Exec mode"@
            },
    {
        if self.is_pty() {
            "PTY mode".to_string()
        } else {
            "Exec mode".to_string()
        }
    }

    /// The label of the button that opens and closes the form.
    pub fn form_button(&self) -> (r: String)
        ensures
            r@ == if self@.form.open {
                "Close form"@
            } else {
                "+ Add remote"@
            },
    {
        if self.ui.remote_form_open {
            "Close form".to_string()
        } else {
            "+ Add remote".to_string()
        }
    }

    /// Opens the form, or closes it.
    pub fn toggle_form(&mut self)
        requires
            old(self).wf(),
        ensures
            final(self).wf(),
            final(self)@ == old(self)@.form_toggled(),
    {
        self.ui.remote_form_open = !self.ui.remote_form_open;
        if !self.ui.remote_form_open {
            self.ui.remote_edit_idx = None;
        }
        assert(self@.tabs =~= old(self)@.tabs);
    }

    /// Closes the form without saving.
    pub fn cancel_form(&mut self)
        requires
            old(self).wf(),
        ensures
            final(self).wf(),
            final(self)@ == old(self)@.form_cancelled(),
    {
        self.ui.remote_form_open = false;
        self.ui.remote_edit_idx = None;
        self.ui.remote_password = String::new();
        proof {
            assert(self@.form =~= old(self)@.form_cancelled().form);
            assert(self@.tabs =~= old(self)@.tabs);
        }
    }

    /// The labels of the saved remotes.
    pub fn remote_rows(&self) -> (rows: Vec<String>)
        ensures
            rows@.len() == self@.remotes.len(),
            forall|i: int|
                0 <= i < rows@.len() ==> (#[trigger] rows@[i])@ == numbered(
                    i as usize,
                    remote::address(self@.remotes[i]),
                ),
    {
        let mut rows: Vec<String> = Vec::new();
        let mut k: usize = 0;
        while k < self.remote_terminals.len()
            invariant
                k <= self.remote_terminals@.len(),
                rows@.len() == k,
                forall|i: int|
                    0 <= i < k ==> (#[trigger] rows@[i])@ == numbered(
                        i as usize,
                        remote::address(self@.remotes[i]),
                    ),
            decreases self.remote_terminals@.len() - k,
        {
            assert(self@.remotes[k as int] == self.remote_terminals@[k as int]@);
            rows.push(number(k, self.remote_terminals[k].address().as_str()));
            k += 1;
        }
        rows
    }

    /// The labels of the buttons that connect to the saved remotes.
    pub fn connect_labels(&self) -> (rows: Vec<String>)
        ensures
            rows@.len() == self@.remotes.len(),
            forall|i: int|
                0 <= i < rows@.len() ==> (#[trigger] rows@[i])@ == connect_label(
                    i as usize,
                    self@.remotes[i],
                ),
    {
        let mut rows: Vec<String> = Vec::new();
        let mut k: usize = 0;
        while k < self.remote_terminals.len()
            invariant
                k <= self.remote_terminals@.len(),
                rows@.len() == k,
                forall|i: int|
                    0 <= i < k ==> (#[trigger] rows@[i])@ == connect_label(
                        i as usize,
                        self@.remotes[i],
                    ),
            decreases self.remote_terminals@.len() - k,
        {
            assert(self@.remotes[k as int] == self.remote_terminals@[k as int]@);
            let mut label = "+ ssh ".to_string();
            text::push_decimal(&mut label, k as u64);
            label.append(" ");
            label.append(self.remote_terminals[k].host.as_str());
            rows.push(label);
            k += 1;
        }
        rows
    }

    /// The labels of the tabs.
    pub fn tab_labels(&self) -> (rows: Vec<String>)
        requires
            self.wf(),
        ensures
            rows@.len() == self@.tabs.len(),
            forall|i: int|
                0 <= i < rows@.len() ==> (#[trigger] rows@[i])@ == numbered(
                    i as usize,
                    tab_name(self@.tabs[i].cwd, self@.home, self@.style),
                ),
    {
        let mut rows: Vec<String> = Vec::new();
        let mut k: usize = 0;
        while k < self.cwd.len()
            invariant
                self.wf(),
                k <= self.cwd@.len(),
                rows@.len() == k,
                forall|i: int|
                    0 <= i < k ==> (#[trigger] rows@[i])@ == numbered(
                        i as usize,
                        tab_name(self@.tabs[i].cwd, self@.home, self@.style),
                    ),
            decreases self.cwd@.len() - k,
        {
            assert(self@.tabs[k as int].cwd == self.cwd@[k as int]@);
            let cwd = self.cwd[k].as_str();
            let name = match path::file_name(self.style, cwd) {
                Some(n) => n,
                None => {
                    let home = match &self.home {
                        Some(h) => Some(h.as_str()),
                        None => None,
                    };
                    display::render_with_tilde(cwd, home, self.style)
                },
            };
            rows.push(number(k, name.as_str()));
            k += 1;
        }
        rows
    }

    /// Whether the tabs have a button to close them: the last one stays.
    pub fn tabs_closable(&self) -> (r: bool)
        requires
            self.wf(),
        ensures
            r == (self@.tabs.len() > 1),
            forall|i: int| 0 <= i < self@.tabs.len() ==> r == #[trigger] self@.can_close(i),
    {
        self.cwd.len() > 1
    }

    /// Shows the given panels. Returns whether that changes anything, and the
    /// state is to be saved.
    pub fn set_panels(&mut self, panels: PanelVis) -> (changed: bool)
        requires
            old(self).wf(),
        ensures
            final(self).wf(),
            final(self)@ == (Model { panel_vis: panels, ..old(self)@ }),
            changed == (panels != old(self)@.panel_vis),
    {
        let changed = !panel_vis_eq(&self.ui.panel_vis, &panels);
        self.ui.panel_vis = panels;
        assert(self@.tabs =~= old(self)@.tabs);
        changed
    }
}

/// Whether the same panels are shown.
pub fn panel_vis_eq(a: &PanelVis, b: &PanelVis) -> (r: bool)
    ensures
        r == (*a == *b),
{
    a.bookmarks == b.bookmarks && a.recent_dirs == b.recent_dirs && a.recent_cmds == b.recent_cmds
        && a.recent_cmds_in_dir == b.recent_cmds_in_dir && a.remote_terminals == b.remote_terminals
        && a.file_browser == b.file_browser
}

}
