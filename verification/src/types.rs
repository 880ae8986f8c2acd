//! The plain data the terminal keeps, each type with its model: the texts
//! and numbers that it stands for.

use vstd::prelude::*;

use crate::timestamp::Timestamp;

verus! {

/// The stream that a chunk of terminal output belongs to.
#[derive(Clone, Copy, Debug, PartialEq, Eq, Structural)]
pub enum OutType {
    Prompt,
    StdOut,
    StdErr,
}

/// The stream that a command implementation writes to.
#[derive(Clone, Copy, Debug, PartialEq, Eq, Structural)]
pub enum OutKind {
    Stdout,
    Stderr,
}

/// The row type of a stream kind.
pub open spec fn out_type(kind: OutKind) -> OutType {
    match kind {
        OutKind::Stdout => OutType::StdOut,
        OutKind::Stderr => OutType::StdErr,
    }
}

/// The row type of a stream kind.
pub fn out_type_for(kind: OutKind) -> (t: OutType)
    ensures
        t == out_type(kind),
{
    match kind {
        OutKind::Stdout => OutType::StdOut,
        OutKind::Stderr => OutType::StdErr,
    }
}

/// One chunk of terminal output.
pub struct OutItem {
    pub text: String,
    pub type_: OutType,
    pub dt: Timestamp,
}

#[verifier::ext_equal]
pub struct OutModel {
    pub text: Seq<char>,
    pub type_: OutType,
    pub dt: Timestamp,
}

impl View for OutItem {
    type V = OutModel;

    open spec fn view(&self) -> OutModel {
        OutModel { text: self.text@, type_: self.type_, dt: self.dt }
    }
}

/// A command that was run, where and when.
pub struct HistoryItem {
    pub text: String,
    pub dir: String,
    pub dt: Timestamp,
}

#[verifier::ext_equal]
pub struct HistoryModel {
    pub text: Seq<char>,
    pub dir: Seq<char>,
    pub dt: Timestamp,
}

impl View for HistoryItem {
    type V = HistoryModel;

    open spec fn view(&self) -> HistoryModel {
        HistoryModel { text: self.text@, dir: self.dir@, dt: self.dt }
    }
}

impl HistoryItem {
    /// The same again.
    pub fn copy(&self) -> (r: Self)
        ensures
            r == *self,
    {
        HistoryItem { text: self.text.clone(), dir: self.dir.clone(), dt: self.dt }
    }
}

/// A directory that commands were run from, and when last.
pub struct RecentDir {
    pub path: String,
    pub dt: Timestamp,
}

#[verifier::ext_equal]
pub struct RecentModel {
    pub path: Seq<char>,
    pub dt: Timestamp,
}

impl View for RecentDir {
    type V = RecentModel;

    open spec fn view(&self) -> RecentModel {
        RecentModel { path: self.path@, dt: self.dt }
    }
}

impl RecentDir {
    /// The same again.
    pub fn copy(&self) -> (r: Self)
        ensures
            r == *self,
    {
        RecentDir { path: self.path.clone(), dt: self.dt }
    }
}

/// A saved SSH remote.
pub struct RemoteTerminal {
    pub host: String,
    pub port: u16,
    pub username: String,
}

#[verifier::ext_equal]
pub struct RemoteModel {
    pub host: Seq<char>,
    pub port: u16,
    pub username: Seq<char>,
}

impl View for RemoteTerminal {
    type V = RemoteModel;

    open spec fn view(&self) -> RemoteModel {
        RemoteModel { host: self.host@, port: self.port, username: self.username@ }
    }
}

impl RemoteTerminal {
    /// The same again.
    pub fn copy(&self) -> (r: Self)
        ensures
            r == *self,
    {
        RemoteTerminal {
            host: self.host.clone(),
            port: self.port,
            username: self.username.clone(),
        }
    }
}

/// How a session runs what is typed: one command at a time, or in an
/// interactive shell.
#[derive(Clone, Copy, Debug, PartialEq, Eq, Structural)]
pub enum SshMode {
    Exec,
    Pty,
}

/// What a live SSH session shows of itself.
pub struct RemoteSession {
    pub label: String,
    pub cwd: String,
    pub mode: SshMode,
}

#[verifier::ext_equal]
pub struct SessionModel {
    pub label: Seq<char>,
    pub cwd: Seq<char>,
    pub mode: SshMode,
}

impl View for RemoteSession {
    type V = SessionModel;

    open spec fn view(&self) -> SessionModel {
        SessionModel { label: self.label@, cwd: self.cwd@, mode: self.mode }
    }
}

/// The model of an optional session.
pub open spec fn opt_session(o: Option<RemoteSession>) -> Option<SessionModel> {
    match o {
        Some(s) => Some(s@),
        None => None,
    }
}

/// A file in the current directory.
pub struct BrowserFile {
    pub disp_name: String,
    pub path: String,
    pub is_folder: bool,
    pub is_executable: bool,
}

#[verifier::ext_equal]
pub struct FileModel {
    pub disp_name: Seq<char>,
    pub path: Seq<char>,
    pub is_folder: bool,
    pub is_executable: bool,
}

impl View for BrowserFile {
    type V = FileModel;

    open spec fn view(&self) -> FileModel {
        FileModel {
            disp_name: self.disp_name@,
            path: self.path@,
            is_folder: self.is_folder,
            is_executable: self.is_executable,
        }
    }
}

/// Which of the side panels are shown.
#[derive(Clone, Copy, Debug, PartialEq, Eq, Structural)]
pub struct PanelVis {
    pub bookmarks: bool,
    pub recent_dirs: bool,
    pub recent_cmds: bool,
    pub recent_cmds_in_dir: bool,
    pub remote_terminals: bool,
    pub file_browser: bool,
}

/// Where a tab stands in the recall of earlier commands and directories:
/// `None` at the live input.
#[derive(Clone, Copy, Debug, PartialEq, Eq, Structural)]
pub struct NavState {
    pub his_cursor: Option<usize>,
    pub cd_cursor: Option<usize>,
}

/// The recall state at the live input.
pub open spec fn nav_live() -> NavState {
    NavState { his_cursor: None, cd_cursor: None }
}

impl NavState {
    /// The recall state at the live input.
    pub fn new() -> (n: Self)
        ensures
            n == nav_live(),
    {
        NavState { his_cursor: None, cd_cursor: None }
    }
}

/// The directories of the open tabs, and which tab is selected.
pub struct OpenTabs {
    pub paths: Vec<String>,
    pub active: usize,
}

/// The models of a list of output.
pub open spec fn outs(v: Seq<OutItem>) -> Seq<OutModel> {
    v.map_values(|x: OutItem| x@)
}

/// The models of a list of commands.
pub open spec fn histories(v: Seq<HistoryItem>) -> Seq<HistoryModel> {
    v.map_values(|x: HistoryItem| x@)
}

/// The models of a list of recent directories.
pub open spec fn recents(v: Seq<RecentDir>) -> Seq<RecentModel> {
    v.map_values(|x: RecentDir| x@)
}

/// The models of a list of saved remotes.
pub open spec fn remotes(v: Seq<RemoteTerminal>) -> Seq<RemoteModel> {
    v.map_values(|x: RemoteTerminal| x@)
}

/// The models of a list of files.
pub open spec fn files(v: Seq<BrowserFile>) -> Seq<FileModel> {
    v.map_values(|x: BrowserFile| x@)
}

}
