//! How paths and the prompt are shown.

use vstd::prelude::*;

use crate::path;
use crate::path::PathStyle;
use crate::state::Model;
use crate::state::State;
use crate::text;
use crate::types::RemoteSession;
use crate::types::SessionModel;
use crate::types::SshMode;

verus! {

broadcast use vstd::string::group_string_axioms;

/// A path as it is shown: `~` and what follows the home directory, with
/// forward slashes, where it lies there, and else as it is.
pub open spec fn tilde(p: Seq<char>, home: Option<Seq<char>>, style: PathStyle) -> Seq<char> {
    match home {
        Some(h) => match path::below(style, p, h) {
            Some(rest) => if rest.len() == 0 {
                "~"@
            } else {
                "~/"@ + text::replaced(rest, '\\', '/')
            },
            None => p,
        },
        None => p,
    }
}

/// The view of an optional borrowed string.
pub open spec fn opt_str(o: Option<&str>) -> Option<Seq<char>> {
    match o {
        Some(s) => Some(s@),
        None => None,
    }
}

/// Shows a path as `~/relative` where it lives under the home directory, and
/// else in its absolute form.
pub fn render_with_tilde(p: &str, home: Option<&str>, style: PathStyle) -> (r: String)
    ensures
        r@ == tilde(p@, opt_str(home), style),
{
    if let Some(h) = home {
        if let Some(rest) = path::strip_prefix(style, p, h) {
            let shown = text::with_replaced(rest.as_str(), '\\', '/');
            assert(shown@.len() == rest@.len());
            if shown.as_str().is_empty() {
                return "~".to_string();
            }
            let mut r = "~/".to_string();
            r.append(shown.as_str());
            return r;
        }
    }
    p.to_string()
}

/// A text cut to `max` characters: its tail behind three dots, or as many
/// dots as there is room for.
pub open spec fn truncated_start(s: Seq<char>, max: nat) -> Seq<char> {
    if s.len() <= max {
        s
    } else if max < 3 {
        "..."@.take(max as int)
    } else {
        "..."@ + s.skip(s.len() - (max - 3))
    }
}

/// Cuts a text to at most `max` characters for a narrow column, keeping the
/// tail (the most specific part of a path) behind three dots.
pub fn truncate_start(s: &str, max: usize) -> (r: String)
    ensures
        r@ == truncated_start(s@, max as nat),
        r@.len() <= max,
{
    let v = text::chars_of(s);
    let count: usize = v.len();
    if count <= max {
        return s.to_string();
    }
    proof {
        reveal_strlit("...");
    }
    if max < 3 {
        return truncate_end("...", max);
    }
    let tail = text::string_of(v.as_slice(), count - (max - 3), count);
    assert(tail@ == s@.skip(count - (max - 3)));
    let mut r = "...".to_string();
    r.append(tail.as_str());
    r
}

/// The first `max` characters of a text.
pub fn truncate_end(s: &str, max: usize) -> (r: String)
    ensures
        r@ == if s@.len() > max {
            s@.take(max as int)
        } else {
            s@
        },
{
    let v = text::chars_of(s);
    if v.len() > max {
        text::string_of(v.as_slice(), 0, max)
    } else {
        s.to_string()
    }
}

/// Where a session is: its label, its directory (`~` where none is known)
/// and a mark for interactive mode.
pub open spec fn session_display(s: SessionModel) -> Seq<char> {
    s.label + ":"@ + (if s.cwd.len() == 0 {
        "~"@
    } else {
        s.cwd
    }) + (match s.mode {
        SshMode::Exec => ""@,
        SshMode::Pty => " (pty)"@,
    })
}

impl Model {
    /// Whether a path is among the bookmarks.
    pub open spec fn is_bookmarked(self, p: Seq<char>) -> bool {
        exists|i: int|
            0 <= i < self.bookmarks.len() && path::same_path(
                self.style,
                #[trigger] self.bookmarks[i],
                p,
            )
    }

    /// Where the active tab is: at its session's place if it is connected,
    /// and else in its directory, with a star where that is bookmarked.
    pub open spec fn cwd_display(self) -> Seq<char> {
        match self.cur().remote {
            Some(s) => session_display(s),
            None => if self.is_bookmarked(self.cur().cwd) {
                "*"@ + self.cur().cwd
            } else {
                self.cur().cwd
            },
        }
    }

    /// The prompt: the place, the branch of a tab that is not connected, and
    /// the marks of an active recall.
    pub open spec fn prompt(self, labels: LabelsModel) -> Seq<char> {
        let branch = if self.cur().remote is None && self.cur().branch is Some {
            " \u{1b}[95mbranch: "@ + labels.branch + "\u{1b}[0m"@
        } else {
            seq![]
        };
        self.cwd_display() + branch + labels.his + labels.cd
    }
}

/// The parts of the prompt that are made elsewhere: the branch name cut to
/// its column, and the marks that an active recall shows.
pub struct PromptLabels {
    pub branch: String,
    pub his: String,
    pub cd: String,
}

#[verifier::ext_equal]
pub struct LabelsModel {
    pub branch: Seq<char>,
    pub his: Seq<char>,
    pub cd: Seq<char>,
}

impl View for PromptLabels {
    type V = LabelsModel;

    open spec fn view(&self) -> LabelsModel {
        LabelsModel { branch: self.branch@, his: self.his@, cd: self.cd@ }
    }
}

impl State {
    /// Whether a path is among the bookmarks.
    pub fn is_bookmarked(&self, p: &str) -> (r: bool)
        ensures
            r == self@.is_bookmarked(p@),
    {
        let mut i: usize = 0;
        while i < self.dir_bookmarks.len()
            invariant
                i <= self.dir_bookmarks@.len(),
                forall|j: int|
                    0 <= j < i ==> !path::same_path(self.style, #[trigger] self@.bookmarks[j], p@),
            decreases self.dir_bookmarks@.len() - i,
        {
            assert(self@.bookmarks[i as int] == self.dir_bookmarks@[i as int]@);
            if path::is_same_path(self.style, self.dir_bookmarks[i].as_str(), p) {
                return true;
            }
            i += 1;
        }
        false
    }

    /// The active tab's session, if it is connected.
    pub fn active_remote(&self) -> (r: Option<&RemoteSession>)
        requires
            self.wf(),
        ensures
            match r {
                Some(s) => self@.cur().remote == Some(s@),
                None => self@.cur().remote is None,
            },
    {
        match &self.active_remote[self.ui.active_tab] {
            Some(s) => Some(s),
            None => None,
        }
    }

    /// Whether the active tab is connected.
    pub fn is_remote(&self) -> (r: bool)
        requires
            self.wf(),
        ensures
            r == self@.cur().remote is Some,
    {
        match self.active_remote() {
            Some(_) => true,
            None => false,
        }
    }

    /// Where the active tab is.
    pub fn cwd_display(&self) -> (r: String)
        requires
            self.wf(),
        ensures
            r@ == self@.cwd_display(),
    {
        if let Some(remote) = self.active_remote() {
            let mut r = remote.label.clone();
            r.append(":");
            if remote.cwd.as_str().is_empty() {
                r.append("~");
            } else {
                r.append(remote.cwd.as_str());
            }
            match remote.mode {
                SshMode::Exec => r.append(""),
                SshMode::Pty => r.append(" (pty)"),
            }
            return r;
        }
        let cwd = self.cwd();
        if self.is_bookmarked(cwd) {
            let mut r = "*".to_string();
            r.append(cwd);
            r
        } else {
            cwd.to_string()
        }
    }

    /// The prompt that is echoed with a command. The branch is set in
    /// magenta, by escapes that the output pane reads.
    pub fn prompt(&self, labels: &PromptLabels) -> (r: String)
        requires
            self.wf(),
        ensures
            r@ == self@.prompt(labels@),
    {
        let mut r = self.cwd_display();
        let ghost place = r@;
        let mut branch_part = String::new();
        assert(branch_part@ =~= seq![]);
        if !self.is_remote() {
            if self.branch[self.ui.active_tab].is_some() {
                branch_part.append(" \u{1b}[95mbranch: ");
                branch_part.append(labels.branch.as_str());
                branch_part.append("\u{1b}[0m");
                assert(branch_part@ =~= " \u{1b}[95mbranch: "@ + labels.branch@ + "\u{1b}[0m"@);
            }
        }
        r.append(branch_part.as_str());
        r.append(labels.his.as_str());
        r.append(labels.cd.as_str());
        r
    }
}

}
