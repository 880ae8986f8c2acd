//! Moving between directories, recalling earlier input, and the lists of
//! places: bookmarks and recent directories.

use vstd::prelude::*;

use crate::display;
use crate::path;
use crate::path::PathStyle;
use crate::state::Model;
use crate::state::State;
use crate::state::Tab;
use crate::text;
use crate::timestamp::Timestamp;
use crate::types;
use crate::types::BrowserFile;
use crate::types::FileModel;
use crate::types::NavState;
use crate::types::OutType;
use crate::types::RecentDir;
use crate::types::RecentModel;

verus! {

broadcast use vstd::string::group_string_axioms;

/// How an attempt to enter a directory came out: the directory that is now
/// current, with its git branch and files, or the error.
pub enum DirOutcome {
    Entered { cwd: String, branch: Option<String>, files: Vec<BrowserFile> },
    Failed { error: String },
}

pub enum OutcomeModel {
    Entered { cwd: Seq<char>, branch: Option<Seq<char>>, files: Seq<FileModel> },
    Failed { error: Seq<char> },
}

impl View for DirOutcome {
    type V = OutcomeModel;

    open spec fn view(&self) -> OutcomeModel {
        match *self {
            DirOutcome::Entered { cwd, branch, files } => OutcomeModel::Entered {
                cwd: cwd@,
                branch: text::opt_text(branch),
                files: types::files(files@),
            },
            DirOutcome::Failed { error } => OutcomeModel::Failed { error: error@ },
        }
    }
}

impl Model {
    /// The active tab in the directory that was entered, or the error shown.
    pub open spec fn navigated(self, o: OutcomeModel, now: Timestamp) -> Model {
        match o {
            OutcomeModel::Entered { cwd, branch, files } => {
                let m = self.with_cur(Tab { cwd, branch, ..self.cur() });
                (Model { files, ..m }).refreshed_cwd_history()
            },
            OutcomeModel::Failed { error } => self.with_out("cd: "@ + error, OutType::StdErr, now),
        }
    }

    /// Whether the attempt led to another directory.
    pub open spec fn moves(self, o: OutcomeModel) -> bool {
        match o {
            OutcomeModel::Entered { cwd, .. } => !path::same_path(self.style, cwd, self.cur().cwd),
            OutcomeModel::Failed { .. } => false,
        }
    }

    /// A move to another directory: the one that is left can be gone back
    /// to, and there is nothing to go forward to.
    pub open spec fn dir_changed(self, o: OutcomeModel, now: Timestamp) -> Model {
        let m = self.navigated(o, now);
        if self.moves(o) {
            m.with_cur(
                Tab { back: m.cur().back.push(self.cur().cwd), forward: Seq::empty(), ..m.cur() },
            )
        } else {
            m
        }
    }

    /// The latest directory taken off the Back stack.
    pub open spec fn back_taken(self) -> Model {
        if self.cur().back.len() == 0 {
            self
        } else {
            self.with_cur(Tab { back: self.cur().back.drop_last(), ..self.cur() })
        }
    }

    /// The next directory taken off the Forward stack.
    pub open spec fn forward_taken(self) -> Model {
        if self.cur().forward.len() == 0 {
            self
        } else {
            self.with_cur(Tab { forward: self.cur().forward.drop_last(), ..self.cur() })
        }
    }

    /// A move back: the directory that is left can be gone forward to.
    pub open spec fn went_back(self, o: OutcomeModel, now: Timestamp) -> Model {
        let m = self.navigated(o, now);
        if self.moves(o) {
            m.with_cur(Tab { forward: m.cur().forward.push(self.cur().cwd), ..m.cur() })
        } else {
            m
        }
    }

    /// A move forward: the directory that is left can be gone back to.
    pub open spec fn went_forward(self, o: OutcomeModel, now: Timestamp) -> Model {
        let m = self.navigated(o, now);
        if self.moves(o) {
            m.with_cur(Tab { back: m.cur().back.push(self.cur().cwd), ..m.cur() })
        } else {
            m
        }
    }

    /// A step of recall in the active tab: its new recall state, and its new
    /// input where the step gives one.
    pub open spec fn recalled(self, stepped: Option<Seq<char>>, nav: NavState) -> Model {
        let c = self.cur();
        self.with_cur(
            Tab {
                nav,
                input: match stepped {
                    Some(t) => t,
                    None => c.input,
                },
                ..c
            },
        )
    }
}

/// The last of a list.
pub open spec fn top(s: Seq<Seq<char>>) -> Option<Seq<char>> {
    if s.len() == 0 {
        None
    } else {
        Some(s.last())
    }
}

/// Where a path first stands in a list; the length where it does not.
pub open spec fn first_same(list: Seq<Seq<char>>, p: Seq<char>, style: PathStyle) -> int
    decreases list.len(),
{
    if list.len() == 0 || path::same_path(style, list[0], p) {
        0
    } else {
        1 + first_same(list.drop_first(), p, style)
    }
}

/// A list of bookmarks with a path taken out, or put in at the end where it
/// is not there.
pub open spec fn toggled(list: Seq<Seq<char>>, p: Seq<char>, style: PathStyle) -> Seq<Seq<char>> {
    let k = first_same(list, p, style);
    if k < list.len() {
        list.remove(k)
    } else {
        list.push(p)
    }
}

/// A list of recent directories with a path at its end and nowhere else.
pub open spec fn recorded(
    list: Seq<RecentModel>,
    p: Seq<char>,
    dt: Timestamp,
    style: PathStyle,
) -> Seq<RecentModel> {
    list.filter(|r: RecentModel| !path::same_path(style, r.path, p)).push(RecentModel { path: p, dt })
}

/// Puts a directory at the end of the recent directories, now, and takes out
/// the entry that it had before.
pub fn record_recent_dir(recent: &mut Vec<RecentDir>, cwd: &str, style: PathStyle)
    ensures
        exists|now: Timestamp|
            now.valid() && types::recents(final(recent)@) == #[trigger] recorded(
                types::recents(old(recent)@),
                cwd@,
                now,
                style,
            ),
{
    let now = Timestamp::current();
    record_recent_dir_at(recent, cwd, now, style);
}

/// Puts a directory at the end of the recent directories, at the given moment,
/// and takes out the entry that it had before.
pub fn record_recent_dir_at(
    recent: &mut Vec<RecentDir>,
    cwd: &str,
    now: Timestamp,
    style: PathStyle,
)
    ensures
        types::recents(final(recent)@) == recorded(types::recents(old(recent)@), cwd@, now, style),
{
    let ghost all = types::recents(recent@);
    let ghost p = |r: RecentModel| !path::same_path(style, r.path, cwd@);
    let mut kept: Vec<RecentDir> = Vec::new();
    let mut i: usize = 0;
    proof {
        reveal(Seq::filter);
        assert(all.take(0) =~= seq![]);
        assert(types::recents(kept@) =~= all.take(0).filter(p));
    }
    while i < recent.len()
        invariant
            i <= recent@.len(),
            recent@ == old(recent)@,
            all == types::recents(recent@),
            p == (|r: RecentModel| !path::same_path(style, r.path, cwd@)),
            types::recents(kept@) == all.take(i as int).filter(p),
        decreases recent@.len() - i,
    {
        let ghost before = types::recents(kept@);
        proof {
            reveal(Seq::filter);
            assert(all.take(i + 1).drop_last() =~= all.take(i as int));
            assert(all.take(i + 1).last() == recent@[i as int]@);
        }
        if !path::is_same_path(style, recent[i].path.as_str(), cwd) {
            kept.push(recent[i].copy());
            assert(types::recents(kept@) =~= before.push(recent@[i as int]@));
        }
        i += 1;
    }
    assert(all.take(i as int) =~= all);
    let ghost before = types::recents(kept@);
    let last = RecentDir { path: cwd.to_string(), dt: now };
    let ghost m = last@;
    kept.push(last);
    assert(types::recents(kept@) =~= before.push(m));
    *recent = kept;
}

impl State {
    /// The active tab's recall cursors.
    pub fn active_nav_cursors(&self) -> (r: (Option<usize>, Option<usize>))
        requires
            self.wf(),
        ensures
            r == (self@.cur().nav.his_cursor, self@.cur().nav.cd_cursor),
    {
        let n = self.ui.history_nav[self.ui.active_tab];
        (n.his_cursor, n.cd_cursor)
    }

    /// Sets the active tab's recall state, and its input where a step of
    /// recall gives one.
    fn set_recall(&mut self, stepped: Option<String>, nav: NavState)
        requires
            old(self).wf(),
        ensures
            final(self).wf(),
            final(self)@ == old(self)@.recalled(text::opt_text(stepped), nav),
    {
        let i: usize = self.ui.active_tab;
        let ghost s = text::opt_text(stepped);
        self.ui.history_nav[i] = nav;
        if let Some(t) = stepped {
            self.ui.cli_input[i] = t;
        }
        assert(self@.tabs =~= old(self)@.recalled(s, nav).tabs);
    }

    /// Takes over a step through the history: the command it recalls, if
    /// any, becomes the active tab's input.
    pub fn history_nav(&mut self, stepped: Option<String>, nav: NavState)
        requires
            old(self).wf(),
        ensures
            final(self).wf(),
            final(self)@ == old(self)@.recalled(text::opt_text(stepped), nav),
    {
        self.set_recall(stepped, nav);
    }

    /// Takes over a step through the recent directories: the command it
    /// recalls, if any, becomes the active tab's input.
    pub fn recent_dir_nav(&mut self, stepped: Option<String>, nav: NavState)
        requires
            old(self).wf(),
        ensures
            final(self).wf(),
            final(self)@ == old(self)@.recalled(text::opt_text(stepped), nav),
    {
        self.set_recall(stepped, nav);
    }

    /// The command that a recalled directory puts into the input.
    pub fn recent_dir_command(&self, p: &str) -> (r: String)
        ensures
            r@ == "cd "@ + display::tilde(p@, self@.home, self@.style),
    {
        let home = match &self.home {
            Some(h) => Some(h.as_str()),
            None => None,
        };
        let shown = display::render_with_tilde(p, home, self.style);
        let mut r = "cd ".to_string();
        r.append(shown.as_str());
        r
    }

    /// Takes over a completed input, if there is one.
    pub fn autocomplete_input(&mut self, completed: Option<String>)
        requires
            old(self).wf(),
        ensures
            final(self).wf(),
            final(self)@ == old(self)@.recalled(text::opt_text(completed), old(self)@.cur().nav),
    {
        let nav = self.ui.history_nav[self.ui.active_tab];
        self.set_recall(completed, nav);
    }

    /// Takes the active tab's recall back to the live input.
    pub fn reset_history_nav(&mut self)
        requires
            old(self).wf(),
        ensures
            final(self).wf(),
            final(self)@ == old(self)@.recalled(None, types::nav_live()),
    {
        self.set_recall(None, NavState::new());
    }

    /// Takes over an attempt to enter a directory, without touching the Back
    /// and Forward stacks. Returns whether the directory changed.
    pub fn navigate_to(&mut self, outcome: DirOutcome, now: Timestamp) -> (moved: bool)
        requires
            old(self).wf(),
        ensures
            final(self).wf(),
            final(self)@ == old(self)@.navigated(outcome@, now),
            moved == old(self)@.moves(outcome@),
    {
        let ghost o = outcome@;
        match outcome {
            DirOutcome::Entered { cwd, branch, files } => {
                let i: usize = self.ui.active_tab;
                let moved = !path::is_same_path(self.style, cwd.as_str(), self.cwd[i].as_str());
                let ghost c = cwd@;
                let ghost b = text::opt_text(branch);
                self.cwd[i] = cwd;
                self.branch[i] = branch;
                self.browser_files = files;
                assert(self@.tabs =~= old(self)@.with_cur(
                    Tab { cwd: c, branch: b, ..old(self)@.cur() },
                ).tabs);
                self.refresh_cwd_history_filter();
                moved
            },
            DirOutcome::Failed { error } => {
                let mut msg = "cd: ".to_string();
                msg.append(error.as_str());
                self.push_out_at(msg, OutType::StdErr, now);
                false
            },
        }
    }

    /// Takes over an attempt to enter a directory: on a move, the directory
    /// that is left goes onto the Back stack and the Forward stack is
    /// cleared.
    pub fn change_dir(&mut self, outcome: DirOutcome, now: Timestamp) -> (moved: bool)
        requires
            old(self).wf(),
        ensures
            final(self).wf(),
            final(self)@ == old(self)@.dir_changed(outcome@, now),
            moved == old(self)@.moves(outcome@),
    {
        let ghost o = outcome@;
        let before = self.cwd().to_string();
        let ghost b = before@;
        let moved = self.navigate_to(outcome, now);
        if moved {
            let i: usize = self.ui.active_tab;
            let ghost mid = *self;
            self.ui.nav_back[i].push(before);
            self.ui.nav_forward[i].clear();
            proof {
                assert(text::texts(self.ui.nav_back@[i as int]@) =~= text::texts(
                    mid.ui.nav_back@[i as int]@,
                ).push(b));
                assert(text::texts(self.ui.nav_forward@[i as int]@) =~= Seq::empty());
                assert(self@.tabs =~= old(self)@.dir_changed(o, now).tabs);
            }
        }
        moved
    }

    /// The directory that the Up button leads to: the parent of the active
    /// tab's directory. `None` at a root.
    pub fn nav_up(&self) -> (target: Option<String>)
        requires
            self.wf(),
        ensures
            text::opt_text(target) == path::parent_of(self@.style, self@.cur().cwd),
    {
        path::parent(self.style, self.cwd())
    }

    /// Takes the directory that the Back button leads to off its stack.
    pub fn nav_back(&mut self) -> (target: Option<String>)
        requires
            old(self).wf(),
        ensures
            final(self).wf(),
            final(self)@ == old(self)@.back_taken(),
            text::opt_text(target) == top(old(self)@.cur().back),
    {
        let i: usize = self.ui.active_tab;
        let r = self.ui.nav_back[i].pop();
        proof {
            assert(text::texts(self.ui.nav_back@[i as int]@) =~= old(self)@.back_taken().cur().back);
            assert(self@.tabs =~= old(self)@.back_taken().tabs);
        }
        r
    }

    /// Takes over the attempt to go back: on a move, the directory that is
    /// left goes onto the Forward stack.
    pub fn nav_back_done(&mut self, outcome: DirOutcome, now: Timestamp) -> (moved: bool)
        requires
            old(self).wf(),
        ensures
            final(self).wf(),
            final(self)@ == old(self)@.went_back(outcome@, now),
            moved == old(self)@.moves(outcome@),
    {
        let ghost o = outcome@;
        let before = self.cwd().to_string();
        let ghost b = before@;
        let moved = self.navigate_to(outcome, now);
        if moved {
            let i: usize = self.ui.active_tab;
            let ghost mid = *self;
            self.ui.nav_forward[i].push(before);
            proof {
                assert(text::texts(self.ui.nav_forward@[i as int]@) =~= text::texts(
                    mid.ui.nav_forward@[i as int]@,
                ).push(b));
                assert(self@.tabs =~= old(self)@.went_back(o, now).tabs);
            }
        }
        moved
    }

    /// Takes the directory that the Forward button leads to off its stack.
    pub fn nav_forward(&mut self) -> (target: Option<String>)
        requires
            old(self).wf(),
        ensures
            final(self).wf(),
            final(self)@ == old(self)@.forward_taken(),
            text::opt_text(target) == top(old(self)@.cur().forward),
    {
        let i: usize = self.ui.active_tab;
        let r = self.ui.nav_forward[i].pop();
        proof {
            assert(text::texts(self.ui.nav_forward@[i as int]@)
                =~= old(self)@.forward_taken().cur().forward);
            assert(self@.tabs =~= old(self)@.forward_taken().tabs);
        }
        r
    }

    /// Takes over the attempt to go forward: on a move, the directory that
    /// is left goes onto the Back stack.
    pub fn nav_forward_done(&mut self, outcome: DirOutcome, now: Timestamp) -> (moved: bool)
        requires
            old(self).wf(),
        ensures
            final(self).wf(),
            final(self)@ == old(self)@.went_forward(outcome@, now),
            moved == old(self)@.moves(outcome@),
    {
        let ghost o = outcome@;
        let before = self.cwd().to_string();
        let ghost b = before@;
        let moved = self.navigate_to(outcome, now);
        if moved {
            let i: usize = self.ui.active_tab;
            let ghost mid = *self;
            self.ui.nav_back[i].push(before);
            proof {
                assert(text::texts(self.ui.nav_back@[i as int]@) =~= text::texts(
                    mid.ui.nav_back@[i as int]@,
                ).push(b));
                assert(self@.tabs =~= old(self)@.went_forward(o, now).tabs);
            }
        }
        moved
    }

    /// Bookmarks the active tab's directory, or takes its bookmark away.
    /// Returns the message to show.
    pub fn toggle_bookmark_cwd(&mut self) -> (msg: String)
        requires
            old(self).wf(),
        ensures
            final(self).wf(),
            final(self)@ == old(self)@.bookmark_toggled(),
            msg@ == if old(self)@.is_bookmarked(old(self)@.cur().cwd) {
                "Removed bookmark: "@ + old(self)@.cur().cwd
            } else {
                "Added a bookmark: "@ + old(self)@.cur().cwd
            },
    {
        let cwd = self.cwd().to_string();
        let ghost c = cwd@;
        let ghost list = self@.bookmarks;
        let n: usize = self.find_bookmark(cwd.as_str());
        proof {
            lemma_first_same(list, c, self.style);
            if n < list.len() {
                assert(path::same_path(self.style, list[n as int], c));
            }
        }
        let mut msg = String::new();
        if n < self.dir_bookmarks.len() {
            let _gone = self.dir_bookmarks.remove(n);
            msg.append("Removed bookmark: ");
            assert(self@.bookmarks =~= list.remove(n as int));
        } else {
            self.dir_bookmarks.push(cwd.clone());
            msg.append("Added a bookmark: ");
            assert(self@.bookmarks =~= list.push(c));
        }
        let ghost head = msg@;
        msg.append(cwd.as_str());
        proof {
            assert(Seq::<char>::empty() + "Removed bookmark: "@ =~= "Removed bookmark: "@);
            assert(Seq::<char>::empty() + "Added a bookmark: "@ =~= "Added a bookmark: "@);
        }
        self.refresh_bookmarks_filter();
        msg
    }

    /// Where a path first stands among the bookmarks; their number where it
    /// does not.
    fn find_bookmark(&self, p: &str) -> (n: usize)
        ensures
            n == first_same(self@.bookmarks, p@, self.style),
            n <= self.dir_bookmarks@.len(),
    {
        let mut n: usize = 0;
        let ghost list = self@.bookmarks;
        assert(list.skip(0) =~= list);
        while n < self.dir_bookmarks.len() && !path::is_same_path(
            self.style,
            self.dir_bookmarks[n].as_str(),
            p,
        )
            invariant
                n <= self.dir_bookmarks@.len(),
                list == self@.bookmarks,
                first_same(list, p@, self.style) == n + first_same(
                    list.skip(n as int),
                    p@,
                    self.style,
                ),
            decreases self.dir_bookmarks@.len() - n,
        {
            assert(list.skip(n as int)[0] == self.dir_bookmarks@[n as int]@);
            assert(list.skip(n as int).drop_first() =~= list.skip(n + 1));
            n += 1;
        }
        assert(n < list.len() ==> list.skip(n as int)[0] == self.dir_bookmarks@[n as int]@);
        n
    }
}

impl Model {
    /// The active tab's directory bookmarked, or no longer.
    pub open spec fn bookmark_toggled(self) -> Model {
        (Model { bookmarks: toggled(self.bookmarks, self.cur().cwd, self.style), ..self }).refreshed_bookmarks()
    }
}

/// Where a path first stands in a list, stated of each position.
pub proof fn lemma_first_same(list: Seq<Seq<char>>, p: Seq<char>, style: PathStyle)
    ensures
        0 <= first_same(list, p, style) <= list.len(),
        first_same(list, p, style) < list.len() ==> path::same_path(style, list[first_same(list, p, style)], p),
        forall|i: int| 0 <= i < first_same(list, p, style) ==> !path::same_path(
            style,
            #[trigger] list[i],
            p,
        ),
    decreases list.len(),
{
    if list.len() > 0 && !path::same_path(style, list[0], p) {
        let t = list.drop_first();
        lemma_first_same(t, p, style);
        assert forall|i: int| 0 <= i < first_same(list, p, style) implies !path::same_path(
            style,
            #[trigger] list[i],
            p,
        ) by {
            if i > 0 {
                assert(t[i - 1] == list[i]);
            }
        }
    }
}

}
