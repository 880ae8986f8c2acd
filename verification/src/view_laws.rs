//! What each value stands for: its own fields, in their own places.

use vstd::prelude::*;

use crate::ansi;
use crate::ansi::LayoutJob;
use crate::ansi::Segment;
use crate::commands::Action;
use crate::commands::ActionModel;
use crate::commands::Step;
use crate::commands::StepModel;
use crate::display;
use crate::display::PromptLabels;
use crate::gui;
use crate::gui::Effect;
use crate::gui::EffectModel;
use crate::gui::FileRow;
use crate::gui::ListAction;
use crate::gui::ListActionModel;
use crate::gui::Row;
use crate::gui::Submitted;
use crate::gui::SubmittedModel;
use crate::navigation::DirOutcome;
use crate::navigation::OutcomeModel;
use crate::remote;
use crate::tabs::LoadedState;
use crate::text;
use crate::timestamp::Timestamp;
use crate::types;
use crate::types::OutKind;
use crate::types::RemoteSession;

verus! {

broadcast use vstd::string::group_string_axioms;

/// An optional text is the text where there is one.
pub proof fn law_optional_texts(s: String, t: &str, list: Seq<String>, i: int)
    ensures
        text::opt_text(Some(s)) == Some(s@),
        text::opt_text(None) is None,
        display::opt_str(Some(t)) == Some(t@),
        display::opt_str(None) is None,
        text::texts(list).len() == list.len(),
        0 <= i < list.len() ==> text::texts(list)[i] == list[i]@,
{
}

/// A segment stands for its text, colours and attributes, and a layout job for
/// its sections in order.
pub proof fn law_segments_and_sections(v: Seq<Segment>, job: LayoutJob, i: int)
    ensures
        ansi::segments_view(v).len() == v.len(),
        0 <= i < v.len() ==> {
            let m = ansi::segments_view(v)[i];
            &&& m.text == v[i].text@
            &&& m.style.fg == v[i].fg
            &&& m.style.bg == v[i].bg
            &&& m.style.bold == v[i].bold
            &&& m.style.italic == v[i].italic
            &&& m.style.underline == v[i].underline
        },
        job@.len() == job.sections@.len(),
        0 <= i < job.sections@.len() ==> {
            let s = job.sections@[i];
            &&& job@[i].text == s.text@
            &&& job@[i].color == s.color
            &&& job@[i].background == s.background
            &&& job@[i].italics == s.italics
            &&& job@[i].underline == s.underline
        },
{
}

/// The labels of the prompt stand for their texts, and what came of entering a
/// directory for the directory, its branch and its files, or for the error.
pub proof fn law_labels_and_outcomes(labels: PromptLabels, o: DirOutcome, i: int)
    ensures
        labels@.branch == labels.branch@,
        labels@.his == labels.his@,
        labels@.cd == labels.cd@,
        o matches DirOutcome::Failed { error } ==> o@ == (OutcomeModel::Failed { error: error@ }),
        o matches DirOutcome::Entered { cwd, branch, files } ==> o@ matches OutcomeModel::Entered {
            cwd: c,
            branch: b,
            files: f,
        } && c == cwd@ && (b is Some <==> branch is Some) && (branch is Some ==> b->0
            == branch->0@) && f.len() == files@.len() && (0 <= i < f.len() ==> {
            &&& f[i].disp_name == files@[i].disp_name@
            &&& f[i].path == files@[i].path@
            &&& f[i].is_folder == files@[i].is_folder
            &&& f[i].is_executable == files@[i].is_executable
        }),
{
}

/// What a line asks for, by its texts.
pub proof fn law_steps(s: Step)
    ensures
        s is Ignored ==> s@ == StepModel::Ignored,
        s is Reported ==> s@ == StepModel::Reported,
        s matches Step::Rerun { text } ==> s@ == (StepModel::Rerun { text: text@ }),
        s matches Step::RunIn { text, dir } ==> s@ == (StepModel::RunIn {
            text: text@,
            dir: dir@,
        }),
        s matches Step::Dispatch { cmd, args, input } ==> s@ == (StepModel::Dispatch {
            cmd: cmd@,
            args: args@,
            input: input@,
        }),
{
}

/// What a command asks for, by its texts.
pub proof fn law_actions(a: Action)
    ensures
        a is Done ==> a@ == ActionModel::Done,
        a is SaveBookmarks ==> a@ == ActionModel::SaveBookmarks,
        a matches Action::Disconnect { session } ==> a@ == (ActionModel::Disconnect {
            session: session@,
        }),
        a matches Action::SetMode { mode } ==> a@ == (ActionModel::SetMode { mode }),
        a matches Action::RunRemote { input } ==> a@ == (ActionModel::RunRemote { input: input@ }),
        a matches Action::Connect { remote } ==> a@ == (ActionModel::Connect { remote: remote@ }),
        a matches Action::Sync { args, cwd } ==> a@ == (ActionModel::Sync {
            args: args@,
            cwd: cwd@,
        }),
        a matches Action::Logs { args } ==> a@ == (ActionModel::Logs { args: args@ }),
        a matches Action::Cat { args } ==> a@ == (ActionModel::Cat { args: args@ }),
        a matches Action::EnterRecent { target, index } ==> a@ == (ActionModel::EnterRecent {
            target: target@,
            index: index as nat,
        }),
        a matches Action::EnterNamed { args } ==> a@ == (ActionModel::EnterNamed { args: args@ }),
        a matches Action::EnterBookmark { target } ==> a@ == (ActionModel::EnterBookmark {
            target: target@,
        }),
        a matches Action::Shell { input, cwd } ==> a@ == (ActionModel::Shell {
            input: input@,
            cwd: cwd@,
        }),
{
}

/// What a click asks for and what is left to do of it, by their texts.
pub proof fn law_clicks_and_effects(a: ListAction, e: Effect, s: Submitted)
    ensures
        a matches ListAction::ChangeDir(p) ==> a@ == ListActionModel::ChangeDir(p@),
        a matches ListAction::OpenFile(p) ==> a@ == ListActionModel::OpenFile(p@),
        a matches ListAction::RemoveBookmark(i) ==> a@ == ListActionModel::RemoveBookmark(i),
        a matches ListAction::FillInput(t) ==> a@ == ListActionModel::FillInput(t@),
        a matches ListAction::RunHistoryInDir(i) ==> a@ == ListActionModel::RunHistoryInDir(i),
        a matches ListAction::ConnectRemote(i) ==> a@ == ListActionModel::ConnectRemote(i),
        a matches ListAction::EditRemote(i) ==> a@ == ListActionModel::EditRemote(i),
        a matches ListAction::RemoveRemote(i) ==> a@ == ListActionModel::RemoveRemote(i),
        e is Done ==> e@ == EffectModel::Done,
        e is Save ==> e@ == EffectModel::Save,
        e matches Effect::Enter { target } ==> e@ == (EffectModel::Enter { target: target@ }),
        e matches Effect::Open { path } ==> e@ == (EffectModel::Open { path: path@ }),
        e matches Effect::Run { line } ==> e@ == (EffectModel::Run { line: line@ }),
        e matches Effect::Connect { remote } ==> e@ == (EffectModel::Connect { remote: remote@ }),
        e matches Effect::Forget { remote } ==> e@ == (EffectModel::Forget { remote: remote@ }),
        s matches Submitted::Send { bytes } ==> s@ == (SubmittedModel::Send { bytes: bytes@ }),
        s matches Submitted::Run { line } ==> s@ == (SubmittedModel::Run { line: line@ }),
{
}

/// A row stands for its entry, its label and its click; rows are in order.
pub proof fn law_rows(rows: Seq<Row>, f: FileRow, i: int)
    ensures
        gui::rows_view(rows).len() == rows.len(),
        0 <= i < rows.len() ==> {
            &&& gui::rows_view(rows)[i].index == rows[i].index
            &&& gui::rows_view(rows)[i].label == rows[i].label@
            &&& gui::rows_view(rows)[i].click == rows[i].click@
        },
        f@.label == f.label@,
        f@.color == f.color,
        f@.open == f.open@,
{
}

/// Lines and sessions stand for their texts.
pub proof fn law_lines_and_sessions(lines: Seq<(OutKind, String)>, s: RemoteSession, i: int)
    ensures
        remote::lines_view(lines).len() == lines.len(),
        0 <= i < lines.len() ==> remote::lines_view(lines)[i] == (lines[i].0, lines[i].1@),
        types::opt_session(None) is None,
        types::opt_session(Some(s)) == Some(s@),
        s@.label == s.label@,
        s@.cwd == s.cwd@,
        s@.mode == s.mode,
{
}

/// A saved session stands for each of its lists, in order.
pub proof fn law_saved_lists(l: LoadedState, i: int)
    ensures
        l.lists().bookmarks.len() == l.bookmarks@.len(),
        0 <= i < l.bookmarks@.len() ==> l.lists().bookmarks[i] == l.bookmarks@[i]@,
        l.lists().recent.len() == l.recent_dirs@.len(),
        0 <= i < l.recent_dirs@.len() ==> {
            &&& l.lists().recent[i].path == l.recent_dirs@[i].path@
            &&& l.lists().recent[i].dt == l.recent_dirs@[i].dt
        },
        l.lists().history.len() == l.history@.len(),
        0 <= i < l.history@.len() ==> {
            &&& l.lists().history[i].text == l.history@[i].text@
            &&& l.lists().history[i].dir == l.history@[i].dir@
            &&& l.lists().history[i].dt == l.history@[i].dt
        },
        l.lists().remotes.len() == l.remote_terminals@.len(),
        0 <= i < l.remote_terminals@.len() ==> {
            &&& l.lists().remotes[i].host == l.remote_terminals@[i].host@
            &&& l.lists().remotes[i].port == l.remote_terminals@[i].port
            &&& l.lists().remotes[i].username == l.remote_terminals@[i].username@
        },
{
}

/// A moment has a year of four digits from the first second of the year 0 to the
/// last of the year 9999.
pub proof fn law_years_of_four_digits(t: Timestamp)
    ensures
        t.four_digit_year() <==> -719528 * 86400 <= t.secs < 2932897 * 86400,
{
}

}
