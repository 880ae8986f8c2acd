use shell_gui::ansi::Color32;
use shell_gui::gui::{
    apply_action, branch_color, browser_move, executable_color, his_color, in_dir_label, out_color,
    panel_vis_eq, Effect, Keys, KeyStep, ListAction, Move, Submitted, BOOKMARK_MAX_LEN,
};
use shell_gui::path::PathStyle;
use shell_gui::state::State;
use shell_gui::timestamp::Timestamp;
use shell_gui::types::{
    out_type_for, BrowserFile, HistoryItem, NavState, OutKind, OutType, PanelVis, RecentDir,
    RemoteSession, RemoteTerminal, SshMode,
};

const NOW: Timestamp = Timestamp { secs: 1_700_000_000, nanos: 0 };

fn all_panels() -> PanelVis {
    PanelVis {
        bookmarks: true,
        recent_dirs: true,
        recent_cmds: true,
        recent_cmds_in_dir: true,
        remote_terminals: true,
        file_browser: true,
    }
}

fn state() -> State {
    let mut s = State::default(
        "/work".to_string(),
        None,
        Some("/home/me".to_string()),
        "/s".to_string(),
        Vec::new(),
        all_panels(),
        PathStyle::Unix,
    );
    s.dir_bookmarks = vec![
        "/home/me/a/very/long/path/indeed".to_string(),
        "/srv".to_string(),
        "/home/me".to_string(),
    ];
    s.recent_dirs = vec![
        RecentDir { path: "/srv/".to_string(), dt: NOW },
        RecentDir { path: "/home/me/x".to_string(), dt: NOW },
    ];
    s.history = vec![
        HistoryItem { text: "ls".to_string(), dir: "/work".to_string(), dt: NOW },
        HistoryItem { text: "make".to_string(), dir: "/else".to_string(), dt: NOW },
        HistoryItem { text: "git log".to_string(), dir: "/work/".to_string(), dt: NOW },
    ];
    s.remote_terminals = vec![
        RemoteTerminal { host: "h".to_string(), port: 22, username: "u".to_string() },
        RemoteTerminal { host: "g".to_string(), port: 2200, username: "v".to_string() },
    ];
    s.refresh_all_filters();
    s
}

fn session(mode: SshMode) -> RemoteSession {
    RemoteSession { label: "u@h".to_string(), cwd: "/srv".to_string(), mode }
}

#[test]
fn bookmark_labels() {
    let mut s = state();
    assert_eq!(BOOKMARK_MAX_LEN, 22);
    let labels: Vec<String> = s.bookmark_rows().into_iter().map(|r| r.label).collect();
    assert_eq!(labels, vec!["0: ...ry/long/path/indeed", "1: /srv", "2: ~"]);
    s.ui.bookmarks_search = "SRV".to_string();
    s.refresh_bookmarks_filter();
    let rows = s.bookmark_rows();
    assert_eq!(rows.len(), 1);
    assert_eq!(rows[0].index, 1);
    assert!(matches!(&rows[0].click, ListAction::ChangeDir(p) if p == "/srv"));
}

#[test]
fn rows_of_entries_that_are_gone_are_left_out() {
    let mut s = state();
    s.dir_bookmarks.pop();
    s.history.clear();
    assert_eq!(s.bookmark_rows().len(), 2);
    assert!(s.history_rows().is_empty());
}

#[test]
fn recent_dir_labels_newest_first() {
    let s = state();
    let rows = s.recent_dir_rows();
    assert_eq!(rows[0].label, "1: ~/x");
    assert_eq!(rows[1].label, "0: */srv/");
    assert!(matches!(&rows[1].click, ListAction::ChangeDir(p) if p == "/srv/"));
}

#[test]
fn history_labels_newest_first() {
    let s = state();
    let labels: Vec<String> = s.history_rows().into_iter().map(|r| r.label).collect();
    assert_eq!(labels, vec!["2: git log", "1: make", "0: ls"]);
    let rows = s.cwd_history_rows();
    assert_eq!(rows.len(), 2);
    assert_eq!(rows[0].label, "2: git log");
    assert!(matches!(&rows[1].click, ListAction::FillInput(t) if t == "ls"));
}

#[test]
fn in_dir_labels() {
    assert_eq!(in_dir_label("/home/me/code", PathStyle::Unix), "In code");
    assert_eq!(in_dir_label("/", PathStyle::Unix), "In /");
    assert_eq!(in_dir_label("/x/abcdefghijklmnopqrstuvw", PathStyle::Unix), "In abcdefghijklmnopqrst");
    assert_eq!(in_dir_label("/x/abcdefghijklmnopqrst", PathStyle::Unix), "In abcdefghijklmnopqrst");
}

#[test]
fn clicks() {
    let mut s = state();
    assert!(matches!(
        apply_action(&mut s, ListAction::ChangeDir("/t".to_string()), NOW),
        Effect::Enter { target } if target == "/t"
    ));
    assert!(matches!(
        apply_action(&mut s, ListAction::OpenFile("/t".to_string()), NOW),
        Effect::Open { path } if path == "/t"
    ));
    s.open_failed("/t", "no program", NOW);
    assert_eq!(s.ui.out[0].last().unwrap().text, "open: failed to open /t: no program");
    assert!(matches!(apply_action(&mut s, ListAction::RemoveBookmark(9), NOW), Effect::Done));
    assert_eq!(s.dir_bookmarks.len(), 3);
    assert!(matches!(apply_action(&mut s, ListAction::RemoveBookmark(1), NOW), Effect::Save));
    assert_eq!(s.ui.out[0].last().unwrap().text, "Deleted bookmark: /srv");
    assert_eq!(s.ui.bookmarks_filter, vec![0, 1]);
    s.ui.focus_input = false;
    assert!(matches!(
        apply_action(&mut s, ListAction::FillInput("ls".to_string()), NOW),
        Effect::Done
    ));
    assert_eq!(s.ui.cli_input[0], "ls");
    assert!(s.ui.focus_input);
    assert!(matches!(
        apply_action(&mut s, ListAction::RunHistoryInDir(2), NOW),
        Effect::Run { line } if line == "hisd 2"
    ));
}

#[test]
fn clicks_on_remotes() {
    let mut s = state();
    assert!(matches!(
        apply_action(&mut s, ListAction::ConnectRemote(1), NOW),
        Effect::Connect { remote } if remote.address() == "v@g:2200"
    ));
    assert!(matches!(apply_action(&mut s, ListAction::ConnectRemote(2), NOW), Effect::Done));
    assert_eq!(s.ui.out[0].last().unwrap().text, "ssh: no saved remote at index 2");
    s.ui.remote_password = "left over".to_string();
    assert!(matches!(apply_action(&mut s, ListAction::EditRemote(5), NOW), Effect::Done));
    assert!(!s.ui.remote_form_open);
    assert!(matches!(apply_action(&mut s, ListAction::EditRemote(1), NOW), Effect::Done));
    assert!(s.ui.remote_form_open);
    assert_eq!(s.ui.remote_host, "g");
    assert_eq!(s.ui.remote_port, "2200");
    assert_eq!(s.ui.remote_user, "v");
    assert_eq!(s.ui.remote_password, "");
    assert_eq!(s.ui.remote_edit_idx, Some(1));
    assert_eq!(s.save_remote_from_form(None), Ok(()));
    assert_eq!(s.remote_rows(), vec!["0: u@h:22".to_string(), "1: v@g:2200".to_string()]);
    assert!(matches!(
        apply_action(&mut s, ListAction::RemoveRemote(0), NOW),
        Effect::Forget { remote } if remote.host == "h"
    ));
    assert_eq!(s.remote_terminals.len(), 1);
    assert!(matches!(apply_action(&mut s, ListAction::RemoveRemote(1), NOW), Effect::Done));
}

#[test]
fn output_rows() {
    let mut s = state();
    s.push_out_at("\x1b[31mred\x1b[0m plain\n\n".to_string(), OutType::StdOut, NOW);
    s.push_out_at("oops".to_string(), OutType::StdErr, NOW);
    s.push_out_at("/work> ls".to_string(), OutType::Prompt, NOW);
    let jobs = s.out_jobs();
    assert_eq!(jobs.len(), 3);
    assert_eq!(jobs[0].sections.len(), 2);
    assert_eq!(jobs[0].sections[0].color, Color32::from_rgb(200, 70, 70));
    assert_eq!(jobs[0].sections[1].text, " plain");
    assert_eq!(jobs[0].sections[1].color, out_color(OutType::StdOut));
    assert_eq!(jobs[1].sections[0].color, Color32::from_rgb(240, 110, 110));
    assert_eq!(jobs[2].sections[0].color, Color32::from_rgb(220, 220, 90));
}

#[test]
fn colours() {
    assert_eq!(out_color(OutType::StdOut), Color32::from_rgb(210, 210, 210));
    assert_eq!(his_color(), Color32::from_rgb(120, 240, 120));
    assert_eq!(branch_color(), Color32::from_rgb(255, 130, 255));
    assert_eq!(executable_color(), Color32::from_rgb(120, 220, 120));
    assert_eq!(out_type_for(OutKind::Stdout), OutType::StdOut);
    assert_eq!(out_type_for(OutKind::Stderr), OutType::StdErr);
}

#[test]
fn labels_of_the_input_line() {
    let mut s = state();
    let l = s.input_labels("main");
    assert_eq!(l.place, "/work");
    assert!(l.branch.is_none() && l.his.is_none() && l.cd.is_none());
    s.branch[0] = Some("main".to_string());
    s.ui.history_nav[0] = NavState { his_cursor: Some(4), cd_cursor: Some(2) };
    let l = s.input_labels("main");
    assert_eq!(l.branch, Some("branch: main".to_string()));
    assert_eq!(l.his, Some("his 4".to_string()));
    assert_eq!(l.cd, Some("cd 2".to_string()));
    s.active_remote[0] = Some(session(SshMode::Exec));
    let l = s.input_labels("main");
    assert_eq!(l.place, "u@h:/srv");
    assert!(l.branch.is_none());
}

#[test]
fn keys_of_the_input_line() {
    let keys = |tab, up, down, left, right| Keys { tab, up, down, left, right };
    let mut s = state();
    assert!(s.takes_arrows());
    assert_eq!(s.key_step(keys(true, true, true, true, true)), KeyStep::Complete);
    assert_eq!(s.key_step(keys(false, true, true, true, true)), KeyStep::History { up: true });
    assert_eq!(s.key_step(keys(false, false, true, true, true)), KeyStep::History { up: false });
    assert_eq!(s.key_step(keys(false, false, false, true, true)), KeyStep::RecentDir { left: true });
    assert_eq!(
        s.key_step(keys(false, false, false, false, true)),
        KeyStep::RecentDir { left: false }
    );
    assert_eq!(s.key_step(keys(false, false, false, false, false)), KeyStep::Nothing);
    s.ui.cli_input[0] = "typing".to_string();
    assert!(!s.takes_arrows());
    assert_eq!(s.key_step(keys(false, false, false, true, false)), KeyStep::Nothing);
    s.ui.history_nav[0] = NavState { his_cursor: None, cd_cursor: Some(0) };
    assert!(s.takes_arrows());
}

#[test]
fn submitting() {
    let mut s = state();
    s.ui.cli_input[0] = " ls ".to_string();
    s.ui.focus_input = false;
    assert!(matches!(s.submit(), Submitted::Run { line } if line == " ls "));
    assert_eq!(s.ui.cli_input[0], "");
    assert!(s.take_focus());
    assert!(!s.take_focus());
    s.active_remote[0] = Some(session(SshMode::Exec));
    s.ui.cli_input[0] = "ls".to_string();
    assert!(matches!(s.submit(), Submitted::Run { line } if line == "ls"));
    s.active_remote[0] = Some(session(SshMode::Pty));
    s.ui.cli_input[0] = "ls".to_string();
    assert!(matches!(s.submit(), Submitted::Send { bytes } if bytes == b"ls\r".to_vec()));
    assert_eq!(s.ui.cli_input[0], "");
}

#[test]
fn file_browser_rows() {
    let mut s = state();
    let file = |name: &str, is_folder, is_executable| BrowserFile {
        disp_name: name.to_string(),
        path: format!("/work/{}", name),
        is_folder,
        is_executable,
    };
    s.refresh_browser_files(vec![
        file("src", true, true),
        file("run.sh", false, true),
        file("a.txt", false, false),
    ]);
    let rows = s.file_rows();
    assert_eq!(rows[0].label, "📁 src");
    assert_eq!(rows[0].color, None);
    assert!(matches!(&rows[0].open, ListAction::ChangeDir(p) if p == "/work/src"));
    assert_eq!(rows[1].label, "run.sh");
    assert_eq!(rows[1].color, Some(executable_color()));
    assert!(matches!(&rows[1].open, ListAction::OpenFile(p) if p == "/work/run.sh"));
    assert_eq!(rows[2].color, None);
}

#[test]
fn browser_buttons() {
    let mut s = state();
    let b = s.nav_buttons();
    assert!(b.up && !b.back && !b.forward);
    s.ui.nav_back[0].push("/x".to_string());
    s.ui.nav_forward[0].push("/y".to_string());
    s.cwd[0] = "/".to_string();
    let b = s.nav_buttons();
    assert!(!b.up && b.back && b.forward);
    assert_eq!(s.desktop(), Some("/home/me/Desktop".to_string()));
    assert_eq!(s.downloads(), Some("/home/me/Downloads".to_string()));
    s.home = None;
    assert_eq!(s.desktop(), None);
    assert_eq!(s.downloads(), None);
    assert!(matches!(browser_move(true, true, true, None), Move::Up));
    assert!(matches!(browser_move(false, true, true, None), Move::Back));
    assert!(matches!(browser_move(false, false, true, Some("/h".to_string())), Move::Forward));
    assert!(matches!(
        browser_move(false, false, false, Some("/h".to_string())),
        Move::To { target } if target == "/h"
    ));
    assert!(matches!(browser_move(false, false, false, None), Move::Stay));
}

#[test]
fn the_remote_panel() {
    let mut s = state();
    assert_eq!(s.remote_status(), None);
    assert_eq!(s.mode_button(), "Exec mode");
    s.active_remote[0] = Some(session(SshMode::Exec));
    assert_eq!(s.remote_status(), Some("● u@h  [exec]".to_string()));
    s.active_remote[0] = Some(session(SshMode::Pty));
    assert_eq!(s.remote_status(), Some("● u@h  [interactive]".to_string()));
    assert_eq!(s.mode_button(), "PTY mode");
    assert_eq!(s.form_button(), "+ Add remote");
    s.toggle_form();
    assert_eq!(s.form_button(), "Close form");
    s.ui.remote_edit_idx = Some(1);
    s.ui.remote_host = "kept".to_string();
    s.ui.remote_password = "also kept".to_string();
    s.toggle_form();
    assert_eq!(s.ui.remote_password, "also kept");
    assert!(!s.ui.remote_form_open && s.ui.remote_edit_idx.is_none());
    assert_eq!(s.ui.remote_host, "kept");
    s.toggle_form();
    s.ui.remote_edit_idx = Some(1);
    s.ui.remote_password = "pw".to_string();
    s.cancel_form();
    assert!(!s.ui.remote_form_open && s.ui.remote_edit_idx.is_none());
    assert_eq!(s.ui.remote_password, "");
    assert_eq!(s.ui.remote_host, "kept");
    s.form_failed("host is required", NOW);
    assert_eq!(s.ui.out[0].last().unwrap().text, "remote: host is required");
}

#[test]
fn the_tab_strip() {
    let mut s = state();
    assert!(!s.tabs_closable());
    s.add_tab(Vec::new());
    s.cwd[1] = "/".to_string();
    assert!(s.tabs_closable());
    assert_eq!(s.tab_labels(), vec!["0: work".to_string(), "1: /".to_string()]);
    assert_eq!(s.connect_labels(), vec!["+ ssh 0 h".to_string(), "+ ssh 1 g".to_string()]);
}

#[test]
fn panel_switches() {
    let mut s = state();
    assert!(!s.set_panels(all_panels()));
    let fewer = PanelVis { file_browser: false, ..all_panels() };
    assert!(s.set_panels(fewer));
    assert_eq!(s.ui.panel_vis, fewer);
    assert!(panel_vis_eq(&fewer, &fewer));
    assert!(!panel_vis_eq(&fewer, &all_panels()));
}

#[test]
fn a_drive_root_on_windows() {
    let mut s = State::default(
        "C:\\".to_string(),
        None,
        Some("C:\\Users\\me".to_string()),
        "C:\\s".to_string(),
        Vec::new(),
        all_panels(),
        PathStyle::Windows,
    );
    assert!(!s.nav_buttons().up);
    assert_eq!(s.nav_up(), None);
    assert_eq!(s.tab_labels(), vec!["0: C:\\".to_string()]);
    assert_eq!(s.cwd_display(), "C:\\");
    s.cwd[0] = "C:\\Users\\me".to_string();
    assert!(s.nav_buttons().up);
    assert_eq!(s.nav_up(), Some("C:\\Users".to_string()));
    assert_eq!(s.tab_labels(), vec!["0: me".to_string()]);
    assert_eq!(s.desktop(), Some("C:\\Users\\me\\Desktop".to_string()));
    s.dir_bookmarks.push("c:/Users/me".to_string());
    s.ui.bookmarks_search = "c:/".to_string();
    s.refresh_bookmarks_filter();
    assert_eq!(s.ui.bookmarks_filter, vec![0]);
    assert_eq!(s.cwd_display(), "*C:\\Users\\me");
}
