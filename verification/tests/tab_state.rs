use shell_gui::path::PathStyle;
use shell_gui::state::State;
use shell_gui::tabs::{restore_tabs, LoadedState};
use shell_gui::timestamp::Timestamp;
use shell_gui::types::{
    BrowserFile, HistoryItem, NavState, OpenTabs, OutType, PanelVis, RecentDir, RemoteSession,
    RemoteTerminal, SshMode,
};

const NOW: Timestamp = Timestamp { secs: 1_700_000_000, nanos: 0 };

fn panels() -> PanelVis {
    PanelVis {
        bookmarks: true,
        recent_dirs: false,
        recent_cmds: true,
        recent_cmds_in_dir: false,
        remote_terminals: true,
        file_browser: false,
    }
}

fn file(name: &str) -> BrowserFile {
    BrowserFile {
        disp_name: name.to_string(),
        path: format!("/d/{}", name),
        is_folder: false,
        is_executable: false,
    }
}

fn item(text: &str, dir: &str) -> HistoryItem {
    HistoryItem { text: text.to_string(), dir: dir.to_string(), dt: NOW }
}

fn three_tabs(active: usize) -> State {
    let loaded = LoadedState {
        bookmarks: vec!["/Books/One".to_string(), "/two".to_string()],
        recent_dirs: vec![
            RecentDir { path: "/r/ONE".to_string(), dt: NOW },
            RecentDir { path: "/r/two".to_string(), dt: NOW },
        ],
        history: vec![item("ls", "/a"), item("LS -l", "/b"), item("make", "/b/")],
        remote_terminals: vec![RemoteTerminal {
            host: "h".to_string(),
            port: 22,
            username: "u".to_string(),
        }],
        panel_vis: panels(),
    };
    let tabs = OpenTabs {
        paths: vec!["/a".to_string(), "/b".to_string(), "/c".to_string()],
        active,
    };
    State::load(
        loaded,
        tabs,
        vec![None, Some("main".to_string()), None],
        Some("/home/me".to_string()),
        "/home/me/shell_state.ss".to_string(),
        vec![file("x")],
        PathStyle::Unix,
    )
}

#[test]
fn a_default_session() {
    let s = State::default(
        "/w".to_string(),
        Some("dev".to_string()),
        None,
        "/s".to_string(),
        Vec::new(),
        panels(),
        PathStyle::Unix,
    );
    assert_eq!(s.cwd, vec!["/w".to_string()]);
    assert_eq!(s.cwd(), "/w");
    assert_eq!(s.ui.active_tab, 0);
    assert!(s.ui.focus_input);
    assert_eq!(s.branch, vec![Some("dev".to_string())]);
    assert!(s.history.is_empty() && s.dir_bookmarks.is_empty() && s.recent_dirs.is_empty());
    assert_eq!(s.ui.cli_input, vec![String::new()]);
    assert_eq!(s.ui.history_nav, vec![NavState::new()]);
    assert!(!s.ui.remote_form_open && s.ui.remote_edit_idx.is_none());
    assert_eq!(s.ui.panel_vis, panels());
    assert_eq!(s.state_path, "/s");
    assert!(!s.is_remote());
}

#[test]
fn a_loaded_session() {
    let s = three_tabs(1);
    assert_eq!(s.cwd.len(), 3);
    assert_eq!(s.cwd(), "/b");
    assert_eq!(s.ui.out.len(), 3);
    assert_eq!(s.ui.nav_back.len(), 3);
    assert_eq!(s.active_remote.len(), 3);
    assert_eq!(s.ui.bookmarks_filter, vec![0, 1]);
    assert_eq!(s.ui.recent_dirs_filter, vec![0, 1]);
    assert_eq!(s.ui.history_filter, vec![0, 1, 2]);
    assert_eq!(s.ui.cwd_history_filter, vec![1, 2]);
    assert_eq!(s.browser_files.len(), 1);
    assert_eq!(s.ui.panel_vis, panels());
}

#[test]
fn restoring_tabs() {
    let saved = |active| OpenTabs {
        paths: vec!["/a".to_string(), "/b".to_string(), "/c".to_string()],
        active,
    };
    let r = restore_tabs(saved(1), &vec![true, true, true], "/cur".to_string());
    assert_eq!(r.paths, vec!["/a".to_string(), "/b".to_string(), "/c".to_string()]);
    assert_eq!(r.active, 1);
    let r = restore_tabs(saved(2), &vec![true, false, true], "/cur".to_string());
    assert_eq!(r.paths, vec!["/a".to_string(), "/c".to_string()]);
    assert_eq!(r.active, 1);
    let r = restore_tabs(saved(7), &vec![false, false, false], "/cur".to_string());
    assert_eq!(r.paths, vec!["/cur".to_string()]);
    assert_eq!(r.active, 0);
}

#[test]
fn saved_tabs_are_restored() {
    let s = three_tabs(2);
    let req = s.save();
    assert_eq!(req.bookmarks, s.dir_bookmarks);
    assert_eq!(req.recent_dirs.len(), 2);
    assert_eq!(req.recent_dirs[1].path, "/r/two");
    assert_eq!(req.history[1].text, "LS -l");
    assert_eq!(req.remote_terminals[0].host, "h");
    assert_eq!(req.state_path, "/home/me/shell_state.ss");
    let back = restore_tabs(req.open_tabs, &vec![true, true, true], "/cur".to_string());
    assert_eq!(back.paths, s.cwd);
    assert_eq!(back.active, 2);
}

#[test]
fn searches_ignore_case() {
    let mut s = three_tabs(1);
    s.ui.bookmarks_search = "ONE".to_string();
    s.refresh_bookmarks_filter();
    assert_eq!(s.ui.bookmarks_filter, vec![0]);
    s.ui.recent_dirs_search = "one".to_string();
    s.refresh_recent_dirs_filter();
    assert_eq!(s.ui.recent_dirs_filter, vec![0]);
    s.ui.history_search = "ls".to_string();
    s.refresh_history_filter();
    assert_eq!(s.ui.history_filter, vec![0, 1]);
    s.ui.cwd_history_search = "Ls".to_string();
    s.refresh_cwd_history_filter();
    assert_eq!(s.ui.cwd_history_filter, vec![1]);
    s.ui.history_search = "/b".to_string();
    s.refresh_history_filter();
    assert!(s.ui.history_filter.is_empty());
    s.ui.history_search.clear();
    s.ui.bookmarks_search.clear();
    s.ui.recent_dirs_search.clear();
    s.ui.cwd_history_search.clear();
    s.refresh_all_filters();
    assert_eq!(s.ui.history_filter, vec![0, 1, 2]);
    assert_eq!(s.ui.bookmarks_filter, vec![0, 1]);
    assert_eq!(s.ui.recent_dirs_filter, vec![0, 1]);
    assert_eq!(s.ui.cwd_history_filter, vec![1, 2]);
}

#[test]
fn a_new_tab_inherits_directory_and_branch() {
    let mut s = three_tabs(1);
    s.ui.cli_input[1] = "typing".to_string();
    s.ui.focus_input = false;
    s.active_remote[1] = Some(RemoteSession {
        label: "u@h".to_string(),
        cwd: String::new(),
        mode: SshMode::Exec,
    });
    s.add_tab(vec![file("y"), file("z")]);
    assert_eq!(s.ui.active_tab, 3);
    assert_eq!(s.cwd(), "/b");
    assert_eq!(s.branch[3], Some("main".to_string()));
    assert!(s.active_remote[3].is_none());
    assert_eq!(s.ui.cli_input[3], "");
    assert_eq!(s.ui.cli_input[1], "typing");
    assert!(s.ui.focus_input);
    assert_eq!(s.browser_files.len(), 2);
    assert_eq!(s.ui.cwd_history_filter, vec![1, 2]);
    assert!(s.close_tab(3).is_some());
    assert_eq!(s.cwd, vec!["/a".to_string(), "/b".to_string(), "/c".to_string()]);
}

#[test]
fn closing_another_tab_keeps_the_active_one() {
    let mut s = three_tabs(2);
    assert!(s.close_tab(0).unwrap().is_none());
    assert_eq!(s.cwd(), "/c");
    let mut s = three_tabs(0);
    assert!(s.close_tab(2).is_some());
    assert_eq!(s.cwd(), "/a");
    let mut s = three_tabs(1);
    assert!(s.close_tab(0).is_some());
    assert_eq!(s.cwd(), "/b");
}

#[test]
fn closing_the_active_tab_moves_on() {
    let mut s = three_tabs(1);
    assert!(s.close_tab(1).is_some());
    assert_eq!(s.cwd(), "/c");
    assert_eq!(s.ui.active_tab, 1);
    assert!(s.ui.cwd_history_filter.is_empty());
    let mut s = three_tabs(2);
    assert!(s.close_tab(2).is_some());
    assert_eq!(s.cwd(), "/b");
    assert_eq!(s.ui.cwd_history_filter, vec![1, 2]);
}

#[test]
fn the_last_tab_stays() {
    let mut s = three_tabs(0);
    assert!(s.close_tab(3).is_none());
    assert!(s.close_tab(0).is_some());
    assert!(s.close_tab(0).is_some());
    assert!(s.close_tab(0).is_none());
    assert_eq!(s.cwd, vec!["/c".to_string()]);
    assert_eq!(s.ui.active_tab, 0);
}

#[test]
fn closing_a_tab_returns_its_session() {
    let mut s = three_tabs(0);
    s.active_remote[2] = Some(RemoteSession {
        label: "u@h".to_string(),
        cwd: "/x".to_string(),
        mode: SshMode::Pty,
    });
    let session = s.close_tab(2).unwrap().unwrap();
    assert_eq!(session.label, "u@h");
    assert_eq!(s.active_remote.len(), 2);
}

#[test]
fn selecting_a_tab() {
    let mut s = three_tabs(0);
    s.ui.focus_input = false;
    assert!(!s.select_tab(0));
    assert!(!s.select_tab(3));
    assert!(!s.ui.focus_input);
    assert!(s.select_tab(1));
    assert_eq!(s.cwd(), "/b");
    assert!(s.ui.focus_input);
    assert_eq!(s.ui.cwd_history_filter, vec![1, 2]);
    assert!(s.select_tab(0));
    assert_eq!(s.cwd(), "/a");
    assert_eq!(s.ui.cwd_history_filter, vec![0]);
}

#[test]
fn output_goes_to_the_active_tab() {
    let mut s = three_tabs(1);
    s.push_out_at("one".to_string(), OutType::StdOut, NOW);
    s.push_out("two".to_string(), OutType::StdErr);
    assert_eq!(s.ui.out[1].len(), 2);
    assert_eq!(s.ui.out[1][0].text, "one");
    assert_eq!(s.ui.out[1][0].dt, NOW);
    assert_eq!(s.ui.out[1][1].type_, OutType::StdErr);
    assert!(s.ui.out[1][1].dt.secs > NOW.secs);
    assert!(s.ui.out[0].is_empty() && s.ui.out[2].is_empty());
}

#[test]
fn refreshing_branch_and_files() {
    let mut s = three_tabs(1);
    s.refresh_branch(Some("topic".to_string()));
    assert_eq!(s.branch, vec![None, Some("topic".to_string()), None]);
    s.refresh_browser_files(vec![file("p"), file("q")]);
    assert_eq!(s.browser_files[1].disp_name, "q");
}
