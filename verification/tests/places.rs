use shell_gui::navigation::{record_recent_dir, record_recent_dir_at, DirOutcome};
use shell_gui::path::PathStyle;
use shell_gui::state::State;
use shell_gui::timestamp::Timestamp;
use shell_gui::types::{BrowserFile, HistoryItem, NavState, OutType, PanelVis, RecentDir};

const NOW: Timestamp = Timestamp { secs: 1_700_000_000, nanos: 0 };

fn state(cwd: &str) -> State {
    State::default(
        cwd.to_string(),
        Some("main".to_string()),
        Some("/home/me".to_string()),
        "/s".to_string(),
        Vec::new(),
        PanelVis {
            bookmarks: true,
            recent_dirs: true,
            recent_cmds: true,
            recent_cmds_in_dir: true,
            remote_terminals: true,
            file_browser: true,
        },
        PathStyle::Unix,
    )
}

fn entered(cwd: &str) -> DirOutcome {
    DirOutcome::Entered {
        cwd: cwd.to_string(),
        branch: Some(format!("b{}", cwd)),
        files: vec![BrowserFile {
            disp_name: "f".to_string(),
            path: format!("{}/f", cwd),
            is_folder: false,
            is_executable: true,
        }],
    }
}

fn failed(e: &str) -> DirOutcome {
    DirOutcome::Failed { error: e.to_string() }
}

#[test]
fn changing_directory() {
    let mut s = state("/a");
    s.history.push(HistoryItem { text: "ls".to_string(), dir: "/b/".to_string(), dt: NOW });
    s.refresh_all_filters();
    assert!(s.ui.cwd_history_filter.is_empty());
    s.ui.nav_forward[0].push("/old".to_string());
    assert!(s.change_dir(entered("/b"), NOW));
    assert_eq!(s.cwd(), "/b");
    assert_eq!(s.branch[0], Some("b/b".to_string()));
    assert_eq!(s.browser_files[0].path, "/b/f");
    assert_eq!(s.ui.nav_back[0], vec!["/a".to_string()]);
    assert!(s.ui.nav_forward[0].is_empty());
    assert_eq!(s.ui.cwd_history_filter, vec![0]);
    assert!(s.ui.out[0].is_empty());
}

#[test]
fn changing_to_the_same_directory_is_no_move() {
    let mut s = state("/a");
    s.ui.nav_forward[0].push("/old".to_string());
    assert!(!s.change_dir(entered("/a/."), NOW));
    assert_eq!(s.cwd(), "/a/.");
    assert!(s.ui.nav_back[0].is_empty());
    assert_eq!(s.ui.nav_forward[0].len(), 1);
}

#[test]
fn a_failed_change_is_reported() {
    let mut s = state("/a");
    assert!(!s.change_dir(failed("No such file or directory (os error 2)"), NOW));
    assert_eq!(s.cwd(), "/a");
    assert!(s.ui.nav_back[0].is_empty());
    assert_eq!(s.ui.out[0].len(), 1);
    assert_eq!(s.ui.out[0][0].text, "cd: No such file or directory (os error 2)");
    assert_eq!(s.ui.out[0][0].type_, OutType::StdErr);
}

#[test]
fn navigating_leaves_the_stacks_alone() {
    let mut s = state("/a");
    s.ui.nav_forward[0].push("/old".to_string());
    assert!(s.navigate_to(entered("/b"), NOW));
    assert!(s.ui.nav_back[0].is_empty());
    assert_eq!(s.ui.nav_forward[0].len(), 1);
}

#[test]
fn back_and_forward() {
    let mut s = state("/a");
    assert!(s.nav_back().is_none());
    assert!(s.nav_forward().is_none());
    s.change_dir(entered("/b"), NOW);
    s.change_dir(entered("/c"), NOW);
    assert_eq!(s.nav_back(), Some("/b".to_string()));
    assert!(s.nav_back_done(entered("/b"), NOW));
    assert_eq!(s.cwd(), "/b");
    assert_eq!(s.ui.nav_back[0], vec!["/a".to_string()]);
    assert_eq!(s.ui.nav_forward[0], vec!["/c".to_string()]);
    assert_eq!(s.nav_forward(), Some("/c".to_string()));
    assert!(s.nav_forward_done(entered("/c"), NOW));
    assert_eq!(s.cwd(), "/c");
    assert_eq!(s.ui.nav_back[0], vec!["/a".to_string(), "/b".to_string()]);
    assert!(s.ui.nav_forward[0].is_empty());
}

#[test]
fn back_to_a_directory_that_is_gone() {
    let mut s = state("/a");
    s.change_dir(entered("/b"), NOW);
    assert_eq!(s.nav_back(), Some("/a".to_string()));
    assert!(!s.nav_back_done(failed("gone"), NOW));
    assert_eq!(s.cwd(), "/b");
    assert!(s.ui.nav_back[0].is_empty() && s.ui.nav_forward[0].is_empty());
    assert_eq!(s.ui.out[0][0].text, "cd: gone");
}

#[test]
fn up_to_the_parent() {
    assert_eq!(state("/a/b").nav_up(), Some("/a".to_string()));
    assert_eq!(state("/a").nav_up(), Some("/".to_string()));
    assert_eq!(state("/").nav_up(), None);
}

#[test]
fn toggling_a_bookmark() {
    let mut s = state("/a");
    s.dir_bookmarks.push("/z".to_string());
    s.refresh_bookmarks_filter();
    assert_eq!(s.toggle_bookmark_cwd(), "Added a bookmark: /a");
    assert_eq!(s.dir_bookmarks, vec!["/z".to_string(), "/a".to_string()]);
    assert_eq!(s.ui.bookmarks_filter, vec![0, 1]);
    assert!(s.is_bookmarked("/a/"));
    assert_eq!(s.cwd_display(), "*/a");
    assert_eq!(s.toggle_bookmark_cwd(), "Removed bookmark: /a");
    assert_eq!(s.dir_bookmarks, vec!["/z".to_string()]);
    assert_eq!(s.ui.bookmarks_filter, vec![0]);
    assert!(!s.is_bookmarked("/a"));
    assert_eq!(s.cwd_display(), "/a");
}

#[test]
fn toggling_removes_the_first_of_two() {
    let mut s = state("/a");
    s.dir_bookmarks = vec!["/a/".to_string(), "/b".to_string(), "/a".to_string()];
    assert_eq!(s.toggle_bookmark_cwd(), "Removed bookmark: /a");
    assert_eq!(s.dir_bookmarks, vec!["/b".to_string(), "/a".to_string()]);
}

#[test]
fn recent_dirs_are_distinct_and_newest_last() {
    let later = Timestamp { secs: NOW.secs + 5, nanos: 1 };
    let mut v: Vec<RecentDir> = Vec::new();
    record_recent_dir_at(&mut v, "/a", NOW, PathStyle::Unix);
    record_recent_dir_at(&mut v, "/b", NOW, PathStyle::Unix);
    record_recent_dir_at(&mut v, "/a/", later, PathStyle::Unix);
    let paths: Vec<&str> = v.iter().map(|r| r.path.as_str()).collect();
    assert_eq!(paths, vec!["/b", "/a/"]);
    assert_eq!(v[1].dt, later);
    record_recent_dir_at(&mut v, "/c", later, PathStyle::Unix);
    assert_eq!(v.len(), 3);
    assert_eq!(v[2].path, "/c");
    record_recent_dir(&mut v, "/b", PathStyle::Unix);
    let paths: Vec<&str> = v.iter().map(|r| r.path.as_str()).collect();
    assert_eq!(paths, vec!["/a/", "/c", "/b"]);
    assert!(v[2].dt.secs > later.secs);
}

#[test]
fn recall_of_commands_and_directories() {
    let mut s = state("/a");
    s.ui.cli_input[0] = "live".to_string();
    let nav = NavState { his_cursor: Some(3), cd_cursor: None };
    s.history_nav(Some("make".to_string()), nav);
    assert_eq!(s.ui.cli_input[0], "make");
    assert_eq!(s.active_nav_cursors(), (Some(3), None));
    s.history_nav(None, NavState { his_cursor: Some(0), cd_cursor: None });
    assert_eq!(s.ui.cli_input[0], "make");
    assert_eq!(s.active_nav_cursors(), (Some(0), None));
    let cd = NavState { his_cursor: None, cd_cursor: Some(1) };
    let line = s.recent_dir_command("/home/me/code");
    assert_eq!(line, "cd ~/code");
    s.recent_dir_nav(Some(line), cd);
    assert_eq!(s.ui.cli_input[0], "cd ~/code");
    assert_eq!(s.active_nav_cursors(), (None, Some(1)));
    s.autocomplete_input(None);
    assert_eq!(s.ui.cli_input[0], "cd ~/code");
    s.autocomplete_input(Some("cd ~/code/".to_string()));
    assert_eq!(s.ui.cli_input[0], "cd ~/code/");
    assert_eq!(s.active_nav_cursors(), (None, Some(1)));
    s.reset_history_nav();
    assert_eq!(s.active_nav_cursors(), (None, None));
    assert_eq!(s.ui.cli_input[0], "cd ~/code/");
}
