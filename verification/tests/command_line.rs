use shell_gui::commands::{handle_cmd, run_command, run_command_at, Action, Step};
use shell_gui::display::PromptLabels;
use shell_gui::navigation::DirOutcome;
use shell_gui::path::PathStyle;
use shell_gui::state::State;
use shell_gui::timestamp::Timestamp;
use shell_gui::types::{
    HistoryItem, NavState, OutType, PanelVis, RecentDir, RemoteSession, RemoteTerminal, SshMode,
};

const NOW: Timestamp = Timestamp { secs: 1_700_000_000, nanos: 0 };

fn state() -> State {
    State::default(
        "/work".to_string(),
        None,
        Some("/home/me".to_string()),
        "/s".to_string(),
        Vec::new(),
        PanelVis {
            bookmarks: true,
            recent_dirs: true,
            recent_cmds: true,
            recent_cmds_in_dir: true,
            remote_terminals: true,
            file_browser: true,
        },
        PathStyle::Unix,
    )
}

fn labels() -> PromptLabels {
    PromptLabels { branch: String::new(), his: String::new(), cd: String::new() }
}

fn run(s: &mut State, input: &str) -> Step {
    run_command_at(s, input, &labels(), NOW)
}

fn last(s: &State) -> (String, OutType) {
    let o = s.ui.out[s.ui.active_tab].last().unwrap();
    (o.text.clone(), o.type_)
}

fn err(t: &str) -> (String, OutType) {
    (t.to_string(), OutType::StdErr)
}

fn handle(s: &mut State, line: &str) -> Action {
    match run(s, line) {
        Step::Dispatch { cmd, args, input } => handle_cmd(s, &cmd, &input, &args, "me", NOW),
        _ => panic!("not dispatched"),
    }
}

fn session(mode: SshMode) -> RemoteSession {
    RemoteSession { label: "u@h".to_string(), cwd: "/srv".to_string(), mode }
}

#[test]
fn an_empty_line_does_nothing() {
    let mut s = state();
    assert!(matches!(run(&mut s, ""), Step::Ignored));
    assert!(matches!(run(&mut s, " \t "), Step::Ignored));
    assert!(s.ui.out[0].is_empty() && s.history.is_empty());
}

#[test]
fn a_line_is_echoed_and_recorded() {
    let mut s = state();
    s.ui.history_nav[0] = NavState { his_cursor: Some(1), cd_cursor: None };
    match run(&mut s, "  git   status -s \n") {
        Step::Dispatch { cmd, args, input } => {
            assert_eq!(cmd, "git");
            assert_eq!(args, "status -s");
            assert_eq!(input, "git   status -s");
        }
        _ => panic!("not dispatched"),
    }
    assert_eq!(last(&s), ("/work> git   status -s".to_string(), OutType::Prompt));
    assert_eq!(s.ui.history_nav[0], NavState::new());
    assert_eq!(s.history.len(), 1);
    assert_eq!(s.history[0].text, "git   status -s");
    assert_eq!(s.history[0].dir, "/work");
    assert_eq!(s.history[0].dt, NOW);
    assert_eq!(s.ui.history_filter, vec![0]);
    assert_eq!(s.ui.cwd_history_filter, vec![0]);
    assert_eq!(s.recent_dirs.len(), 1);
    assert_eq!(s.recent_dirs[0].path, "/work");
    assert_eq!(s.ui.recent_dirs_filter, vec![0]);
}

#[test]
fn cd_is_recorded_but_not_its_directory() {
    let mut s = state();
    assert!(matches!(run(&mut s, "cd /x"), Step::Dispatch { .. }));
    assert_eq!(s.history.len(), 1);
    assert!(s.recent_dirs.is_empty());
}

#[test]
fn the_prompt_shows_branch_and_recall() {
    let mut s = state();
    s.branch[0] = Some("feature-branch".to_string());
    s.dir_bookmarks.push("/work/".to_string());
    let l = PromptLabels {
        branch: "feature-b…".to_string(),
        his: " his 3".to_string(),
        cd: String::new(),
    };
    assert_eq!(s.prompt(&l), "*/work \x1b[95mbranch: feature-b…\x1b[0m his 3");
    run_command_at(&mut s, "ls", &l, NOW);
    assert_eq!(last(&s).0, "*/work \x1b[95mbranch: feature-b…\x1b[0m his 3> ls");
    s.active_remote[0] = Some(session(SshMode::Pty));
    assert_eq!(s.prompt(&l), "u@h:/srv (pty) his 3");
    s.active_remote[0] = Some(RemoteSession {
        label: "u@h".to_string(),
        cwd: String::new(),
        mode: SshMode::Exec,
    });
    assert_eq!(s.prompt(&labels()), "u@h:~");
}

#[test]
fn his_reruns_an_earlier_line() {
    let mut s = state();
    s.history.push(HistoryItem { text: "make".to_string(), dir: "/m".to_string(), dt: NOW });
    for cmd in ["his", "hist"] {
        match run(&mut s, &format!("{} 0", cmd)) {
            Step::Rerun { text } => assert_eq!(text, "make"),
            _ => panic!("not a rerun"),
        }
        assert_eq!(s.history.len(), 1);
        assert!(matches!(run(&mut s, &format!("{} 1", cmd)), Step::Reported));
        assert_eq!(last(&s), err(&format!("{}: no history item at index 1", cmd)));
        assert!(matches!(run(&mut s, &format!("{} x", cmd)), Step::Reported));
        assert_eq!(last(&s), err(&format!("{}: usage: {} <number>", cmd, cmd)));
        assert!(matches!(run(&mut s, cmd), Step::Reported));
        assert_eq!(last(&s), err(&format!("{}: usage: {} <number>", cmd, cmd)));
    }
    assert_eq!(s.history.len(), 1);
    assert!(s.recent_dirs.is_empty());
}

#[test]
fn a_rerun_line_is_run_itself() {
    let mut s = state();
    run(&mut s, "make all");
    let text = match run(&mut s, "his 0") {
        Step::Rerun { text } => text,
        _ => panic!("not a rerun"),
    };
    assert!(matches!(run(&mut s, &text), Step::Dispatch { .. }));
    assert_eq!(s.history.len(), 2);
    assert_eq!(s.history[1].text, "make all");
}

#[test]
fn hisd_runs_in_the_old_directory() {
    let mut s = state();
    s.history.push(HistoryItem { text: "make".to_string(), dir: "/m".to_string(), dt: NOW });
    match run(&mut s, "hisd 0") {
        Step::RunIn { text, dir } => assert_eq!((text.as_str(), dir.as_str()), ("make", "/m")),
        _ => panic!("not run in place"),
    }
    assert!(matches!(run(&mut s, "hisd 4"), Step::Reported));
    assert_eq!(last(&s), err("hisd: no history item at index 4"));
    assert!(matches!(run(&mut s, "hisd"), Step::Reported));
    assert_eq!(last(&s), err("hisd: usage: hisd <number>"));
    assert_eq!(s.history.len(), 1);
    assert_eq!(s.cwd(), "/work");
}

#[test]
fn programs_go_to_the_shell() {
    let mut s = state();
    match handle(&mut s, "git status | head") {
        Action::Shell { input, cwd } => {
            assert_eq!(input, "git status | head");
            assert_eq!(cwd, "/work");
        }
        _ => panic!("not handed to the shell"),
    }
    s.shell_done(Ok((b"out\xff\n".to_vec(), Vec::new())), NOW);
    assert_eq!(last(&s), ("out\u{fffd}\n".to_string(), OutType::StdOut));
    let n = s.ui.out[0].len();
    s.shell_done(Ok((Vec::new(), Vec::new())), NOW);
    assert_eq!(s.ui.out[0].len(), n);
    s.shell_done(Ok(("ä".as_bytes().to_vec(), b"bad".to_vec())), NOW);
    assert_eq!(s.ui.out[0].len(), n + 2);
    assert_eq!(s.ui.out[0][n].text, "ä");
    assert_eq!(last(&s), err("bad"));
    s.shell_done(Err("not found".to_string()), NOW);
    assert_eq!(last(&s), err("shell: not found"));
}

#[test]
fn exit_is_refused_here() {
    for cmd in ["exit", "quit"] {
        let mut s = state();
        assert!(matches!(handle(&mut s, cmd), Action::Done));
        assert_eq!(last(&s), err("(use the window close button to exit)"));
    }
}

#[test]
fn sync_logs_and_cat() {
    let mut s = state();
    match handle(&mut s, "sync  up now") {
        Action::Sync { args, cwd } => assert_eq!((args.as_str(), cwd.as_str()), ("up now", "/work")),
        _ => panic!("no sync"),
    }
    assert!(matches!(handle(&mut s, "logs nginx"), Action::Logs { args } if args == "nginx"));
    assert!(matches!(handle(&mut s, "cat a b"), Action::Cat { args } if args == "a b"));
    s.cat_done("/work/a b", Ok("text\n".to_string()), NOW);
    assert_eq!(last(&s), ("text\n".to_string(), OutType::StdOut));
    s.cat_done("/work/a b", Err("denied".to_string()), NOW);
    assert_eq!(last(&s), err("cat: /work/a b: denied"));
}

#[test]
fn del_bm() {
    let mut s = state();
    s.dir_bookmarks = vec!["/a".to_string(), "/b".to_string()];
    s.refresh_bookmarks_filter();
    assert!(matches!(handle(&mut s, "del bm 2"), Action::Done));
    assert_eq!(last(&s), err("del bm: no bookmark at index 2 (have 2)"));
    assert!(matches!(handle(&mut s, "del bm x"), Action::Done));
    assert_eq!(last(&s), err("del bm: expected a number, e.g. `del bm 4`"));
    assert!(matches!(handle(&mut s, "del bm"), Action::Done));
    assert_eq!(last(&s), err("del bm: expected a number, e.g. `del bm 4`"));
    assert!(matches!(handle(&mut s, "del"), Action::Done));
    assert_eq!(last(&s), err("del: usage: del bm <number>"));
    assert!(matches!(handle(&mut s, "del foo 1"), Action::Done));
    assert_eq!(last(&s), err("del: unknown target `foo` (expected `bm`)"));
    assert!(matches!(handle(&mut s, "del  bm   0"), Action::SaveBookmarks));
    assert_eq!(last(&s), ("Deleted bookmark: /a".to_string(), OutType::StdOut));
    assert_eq!(s.dir_bookmarks, vec!["/b".to_string()]);
    assert_eq!(s.ui.bookmarks_filter, vec![0]);
    s.bookmarks_save_failed("disk full", NOW);
    assert_eq!(last(&s), err("del bm: failed to save bookmarks: disk full"));
    s.save_failed("disk full", NOW);
    assert_eq!(last(&s), err("warning: failed to save state: disk full"));
}

#[test]
fn bm_enters_a_bookmark() {
    let mut s = state();
    s.dir_bookmarks = vec!["/a".to_string()];
    assert!(matches!(handle(&mut s, "bm 0"), Action::EnterBookmark { target } if target == "/a"));
    assert!(matches!(handle(&mut s, "bm 1"), Action::Done));
    assert_eq!(last(&s), err("bm: no bookmark at index 1"));
    assert!(matches!(handle(&mut s, "bm"), Action::Done));
    assert_eq!(last(&s), err("bm: usage: bm <number>"));
}

#[test]
fn cd_by_name_or_by_index() {
    let mut s = state();
    s.recent_dirs.push(RecentDir { path: "/r".to_string(), dt: NOW });
    assert!(matches!(handle(&mut s, "cd ../x"), Action::EnterNamed { args } if args == "../x"));
    assert!(matches!(handle(&mut s, "cd"), Action::EnterNamed { args } if args.is_empty()));
    match handle(&mut s, "cd 0") {
        Action::EnterRecent { target, index } => assert_eq!((target.as_str(), index), ("/r", 0)),
        _ => panic!("no recent directory"),
    }
    assert!(matches!(handle(&mut s, "cd 5"), Action::Done));
    assert_eq!(last(&s), err("cd: no recent directory at index 5"));
}

#[test]
fn a_stale_recent_dir_leaves_the_list() {
    let failed = || DirOutcome::Failed { error: "gone".to_string() };
    let mut s = state();
    s.recent_dirs.push(RecentDir { path: "/q".to_string(), dt: NOW });
    s.recent_dirs.push(RecentDir { path: "/r".to_string(), dt: NOW });
    s.refresh_all_filters();
    assert!(!s.cd_done(failed(), "/r", Some(1), false, NOW));
    assert_eq!(last(&s), err("cd: gone"));
    assert!(!s.cd_done(failed(), "/r", None, true, NOW));
    assert!(!s.cd_done(failed(), "/r", Some(0), true, NOW));
    assert!(!s.cd_done(failed(), "/r", Some(2), true, NOW));
    assert_eq!(s.recent_dirs.len(), 2);
    assert!(s.cd_done(failed(), "/r", Some(1), true, NOW));
    assert_eq!(last(&s), err("cd: removed stale recent-dir entry 1"));
    assert_eq!(s.recent_dirs.len(), 1);
    assert_eq!(s.recent_dirs[0].path, "/q");
    assert_eq!(s.ui.recent_dirs_filter, vec![0]);
    let moved = DirOutcome::Entered { cwd: "/q".to_string(), branch: None, files: Vec::new() };
    assert!(!s.cd_done(moved, "/q", Some(0), true, NOW));
    assert_eq!(s.cwd(), "/q");
    assert_eq!(s.recent_dirs.len(), 1);
    assert_eq!(s.ui.nav_back[0], vec!["/work".to_string()]);
}

#[test]
fn a_connected_tab_sends_its_commands_away() {
    for line in ["ls -l", "cd /x", "del bm 0", "ssh 0", "cat f", "bm 0"] {
        let mut s = state();
        s.active_remote[0] = Some(session(SshMode::Exec));
        assert!(matches!(handle(&mut s, line), Action::RunRemote { input } if input == line));
        assert!(s.is_remote());
    }
    for line in ["exit", "quit", "logout", "disconnect now"] {
        let mut s = state();
        s.active_remote[0] = Some(session(SshMode::Exec));
        match handle(&mut s, line) {
            Action::Disconnect { session } => assert_eq!(session.label, "u@h"),
            _ => panic!("not disconnected"),
        }
        assert_eq!(last(&s), ("ssh: disconnected".to_string(), OutType::StdOut));
        assert!(!s.is_remote());
    }
    let mut s = state();
    s.active_remote[0] = Some(session(SshMode::Exec));
    assert!(matches!(handle(&mut s, "mode"), Action::SetMode { mode: SshMode::Pty }));
}

#[test]
fn ssh_from_the_command_line() {
    let mut s = state();
    s.remote_terminals.push(RemoteTerminal {
        host: "box".to_string(),
        port: 2222,
        username: "root".to_string(),
    });
    match handle(&mut s, "ssh 0") {
        Action::Connect { remote } => assert_eq!(remote.address(), "root@box:2222"),
        _ => panic!("no connection"),
    }
    match handle(&mut s, "ssh example.com") {
        Action::Connect { remote } => assert_eq!(remote.address(), "me@example.com:22"),
        _ => panic!("no connection"),
    }
    assert!(matches!(handle(&mut s, "ssh 1"), Action::Done));
    assert_eq!(last(&s), err("ssh: no saved remote at index 1"));
    assert!(matches!(handle(&mut s, "ssh"), Action::Done));
    assert_eq!(last(&s), err("ssh: usage: ssh [user@]host [port]  |  ssh <saved-index>"));
}

#[test]
fn a_line_is_recorded_now() {
    let mut s = state();
    let step = run_command(&mut s, " make ", &labels());
    assert!(matches!(step, Step::Dispatch { .. }));
    assert_eq!(s.history[0].text, "make");
    assert!(s.history[0].dt.secs > NOW.secs);
    assert_eq!(s.recent_dirs[0].dt, s.history[0].dt);
    assert_eq!(s.ui.out[0][0].dt, s.history[0].dt);
}

#[test]
fn hisd_runs_here_on_a_connected_tab_too() {
    let mut s = state();
    s.history.push(HistoryItem { text: "make".to_string(), dir: "/m".to_string(), dt: NOW });
    s.active_remote[0] = Some(session(SshMode::Exec));
    assert!(matches!(run(&mut s, "hisd 0"), Step::RunIn { text, dir } if text == "make" && dir == "/m"));
    assert!(s.is_remote());
    assert!(matches!(run(&mut s, "hisd 7"), Step::Reported));
    assert!(matches!(handle(&mut s, "make"), Action::RunRemote { input } if input == "make"));
}
