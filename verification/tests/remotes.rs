use shell_gui::remote::{default_user, parse_remote_spec};
use shell_gui::path::PathStyle;
use shell_gui::state::State;
use shell_gui::timestamp::Timestamp;
use shell_gui::types::{OutKind, OutType, PanelVis, RemoteSession, RemoteTerminal, SshMode};

const NOW: Timestamp = Timestamp { secs: 1_700_000_000, nanos: 0 };

fn state() -> State {
    State::default(
        "/work".to_string(),
        None,
        None,
        "/s".to_string(),
        Vec::new(),
        PanelVis {
            bookmarks: true,
            recent_dirs: true,
            recent_cmds: true,
            recent_cmds_in_dir: true,
            remote_terminals: true,
            file_browser: true,
        },
        PathStyle::Unix,
    )
}

fn remote(user: &str, host: &str, port: u16) -> RemoteTerminal {
    RemoteTerminal { host: host.to_string(), port, username: user.to_string() }
}

fn session(mode: SshMode) -> RemoteSession {
    RemoteSession { label: "u@h".to_string(), cwd: "/srv".to_string(), mode }
}

fn last(s: &State) -> (String, OutType) {
    let o = s.ui.out[0].last().unwrap();
    (o.text.clone(), o.type_)
}

fn spec(s: &str) -> String {
    parse_remote_spec(s, "me").address()
}

#[test]
fn remote_specs() {
    assert_eq!(spec("host"), "me@host:22");
    assert_eq!(spec("bob@host"), "bob@host:22");
    assert_eq!(spec("bob@host:2200"), "bob@host:2200");
    assert_eq!(spec("bob@host:2200 99"), "bob@host:99");
    assert_eq!(spec("host 99 more"), "me@host:99");
    assert_eq!(spec("host:x"), "me@host:22");
    assert_eq!(spec("host:70000 y"), "me@host:22");
    assert_eq!(spec("host:80 y"), "me@host:80");
    assert_eq!(spec("  a@b@c:1:2  "), "a@b@c:22");
    assert_eq!(spec("@host"), "@host:22");
    assert_eq!(spec(""), "me@:22");
    let r = parse_remote_spec("a@b@c:7", "me");
    assert_eq!((r.username.as_str(), r.host.as_str(), r.port), ("a", "b@c", 7));
}

#[test]
fn the_default_user() {
    let some = |s: &str| Some(s.to_string());
    assert_eq!(default_user(some("a"), some("b")), "a");
    assert_eq!(default_user(None, some("b")), "b");
    assert_eq!(default_user(None, None), "root");
}

#[test]
fn connecting_to_a_saved_remote() {
    let mut s = state();
    s.remote_terminals.push(remote("u", "h", 2022));
    let r = s.connect_remote(0, NOW).unwrap();
    assert_eq!(r.address(), "u@h:2022");
    assert!(s.ui.out[0].is_empty());
    assert!(!s.connect_with(&r, false, NOW));
    assert_eq!(
        last(&s),
        (
            "ssh: no saved password for u@h; add it in the Remote panel".to_string(),
            OutType::StdErr
        )
    );
    assert!(s.connect_with(&r, true, NOW));
    assert_eq!(last(&s), ("Connecting to u@h:2022 …".to_string(), OutType::Prompt));
    assert!(s.connect_done(&r, Err("refused".to_string()), NOW).is_none());
    assert_eq!(last(&s), ("ssh: refused".to_string(), OutType::StdErr));
    assert!(!s.is_remote());
    assert!(s.connect_done(&r, Ok(session(SshMode::Exec)), NOW).is_none());
    assert_eq!(last(&s), ("Connected to u@h".to_string(), OutType::StdOut));
    assert!(s.is_remote());
    let old = s.connect_done(&r, Ok(session(SshMode::Pty)), NOW).unwrap();
    assert_eq!(old.mode, SshMode::Exec);
    assert_eq!(s.active_remote().unwrap().mode, SshMode::Pty);
    assert!(s.connect_remote(1, NOW).is_none());
    assert_eq!(last(&s), ("ssh: no saved remote at index 1".to_string(), OutType::StdErr));
}

#[test]
fn tabs_have_connections_of_their_own() {
    let mut s = state();
    s.add_tab(Vec::new());
    s.connect_done(&remote("u", "h", 22), Ok(session(SshMode::Exec)), NOW);
    assert!(s.is_remote());
    s.select_tab(0);
    assert!(!s.is_remote());
    assert!(s.disconnect_remote(NOW).is_none());
    assert!(s.ui.out[0].is_empty());
    s.select_tab(1);
    assert!(s.disconnect_remote(NOW).is_some());
    assert!(!s.is_remote());
    assert_eq!(s.ui.out[1].last().unwrap().text, "ssh: disconnected");
}

#[test]
fn switching_the_mode() {
    let mut s = state();
    assert_eq!(s.toggle_remote_mode(), None);
    s.remote_mode_set(SshMode::Pty, SshMode::Pty, None, NOW);
    assert!(s.ui.out[0].is_empty());
    s.active_remote[0] = Some(session(SshMode::Exec));
    assert_eq!(s.toggle_remote_mode(), Some(SshMode::Pty));
    s.remote_mode_set(SshMode::Pty, SshMode::Pty, None, NOW);
    assert_eq!(last(&s), ("ssh: switched to interactive mode".to_string(), OutType::StdOut));
    assert!(s.is_pty());
    assert_eq!(s.toggle_remote_mode(), Some(SshMode::Exec));
    s.remote_mode_set(SshMode::Exec, SshMode::Pty, Some("busy".to_string()), NOW);
    assert_eq!(last(&s), ("ssh: busy".to_string(), OutType::StdErr));
    assert!(s.is_pty());
    s.remote_mode_set(SshMode::Exec, SshMode::Exec, None, NOW);
    assert_eq!(last(&s), ("ssh: switched to exec mode".to_string(), OutType::StdOut));
    assert!(!s.is_pty());
}

#[test]
fn running_a_command_remotely() {
    let mut s = state();
    s.run_remote_exec(session(SshMode::Exec), vec![(OutKind::Stdout, "x".to_string())], None, NOW);
    assert!(s.ui.out[0].is_empty() && !s.is_remote());
    s.active_remote[0] = Some(session(SshMode::Exec));
    let after = RemoteSession {
        label: "u@h".to_string(),
        cwd: "/srv/x".to_string(),
        mode: SshMode::Exec,
    };
    s.run_remote_exec(
        after,
        vec![(OutKind::Stdout, "one".to_string()), (OutKind::Stderr, "two".to_string())],
        Some("lost".to_string()),
        NOW,
    );
    let out: Vec<(&str, OutType)> = s.ui.out[0].iter().map(|o| (o.text.as_str(), o.type_)).collect();
    assert_eq!(
        out,
        vec![
            ("one", OutType::StdOut),
            ("two", OutType::StdErr),
            ("ssh: lost", OutType::StdErr)
        ]
    );
    assert_eq!(s.cwd_display(), "u@h:/srv/x");
}

#[test]
fn lines_for_an_interactive_session() {
    let mut s = state();
    assert!(s.send_remote_line("ls").is_none());
    s.active_remote[0] = Some(session(SshMode::Pty));
    assert_eq!(s.send_remote_line("lsä"), Some("lsä\r".as_bytes().to_vec()));
    assert_eq!(s.send_remote_line(""), Some(vec![13]));
}

#[test]
fn output_of_an_interactive_session() {
    let mut s = state();
    let (on, gone) = s.pump_pty(b"x", true, NOW);
    assert!(!on && gone.is_none() && s.ui.out[0].is_empty());
    s.active_remote[0] = Some(session(SshMode::Exec));
    let (on, gone) = s.pump_pty(b"x", true, NOW);
    assert!(!on && gone.is_none() && s.ui.out[0].is_empty() && s.is_remote());
    s.active_remote[0] = Some(session(SshMode::Pty));
    let (on, gone) = s.pump_pty(b"", false, NOW);
    assert!(on && gone.is_none() && s.ui.out[0].is_empty());
    let (on, _) = s.pump_pty(b"caf\xc3\xa9 \x80", false, NOW);
    assert!(on);
    assert_eq!(last(&s), ("café \u{fffd}".to_string(), OutType::StdOut));
    let (on, gone) = s.pump_pty(b"bye", true, NOW);
    assert!(!on && gone.is_some() && !s.is_remote());
    let n = s.ui.out[0].len();
    assert_eq!(s.ui.out[0][n - 2].text, "bye");
    assert_eq!(
        last(&s),
        ("ssh: remote shell exited; disconnected".to_string(), OutType::StdOut)
    );
}

#[test]
fn removing_a_remote() {
    let mut s = state();
    s.remote_terminals = vec![remote("u", "h", 22), remote("v", "g", 23)];
    assert!(s.remove_remote(2, NOW).is_none());
    assert!(s.ui.out[0].is_empty());
    assert_eq!(s.remove_remote(0, NOW).unwrap().address(), "u@h:22");
    assert_eq!(s.remote_terminals.len(), 1);
    assert_eq!(last(&s), ("Removed remote u@h:22".to_string(), OutType::StdOut));
}

fn fill(s: &mut State, host: &str, port: &str, user: &str, password: &str) {
    s.ui.remote_form_open = true;
    s.ui.remote_host = host.to_string();
    s.ui.remote_port = port.to_string();
    s.ui.remote_user = user.to_string();
    s.ui.remote_password = password.to_string();
}

#[test]
fn the_form_is_checked() {
    let mut s = state();
    fill(&mut s, "  ", "22", "u", "");
    assert_eq!(s.save_remote_from_form(None), Err("host is required".to_string()));
    fill(&mut s, "h", " 70000 ", "u", "");
    assert_eq!(s.save_remote_from_form(None), Err("invalid port `70000`".to_string()));
    fill(&mut s, "h", "22x", "u", "");
    assert_eq!(s.save_remote_from_form(None), Err("invalid port `22x`".to_string()));
    fill(&mut s, "h", "22", "u", "secret");
    assert_eq!(
        s.save_remote_from_form(Some("locked".to_string())),
        Err("couldn't save password: locked".to_string())
    );
    assert!(s.remote_terminals.is_empty() && s.ui.remote_form_open);
    assert_eq!(s.ui.remote_password, "secret");
}

#[test]
fn the_form_saves_with_defaults_and_empties_itself() {
    let mut s = state();
    assert!(s.password_to_store().is_none());
    fill(&mut s, "h", "bad", "u", "pw");
    assert!(s.password_to_store().is_none());
    fill(&mut s, "h", "23", "u", "pw");
    assert_eq!(s.password_to_store().unwrap().address(), "u@h:23");
    fill(&mut s, " example.com ", " ", "  ", "");
    assert!(s.password_to_store().is_none());
    assert_eq!(s.remote_from_form().unwrap().address(), "root@example.com:22");
    assert_eq!(s.save_remote_from_form(Some("ignored".to_string())), Ok(()));
    assert_eq!(s.remote_terminals.len(), 1);
    assert_eq!(s.remote_terminals[0].address(), "root@example.com:22");
    assert!(!s.ui.remote_form_open);
    assert!(s.ui.remote_host.is_empty() && s.ui.remote_port.is_empty());
    assert!(s.ui.remote_user.is_empty() && s.ui.remote_password.is_empty());
    assert!(s.ui.remote_edit_idx.is_none());
}

#[test]
fn a_remote_is_not_saved_twice() {
    let mut s = state();
    s.remote_terminals =
        vec![remote("u", "h", 22), remote("v", "h", 22), remote("u", "h", 23), remote("u", "h", 22)];
    fill(&mut s, "h", "22", "u", "pw");
    assert_eq!(s.save_remote_from_form(None), Ok(()));
    let all: Vec<String> = s.remote_terminals.iter().map(|r| r.address()).collect();
    assert_eq!(all, vec!["v@h:22", "u@h:23", "u@h:22"]);
}

#[test]
fn a_remote_is_edited_in_place() {
    let mut s = state();
    s.remote_terminals = vec![remote("u", "h", 22), remote("v", "g", 22)];
    fill(&mut s, "new", "2200", "w", "");
    s.ui.remote_edit_idx = Some(0);
    assert_eq!(s.save_remote_from_form(None), Ok(()));
    let all: Vec<String> = s.remote_terminals.iter().map(|r| r.address()).collect();
    assert_eq!(all, vec!["w@new:2200", "v@g:22"]);
    fill(&mut s, "late", "", "", "");
    s.ui.remote_edit_idx = Some(9);
    assert_eq!(s.save_remote_from_form(None), Ok(()));
    assert_eq!(s.remote_terminals[2].address(), "root@late:22");
}
