//! SSH remotes: the saved ones, and the sessions of the tabs.

use vstd::prelude::*;

use crate::state::Form;
use crate::state::Model;
use crate::state::State;
use crate::state::Tab;
use crate::text;
use crate::timestamp::Timestamp;
use crate::types;
use crate::types::OutKind;
use crate::types::OutType;
use crate::types::RemoteModel;
use crate::types::RemoteSession;
use crate::types::RemoteTerminal;
use crate::types::SessionModel;
use crate::types::SshMode;

verus! {

broadcast use vstd::string::group_string_axioms;

/// The port that SSH listens on where nothing else is said.
pub const DEFAULT_PORT: u16 = 22;

/// The greatest port number.
pub const PORT_MAX: u64 = 65535;

/// The first word of a text; empty where there is none.
pub open spec fn first_word(s: Seq<char>) -> Seq<char> {
    let t = text::trim_start(s);
    t.take(text::first_white(t))
}

/// What follows the first word of a text.
pub open spec fn after_first_word(s: Seq<char>) -> Seq<char> {
    let t = text::trim_start(s);
    t.skip(text::first_white(t))
}

/// The port that a text gives, if it does.
pub open spec fn port_in(s: Seq<char>) -> Option<u16> {
    match text::parsed_uint(s, PORT_MAX as nat) {
        Some(n) => Some(n as u16),
        None => None,
    }
}

/// The remote that `[user@]host[:port] [port]` means. The port argument wins
/// over the suffix; the user is the given one where none is named, and the
/// port the default one.
pub open spec fn remote_meant(spec: Seq<char>, default_user: Seq<char>) -> RemoteModel {
    let target = first_word(spec);
    let at = text::first_of(target, '@');
    let username = if at < target.len() {
        target.take(at)
    } else {
        default_user
    };
    let hostport = if at < target.len() {
        target.skip(at + 1)
    } else {
        target
    };
    let colon = text::first_of(hostport, ':');
    let port = match port_in(first_word(after_first_word(spec))) {
        Some(p) => p,
        None => if colon < hostport.len() {
            match port_in(hostport.skip(colon + 1)) {
                Some(p) => p,
                None => DEFAULT_PORT,
            }
        } else {
            DEFAULT_PORT
        },
    };
    RemoteModel { host: hostport.take(colon), port, username }
}

/// Splits off the first word of a text.
fn split_word(s: &str) -> (r: (String, String))
    ensures
        r.0@ == first_word(s@),
        r.1@ == after_first_word(s@),
{
    let t = text::without_leading_white(s);
    let v = text::chars_of(t.as_str());
    let n = text::find_white(v.as_slice());
    let word = text::string_of(v.as_slice(), 0, n);
    let rest = text::string_of(v.as_slice(), n, v.len());
    proof {
        assert(word@ =~= v@.take(n as int));
        assert(rest@ =~= v@.skip(n as int));
    }
    (word, rest)
}

/// Reads a port.
fn parse_port(s: &str) -> (r: Option<u16>)
    ensures
        r == port_in(s@),
{
    match text::parse_uint(s, PORT_MAX) {
        Some(n) => Some(n as u16),
        None => None,
    }
}

/// The account name: the first of the two variables that is set, or `root`.
pub fn default_user(username: Option<String>, user: Option<String>) -> (r: String)
    ensures
        r@ == match (username, user) {
            (Some(n), _) => n@,
            (None, Some(u)) => u@,
            (None, None) => "root"@,
        },
{
    match username {
        Some(n) => n,
        None => match user {
            Some(u) => u,
            None => "root".to_string(),
        },
    }
}

/// Reads `[user@]host[:port] [port]`.
pub fn parse_remote_spec(spec: &str, default_user: &str) -> (r: RemoteTerminal)
    ensures
        r@ == remote_meant(spec@, default_user@),
{
    let (target, rest) = split_word(spec);
    let (second, _rest) = split_word(rest.as_str());
    let port_arg = parse_port(second.as_str());
    let v = text::chars_of(target.as_str());
    let at = text::find_char(v.as_slice(), '@');
    let mut from: usize = 0;
    let mut username = default_user.to_string();
    if at < v.len() {
        username = text::string_of(v.as_slice(), 0, at);
        from = at + 1;
    }
    let hostport = text::string_of(v.as_slice(), from, v.len());
    let h = text::chars_of(hostport.as_str());
    let colon = text::find_char(h.as_slice(), ':');
    let host = text::string_of(h.as_slice(), 0, colon);
    let mut port = DEFAULT_PORT;
    if colon < h.len() {
        let suffix = text::string_of(h.as_slice(), colon + 1, h.len());
        assert(suffix@ =~= h@.skip(colon + 1));
        if let Some(p) = parse_port(suffix.as_str()) {
            port = p;
        }
    }
    if let Some(p) = port_arg {
        port = p;
    }
    let r = RemoteTerminal { host, port, username };
    proof {
        let t = first_word(spec@);
        assert(t.take(at as int) =~= v@.subrange(0, at as int));
        assert(hostport@ =~= if at < t.len() {
            t.skip(at + 1)
        } else {
            t
        });
        assert(host@ =~= hostport@.take(colon as int));
        assert(r@.host == remote_meant(spec@, default_user@).host);
        assert(r@.port == remote_meant(spec@, default_user@).port);
        assert(r@.username == remote_meant(spec@, default_user@).username);
    }
    r
}

/// `user@host`.
pub open spec fn login(r: RemoteModel) -> Seq<char> {
    r.username + "@"@ + r.host
}

/// `user@host:port`.
pub open spec fn address(r: RemoteModel) -> Seq<char> {
    login(r) + ":"@ + text::decimal(r.port as nat)
}

impl RemoteTerminal {
    /// `user@host`.
    pub fn login(&self) -> (s: String)
        ensures
            s@ == login(self@),
    {
        let mut s = self.username.clone();
        s.append("@");
        s.append(self.host.as_str());
        s
    }

    /// `user@host:port`.
    pub fn address(&self) -> (s: String)
        ensures
            s@ == address(self@),
    {
        let mut s = self.login();
        s.append(":");
        text::push_decimal(&mut s, self.port as u64);
        s
    }
}

/// The other mode.
pub open spec fn other_mode(m: SshMode) -> SshMode {
    match m {
        SshMode::Exec => SshMode::Pty,
        SshMode::Pty => SshMode::Exec,
    }
}

/// What a mode is called.
pub open spec fn mode_name(m: SshMode) -> Seq<char> {
    match m {
        SshMode::Exec => "exec"@,
        SshMode::Pty => "interactive"@,
    }
}

/// Lines of output, each with its stream.
pub open spec fn lines_view(lines: Seq<(OutKind, String)>) -> Seq<(OutKind, Seq<char>)> {
    lines.map_values(|l: (OutKind, String)| (l.0, l.1@))
}

/// The remote that a form describes, or what is wrong with it.
pub open spec fn form_entry(f: Form) -> Result<RemoteModel, Seq<char>> {
    let host = text::trim(f.host);
    let user = text::trim(f.user);
    let port = text::trim(f.port);
    if host.len() == 0 {
        Err("host is required"@)
    } else if port.len() > 0 && port_in(port) is None {
        Err("invalid port `"@ + port + "`"@)
    } else {
        Ok(
            RemoteModel {
                host,
                port: if port.len() == 0 {
                    DEFAULT_PORT
                } else {
                    port_in(port)->0
                },
                username: if user.len() == 0 {
                    "root"@
                } else {
                    user
                },
            },
        )
    }
}

/// Whether a remote is another one than the given.
pub open spec fn other_than(r: RemoteModel) -> spec_fn(RemoteModel) -> bool {
    |x: RemoteModel| x != r
}

/// A list of remotes with an entry put in the place of another, or at the
/// end and nowhere else.
pub open spec fn entered(list: Seq<RemoteModel>, edit_idx: Option<usize>, r: RemoteModel) -> Seq<
    RemoteModel,
> {
    if edit_idx is Some && edit_idx->0 < list.len() {
        list.update(edit_idx->0 as int, r)
    } else {
        list.filter(other_than(r)).push(r)
    }
}

impl Model {
    /// The active tab's session replaced.
    pub open spec fn with_session(self, s: Option<SessionModel>) -> Model {
        self.with_cur(Tab { remote: s, ..self.cur() })
    }

    /// Lines of output added to the active tab.
    pub open spec fn with_lines(self, lines: Seq<(OutKind, Seq<char>)>, now: Timestamp) -> Model
        decreases lines.len(),
    {
        if lines.len() == 0 {
            self
        } else {
            self.with_lines(lines.drop_last(), now).with_out(
                lines.last().1,
                types::out_type(lines.last().0),
                now,
            )
        }
    }

    /// The report of an attempt to connect that is about to be made, or that
    /// cannot be made without a password.
    pub open spec fn connecting(self, r: RemoteModel, has_password: bool, now: Timestamp) -> Model {
        if has_password {
            self.with_out("Connecting to "@ + address(r) + " …"@, OutType::Prompt, now)
        } else {
            self.with_out(
                "ssh: no saved password for "@ + login(r) + "; add it in the Remote panel"@,
                OutType::StdErr,
                now,
            )
        }
    }

    /// The outcome of an attempt to connect.
    pub open spec fn connected(
        self,
        r: RemoteModel,
        result: Result<SessionModel, Seq<char>>,
        now: Timestamp,
    ) -> Model {
        match result {
            Ok(s) => self.with_session(Some(s)).with_out(
                "Connected to "@ + login(r),
                OutType::StdOut,
                now,
            ),
            Err(e) => self.with_out("ssh: "@ + e, OutType::StdErr, now),
        }
    }

    /// The active tab back to local.
    pub open spec fn disconnected(self, now: Timestamp) -> Model {
        if self.cur().remote is Some {
            self.with_session(None).with_out("ssh: disconnected"@, OutType::StdOut, now)
        } else {
            self
        }
    }

    /// The outcome of a change of mode.
    pub open spec fn mode_set(
        self,
        wanted: SshMode,
        mode: SshMode,
        error: Option<Seq<char>>,
        now: Timestamp,
    ) -> Model {
        match self.cur().remote {
            Some(s) => {
                let m = self.with_session(Some(SessionModel { mode, ..s }));
                match error {
                    None => m.with_out(
                        "ssh: switched to "@ + mode_name(wanted) + " mode"@,
                        OutType::StdOut,
                        now,
                    ),
                    Some(e) => m.with_out("ssh: "@ + e, OutType::StdErr, now),
                }
            },
            None => self,
        }
    }

    /// The outcome of a command on the remote.
    pub open spec fn remote_ran(
        self,
        session: SessionModel,
        lines: Seq<(OutKind, Seq<char>)>,
        error: Option<Seq<char>>,
        now: Timestamp,
    ) -> Model {
        if self.cur().remote is Some {
            let m = self.with_session(Some(session)).with_lines(lines, now);
            match error {
                Some(e) => m.with_out("ssh: "@ + e, OutType::StdErr, now),
                None => m,
            }
        } else {
            self
        }
    }

    /// Whether the active tab's session is interactive.
    pub open spec fn is_pty(self) -> bool {
        self.cur().remote is Some && self.cur().remote->0.mode == SshMode::Pty
    }

    /// What an interactive session has printed shown, and the session dropped
    /// where the remote shell has exited.
    pub open spec fn pumped(self, t: Seq<char>, closed: bool, now: Timestamp) -> Model {
        if self.is_pty() {
            let m = if t.len() > 0 {
                self.with_out(t, OutType::StdOut, now)
            } else {
                self
            };
            if closed {
                m.with_session(None).with_out(
                    "ssh: remote shell exited; disconnected"@,
                    OutType::StdOut,
                    now,
                )
            } else {
                m
            }
        } else {
            self
        }
    }

    /// A saved remote removed.
    pub open spec fn remote_removed(self, idx: int, now: Timestamp) -> Model {
        if 0 <= idx < self.remotes.len() {
            (Model { remotes: self.remotes.remove(idx), ..self }).with_out(
                "Removed remote "@ + address(self.remotes[idx]),
                OutType::StdOut,
                now,
            )
        } else {
            self
        }
    }

    /// What comes of saving the form, once the password, if one is entered,
    /// was handed to the keyring.
    pub open spec fn form_result(self, keyring_error: Option<Seq<char>>) -> Result<
        RemoteModel,
        Seq<char>,
    > {
        match form_entry(self.form) {
            Ok(r) => if self.form.password.len() > 0 && keyring_error is Some {
                Err("couldn't save password: "@ + keyring_error->0)
            } else {
                Ok(r)
            },
            Err(e) => Err(e),
        }
    }

    /// The form saved and emptied, where nothing is wrong with it.
    pub open spec fn form_saved(self, keyring_error: Option<Seq<char>>) -> Model {
        match self.form_result(keyring_error) {
            Ok(r) => Model {
                remotes: entered(self.remotes, self.form.edit_idx, r),
                form: crate::tabs::empty_form(),
                ..self
            },
            Err(_) => self,
        }
    }
}

impl State {
    /// Replaces the active tab's session. Returns the one it had.
    fn set_session(&mut self, s: Option<RemoteSession>) -> (before: Option<RemoteSession>)
        requires
            old(self).wf(),
        ensures
            final(self).wf(),
            final(self)@ == old(self)@.with_session(types::opt_session(s)),
            types::opt_session(before) == old(self)@.cur().remote,
    {
        let i: usize = self.ui.active_tab;
        let ghost m = types::opt_session(s);
        self.active_remote.push(s);
        let before = self.active_remote.swap_remove(i);
        assert(self@.tabs =~= old(self)@.with_session(m).tabs);
        before
    }

    /// The saved remote to connect to. Reports where there is none at the
    /// index.
    pub fn connect_remote(&mut self, idx: usize, now: Timestamp) -> (target: Option<RemoteTerminal>)
        requires
            old(self).wf(),
        ensures
            final(self).wf(),
            match target {
                Some(r) => idx < old(self)@.remotes.len() && r@ == old(self)@.remotes[idx as int]
                    && final(self)@ == old(self)@,
                None => idx >= old(self)@.remotes.len() && final(self)@ == old(self)@.with_out(
                    "ssh: no saved remote at index "@ + text::decimal(idx as nat),
                    OutType::StdErr,
                    now,
                ),
            },
    {
        if idx < self.remote_terminals.len() {
            return Some(self.remote_terminals[idx].copy());
        }
        let mut msg = "ssh: no saved remote at index ".to_string();
        text::push_decimal(&mut msg, idx as u64);
        self.push_out_at(msg, OutType::StdErr, now);
        None
    }

    /// The remote that the arguments of `ssh` mean: a saved one by its index,
    /// or `[user@]host[:port] [port]`. Reports where they mean none.
    pub fn cmd_ssh(&mut self, args: &str, default_user: &str, now: Timestamp) -> (target: Option<
        RemoteTerminal,
    >)
        requires
            old(self).wf(),
        ensures
            final(self).wf(),
            final(self)@ == old(self)@.ssh_reported(args@, now),
            match target {
                Some(r) => old(self)@.ssh_target(args@, default_user@) == Some(r@),
                None => old(self)@.ssh_target(args@, default_user@) is None,
            },
    {
        let args = text::trimmed(args);
        if args.as_str().is_empty() {
            self.push_out_at(
                "ssh: usage: ssh [user@]host [port]  |  ssh <saved-index>".to_string(),
                OutType::StdErr,
                now,
            );
            return None;
        }
        if let Some(idx) = text::parse_uint(args.as_str(), usize::MAX as u64) {
            return self.connect_remote(idx as usize, now);
        }
        Some(parse_remote_spec(args.as_str(), default_user))
    }

    /// Reports that a connection is about to be made, or that there is no
    /// password for it. Returns whether to connect.
    pub fn connect_with(&mut self, target: &RemoteTerminal, has_password: bool, now: Timestamp) -> (go:
        bool)
        requires
            old(self).wf(),
        ensures
            final(self).wf(),
            final(self)@ == old(self)@.connecting(target@, has_password, now),
            go == has_password,
    {
        if !has_password {
            let mut msg = "ssh: no saved password for ".to_string();
            msg.append(target.login().as_str());
            msg.append("; add it in the Remote panel");
            self.push_out_at(msg, OutType::StdErr, now);
            return false;
        }
        let mut msg = "Connecting to ".to_string();
        msg.append(target.address().as_str());
        msg.append(" …");
        self.push_out_at(msg, OutType::Prompt, now);
        true
    }

    /// Takes over the outcome of an attempt to connect. Returns the session
    /// that it replaces, which is to be taken down.
    pub fn connect_done(
        &mut self,
        target: &RemoteTerminal,
        result: Result<RemoteSession, String>,
        now: Timestamp,
    ) -> (replaced: Option<RemoteSession>)
        requires
            old(self).wf(),
        ensures
            final(self).wf(),
            final(self)@ == old(self)@.connected(
                target@,
                match result {
                    Ok(s) => Ok(s@),
                    Err(e) => Err(e@),
                },
                now,
            ),
            types::opt_session(replaced) == if result is Ok {
                old(self)@.cur().remote
            } else {
                None
            },
    {
        match result {
            Ok(session) => {
                let before = self.set_session(Some(session));
                let mut msg = "Connected to ".to_string();
                msg.append(target.login().as_str());
                self.push_out_at(msg, OutType::StdOut, now);
                before
            },
            Err(e) => {
                self.report("ssh: ", e.as_str(), now);
                None
            },
        }
    }

    /// Reports an error behind the name of what failed.
    pub(crate) fn report(&mut self, what: &str, error: &str, now: Timestamp)
        requires
            old(self).wf(),
        ensures
            final(self).wf(),
            final(self)@ == old(self)@.with_out(what@ + error@, OutType::StdErr, now),
    {
        let mut msg = what.to_string();
        msg.append(error);
        self.push_out_at(msg, OutType::StdErr, now);
    }

    /// Takes the active tab back to local. Returns its session, which is to be
    /// taken down.
    pub fn disconnect_remote(&mut self, now: Timestamp) -> (session: Option<RemoteSession>)
        requires
            old(self).wf(),
        ensures
            final(self).wf(),
            final(self)@ == old(self)@.disconnected(now),
            types::opt_session(session) == old(self)@.cur().remote,
    {
        if !self.is_remote() {
            return None;
        }
        let before = self.set_session(None);
        self.push_out_at("ssh: disconnected".to_string(), OutType::StdOut, now);
        before
    }

    /// The mode that the active tab's session is to switch to.
    pub fn toggle_remote_mode(&self) -> (next: Option<SshMode>)
        requires
            self.wf(),
        ensures
            next == match self@.cur().remote {
                Some(s) => Some(other_mode(s.mode)),
                None => None,
            },
    {
        match self.active_remote() {
            Some(s) => Some(
                match s.mode {
                    SshMode::Exec => SshMode::Pty,
                    SshMode::Pty => SshMode::Exec,
                },
            ),
            None => None,
        }
    }

    /// Takes over the outcome of a change of mode: the mode that was asked
    /// for, the one the session is in now, and the error, if there was one.
    pub fn remote_mode_set(
        &mut self,
        wanted: SshMode,
        mode: SshMode,
        error: Option<String>,
        now: Timestamp,
    )
        requires
            old(self).wf(),
        ensures
            final(self).wf(),
            final(self)@ == old(self)@.mode_set(wanted, mode, text::opt_text(error), now),
    {
        let session = match self.active_remote() {
            Some(s) => RemoteSession { label: s.label.clone(), cwd: s.cwd.clone(), mode },
            None => {
                return;
            },
        };
        let _before = self.set_session(Some(session));
        match error {
            None => {
                let mut msg = "ssh: switched to ".to_string();
                match wanted {
                    SshMode::Exec => msg.append("exec"),
                    SshMode::Pty => msg.append("interactive"),
                }
                msg.append(" mode");
                self.push_out_at(msg, OutType::StdOut, now);
            },
            Some(e) => self.report("ssh: ", e.as_str(), now),
        }
    }

    /// Adds lines of output to the active tab, in order.
    pub fn push_lines(&mut self, lines: Vec<(OutKind, String)>, now: Timestamp)
        requires
            old(self).wf(),
        ensures
            final(self).wf(),
            final(self)@ == old(self)@.with_lines(lines_view(lines@), now),
    {
        let ghost all = lines_view(lines@);
        let mut i: usize = 0;
        while i < lines.len()
            invariant
                i <= lines@.len(),
                all == lines_view(lines@),
                self.wf(),
                self@ == old(self)@.with_lines(all.take(i as int), now),
            decreases lines@.len() - i,
        {
            assert(all.take(i + 1).drop_last() =~= all.take(i as int));
            assert(all.take(i + 1).last() == all[i as int]);
            self.push_out_at(lines[i].1.clone(), types::out_type_for(lines[i].0), now);
            i += 1;
        }
        assert(all.take(i as int) =~= all);
    }

    /// Takes over the outcome of a command on the active tab's remote: the
    /// session after it, what it printed, and the error, if there was one.
    pub fn run_remote_exec(
        &mut self,
        session: RemoteSession,
        lines: Vec<(OutKind, String)>,
        error: Option<String>,
        now: Timestamp,
    )
        requires
            old(self).wf(),
        ensures
            final(self).wf(),
            final(self)@ == old(self)@.remote_ran(
                session@,
                lines_view(lines@),
                text::opt_text(error),
                now,
            ),
    {
        if !self.is_remote() {
            return;
        }
        let _before = self.set_session(Some(session));
        self.push_lines(lines, now);
        if let Some(e) = error {
            self.report("ssh: ", e.as_str(), now);
        }
    }

    /// The bytes that a line of input sends to the active tab's session: the
    /// line and a carriage return.
    pub fn send_remote_line(&self, line: &str) -> (bytes: Option<Vec<u8>>)
        requires
            self.wf(),
        ensures
            bytes is Some <==> self@.cur().remote is Some,
            bytes is Some ==> bytes->0@ == vstd::utf8::encode_utf8(line@).push(13u8),
    {
        if !self.is_remote() {
            return None;
        }
        let mut bytes = line.as_bytes_vec();
        bytes.push(13u8);
        Some(bytes)
    }

    /// Whether the active tab's session is interactive.
    pub fn is_pty(&self) -> (r: bool)
        requires
            self.wf(),
        ensures
            r == self@.is_pty(),
    {
        match self.active_remote() {
            Some(s) => match s.mode {
                SshMode::Pty => true,
                SshMode::Exec => false,
            },
            None => false,
        }
    }

    /// Takes over what the active tab's interactive session has printed, and
    /// whether the remote shell has exited. Returns whether an interactive
    /// session goes on, and a session that is to be taken down.
    pub fn pump_pty(&mut self, drained: &[u8], closed: bool, now: Timestamp) -> (r: (
        bool,
        Option<RemoteSession>,
    ))
        requires
            old(self).wf(),
        ensures
            final(self).wf(),
            final(self)@ == old(self)@.pumped(text::utf8_lossy(drained@), closed, now),
            old(self)@.is_pty() && vstd::utf8::valid_utf8(drained@) ==> text::utf8_lossy(drained@)
                == vstd::utf8::decode_utf8(drained@),
            drained@.len() == 0 && !closed ==> final(self)@ == old(self)@,
            r.0 == (old(self)@.is_pty() && !closed),
            types::opt_session(r.1) == if old(self)@.is_pty() && closed {
                old(self)@.cur().remote
            } else {
                None
            },
    {
        if !self.is_pty() {
            return (false, None);
        }
        let shown = text::from_utf8_lossy(drained);
        if !shown.as_str().is_empty() {
            self.push_out_at(shown, OutType::StdOut, now);
        }
        if closed {
            let before = self.set_session(None);
            self.push_out_at(
                "ssh: remote shell exited; disconnected".to_string(),
                OutType::StdOut,
                now,
            );
            return (false, before);
        }
        (true, None)
    }

    /// Removes a saved remote. Returns it: its password is to be deleted, and
    /// the state saved.
    pub fn remove_remote(&mut self, idx: usize, now: Timestamp) -> (removed: Option<RemoteTerminal>)
        requires
            old(self).wf(),
        ensures
            final(self).wf(),
            final(self)@ == old(self)@.remote_removed(idx as int, now),
            match removed {
                Some(r) => idx < old(self)@.remotes.len() && r@ == old(self)@.remotes[idx as int],
                None => idx >= old(self)@.remotes.len(),
            },
    {
        if idx >= self.remote_terminals.len() {
            return None;
        }
        let r = self.remote_terminals.remove(idx);
        assert(self@.remotes =~= old(self)@.remotes.remove(idx as int));
        let mut msg = "Removed remote ".to_string();
        msg.append(r.address().as_str());
        self.push_out_at(msg, OutType::StdOut, now);
        Some(r)
    }

    /// The remote that the form describes, or what is wrong with it.
    pub fn remote_from_form(&self) -> (r: Result<RemoteTerminal, String>)
        ensures
            match r {
                Ok(t) => form_entry(self@.form) == Ok::<RemoteModel, Seq<char>>(t@),
                Err(e) => form_entry(self@.form) == Err::<RemoteModel, Seq<char>>(e@),
            },
    {
        let host = text::trimmed(self.ui.remote_host.as_str());
        if host.as_str().is_empty() {
            return Err("host is required".to_string());
        }
        let user = text::trimmed(self.ui.remote_user.as_str());
        let username = if user.as_str().is_empty() {
            "root".to_string()
        } else {
            user
        };
        let p = text::trimmed(self.ui.remote_port.as_str());
        let mut port = DEFAULT_PORT;
        if !p.as_str().is_empty() {
            match parse_port(p.as_str()) {
                Some(n) => {
                    port = n;
                },
                None => {
                    let mut msg = "invalid port `".to_string();
                    msg.append(p.as_str());
                    msg.append("`");
                    return Err(msg);
                },
            }
        }
        Ok(RemoteTerminal { host, port, username })
    }

    /// The remote whose password is to be handed to the keyring before the form
    /// is saved: the one that the form describes, where nothing is wrong with it
    /// and a password is entered.
    pub fn password_to_store(&self) -> (r: Option<RemoteTerminal>)
        ensures
            match r {
                Some(t) => form_entry(self@.form) == Ok::<RemoteModel, Seq<char>>(t@)
                    && self@.form.password.len() > 0,
                None => form_entry(self@.form) is Err || self@.form.password.len() == 0,
            },
    {
        if self.ui.remote_password.as_str().is_empty() {
            return None;
        }
        match self.remote_from_form() {
            Ok(t) => Some(t),
            Err(_) => None,
        }
    }

    /// Saves the remote that the form describes, in the place of the one that
    /// is edited, or at the end and nowhere else, and empties the form.
    /// `keyring_error` is what came of storing the password, where one is
    /// entered. The state is then to be saved.
    pub fn save_remote_from_form(&mut self, keyring_error: Option<String>) -> (r: Result<(), String>)
        requires
            old(self).wf(),
        ensures
            final(self).wf(),
            final(self)@ == old(self)@.form_saved(text::opt_text(keyring_error)),
            match r {
                Ok(_) => old(self)@.form_result(text::opt_text(keyring_error)) is Ok,
                Err(e) => old(self)@.form_result(text::opt_text(keyring_error)) == Err::<
                    RemoteModel,
                    Seq<char>,
                >(e@),
            },
    {
        let entry = match self.remote_from_form() {
            Ok(t) => t,
            Err(e) => {
                return Err(e);
            },
        };
        if !self.ui.remote_password.as_str().is_empty() {
            if let Some(e) = keyring_error {
                let mut msg = "couldn't save password: ".to_string();
                msg.append(e.as_str());
                return Err(msg);
            }
        }
        let ghost m = entry@;
        enter_remote(&mut self.remote_terminals, self.ui.remote_edit_idx, entry);
        self.ui.remote_form_open = false;
        self.ui.remote_edit_idx = None;
        self.ui.remote_host = String::new();
        self.ui.remote_port = String::new();
        self.ui.remote_user = String::new();
        self.ui.remote_password = String::new();
        proof {
            assert(self@.form =~= crate::tabs::empty_form());
            assert(self@.tabs =~= old(self)@.tabs);
        }
        Ok(())
    }
}

/// Whether two remotes are the same.
fn same_remote(a: &RemoteTerminal, b: &RemoteTerminal) -> (r: bool)
    ensures
        r == (a@ == b@),
{
    text::same_text(a.host.as_str(), b.host.as_str()) && a.port == b.port && text::same_text(
        a.username.as_str(),
        b.username.as_str(),
    )
}

/// Puts an entry in the place of another, or at the end and nowhere else.
fn enter_remote(list: &mut Vec<RemoteTerminal>, edit_idx: Option<usize>, entry: RemoteTerminal)
    ensures
        types::remotes(final(list)@) == entered(types::remotes(old(list)@), edit_idx, entry@),
{
    let ghost all = types::remotes(list@);
    let ghost e = entry@;
    if let Some(i) = edit_idx {
        if i < list.len() {
            list[i] = entry;
            assert(types::remotes(list@) =~= all.update(i as int, e));
            return;
        }
    }
    let ghost p = other_than(e);
    let mut kept: Vec<RemoteTerminal> = Vec::new();
    let mut i: usize = 0;
    proof {
        reveal(Seq::filter);
        assert(all.take(0) =~= seq![]);
        assert(types::remotes(kept@) =~= all.take(0).filter(p));
    }
    while i < list.len()
        invariant
            i <= list@.len(),
            list@ == old(list)@,
            all == types::remotes(list@),
            e == entry@,
            p == other_than(e),
            types::remotes(kept@) == all.take(i as int).filter(p),
        decreases list@.len() - i,
    {
        let ghost before = types::remotes(kept@);
        proof {
            reveal(Seq::filter);
            assert(all.take(i + 1).drop_last() =~= all.take(i as int));
            assert(all.take(i + 1).last() == list@[i as int]@);
        }
        if !same_remote(&list[i], &entry) {
            kept.push(list[i].copy());
            assert(types::remotes(kept@) =~= before.push(list@[i as int]@));
        }
        i += 1;
    }
    assert(all.take(i as int) =~= all);
    let ghost before = types::remotes(kept@);
    kept.push(entry);
    assert(types::remotes(kept@) =~= before.push(e));
    *list = kept;
}

impl Model {
    /// The remote that the arguments of `ssh` mean, if they mean one.
    pub open spec fn ssh_target(self, args: Seq<char>, default_user: Seq<char>) -> Option<
        RemoteModel,
    > {
        let a = text::trim(args);
        if a.len() == 0 {
            None
        } else {
            match text::parsed_uint(a, usize::MAX as nat) {
                Some(n) => if n < self.remotes.len() {
                    Some(self.remotes[n as int])
                } else {
                    None
                },
                None => Some(remote_meant(a, default_user)),
            }
        }
    }

    /// The report of arguments of `ssh` that mean no remote.
    pub open spec fn ssh_reported(self, args: Seq<char>, now: Timestamp) -> Model {
        let a = text::trim(args);
        if a.len() == 0 {
            self.with_out(
                "ssh: usage: ssh [user@]host [port]  |  ssh <saved-index>"@,
                OutType::StdErr,
                now,
            )
        } else {
            match text::parsed_uint(a, usize::MAX as nat) {
                Some(n) => if n < self.remotes.len() {
                    self
                } else {
                    self.with_out(
                        "ssh: no saved remote at index "@ + text::decimal(n),
                        OutType::StdErr,
                        now,
                    )
                },
                None => self,
            }
        }
    }
}

}
