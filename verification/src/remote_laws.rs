//! Remotes and sessions: which remote a text means, what the form saves, and
//! what is shown of a session.

use vstd::prelude::*;

use crate::commands::ActionModel;
use crate::place_laws;
use crate::remote;
use crate::state::Form;
use crate::state::Model;
use crate::state::Tab;
use crate::text;
use crate::text_laws;
use crate::timestamp::Timestamp;
use crate::types::OutKind;
use crate::types::OutType;
use crate::types::RemoteModel;
use crate::types::SessionModel;
use crate::types::SshMode;

verus! {

/// A text is empty or begins with white space.
pub open spec fn breaks_off(s: Seq<char>) -> bool {
    s.len() > 0 ==> text::is_white(s[0])
}

/// The first word of a text, and what follows it.
pub proof fn law_words_of_a_target(lead: Seq<char>, w: Seq<char>, s: Seq<char>)
    requires
        text_laws::blank(lead),
        w.len() > 0,
        text_laws::unbroken(w),
        breaks_off(s),
    ensures
        remote::first_word(lead + w + s) == w,
        remote::after_first_word(lead + w + s) == s,
{
    assert(lead + w + s =~= lead + (w + s));
    assert((w + s)[0] == w[0]);
    assert(!text::is_white(w[0]));
    text_laws::law_trim_start(lead, w + s);
    text_laws::law_first_word(w, s);
    assert((w + s).take(w.len() as int) =~= w);
    assert((w + s).skip(w.len() as int) =~= s);
}

/// A port is a number of at most 65535.
pub proof fn law_ports(s: Seq<char>, n: nat)
    ensures
        text::parsed_uint(s, 65535) is None ==> remote::port_in(s) is None,
        text::parsed_uint(s, 65535) == Some(n) ==> remote::port_in(s) is Some && remote::port_in(
            s,
        )->0 == n,
        n <= 65535 ==> remote::port_in(text::decimal(n)) == Some(n as u16),
        n > 65535 ==> remote::port_in(text::decimal(n)) is None,
        remote::port_in(seq![]) is None,
{
    text_laws::law_decimal(n, 65535);
    let e: Seq<char> = seq![];
    text_laws::law_numbers_read(e, 65535, 0);
    if text::parsed_uint(s, 65535) is Some {
        assert(text::parsed_uint(s, 65535)->0 <= 65535);
    }
}

/// What is written behind a target: nothing but white space, or white space, a
/// word, and whatever follows that.
pub open spec fn argument(s: Seq<char>, arg: Seq<char>) -> bool {
    &&& text_laws::unbroken(arg)
    &&& arg.len() == 0 ==> text_laws::blank(s)
    &&& arg.len() > 0 ==> exists|gap: Seq<char>, rest: Seq<char>|
        {
            &&& gap.len() > 0
            &&& text_laws::blank(gap)
            &&& breaks_off(rest)
            &&& s == #[trigger] gap.add(arg).add(rest)
        }
}

/// The word behind a target.
proof fn lemma_argument(s: Seq<char>, arg: Seq<char>)
    requires
        argument(s, arg),
    ensures
        breaks_off(s),
        remote::first_word(s) == arg,
{
    if arg.len() == 0 {
        let e: Seq<char> = seq![];
        if s.len() > 0 {
            assert(text::is_white(s[0]));
        }
        text_laws::law_trim_start(s, e);
        assert(s + e =~= s);
        assert(remote::first_word(s) =~= arg);
    } else {
        let (gap, rest) = choose|gap: Seq<char>, rest: Seq<char>|
            {
                &&& gap.len() > 0
                &&& text_laws::blank(gap)
                &&& breaks_off(rest)
                &&& s == #[trigger] gap.add(arg).add(rest)
            };
        assert(s == gap + arg + rest);
        assert(s[0] == gap[0]);
        law_words_of_a_target(gap, arg, rest);
    }
}

/// `user@host`, with or without `:port` and with or without a port behind it,
/// means that user at that host. The port behind it is the one, if it is a port;
/// else the port after the colon, if that is one; else 22. What stands before
/// and behind in white space counts for nothing.
pub proof fn law_targets_with_a_user(
    lead: Seq<char>,
    user: Seq<char>,
    host: Seq<char>,
    port: Seq<char>,
    s: Seq<char>,
    arg: Seq<char>,
    default_user: Seq<char>,
)
    requires
        text_laws::blank(lead),
        text_laws::unbroken(user),
        text_laws::unbroken(host),
        text_laws::unbroken(port),
        !user.contains('@'),
        !host.contains(':'),
        argument(s, arg),
    ensures
        remote::remote_meant(lead + (user + seq!['@'] + host) + s, default_user) == (RemoteModel {
            host,
            port: if remote::port_in(arg) is Some {
                remote::port_in(arg)->0
            } else {
                22
            },
            username: user,
        }),
        remote::remote_meant(
            lead + (user + seq!['@'] + (host + seq![':'] + port)) + s,
            default_user,
        ) == (RemoteModel {
            host,
            port: if remote::port_in(arg) is Some {
                remote::port_in(arg)->0
            } else if remote::port_in(port) is Some {
                remote::port_in(port)->0
            } else {
                22
            },
            username: user,
        }),
{
    let e: Seq<char> = seq![];
    let t = user + seq!['@'] + host;
    let hp = host + seq![':'] + port;
    let u = user + seq!['@'] + hp;
    assert(!text::is_white('@') && !text::is_white(':'));
    assert(text_laws::unbroken(t));
    assert(text_laws::unbroken(hp));
    assert(text_laws::unbroken(u));
    lemma_argument(s, arg);
    law_words_of_a_target(lead, t, s);
    law_words_of_a_target(lead, u, s);
    text_laws::law_first_of(user, '@', host);
    text_laws::law_first_of(user, '@', hp);
    text_laws::law_first_of(host, ':', port);
    text_laws::law_first_of(host, ':', e);
    assert(t.take(user.len() as int) =~= user);
    assert(t.skip(user.len() as int + 1) =~= host);
    assert(u.take(user.len() as int) =~= user);
    assert(u.skip(user.len() as int + 1) =~= hp);
    assert(host.take(host.len() as int) =~= host);
    assert(hp.take(host.len() as int) =~= host);
    assert(hp.skip(host.len() as int + 1) =~= port);
}

/// A host without a user means the default user at that host, with the port as
/// it is found behind a user.
pub proof fn law_targets_without_a_user(
    lead: Seq<char>,
    host: Seq<char>,
    port: Seq<char>,
    s: Seq<char>,
    arg: Seq<char>,
    default_user: Seq<char>,
)
    requires
        text_laws::blank(lead),
        host.len() > 0,
        text_laws::unbroken(host),
        text_laws::unbroken(port),
        !host.contains('@'),
        !host.contains(':'),
        !port.contains('@'),
        argument(s, arg),
    ensures
        remote::remote_meant(lead + host + s, default_user) == (RemoteModel {
            host,
            port: if remote::port_in(arg) is Some {
                remote::port_in(arg)->0
            } else {
                22
            },
            username: default_user,
        }),
        remote::remote_meant(lead + (host + seq![':'] + port) + s, default_user) == (RemoteModel {
            host,
            port: if remote::port_in(arg) is Some {
                remote::port_in(arg)->0
            } else if remote::port_in(port) is Some {
                remote::port_in(port)->0
            } else {
                22
            },
            username: default_user,
        }),
{
    let e: Seq<char> = seq![];
    let hp = host + seq![':'] + port;
    assert(!text::is_white(':'));
    assert(text_laws::unbroken(hp));
    assert(!hp.contains('@')) by {
        if hp.contains('@') {
            let i = choose|i: int| 0 <= i < hp.len() && hp[i] == '@';
            if i < host.len() {
                assert(host.contains(host[i]));
            } else {
                assert(port.contains(port[i - host.len() - 1]));
            }
        }
    }
    lemma_argument(s, arg);
    law_words_of_a_target(lead, host, s);
    law_words_of_a_target(lead, hp, s);
    text_laws::law_first_of(host, '@', e);
    text_laws::law_first_of(hp, '@', e);
    text_laws::law_first_of(host, ':', port);
    assert(host.take(host.len() as int) =~= host);
    assert(hp.take(host.len() as int) =~= host);
    assert(hp.skip(host.len() as int + 1) =~= port);
}

/// A remote is written as its user and host, and its address has the port
/// behind it. The two modes are each the other's other.
pub proof fn law_how_remotes_are_written(r: RemoteModel)
    ensures
        remote::login(r) == r.username + "@"@ + r.host,
        remote::address(r) == r.username + "@"@ + r.host + ":"@ + text::decimal(r.port as nat),
        remote::mode_name(SshMode::Exec) == "exec"@,
        remote::mode_name(SshMode::Pty) == "interactive"@,
        remote::other_mode(SshMode::Exec) == SshMode::Pty,
        remote::other_mode(SshMode::Pty) == SshMode::Exec,
{
}

/// `ssh` without arguments is answered with how it is used; with an index it
/// means the saved remote there, or is an error where there is none; with
/// anything else it means what that text says.
pub proof fn law_ssh(
    m: Model,
    a: Seq<char>,
    arg: Seq<char>,
    b: Seq<char>,
    i: nat,
    input: Seq<char>,
    user: Seq<char>,
    now: Timestamp,
)
    requires
        m.wf(),
        m.tabs[m.active].remote is None,
        text_laws::blank(a),
        text_laws::tight(arg),
        text_laws::blank(b),
        i <= usize::MAX,
    ensures
        ({
            let (r, action) = m.handled("ssh"@, input, a + arg + b, user, now);
            &&& arg.len() == 0 ==> (r, action) == (
                m.with_out(
                    "ssh: usage: ssh [user@]host [port]  |  ssh <saved-index>"@,
                    OutType::StdErr,
                    now,
                ),
                ActionModel::Done,
            )
            &&& arg == text::decimal(i) && i < m.remotes.len() ==> (r, action) == (
                m,
                ActionModel::Connect { remote: m.remotes[i as int] },
            )
            &&& arg == text::decimal(i) && i >= m.remotes.len() ==> (r, action) == (
                m.with_out(
                    "ssh: no saved remote at index "@ + text::decimal(i),
                    OutType::StdErr,
                    now,
                ),
                ActionModel::Done,
            )
            &&& arg.len() > 0 && text::parsed_uint(arg, usize::MAX as nat) is None ==> (r, action)
                == (m, ActionModel::Connect { remote: remote::remote_meant(arg, user) })
        }),
{
    text_laws::law_trim(a, arg, b);
    text_laws::law_decimal(i, usize::MAX as nat);
    reveal_strlit("ssh");
    reveal_strlit("exit");
    reveal_strlit("quit");
    assert("ssh"@.len() == 3 && "exit"@.len() == 4 && "quit"@.len() == 4);
}

/// The form is read without the white space around its fields. It needs a host;
/// a port that is left out is 22, and a user that is left out is `root`; a port
/// that is none is refused, with its text.
pub proof fn law_reading_the_form(
    f: Form,
    host: Seq<char>,
    port: Seq<char>,
    user: Seq<char>,
)
    requires
        text::trim(f.host) == host,
        text::trim(f.port) == port,
        text::trim(f.user) == user,
    ensures
        host.len() == 0 ==> remote::form_entry(f) == Err::<RemoteModel, Seq<char>>(
            "host is required"@,
        ),
        host.len() > 0 && port.len() > 0 && remote::port_in(port) is None ==> remote::form_entry(f)
            == Err::<RemoteModel, Seq<char>>("invalid port `"@ + port + "`"@),
        host.len() > 0 && (port.len() == 0 || remote::port_in(port) is Some) ==> {
            &&& remote::form_entry(f) is Ok
            &&& remote::form_entry(f)->Ok_0.host == host
            &&& port.len() == 0 ==> remote::form_entry(f)->Ok_0.port == 22
            &&& port.len() > 0 ==> remote::form_entry(f)->Ok_0.port == remote::port_in(port)->0
            &&& user.len() == 0 ==> remote::form_entry(f)->Ok_0.username == "root"@
            &&& user.len() > 0 ==> remote::form_entry(f)->Ok_0.username == user
        },
{
}

/// Saving the form puts what it holds among the remotes, in the place of the one
/// that is edited or else at the end, and empties and closes the form. Where the
/// form cannot be read, or its password cannot be kept, the error is that one,
/// and nothing changes. A form without a password keeps none.
pub proof fn law_saving_the_form(m: Model, error: Option<Seq<char>>, r: RemoteModel, e: Seq<char>)
    ensures
        remote::form_entry(m.form) == Err::<RemoteModel, Seq<char>>(e) ==> {
            &&& m.form_result(error) == Err::<RemoteModel, Seq<char>>(e)
            &&& m.form_saved(error) == m
        },
        remote::form_entry(m.form) == Ok::<RemoteModel, Seq<char>>(r) ==> {
            &&& m.form.password.len() > 0 && error is Some ==> {
                &&& m.form_result(error) == Err::<RemoteModel, Seq<char>>(
                    "couldn't save password: "@ + error->0,
                )
                &&& m.form_saved(error) == m
            }
            &&& m.form.password.len() == 0 || error is None ==> {
                let s = m.form_saved(error);
                &&& m.form_result(error) == Ok::<RemoteModel, Seq<char>>(r)
                &&& s.remotes == remote::entered(m.remotes, m.form.edit_idx, r)
                &&& place_laws::is_empty_form(s.form)
                &&& s == (Model { remotes: s.remotes, form: s.form, ..m })
            }
        },
{
}

/// A remote that replaces the one at an index changes that one alone. One that
/// is added, or whose index is none of the list, stands at the end; before it
/// stand the others in their order, without the copies of it that there were.
pub proof fn law_entered(
    list: Seq<RemoteModel>,
    x: RemoteModel,
    r: RemoteModel,
    i: usize,
    k: int,
)
    ensures
        i < list.len() ==> {
            let a = remote::entered(list, Some(i), r);
            &&& a.len() == list.len()
            &&& a[i as int] == r
            &&& 0 <= k < list.len() && k != i ==> a[k] == list[k]
        },
        i >= list.len() ==> remote::entered(list, Some(i), r) == remote::entered(list, None, r),
        remote::entered(seq![], None, r) == seq![r],
        remote::entered(list + seq![r], None, r) == remote::entered(list, None, r),
        x != r ==> remote::entered(list + seq![x], None, r) == remote::entered(
            list,
            None,
            r,
        ).drop_last() + seq![x, r],
{
    reveal(Seq::filter);
    let f = remote::other_than(r);
    let l = list + seq![x];
    let lr = list + seq![r];
    assert(l.drop_last() =~= list && l.last() == x);
    assert(lr.drop_last() =~= list && lr.last() == r);
    assert(f(r) == false);
    assert(x != r ==> f(x));
    let e: Seq<RemoteModel> = seq![];
    assert(e.filter(f) =~= e);
    assert(remote::entered(e, None, r) =~= seq![r]);
    assert(remote::entered(list, None, r).drop_last() =~= list.filter(f));
    if x != r {
        assert(remote::entered(l, None, r) =~= list.filter(f) + seq![x, r]);
    }
}

/// The session of the active tab is set there and nowhere else.
pub proof fn law_sessions_are_set(m: Model, s: Option<SessionModel>)
    requires
        m.wf(),
    ensures
        m.with_session(s) == (Model {
            tabs: m.tabs.update(m.active, Tab { remote: s, ..m.tabs[m.active] }),
            ..m
        }),
{
}

/// Connecting says where to, or that there is no password.
pub proof fn law_connecting(m: Model, r: RemoteModel, now: Timestamp)
    requires
        m.wf(),
    ensures
        m.connecting(r, true, now) == m.with_out(
            "Connecting to "@ + r.username + "@"@ + r.host + ":"@ + text::decimal(r.port as nat)
                + " …"@,
            OutType::Prompt,
            now,
        ),
        m.connecting(r, false, now) == m.with_out(
            "ssh: no saved password for "@ + r.username + "@"@ + r.host
                + "; add it in the Remote panel"@,
            OutType::StdErr,
            now,
        ),
{
    assert("Connecting to "@ + (r.username + "@"@ + r.host + ":"@ + text::decimal(r.port as nat))
        + " …"@ =~= "Connecting to "@ + r.username + "@"@ + r.host + ":"@ + text::decimal(
        r.port as nat,
    ) + " …"@);
    assert("ssh: no saved password for "@ + (r.username + "@"@ + r.host)
        + "; add it in the Remote panel"@ =~= "ssh: no saved password for "@ + r.username + "@"@
        + r.host + "; add it in the Remote panel"@);
}

/// Once connected, the active tab has that session and says so; where it failed,
/// the tab is as it was but for the error.
pub proof fn law_connected(m: Model, r: RemoteModel, s: SessionModel, e: Seq<char>, now: Timestamp)
    requires
        m.wf(),
    ensures
        m.connected(r, Ok(s), now) == m.with_session(Some(s)).with_out(
            "Connected to "@ + r.username + "@"@ + r.host,
            OutType::StdOut,
            now,
        ),
        m.connected(r, Err(e), now) == m.with_out("ssh: "@ + e, OutType::StdErr, now),
{
    assert("Connected to "@ + (r.username + "@"@ + r.host) =~= "Connected to "@ + r.username
        + "@"@ + r.host);
}

/// Disconnecting takes the session away and says so; a tab without one is as it
/// was.
pub proof fn law_disconnected(m: Model, now: Timestamp)
    requires
        m.wf(),
    ensures
        m.tabs[m.active].remote is None ==> m.disconnected(now) == m,
        m.tabs[m.active].remote is Some ==> m.disconnected(now) == m.with_session(None).with_out(
            "ssh: disconnected"@,
            OutType::StdOut,
            now,
        ),
{
}

/// The session takes the mode that it is in; where it was switched the wanted
/// mode is named, and where that failed the error is shown. Its label and
/// directory stay.
pub proof fn law_mode_set(
    m: Model,
    wanted: SshMode,
    mode: SshMode,
    e: Seq<char>,
    now: Timestamp,
)
    requires
        m.wf(),
    ensures
        m.tabs[m.active].remote is None ==> {
            &&& m.mode_set(wanted, mode, None, now) == m
            &&& m.mode_set(wanted, mode, Some(e), now) == m
        },
        m.tabs[m.active].remote matches Some(s) ==> {
            let t = m.with_session(
                Some(SessionModel { label: s.label, cwd: s.cwd, mode }),
            );
            &&& wanted == SshMode::Exec ==> m.mode_set(wanted, mode, None, now) == t.with_out(
                "ssh: switched to exec mode"@,
                OutType::StdOut,
                now,
            )
            &&& wanted == SshMode::Pty ==> m.mode_set(wanted, mode, None, now) == t.with_out(
                "ssh: switched to interactive mode"@,
                OutType::StdOut,
                now,
            )
            &&& m.mode_set(wanted, mode, Some(e), now) == t.with_out(
                "ssh: "@ + e,
                OutType::StdErr,
                now,
            )
        },
{
    reveal_strlit("ssh: switched to ");
    reveal_strlit("exec");
    reveal_strlit("interactive");
    reveal_strlit(" mode");
    reveal_strlit("ssh: switched to exec mode");
    reveal_strlit("ssh: switched to interactive mode");
    assert("ssh: switched to "@ + "exec"@ + " mode"@ =~= "ssh: switched to exec mode"@);
    assert("ssh: switched to "@ + "interactive"@ + " mode"@
        =~= "ssh: switched to interactive mode"@);
}

/// Lines are added to the output one by one, in order, each as its own stream.
pub proof fn law_lines(
    m: Model,
    lines: Seq<(OutKind, Seq<char>)>,
    t: Seq<char>,
    now: Timestamp,
)
    ensures
        m.with_lines(seq![], now) == m,
        m.with_lines(lines + seq![(OutKind::Stdout, t)], now) == m.with_lines(
            lines,
            now,
        ).with_out(t, OutType::StdOut, now),
        m.with_lines(lines + seq![(OutKind::Stderr, t)], now) == m.with_lines(
            lines,
            now,
        ).with_out(t, OutType::StdErr, now),
{
    let o = lines + seq![(OutKind::Stdout, t)];
    let e = lines + seq![(OutKind::Stderr, t)];
    assert(o.drop_last() =~= lines && o.last() == (OutKind::Stdout, t));
    assert(e.drop_last() =~= lines && e.last() == (OutKind::Stderr, t));
}

/// What a command printed on the remote is shown, and behind it the error where
/// there was one; the session is as the command left it. A tab that is no longer
/// connected is as it was.
pub proof fn law_remote_ran(
    m: Model,
    s: SessionModel,
    lines: Seq<(OutKind, Seq<char>)>,
    e: Seq<char>,
    now: Timestamp,
)
    requires
        m.wf(),
    ensures
        m.tabs[m.active].remote is None ==> {
            &&& m.remote_ran(s, lines, None, now) == m
            &&& m.remote_ran(s, lines, Some(e), now) == m
        },
        m.tabs[m.active].remote is Some ==> {
            let t = m.with_session(Some(s)).with_lines(lines, now);
            &&& m.remote_ran(s, lines, None, now) == t
            &&& m.remote_ran(s, lines, Some(e), now) == t.with_out(
                "ssh: "@ + e,
                OutType::StdErr,
                now,
            )
        },
{
}

/// What an interactive session has sent is one chunk of output, or none where it
/// sent nothing. Once its shell has exited the tab is disconnected and says so.
/// Any other tab is as it was.
pub proof fn law_pumped(m: Model, t: Seq<char>, now: Timestamp)
    requires
        m.wf(),
    ensures
        ({
            let s = m.tabs[m.active].remote;
            let interactive = s is Some && s->0.mode == SshMode::Pty;
            let shown = if t.len() > 0 {
                m.with_out(t, OutType::StdOut, now)
            } else {
                m
            };
            &&& !interactive ==> m.pumped(t, false, now) == m && m.pumped(t, true, now) == m
            &&& interactive ==> {
                &&& m.pumped(t, false, now) == shown
                &&& m.pumped(t, true, now) == shown.with_session(None).with_out(
                    "ssh: remote shell exited; disconnected"@,
                    OutType::StdOut,
                    now,
                )
            }
        }),
{
}

}
