//! The state file: bookmarks and recent directories, one record to a line.
//!
//! Blank lines and lines that begin with `#` mean nothing. A record is
//! `BOOKMARK <path>` or `RECENT_DIR <rfc3339 timestamp> <path>`. Records of
//! any other kind are passed over, so that a file from a newer build still
//! loads.

use vstd::prelude::*;

use crate::path;
use crate::path::PathStyle;
use crate::text;
use crate::timestamp;
use crate::timestamp::Timestamp;
use crate::types;
use crate::types::RecentDir;
use crate::types::RecentModel;

verus! {

broadcast use vstd::string::group_string_axioms;

/// The name of the state file.
pub const FILENAME: &'static str = "shell_state.ss";

/// The directory of the state file: the first of the two home directories
/// that is set.
pub open spec fn default_location(
    userprofile: Option<Seq<char>>,
    home: Option<Seq<char>>,
    style: PathStyle,
) -> Option<Seq<char>> {
    match (userprofile, home) {
        (Some(u), _) => Some(path::entry_of(style, u, FILENAME@)),
        (None, Some(h)) => Some(path::entry_of(style, h, FILENAME@)),
        (None, None) => None,
    }
}

/// Where the state file lives by default, given what the environment holds
/// for `USERPROFILE` and `HOME`.
pub fn default_path(
    userprofile: Option<String>,
    home: Option<String>,
    style: PathStyle,
) -> (r: Option<String>)
    ensures
        text::opt_text(r) == default_location(
            text::opt_text(userprofile),
            text::opt_text(home),
            style,
        ),
{
    match userprofile {
        Some(u) => Some(path::entry(style, u.as_str(), FILENAME)),
        None => match home {
            Some(h) => Some(path::entry(style, h.as_str(), FILENAME)),
            None => None,
        },
    }
}

/// Where the state file lives: its default location, or its bare name where
/// no home directory is known.
pub fn state_file(userprofile: Option<String>, home: Option<String>, style: PathStyle) -> (r: String)
    ensures
        r@ == match default_location(text::opt_text(userprofile), text::opt_text(home), style) {
            Some(p) => p,
            None => FILENAME@,
        },
{
    match default_path(userprofile, home, style) {
        Some(p) => p,
        None => FILENAME.to_string(),
    }
}

/// The directory that has to exist before the state file can be written.
pub fn parent_to_create(file: &str, style: PathStyle) -> (r: Option<String>)
    ensures
        match path::parent_of(style, file@) {
            Some(p) if p.len() > 0 => r is Some && r->0@ == p,
            _ => r is None,
        },
{
    match path::parent(style, file) {
        Some(p) => if p.as_str().is_empty() {
            None
        } else {
            Some(p)
        },
        None => None,
    }
}

/// The comment that a state file begins with.
pub open spec fn header() -> Seq<char> {
    "# Shell state — auto-generated. Do not edit while shell is running."@
}

/// The line of a bookmark.
pub open spec fn bookmark_line(p: Seq<char>) -> Seq<char> {
    "BOOKMARK "@ + p
}

/// The line of a recent directory.
pub open spec fn recent_line(r: RecentModel) -> Seq<char> {
    "RECENT_DIR "@ + timestamp::rfc3339_text(r.dt.secs, r.dt.nanos) + " "@ + r.path
}

/// The lines of a state file.
pub open spec fn saved_lines(bookmarks: Seq<Seq<char>>, recent: Seq<RecentModel>) -> Seq<
    Seq<char>,
> {
    seq![header()] + bookmarks.map_values(|p: Seq<char>| bookmark_line(p)) + recent.map_values(
        |r: RecentModel| recent_line(r),
    )
}

/// Lines as a file holds them, each with its end.
pub open spec fn file_of(lines: Seq<Seq<char>>) -> Seq<char>
    decreases lines.len(),
{
    if lines.len() == 0 {
        seq![]
    } else {
        lines[0].push('\n') + file_of(lines.drop_first())
    }
}

/// What a line of a state file says.
pub enum Record {
    Bookmark(Seq<char>),
    Recent(RecentModel),
    Other,
}

/// Reads one line. A recent directory has its timestamp up to the first
/// space and its path behind it.
pub open spec fn read_record(line: Seq<char>) -> Record {
    let t = text::trim(line);
    if t.len() == 0 || t[0] == '#' {
        Record::Other
    } else if "BOOKMARK "@.is_prefix_of(t) {
        Record::Bookmark(t.skip("BOOKMARK "@.len() as int))
    } else if "RECENT_DIR "@.is_prefix_of(t) {
        let rest = t.skip("RECENT_DIR "@.len() as int);
        let k = text::first_of(rest, ' ');
        if k < rest.len() {
            match timestamp::rfc3339_parsed(rest.take(k)) {
                Some((secs, nanos)) => Record::Recent(
                    RecentModel {
                        path: text::trim_start(rest.skip(k)),
                        dt: Timestamp { secs, nanos },
                    },
                ),
                None => Record::Other,
            }
        } else {
            Record::Other
        }
    } else {
        Record::Other
    }
}

/// The bookmarks among the lines, in order.
pub open spec fn bookmarks_in(lines: Seq<Seq<char>>) -> Seq<Seq<char>>
    decreases lines.len(),
{
    if lines.len() == 0 {
        seq![]
    } else {
        let before = bookmarks_in(lines.drop_last());
        match read_record(lines.last()) {
            Record::Bookmark(p) => before.push(p),
            _ => before,
        }
    }
}

/// The recent directories among the lines, in order.
pub open spec fn recents_in(lines: Seq<Seq<char>>) -> Seq<RecentModel>
    decreases lines.len(),
{
    if lines.len() == 0 {
        seq![]
    } else {
        let before = recents_in(lines.drop_last());
        match read_record(lines.last()) {
            Record::Recent(r) => before.push(r),
            _ => before,
        }
    }
}

/// The text of a state file that holds the bookmarks and the recent
/// directories. What its records can keep, the file gives back when it is
/// read: the same bookmarks and the same recent directories, in order.
pub fn save_state(bookmarks: &Vec<String>, recent_dirs: &Vec<RecentDir>) -> (r: String)
    requires
        forall|i: int| 0 <= i < recent_dirs@.len() ==> (#[trigger] recent_dirs@[i]).dt.valid(),
    ensures
        r@ == file_of(saved_lines(text::texts(bookmarks@), types::recents(recent_dirs@))),
        (forall|i: int| 0 <= i < bookmarks@.len() ==> storable(#[trigger] bookmarks@[i]@)) && (forall|
            i: int,
        |
            0 <= i < recent_dirs@.len() ==> storable_recent(#[trigger] recent_dirs@[i]@)) ==> {
            &&& bookmarks_in(text::split_at_each(r@, '\n')) == text::texts(bookmarks@)
            &&& recents_in(text::split_at_each(r@, '\n')) == types::recents(recent_dirs@)
        },
{
    let mut r = String::new();
    let ghost b = text::texts(bookmarks@);
    let ghost d = types::recents(recent_dirs@);
    let ghost bl = b.map_values(|p: Seq<char>| bookmark_line(p));
    let ghost rl = d.map_values(|x: RecentModel| recent_line(x));
    let ghost mut lines: Seq<Seq<char>> = seq![];
    assert(r@ =~= file_of(lines));
    r.append("# Shell state — auto-generated. Do not edit while shell is running.");
    r.push('\n');
    proof {
        lemma_file_of_push(lines, header());
        lines = lines.push(header());
        assert(r@ =~= file_of(lines));
        assert(lines =~= seq![header()] + bl.take(0));
    }
    let mut i: usize = 0;
    while i < bookmarks.len()
        invariant
            i <= bookmarks@.len() == bl.len(),
            b == text::texts(bookmarks@),
            bl == b.map_values(|p: Seq<char>| bookmark_line(p)),
            lines == seq![header()] + bl.take(i as int),
            r@ == file_of(lines),
        decreases bookmarks@.len() - i,
    {
        let ghost before = r@;
        r.append("BOOKMARK ");
        r.append(bookmarks[i].as_str());
        r.push('\n');
        proof {
            assert(bl[i as int] == bookmark_line(bookmarks@[i as int]@));
            lemma_file_of_push(lines, bl[i as int]);
            lines = lines.push(bl[i as int]);
            assert(r@ =~= before + bl[i as int].push('\n'));
            assert(lines =~= seq![header()] + bl.take(i + 1));
        }
        i += 1;
    }
    assert(bl.take(i as int) =~= bl);
    let mut k: usize = 0;
    assert(lines =~= seq![header()] + bl + rl.take(0));
    while k < recent_dirs.len()
        invariant
            k <= recent_dirs@.len() == rl.len(),
            d == types::recents(recent_dirs@),
            rl == d.map_values(|x: RecentModel| recent_line(x)),
            lines == seq![header()] + bl + rl.take(k as int),
            r@ == file_of(lines),
            forall|j: int| 0 <= j < recent_dirs@.len() ==> (#[trigger] recent_dirs@[j]).dt.valid(),
            forall|j: int|
                0 <= j < k && (#[trigger] d[j]).dt.four_digit_year() ==> stamp_reads_back(d[j].dt),
        decreases recent_dirs@.len() - k,
    {
        let ghost before = r@;
        let stamp = timestamp::to_rfc3339(recent_dirs[k].dt);
        r.append("RECENT_DIR ");
        r.append(stamp.as_str());
        r.append(" ");
        r.append(recent_dirs[k].path.as_str());
        r.push('\n');
        proof {
            assert(rl[k as int] == recent_line(recent_dirs@[k as int]@));
            lemma_file_of_push(lines, rl[k as int]);
            lines = lines.push(rl[k as int]);
            assert(r@ =~= before + rl[k as int].push('\n'));
            assert(lines =~= seq![header()] + bl + rl.take(k + 1));
        }
        k += 1;
    }
    assert(rl.take(k as int) =~= rl);
    assert(lines =~= saved_lines(b, d));
    proof {
        if (forall|j: int| 0 <= j < bookmarks@.len() ==> storable(#[trigger] bookmarks@[j]@)) && (
        forall|j: int|
            0 <= j < recent_dirs@.len() ==> storable_recent(#[trigger] recent_dirs@[j]@)) {
            assert forall|j: int| 0 <= j < b.len() implies storable(#[trigger] b[j]) by {
                assert(storable(bookmarks@[j]@));
            }
            assert forall|j: int| 0 <= j < d.len() implies storable_recent(#[trigger] d[j])
                && stamp_reads_back(d[j].dt) by {
                assert(storable_recent(recent_dirs@[j]@));
            }
            lemma_reads_back(b, d);
        }
    }
    r
}

proof fn lemma_file_of_push(lines: Seq<Seq<char>>, l: Seq<char>)
    ensures
        file_of(lines.push(l)) == file_of(lines) + l.push('\n'),
    decreases lines.len(),
{
    if lines.len() == 0 {
        assert(lines.push(l).drop_first() =~= seq![]);
        assert(file_of(lines.push(l).drop_first()) =~= seq![]);
        assert(file_of(lines.push(l)) =~= file_of(lines) + l.push('\n'));
    } else {
        lemma_file_of_push(lines.drop_first(), l);
        assert(lines.push(l).drop_first() =~= lines.drop_first().push(l));
        assert(file_of(lines.push(l)) =~= file_of(lines) + l.push('\n'));
    }
}

/// The recent directory of a record: the path in what follows the timestamp,
/// and the moment that the timestamp gives. There is none where it gives no
/// moment.
pub fn recent_record(tail: &str, parsed: Option<Timestamp>) -> (r: Option<RecentDir>)
    ensures
        match r {
            Some(d) => parsed == Some(d.dt) && d.path@ == text::trim_start(tail@),
            None => parsed is None,
        },
{
    match parsed {
        Some(dt) => Some(RecentDir { path: text::without_leading_white(tail), dt }),
        None => None,
    }
}

/// Reads one line.
fn parse_line(line: &str, bookmarks: &mut Vec<String>, recent_dirs: &mut Vec<RecentDir>)
    ensures
        text::texts(final(bookmarks)@) == match read_record(line@) {
            Record::Bookmark(p) => text::texts(old(bookmarks)@).push(p),
            _ => text::texts(old(bookmarks)@),
        },
        types::recents(final(recent_dirs)@) == match read_record(line@) {
            Record::Recent(r) => types::recents(old(recent_dirs)@).push(r),
            _ => types::recents(old(recent_dirs)@),
        },
        (forall|i: int| 0 <= i < old(recent_dirs)@.len() ==> (#[trigger] old(recent_dirs)@[i]).dt.valid())
            ==> (forall|i: int|
            0 <= i < final(recent_dirs)@.len() ==> (#[trigger] final(recent_dirs)@[i]).dt.valid()),
{
    let trimmed = text::trimmed(line);
    let first = text::chars_of(trimmed.as_str());
    if first.len() == 0 || first[0] == '#' {
        return;
    }
    if let Some(rest) = text::after_prefix(trimmed.as_str(), "BOOKMARK ") {
        let ghost before = text::texts(bookmarks@);
        let ghost p = rest@;
        bookmarks.push(rest);
        assert(text::texts(bookmarks@) =~= before.push(p));
        return;
    }
    if let Some(rest) = text::after_prefix(trimmed.as_str(), "RECENT_DIR ") {
        let v = text::chars_of(rest.as_str());
        let space: usize = text::find_char(v.as_slice(), ' ');
        if space < v.len() {
            let stamp = text::string_of(v.as_slice(), 0, space);
            let tail = text::string_of(v.as_slice(), space, v.len());
            assert(stamp@ == rest@.take(space as int));
            assert(tail@ == rest@.skip(space as int));
            let parsed = timestamp::parse_rfc3339(stamp.as_str());
            if let Some(d) = recent_record(tail.as_str(), parsed) {
                let ghost before = types::recents(recent_dirs@);
                let ghost m = d@;
                recent_dirs.push(d);
                assert(types::recents(recent_dirs@) =~= before.push(m));
            }
        }
    }
}

/// Reads a state file. `contents` is `None` where there is no file yet,
/// which is the same as an empty one.
pub fn load_state(contents: Option<&str>) -> (r: (Vec<String>, Vec<RecentDir>))
    ensures
        text::texts(r.0@) == match contents {
            Some(c) => bookmarks_in(text::split_at_each(c@, '\n')),
            None => seq![],
        },
        types::recents(r.1@) == match contents {
            Some(c) => recents_in(text::split_at_each(c@, '\n')),
            None => seq![],
        },
        forall|i: int| 0 <= i < r.1@.len() ==> (#[trigger] r.1@[i]).dt.valid(),
{
    let mut bookmarks: Vec<String> = Vec::new();
    let mut recent_dirs: Vec<RecentDir> = Vec::new();
    assert(text::texts(bookmarks@) =~= seq![]);
    assert(types::recents(recent_dirs@) =~= seq![]);
    let c = match contents {
        Some(c) => c,
        None => return (bookmarks, recent_dirs),
    };
    let v = text::chars_of(c);
    let len: usize = v.len();
    let ghost all = text::split_at_each(c@, '\n');
    let ghost mut done: Seq<Seq<char>> = seq![];
    let mut i: usize = 0;
    proof {
        assert(v@.skip(0) == v@);
        assert(done + all =~= all);
    }
    loop
        invariant
            i <= len == v@.len(),
            v@ == c@,
            all == text::split_at_each(c@, '\n'),
            all == done + text::split_at_each(v@.skip(i as int), '\n'),
            text::texts(bookmarks@) == bookmarks_in(done),
            types::recents(recent_dirs@) == recents_in(done),
            forall|k: int| 0 <= k < recent_dirs@.len() ==> (#[trigger] recent_dirs@[k]).dt.valid(),
            contents == Some(c),
        decreases len - i,
    {
        let ghost rest = v@.skip(i as int);
        let part = vstd::slice::slice_subrange(v.as_slice(), i, len);
        assert(part@ == rest);
        let n: usize = text::find_char(part, '\n');
        let line = text::string_of(part, 0, n);
        assert(line@ == rest.take(n as int));
        parse_line(line.as_str(), &mut bookmarks, &mut recent_dirs);
        let ghost more = done.push(line@);
        assert(more.drop_last() =~= done);
        assert(more.last() == line@);
        if n == part.len() {
            assert(rest.take(n as int) == rest);
            assert(text::split_at_each(rest, '\n') == seq![rest]);
            assert(all =~= more);
            return (bookmarks, recent_dirs);
        }
        let ghost tail = rest.skip(n + 1);
        assert(tail == v@.skip(i + n + 1));
        assert(text::split_at_each(rest, '\n') == seq![rest.take(n as int)] + text::split_at_each(
            tail,
            '\n',
        ));
        i = i + n + 1;
        proof {
            assert(all =~= more + text::split_at_each(tail, '\n'));
            done = more;
        }
    }
}

proof fn lemma_trim_keeps(s: Seq<char>)
    requires
        s.len() > 0,
        !text::is_white(s[0]),
        !text::is_white(s.last()),
    ensures
        text::trim(s) == s,
{
}

/// A line without an end in it is the first line of the file it begins.
proof fn lemma_split_line(l: Seq<char>, rest: Seq<char>)
    requires
        forall|i: int| 0 <= i < l.len() ==> l[i] != '\n',
    ensures
        text::split_at_each(l.push('\n') + rest, '\n') == seq![l] + text::split_at_each(rest, '\n'),
{
    let s = l.push('\n') + rest;
    text::lemma_first_of(s, '\n');
    let n = text::first_of(s, '\n');
    assert(s[l.len() as int] == '\n');
    if n < l.len() {
        assert(s[n] == l[n]);
    }
    assert(s.take(n) =~= l);
    assert(s.skip(n + 1) =~= rest);
}

proof fn lemma_split_file(lines: Seq<Seq<char>>)
    requires
        forall|k: int, i: int|
            0 <= k < lines.len() && 0 <= i < lines[k].len() ==> #[trigger] lines[k][i] != '\n',
    ensures
        text::split_at_each(file_of(lines), '\n') == lines.push(seq![]),
    decreases lines.len(),
{
    if lines.len() == 0 {
        let e: Seq<char> = seq![];
        assert(file_of(lines) =~= e);
        assert(text::split_at_each(e, '\n') =~= seq![e]);
        assert(lines.push(e) =~= seq![e]);
    } else {
        let tail = lines.drop_first();
        assert forall|k: int, i: int|
            0 <= k < tail.len() && 0 <= i < tail[k].len() implies #[trigger] tail[k][i] != '\n' by {
            assert(tail[k] == lines[k + 1]);
            assert(lines[k + 1][i] != '\n');
        }
        lemma_split_file(tail);
        assert forall|i: int| 0 <= i < lines[0].len() implies lines[0][i] != '\n' by {
            assert(lines[0][i] != '\n');
        }
        lemma_split_line(lines[0], file_of(tail));
        assert(seq![lines[0]] + tail.push(seq![]) =~= lines.push(seq![]));
    }
}

/// A path that a bookmark record keeps: one line, with something in it, that
/// does not end in white space.
pub open spec fn storable(p: Seq<char>) -> bool {
    &&& p.len() > 0
    &&& !text::is_white(p.last())
    &&& forall|i: int| 0 <= i < p.len() ==> #[trigger] p[i] != '\n'
}

/// A recent directory that its record keeps: moreover, its path does not
/// begin with white space and its year has four digits.
pub open spec fn storable_recent(r: RecentModel) -> bool {
    &&& storable(r.path)
    &&& !text::is_white(r.path[0])
    &&& r.dt.four_digit_year()
}

/// The timestamp text is one word and reads back as the same moment.
spec fn stamp_reads_back(t: Timestamp) -> bool {
    let s = timestamp::rfc3339_text(t.secs, t.nanos);
    &&& s.len() > 0
    &&& forall|i: int| 0 <= i < s.len() ==> !text::is_white(#[trigger] s[i])
    &&& timestamp::rfc3339_parsed(s) == Some((t.secs, t.nanos))
}

/// The records of two runs of lines are those of the one and then those of
/// the other.
proof fn lemma_bookmarks_in_concat(a: Seq<Seq<char>>, b: Seq<Seq<char>>)
    ensures
        bookmarks_in(a + b) == bookmarks_in(a) + bookmarks_in(b),
        recents_in(a + b) == recents_in(a) + recents_in(b),
    decreases b.len(),
{
    if b.len() == 0 {
        assert(a + b =~= a);
        assert(bookmarks_in(a) + bookmarks_in(b) =~= bookmarks_in(a));
        assert(recents_in(a) + recents_in(b) =~= recents_in(a));
    } else {
        lemma_bookmarks_in_concat(a, b.drop_last());
        assert((a + b).drop_last() =~= a + b.drop_last());
        assert((a + b).last() == b.last());
        assert(bookmarks_in(a + b) =~= bookmarks_in(a) + bookmarks_in(b));
        assert(recents_in(a + b) =~= recents_in(a) + recents_in(b));
    }
}

/// Reading a bookmark's line gives the bookmark back.
proof fn lemma_bookmark_line(p: Seq<char>)
    requires
        storable(p),
    ensures
        read_record(bookmark_line(p)) == Record::Bookmark(p),
        forall|i: int| 0 <= i < bookmark_line(p).len() ==> #[trigger] bookmark_line(p)[i] != '\n',
{
    reveal_strlit("BOOKMARK ");
    let l = bookmark_line(p);
    assert(l[0] == 'B');
    assert(l.last() == p.last());
    lemma_trim_keeps(l);
    assert("BOOKMARK "@ =~= l.subrange(0, "BOOKMARK "@.len() as int));
    assert(l.skip("BOOKMARK "@.len() as int) =~= p);
}

/// Reading a recent directory's line gives the recent directory back.
proof fn lemma_recent_line(r: RecentModel)
    requires
        storable_recent(r),
        stamp_reads_back(r.dt),
    ensures
        read_record(recent_line(r)) == Record::Recent(r),
        forall|i: int| 0 <= i < recent_line(r).len() ==> #[trigger] recent_line(r)[i] != '\n',
{
    reveal_strlit("RECENT_DIR ");
    reveal_strlit("BOOKMARK ");
    reveal_strlit(" ");
    let l = recent_line(r);
    let tag = "RECENT_DIR "@;
    let stamp = timestamp::rfc3339_text(r.dt.secs, r.dt.nanos);
    assert(l[0] == 'R');
    assert(l.last() == r.path.last());
    lemma_trim_keeps(l);
    assert(tag =~= l.subrange(0, tag.len() as int));
    if "BOOKMARK "@.is_prefix_of(l) {
        assert(l.subrange(0, "BOOKMARK "@.len() as int)[0] == 'B');
    }
    let rest = l.skip(tag.len() as int);
    assert(rest =~= stamp + " "@ + r.path);
    text::lemma_first_of(rest, ' ');
    let k = text::first_of(rest, ' ');
    assert(rest[stamp.len() as int] == ' ');
    if k < stamp.len() {
        assert(rest[k] == stamp[k]);
        assert(!text::is_white(stamp[k]));
    }
    assert(rest.take(k) =~= stamp);
    assert(rest.skip(k) =~= " "@ + r.path);
    assert(rest.skip(k).drop_first() =~= r.path);
    reveal_with_fuel(text::trim_start, 2);
    assert(text::trim_start(rest.skip(k)) == r.path);
    assert forall|i: int| 0 <= i < l.len() implies #[trigger] l[i] != '\n' by {
        let a = tag.len() as int;
        let b = a + stamp.len();
        if i >= a && i < b {
            assert(l[i] == stamp[i - a]);
            assert(!text::is_white(stamp[i - a]));
        } else if i > b {
            assert(l[i] == r.path[i - b - 1]);
        }
    }
}

proof fn lemma_bookmark_lines(b: Seq<Seq<char>>)
    requires
        forall|i: int| 0 <= i < b.len() ==> storable(#[trigger] b[i]),
    ensures
        bookmarks_in(b.map_values(|p: Seq<char>| bookmark_line(p))) == b,
        recents_in(b.map_values(|p: Seq<char>| bookmark_line(p))) == Seq::<RecentModel>::empty(),
    decreases b.len(),
{
    let l = b.map_values(|p: Seq<char>| bookmark_line(p));
    if b.len() == 0 {
        assert(bookmarks_in(l) =~= b);
    } else {
        lemma_bookmark_lines(b.drop_last());
        lemma_bookmark_line(b.last());
        assert(l.drop_last() =~= b.drop_last().map_values(|p: Seq<char>| bookmark_line(p)));
        assert(b.drop_last().push(b.last()) =~= b);
    }
}

proof fn lemma_recent_lines(d: Seq<RecentModel>)
    requires
        forall|i: int|
            0 <= i < d.len() ==> storable_recent(#[trigger] d[i]) && stamp_reads_back(d[i].dt),
    ensures
        recents_in(d.map_values(|r: RecentModel| recent_line(r))) == d,
        bookmarks_in(d.map_values(|r: RecentModel| recent_line(r))) == Seq::<Seq<char>>::empty(),
    decreases d.len(),
{
    let l = d.map_values(|r: RecentModel| recent_line(r));
    if d.len() == 0 {
        assert(recents_in(l) =~= d);
    } else {
        lemma_recent_lines(d.drop_last());
        lemma_recent_line(d.last());
        assert(l.drop_last() =~= d.drop_last().map_values(|r: RecentModel| recent_line(r)));
        assert(d.drop_last().push(d.last()) =~= d);
    }
}

/// Reading a state file gives back what was written.
proof fn lemma_reads_back(b: Seq<Seq<char>>, d: Seq<RecentModel>)
    requires
        forall|i: int| 0 <= i < b.len() ==> storable(#[trigger] b[i]),
        forall|i: int|
            0 <= i < d.len() ==> storable_recent(#[trigger] d[i]) && stamp_reads_back(d[i].dt),
    ensures
        bookmarks_in(text::split_at_each(file_of(saved_lines(b, d)), '\n')) == b,
        recents_in(text::split_at_each(file_of(saved_lines(b, d)), '\n')) == d,
{
    let bl = b.map_values(|p: Seq<char>| bookmark_line(p));
    let rl = d.map_values(|r: RecentModel| recent_line(r));
    let ls = saved_lines(b, d);
    let h = header();
    reveal_strlit("# Shell state — auto-generated. Do not edit while shell is running.");
    assert(h[0] == '#');
    assert(!text::is_white(h.last()));
    lemma_trim_keeps(h);
    assert forall|k: int, i: int| 0 <= k < ls.len() && 0 <= i < ls[k].len() implies #[trigger] ls[k][i]
        != '\n' by {
        if k == 0 {
            assert(ls[k] == h);
        } else if k <= b.len() {
            assert(ls[k] == bookmark_line(b[k - 1]));
            lemma_bookmark_line(b[k - 1]);
        } else {
            assert(ls[k] == recent_line(d[k - 1 - b.len()]));
            lemma_recent_line(d[k - 1 - b.len()]);
        }
    }
    lemma_split_file(ls);
    let e: Seq<char> = seq![];
    assert(ls.push(e).drop_last() =~= ls);
    assert(text::trim(e) == e);
    lemma_bookmarks_in_concat(seq![h] + bl, rl);
    lemma_bookmarks_in_concat(seq![h], bl);
    lemma_bookmark_lines(b);
    lemma_recent_lines(d);
    assert(seq![h].drop_last() =~= seq![]);
    assert(bookmarks_in(seq![h].drop_last()) =~= seq![]);
    assert(recents_in(seq![h].drop_last()) =~= seq![]);
    assert(bookmarks_in(seq![h]) =~= seq![]);
    assert(recents_in(seq![h]) =~= seq![]);
    assert(bookmarks_in(ls) =~= b);
    assert(recents_in(ls) =~= d);
}

/// What is written to the state file is read back, all of it and in order: every
/// path that is not empty, has no line break and does not end in white space,
/// and for a recent directory also does not begin with any, where the moment's
/// text is read as that moment.
pub proof fn law_the_state_is_read_back(b: Seq<Seq<char>>, d: Seq<RecentModel>)
    requires
        forall|i: int|
            #![trigger b[i]]
            0 <= i < b.len() ==> b[i].len() > 0 && !text::is_white(b[i].last())
                && !b[i].contains('\n'),
        forall|i: int|
            #![trigger d[i]]
            0 <= i < d.len() ==> d[i].path.len() > 0 && !text::is_white(d[i].path[0])
                && !text::is_white(d[i].path.last()) && !d[i].path.contains('\n')
                && -719528 * 86400 <= d[i].dt.secs < 2932897 * 86400,
    ensures
        (forall|i: int|
            #![trigger d[i]]
            0 <= i < d.len() ==> {
                let s = timestamp::rfc3339_text(d[i].dt.secs, d[i].dt.nanos);
                &&& s.len() > 0
                &&& forall|k: int| 0 <= k < s.len() ==> !text::is_white(#[trigger] s[k])
                &&& timestamp::rfc3339_parsed(s) == Some((d[i].dt.secs, d[i].dt.nanos))
            }) ==> {
            &&& bookmarks_in(text::split_at_each(file_of(saved_lines(b, d)), '\n')) == b
            &&& recents_in(text::split_at_each(file_of(saved_lines(b, d)), '\n')) == d
        },
{
    if forall|i: int| 0 <= i < d.len() ==> stamp_reads_back((#[trigger] d[i]).dt) {
        assert forall|i: int| 0 <= i < b.len() implies storable(#[trigger] b[i]) by {
            assert forall|k: int| 0 <= k < b[i].len() implies #[trigger] b[i][k] != '\n' by {
                if b[i][k] == '\n' {
                    assert(b[i].contains('\n'));
                }
            }
        }
        assert forall|i: int| 0 <= i < d.len() implies storable_recent(#[trigger] d[i])
            && stamp_reads_back(d[i].dt) by {
            let p = d[i].path;
            assert forall|k: int| 0 <= k < p.len() implies #[trigger] p[k] != '\n' by {
                if p[k] == '\n' {
                    assert(p.contains('\n'));
                }
            }
        }
        lemma_reads_back(b, d);
    }
}

/// Blank lines, comments and lines with a tag that is not known are passed
/// over, wherever they stand.
pub proof fn law_other_lines_are_passed_over(
    a: Seq<Seq<char>>,
    line: Seq<char>,
    b: Seq<Seq<char>>,
)
    ensures
        text::trim(line).len() == 0 || text::trim(line)[0] == '#' || !("BOOKMARK "@.is_prefix_of(
            text::trim(line),
        ) || "RECENT_DIR "@.is_prefix_of(text::trim(line))) ==> {
            &&& bookmarks_in(a.push(line) + b) == bookmarks_in(a + b)
            &&& recents_in(a.push(line) + b) == recents_in(a + b)
        },
{
    lemma_bookmarks_in_concat(a.push(line), b);
    lemma_bookmarks_in_concat(a, b);
    assert(a.push(line).drop_last() =~= a);
}

}
