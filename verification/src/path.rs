//! Paths as text.
//!
//! A path is its text, divided into components at its separators: repeated
//! separators and `.` count for nothing (except a `.` that a relative path
//! begins with), and so does a separator at the end. Two paths are the same
//! when their components are.
//!
//! Systems differ in how they write paths. On Unix the separator is `/` and a
//! leading one is the root. On Windows `\` separates as well, and a path can
//! begin with a prefix: a drive (`C:`), a share (`\\server\share`), a device
//! (`\\.\name`), or one of these behind `\\?\`, which takes everything up to
//! the next `\` as it stands.

use vstd::prelude::*;

use crate::text;

verus! {

broadcast use vstd::string::group_string_axioms;

/// How a system writes its paths.
#[derive(Clone, Copy, Debug, PartialEq, Eq, Structural)]
pub enum PathStyle {
    Unix,
    Windows,
}

/// What a component is. The first six are prefixes.
#[derive(Clone, Copy, Debug, PartialEq, Eq, Structural)]
pub enum Tag {
    Disk,
    Share,
    Device,
    Verbatim,
    VerbatimDisk,
    VerbatimShare,
    Root,
    Name,
}

/// A stretch of the text of a path.
#[derive(Clone, Copy, Debug, PartialEq, Eq, Structural)]
pub struct Span {
    pub start: usize,
    pub end: usize,
}

/// Where a component stands in the text of its path: `a` is its name, the
/// letter of a drive, or the server of a share, and `b` the name of a share.
#[derive(Clone, Copy, Debug, PartialEq, Eq, Structural)]
pub struct Piece {
    pub tag: Tag,
    pub a: Span,
    pub b: Span,
}

/// The prefix of a path, and how many characters of the text it takes.
#[derive(Clone, Copy, Debug, PartialEq, Eq, Structural)]
pub struct Head {
    pub prefix: Option<Piece>,
    pub len: usize,
}

/// A component. A drive is its letter, whether written large or small.
#[verifier::ext_equal]
pub struct Part {
    pub tag: Tag,
    pub drive: int,
    pub a: Seq<char>,
    pub b: Seq<char>,
}

/// The stretch from `i` to `j`.
pub open spec fn span(i: int, j: int) -> Span {
    Span { start: i as usize, end: j as usize }
}

/// No stretch at all.
pub open spec fn no_span() -> Span {
    Span { start: 0, end: 0 }
}

/// The text of a stretch.
pub open spec fn span_text(t: Seq<char>, s: Span) -> Seq<char> {
    t.subrange(s.start as int, s.end as int)
}

/// The component of a piece of the text.
pub open spec fn part(t: Seq<char>, p: Piece) -> Part {
    if p.tag == Tag::Disk || p.tag == Tag::VerbatimDisk {
        Part {
            tag: p.tag,
            drive: drive_number(t[p.a.start as int]),
            a: Seq::empty(),
            b: Seq::empty(),
        }
    } else {
        Part { tag: p.tag, drive: 0, a: span_text(t, p.a), b: span_text(t, p.b) }
    }
}

/// The code of a letter, written large.
pub open spec fn drive_number(c: char) -> int {
    if 'a' <= c <= 'z' {
        c as int - 32
    } else {
        c as int
    }
}

/// A separator of the system.
pub open spec fn is_sep(style: PathStyle, c: char) -> bool {
    c == '/' || (style == PathStyle::Windows && c == '\\')
}

/// The separator that the system writes.
pub open spec fn main_sep(style: PathStyle) -> char {
    match style {
        PathStyle::Unix => '/',
        PathStyle::Windows => '\\',
    }
}

/// A separator of a path; behind `\\?\` only a backslash is one.
pub open spec fn splits(style: PathStyle, verbatim: bool, c: char) -> bool {
    if verbatim {
        c == '\\'
    } else {
        is_sep(style, c)
    }
}

/// Where the first separator from `i` on stands; the length where there is
/// none.
pub open spec fn next_sep(style: PathStyle, verbatim: bool, t: Seq<char>, i: int) -> int
    decreases t.len() - i,
{
    if i < 0 || i >= t.len() {
        t.len() as int
    } else if splits(style, verbatim, t[i]) {
        i
    } else {
        next_sep(style, verbatim, t, i + 1)
    }
}

/// Whether a separator of the system stands at `i`.
pub open spec fn sep_at(style: PathStyle, t: Seq<char>, i: int) -> bool {
    0 <= i < t.len() && is_sep(style, t[i])
}

/// Whether a drive stands at `i`: a letter and a colon.
pub open spec fn drive_at(t: Seq<char>, i: int) -> bool {
    0 <= i && i + 1 < t.len() && ('a' <= t[i] <= 'z' || 'A' <= t[i] <= 'Z') && t[i + 1] == ':'
}

/// Whether the text begins with `\\?\`.
pub open spec fn is_verbatim_text(t: Seq<char>) -> bool {
    t.len() >= 4 && t[0] == '\\' && t[1] == '\\' && t[2] == '?' && t[3] == '\\'
}

/// A prefix of one name, which ends at `j`.
pub open spec fn one_name(tag: Tag, i: int, j: int) -> Head {
    Head { prefix: Some(Piece { tag, a: span(i, j), b: no_span() }), len: j as usize }
}

/// A drive at `i`.
pub open spec fn drive_head(tag: Tag, i: int) -> Head {
    Head {
        prefix: Some(Piece { tag, a: span(i, i + 1), b: no_span() }),
        len: (i + 2) as usize,
    }
}

/// A server at `i` and the share behind it. Behind `\\?\UNC\` either may be
/// empty.
pub open spec fn share_head(t: Seq<char>, i: int, verbatim: bool) -> Head {
    let j = next_sep(PathStyle::Windows, verbatim, t, i);
    let k = next_sep(PathStyle::Windows, verbatim, t, j + 1);
    if j + 1 < k {
        if verbatim || i < j {
            Head {
                prefix: Some(
                    Piece {
                        tag: if verbatim {
                            Tag::VerbatimShare
                        } else {
                            Tag::Share
                        },
                        a: span(i, j),
                        b: span(j + 1, k),
                    },
                ),
                len: k as usize,
            }
        } else {
            no_head()
        }
    } else if verbatim {
        one_name(Tag::VerbatimShare, i, j)
    } else {
        no_head()
    }
}

/// No prefix.
pub open spec fn no_head() -> Head {
    Head { prefix: None, len: 0 }
}

/// The prefix of a path.
pub open spec fn head(style: PathStyle, t: Seq<char>) -> Head {
    if style == PathStyle::Unix {
        no_head()
    } else if sep_at(style, t, 0) && sep_at(style, t, 1) {
        if is_verbatim_text(t) {
            if t.len() >= 8 && t[4] == 'U' && t[5] == 'N' && t[6] == 'C' && sep_at(style, t, 7) {
                share_head(t, 8, true)
            } else if drive_at(t, 4) && (t.len() == 6 || sep_at(style, t, 6)) {
                drive_head(Tag::VerbatimDisk, 4)
            } else {
                one_name(Tag::Verbatim, 4, next_sep(style, true, t, 4))
            }
        } else if t.len() >= 4 && t[2] == '.' && sep_at(style, t, 3) {
            one_name(Tag::Device, 4, next_sep(style, false, t, 4))
        } else {
            share_head(t, 2, false)
        }
    } else if drive_at(t, 0) {
        drive_head(Tag::Disk, 0)
    } else {
        no_head()
    }
}

/// Whether the path is taken as it stands.
pub open spec fn is_verbatim(h: Head) -> bool {
    match h.prefix {
        Some(p) => p.tag == Tag::Verbatim || p.tag == Tag::VerbatimDisk || p.tag
            == Tag::VerbatimShare,
        None => false,
    }
}

/// Whether a separator follows the prefix.
pub open spec fn is_rooted(style: PathStyle, t: Seq<char>) -> bool {
    sep_at(style, t, head(style, t).len as int)
}

/// Whether the path begins at a root though no separator says so: behind a
/// share or a device.
pub open spec fn has_implied_root(h: Head) -> bool {
    match h.prefix {
        Some(p) => p.tag == Tag::Share || p.tag == Tag::Device,
        None => false,
    }
}

/// Whether the path is relative and begins with `.`.
pub open spec fn begins_with_dot(style: PathStyle, t: Seq<char>) -> bool {
    let h = head(style, t);
    let i = h.len as int;
    &&& !is_rooted(style, t)
    &&& h.prefix is None || h.prefix->0.tag == Tag::Disk
    &&& i < t.len()
    &&& t[i] == '.'
    &&& i + 1 == t.len() || splits(style, false, t[i + 1])
}

/// Whether the path is a drive with a `.` behind it and nothing more: its text
/// ends behind the `.`, which is no component.
pub open spec fn is_drive_and_dot(style: PathStyle, t: Seq<char>) -> bool {
    head(style, t).prefix is Some && begins_with_dot(style, t) && names(style, t).len() == 0
}

/// Where what precedes the names ends: the prefix, the root, or a leading `.`.
pub open spec fn start_of(style: PathStyle, t: Seq<char>) -> int {
    head(style, t).len + if is_rooted(style, t) || begins_with_dot(style, t) {
        1int
    } else {
        0
    }
}

/// The names that begin at `i` or later.
pub open spec fn names_from(style: PathStyle, verbatim: bool, t: Seq<char>, i: int) -> Seq<Span>
    decreases t.len() - i,
{
    if i < 0 || i >= t.len() {
        seq![]
    } else if splits(style, verbatim, t[i]) {
        names_from(style, verbatim, t, i + 1)
    } else {
        let j = next_sep(style, verbatim, t, i);
        if !(i < j <= t.len()) {
            seq![]
        } else if !verbatim && t.subrange(i, j) == seq!['.'] {
            names_from(style, verbatim, t, j)
        } else {
            seq![span(i, j)] + names_from(style, verbatim, t, j)
        }
    }
}

/// The names of a path, without what precedes them.
pub open spec fn names(style: PathStyle, t: Seq<char>) -> Seq<Span> {
    names_from(style, is_verbatim(head(style, t)), t, start_of(style, t))
}

/// A name at a stretch of the text.
pub open spec fn name_piece(s: Span) -> Piece {
    Piece { tag: Tag::Name, a: s, b: no_span() }
}

/// What precedes the names: the prefix, the root, or a leading `.`. A `.`
/// behind a drive counts for nothing.
pub open spec fn lead(style: PathStyle, t: Seq<char>) -> Seq<Piece> {
    let h = head(style, t);
    let first = match h.prefix {
        Some(p) => seq![p],
        None => seq![],
    };
    if is_rooted(style, t) || has_implied_root(h) {
        first.push(Piece { tag: Tag::Root, a: no_span(), b: no_span() })
    } else if h.prefix is None && begins_with_dot(style, t) {
        first.push(name_piece(span(0, 1)))
    } else {
        first
    }
}

/// Where the components of a path stand.
pub open spec fn pieces(style: PathStyle, t: Seq<char>) -> Seq<Piece> {
    lead(style, t) + names(style, t).map_values(|s: Span| name_piece(s))
}

/// The components of a path.
pub open spec fn components(style: PathStyle, t: Seq<char>) -> Seq<Part> {
    pieces(style, t).map_values(|p: Piece| part(t, p))
}

/// Whether two texts are the same path.
pub open spec fn same_path(style: PathStyle, a: Seq<char>, b: Seq<char>) -> bool {
    components(style, a) == components(style, b)
}

/// Where the text of the last component ends.
pub open spec fn end_of(style: PathStyle, t: Seq<char>) -> int {
    let n = names(style, t);
    if n.len() > 0 {
        n.last().end as int
    } else {
        start_of(style, t)
    }
}

/// The text behind the first `k` components.
pub open spec fn text_from(style: PathStyle, t: Seq<char>, k: int) -> Seq<char> {
    let n = names(style, t);
    let m = k - lead(style, t).len();
    if k == 0 {
        t.take(end_of(style, t))
    } else if k == 1 && head(style, t).prefix is Some {
        t.subrange(head(style, t).len as int, end_of(style, t))
    } else if 0 <= m < n.len() {
        t.subrange(n[m].start as int, end_of(style, t))
    } else {
        seq![]
    }
}

/// What is left of a path below `base`: the text of its further components.
/// `None` where the path does not lie below `base`.
pub open spec fn below(style: PathStyle, t: Seq<char>, base: Seq<char>) -> Option<Seq<char>> {
    if components(style, base).is_prefix_of(components(style, t)) {
        Some(text_from(style, t, components(style, base).len() as int))
    } else {
        None
    }
}

/// The path without its last component, where that is a name or a leading
/// `.`. A root, a bare prefix and the empty path have no parent.
pub open spec fn parent_of(style: PathStyle, t: Seq<char>) -> Option<Seq<char>> {
    let n = names(style, t);
    if n.len() > 1 {
        Some(t.take(n[n.len() - 2].end as int))
    } else if n.len() == 1 {
        Some(t.take(start_of(style, t)))
    } else if head(style, t).prefix is None && begins_with_dot(style, t) {
        Some(seq![])
    } else {
        None
    }
}

/// The last component, where it is a name: not a prefix, a root, `.` or `..`.
pub open spec fn name_of(style: PathStyle, t: Seq<char>) -> Option<Seq<char>> {
    let n = names(style, t);
    if n.len() == 0 || span_text(t, n.last()) == seq!['.'] || span_text(t, n.last()) == seq![
        '.',
        '.',
    ] {
        None
    } else {
        Some(span_text(t, n.last()))
    }
}

/// The names of a path that is taken as it stands, each behind a backslash.
pub open spec fn rebuilt(t: Seq<char>, names: Seq<Span>) -> Seq<char>
    decreases names.len(),
{
    if names.len() == 0 {
        seq![]
    } else {
        rebuilt(t, names.drop_last()).push('\\') + span_text(t, names.last())
    }
}

/// The entry of a plain name (no separator or colon in it, and not `.` or
/// `..`) in a directory. A path that is taken as it stands is written anew,
/// and a bare drive gets no separator.
pub open spec fn entry_of(style: PathStyle, dir: Seq<char>, name: Seq<char>) -> Seq<char> {
    let h = head(style, dir);
    if is_verbatim(h) {
        dir.take(h.len as int) + rebuilt(dir, names(style, dir)) + seq!['\\'] + name
    } else if dir.len() == 0 || is_sep(style, dir.last()) || (h.prefix is Some && h.prefix->0.tag
        == Tag::Disk && h.len == dir.len()) {
        dir + name
    } else {
        dir.push(main_sep(style)) + name
    }
}

/// The stretch lies in the text.
pub open spec fn in_text(s: Span, t: Seq<char>) -> bool {
    s.start <= s.end <= t.len()
}

/// The piece lies in the text.
pub open spec fn piece_in_text(p: Piece, t: Seq<char>) -> bool {
    &&& in_text(p.a, t)
    &&& in_text(p.b, t)
    &&& p.tag == Tag::Disk || p.tag == Tag::VerbatimDisk ==> p.a.start < t.len()
}

/// Where a separator is found.
pub proof fn lemma_next_sep(style: PathStyle, verbatim: bool, t: Seq<char>, i: int)
    requires
        0 <= i,
    ensures
        i <= t.len() ==> i <= next_sep(style, verbatim, t, i) <= t.len(),
        i < t.len() && !splits(style, verbatim, t[i]) ==> i < next_sep(style, verbatim, t, i),
        i >= t.len() ==> next_sep(style, verbatim, t, i) == t.len(),
    decreases t.len() - i,
{
    if i < t.len() && !splits(style, verbatim, t[i]) {
        lemma_next_sep(style, verbatim, t, i + 1);
    }
}

/// The prefix lies in the text.
pub proof fn lemma_head(style: PathStyle, t: Seq<char>)
    requires
        t.len() <= usize::MAX,
    ensures
        head(style, t).len <= t.len(),
        head(style, t).prefix is None ==> head(style, t).len == 0,
        head(style, t).prefix is Some ==> piece_in_text(head(style, t).prefix->0, t),
        start_of(style, t) <= t.len(),
{
    let w = PathStyle::Windows;
    lemma_next_sep(w, true, t, 4);
    lemma_next_sep(w, false, t, 4);
    lemma_next_sep(w, true, t, 8);
    lemma_next_sep(w, true, t, next_sep(w, true, t, 8) + 1);
    lemma_next_sep(w, false, t, 2);
    lemma_next_sep(w, false, t, next_sep(w, false, t, 2) + 1);
}

/// Names lie in the text, one behind the other.
pub proof fn lemma_names_from(style: PathStyle, verbatim: bool, t: Seq<char>, i: int)
    requires
        t.len() <= usize::MAX,
        0 <= i,
    ensures
        forall|k: int|
            0 <= k < names_from(style, verbatim, t, i).len() ==> in_text(
                #[trigger] names_from(style, verbatim, t, i)[k],
                t,
            ) && names_from(style, verbatim, t, i)[k].start >= i,
        forall|k: int, l: int|
            0 <= k < l < names_from(style, verbatim, t, i).len() ==> (#[trigger] names_from(
                style,
                verbatim,
                t,
                i,
            )[k]).end <= (#[trigger] names_from(style, verbatim, t, i)[l]).start,
    decreases t.len() - i,
{
    if i < t.len() {
        if splits(style, verbatim, t[i]) {
            lemma_names_from(style, verbatim, t, i + 1);
            assert(names_from(style, verbatim, t, i) == names_from(style, verbatim, t, i + 1));
        } else {
            let j = next_sep(style, verbatim, t, i);
            lemma_next_sep(style, verbatim, t, i);
            lemma_names_from(style, verbatim, t, j);
            if !verbatim && t.subrange(i, j) == seq!['.'] {
                assert(names_from(style, verbatim, t, i) == names_from(style, verbatim, t, j));
            } else {
                let rest = names_from(style, verbatim, t, j);
                let all = names_from(style, verbatim, t, i);
                assert(all == seq![span(i, j)] + rest);
                assert forall|k: int| 0 <= k < all.len() implies in_text(#[trigger] all[k], t)
                    && all[k].start >= i by {
                    if k > 0 {
                        assert(all[k] == rest[k - 1]);
                    }
                }
                assert forall|k: int, l: int| 0 <= k < l < all.len() implies (
                #[trigger] all[k]).end <= (#[trigger] all[l]).start by {
                    assert(all[l] == rest[l - 1]);
                    if k > 0 {
                        assert(all[k] == rest[k - 1]);
                    }
                }
            }
        }
    }
}

/// Names lie in the text behind what precedes them, one behind the other.
pub proof fn lemma_names(style: PathStyle, t: Seq<char>)
    requires
        t.len() <= usize::MAX,
    ensures
        0 <= head(style, t).len <= start_of(style, t) <= t.len(),
        forall|k: int|
            0 <= k < names(style, t).len() ==> in_text(#[trigger] names(style, t)[k], t)
                && start_of(style, t) <= names(style, t)[k].start,
        forall|k: int, l: int|
            0 <= k < l < names(style, t).len() ==> (#[trigger] names(style, t)[k]).end <= (
            #[trigger] names(style, t)[l]).start,
        start_of(style, t) <= end_of(style, t) <= t.len(),
{
    lemma_head(style, t);
    lemma_names_from(style, is_verbatim(head(style, t)), t, start_of(style, t));
    let n = names(style, t);
    if n.len() > 0 {
        assert(in_text(n[n.len() - 1], t));
    }
}

/// Pieces lie in the text.
proof fn lemma_pieces(style: PathStyle, t: Seq<char>)
    requires
        t.len() <= usize::MAX,
    ensures
        forall|k: int|
            0 <= k < pieces(style, t).len() ==> piece_in_text(#[trigger] pieces(style, t)[k], t),
{
    lemma_head(style, t);
    lemma_names(style, t);
    let l = lead(style, t);
    let n = names(style, t);
    assert forall|k: int| 0 <= k < pieces(style, t).len() implies piece_in_text(
        #[trigger] pieces(style, t)[k],
        t,
    ) by {
        if k < l.len() {
            assert(pieces(style, t)[k] == l[k]);
        } else {
            assert(pieces(style, t)[k] == name_piece(n[k - l.len()]));
        }
    }
}

/// Whether the character is a separator of the system.
fn separates(style: PathStyle, c: char) -> (r: bool)
    ensures
        r == is_sep(style, c),
{
    match style {
        PathStyle::Unix => c == '/',
        PathStyle::Windows => c == '/' || c == '\\',
    }
}

/// Whether the character separates the names of a path.
fn separates_names(style: PathStyle, verbatim: bool, c: char) -> (r: bool)
    ensures
        r == splits(style, verbatim, c),
{
    if verbatim {
        c == '\\'
    } else {
        separates(style, c)
    }
}

/// Finds the first separator from `i` on.
fn find_sep(style: PathStyle, verbatim: bool, v: &[char], i: usize) -> (n: usize)
    requires
        i <= v@.len(),
    ensures
        n == next_sep(style, verbatim, v@, i as int),
        i <= n <= v@.len(),
{
    let mut n: usize = i;
    while n < v.len() && !separates_names(style, verbatim, v[n])
        invariant
            i <= n <= v@.len(),
            next_sep(style, verbatim, v@, i as int) == next_sep(style, verbatim, v@, n as int),
        decreases v@.len() - n,
    {
        n += 1;
    }
    n
}

/// Whether a separator of the system stands at `i`.
fn has_sep_at(style: PathStyle, v: &[char], i: usize) -> (r: bool)
    ensures
        r == sep_at(style, v@, i as int),
{
    i < v.len() && separates(style, v[i])
}

/// Whether a drive stands at `i`.
fn has_drive_at(v: &[char], i: usize) -> (r: bool)
    requires
        i < usize::MAX,
    ensures
        r == drive_at(v@, i as int),
{
    i + 1 < v.len() && (('a' <= v[i] && v[i] <= 'z') || ('A' <= v[i] && v[i] <= 'Z')) && v[i + 1]
        == ':'
}

/// Finds a server at `i` and the share behind it.
fn find_share(v: &[char], i: usize, verbatim: bool) -> (h: Head)
    requires
        i <= v@.len(),
    ensures
        h == share_head(v@, i as int, verbatim),
{
    let len: usize = v.len();
    let j: usize = find_sep(PathStyle::Windows, verbatim, v, i);
    let mut k: usize = len;
    if j < len {
        k = find_sep(PathStyle::Windows, verbatim, v, j + 1);
    }
    let none = Span { start: 0, end: 0 };
    if j < k && j + 1 < k {
        if verbatim || i < j {
            let tag = if verbatim {
                Tag::VerbatimShare
            } else {
                Tag::Share
            };
            return Head {
                prefix: Some(
                    Piece {
                        tag,
                        a: Span { start: i, end: j },
                        b: Span { start: j + 1, end: k },
                    },
                ),
                len: k,
            };
        }
        return Head { prefix: None, len: 0 };
    }
    if verbatim {
        return Head {
            prefix: Some(
                Piece { tag: Tag::VerbatimShare, a: Span { start: i, end: j }, b: none },
            ),
            len: j,
        };
    }
    Head { prefix: None, len: 0 }
}

/// Finds the prefix of a path.
fn find_head(style: PathStyle, v: &[char]) -> (h: Head)
    ensures
        h == head(style, v@),
{
    let len: usize = v.len();
    let none = Span { start: 0, end: 0 };
    match style {
        PathStyle::Unix => {
            return Head { prefix: None, len: 0 };
        },
        PathStyle::Windows => {},
    }
    if !(has_sep_at(style, v, 0) && has_sep_at(style, v, 1)) {
        if has_drive_at(v, 0) {
            return Head {
                prefix: Some(Piece { tag: Tag::Disk, a: Span { start: 0, end: 1 }, b: none }),
                len: 2,
            };
        }
        return Head { prefix: None, len: 0 };
    }
    if len >= 4 && v[0] == '\\' && v[1] == '\\' && v[2] == '?' && v[3] == '\\' {
        if len >= 8 && v[4] == 'U' && v[5] == 'N' && v[6] == 'C' && has_sep_at(style, v, 7) {
            return find_share(v, 8, true);
        }
        if has_drive_at(v, 4) && (len == 6 || has_sep_at(style, v, 6)) {
            return Head {
                prefix: Some(
                    Piece { tag: Tag::VerbatimDisk, a: Span { start: 4, end: 5 }, b: none },
                ),
                len: 6,
            };
        }
        let end: usize = find_sep(style, true, v, 4);
        return Head {
            prefix: Some(Piece { tag: Tag::Verbatim, a: Span { start: 4, end }, b: none }),
            len: end,
        };
    }
    if len >= 4 && v[2] == '.' && has_sep_at(style, v, 3) {
        let end: usize = find_sep(style, false, v, 4);
        return Head {
            prefix: Some(Piece { tag: Tag::Device, a: Span { start: 4, end }, b: none }),
            len: end,
        };
    }
    find_share(v, 2, false)
}

/// How a path is made up.
struct Layout {
    head: Head,
    verbatim: bool,
    rooted: bool,
    dot: bool,
    start: usize,
    names: Vec<Span>,
}

impl Layout {
    /// This is how the path is made up.
    spec fn of(&self, style: PathStyle, t: Seq<char>) -> bool {
        &&& self.head == head(style, t)
        &&& self.verbatim == is_verbatim(self.head)
        &&& self.rooted == is_rooted(style, t)
        &&& self.dot == begins_with_dot(style, t)
        &&& self.start == start_of(style, t)
        &&& self.names@ == names(style, t)
    }

    /// Whether the path has a prefix.
    fn has_prefix(&self) -> (r: bool)
        ensures
            r == self.head.prefix is Some,
    {
        self.head.prefix.is_some()
    }
}

/// Finds the names that begin at `from` or later.
fn find_names(style: PathStyle, verbatim: bool, v: &[char], from: usize) -> (r: Vec<Span>)
    requires
        from <= v@.len(),
    ensures
        r@ == names_from(style, verbatim, v@, from as int),
{
    let len: usize = v.len();
    let mut r: Vec<Span> = Vec::new();
    let mut i: usize = from;
    assert(r@ + names_from(style, verbatim, v@, i as int) =~= names_from(
        style,
        verbatim,
        v@,
        from as int,
    ));
    while i < len
        invariant
            i <= len == v@.len(),
            r@ + names_from(style, verbatim, v@, i as int) == names_from(
                style,
                verbatim,
                v@,
                from as int,
            ),
        decreases len - i,
    {
        if separates_names(style, verbatim, v[i]) {
            i += 1;
        } else {
            let j: usize = find_sep(style, verbatim, v, i);
            proof {
                lemma_next_sep(style, verbatim, v@, i as int);
            }
            let dot = is_dot(v, Span { start: i, end: j });
            if verbatim || !dot {
                let ghost tail = names_from(style, verbatim, v@, j as int);
                let ghost one = seq![Span { start: i, end: j }];
                assert(r@.push(Span { start: i, end: j }) + tail =~= r@ + (one + tail));
                r.push(Span { start: i, end: j });
            }
            i = j;
        }
    }
    assert(r@ + names_from(style, verbatim, v@, i as int) =~= r@);
    r
}

/// Whether a stretch is `.`.
fn is_dot(v: &[char], s: Span) -> (r: bool)
    requires
        in_text(s, v@),
    ensures
        r == (span_text(v@, s) == seq!['.']),
{
    let r = s.end - s.start == 1 && v[s.start] == '.';
    let ghost t = span_text(v@, s);
    proof {
        if r {
            assert(t =~= seq!['.']);
        } else if t == seq!['.'] {
            assert(t.len() == 1 && t[0] == '.');
        }
    }
    r
}

/// Whether a stretch is `..`.
fn is_dots(v: &[char], s: Span) -> (r: bool)
    requires
        in_text(s, v@),
    ensures
        r == (span_text(v@, s) == seq!['.', '.']),
{
    let r = s.end - s.start == 2 && v[s.start] == '.' && v[s.start + 1] == '.';
    let ghost t = span_text(v@, s);
    proof {
        if r {
            assert(t =~= seq!['.', '.']);
        } else if t == seq!['.', '.'] {
            assert(t.len() == 2 && t[0] == '.' && t[1] == '.');
        }
    }
    r
}

/// Finds how a path is made up.
fn find_layout(style: PathStyle, v: &[char]) -> (r: Layout)
    ensures
        r.of(style, v@),
{
    let len: usize = v.len();
    let head = find_head(style, v);
    proof {
        lemma_head(style, v@);
    }
    let (relative, verbatim) = match head.prefix {
        Some(p) => match p.tag {
            Tag::Disk => (true, false),
            Tag::Verbatim | Tag::VerbatimDisk | Tag::VerbatimShare => (false, true),
            _ => (false, false),
        },
        None => (true, false),
    };
    let rooted = has_sep_at(style, v, head.len);
    let i: usize = head.len;
    let dot = !rooted && relative && i < len && v[i] == '.' && (i + 1 == len || separates_names(
        style,
        false,
        v[i + 1],
    ));
    let start: usize = if rooted || dot {
        i + 1
    } else {
        i
    };
    let names = find_names(style, verbatim, v, start);
    Layout { head, verbatim, rooted, dot, start, names }
}

/// Finds the components of a path.
fn find_pieces(style: PathStyle, v: &[char], l: &Layout) -> (r: Vec<Piece>)
    requires
        l.of(style, v@),
    ensures
        r@ == pieces(style, v@),
{
    let none = Span { start: 0, end: 0 };
    let mut r: Vec<Piece> = Vec::new();
    let mut implied = false;
    if let Some(p) = l.head.prefix {
        r.push(p);
        implied = match p.tag {
            Tag::Share | Tag::Device => true,
            _ => false,
        };
    }
    if l.rooted || implied {
        r.push(Piece { tag: Tag::Root, a: none, b: none });
    } else if !l.has_prefix() && l.dot {
        r.push(Piece { tag: Tag::Name, a: Span { start: 0, end: 1 }, b: none });
    }
    assert(r@ =~= lead(style, v@));
    let ghost first = r@;
    let ghost all = names(style, v@).map_values(|s: Span| name_piece(s));
    let mut i: usize = 0;
    assert(r@ =~= first + all.take(0));
    while i < l.names.len()
        invariant
            i <= l.names@.len(),
            l.names@ == names(style, v@),
            all == names(style, v@).map_values(|s: Span| name_piece(s)),
            none == no_span(),
            r@ == first + all.take(i as int),
        decreases l.names@.len() - i,
    {
        r.push(Piece { tag: Tag::Name, a: l.names[i], b: none });
        i += 1;
        assert(r@ =~= first + all.take(i as int));
    }
    assert(all.take(i as int) =~= all);
    r
}

/// Whether two stretches hold the same text.
fn same_span(x: &[char], s: Span, y: &[char], t: Span) -> (r: bool)
    requires
        in_text(s, x@),
        in_text(t, y@),
    ensures
        r == (span_text(x@, s) == span_text(y@, t)),
{
    text::same_chars(
        vstd::slice::slice_subrange(x, s.start, s.end),
        vstd::slice::slice_subrange(y, t.start, t.end),
    )
}

/// The code of a letter, written large.
fn large(c: char) -> (r: u32)
    ensures
        r == drive_number(c),
{
    let n: u32 = c as u32;
    if 'a' <= c && c <= 'z' {
        n - 32
    } else {
        n
    }
}

/// Whether two pieces are the same component.
fn same_piece(x: &[char], p: Piece, y: &[char], q: Piece) -> (r: bool)
    requires
        piece_in_text(p, x@),
        piece_in_text(q, y@),
    ensures
        r == (part(x@, p) == part(y@, q)),
{
    if p.tag != q.tag {
        return false;
    }
    if p.tag == Tag::Disk || p.tag == Tag::VerbatimDisk {
        return large(x[p.a.start]) == large(y[q.a.start]);
    }
    same_span(x, p.a, y, q.a) && same_span(x, p.b, y, q.b)
}

/// Whether the components of `base` are the first components of `t`.
fn begins_with(style: PathStyle, t: &[char], ts: &Vec<Piece>, base: &[char], bs: &Vec<Piece>) -> (r:
    bool)
    requires
        ts@ == pieces(style, t@),
        bs@ == pieces(style, base@),
    ensures
        r == components(style, base@).is_prefix_of(components(style, t@)),
{
    if bs.len() > ts.len() {
        return false;
    }
    let ghost tn: usize = t.len();
    let ghost bn: usize = base.len();
    let ghost a = components(style, base@);
    let ghost b = components(style, t@);
    proof {
        lemma_pieces(style, t@);
        lemma_pieces(style, base@);
    }
    let mut i: usize = 0;
    while i < bs.len()
        invariant
            i <= bs@.len() <= ts@.len(),
            ts@ == pieces(style, t@),
            bs@ == pieces(style, base@),
            a == components(style, base@),
            b == components(style, t@),
            forall|k: int| 0 <= k < ts@.len() ==> piece_in_text(#[trigger] ts@[k], t@),
            forall|k: int| 0 <= k < bs@.len() ==> piece_in_text(#[trigger] bs@[k], base@),
            forall|k: int| 0 <= k < i ==> #[trigger] a[k] == b[k],
        decreases bs@.len() - i,
    {
        if !same_piece(t, ts[i], base, bs[i]) {
            proof {
                assert(a[i as int] != b[i as int]);
                if a.is_prefix_of(b) {
                    assert(b.subrange(0, a.len() as int)[i as int] == b[i as int]);
                }
            }
            return false;
        }
        i += 1;
    }
    assert(a =~= b.subrange(0, a.len() as int));
    true
}

/// Whether two texts are the same path.
pub fn is_same_path(style: PathStyle, a: &str, b: &str) -> (r: bool)
    ensures
        r == same_path(style, a@, b@),
{
    let x = text::chars_of(a);
    let y = text::chars_of(b);
    let xl = find_layout(style, x.as_slice());
    let yl = find_layout(style, y.as_slice());
    let xs = find_pieces(style, x.as_slice(), &xl);
    let ys = find_pieces(style, y.as_slice(), &yl);
    let r = xs.len() == ys.len() && begins_with(style, x.as_slice(), &xs, y.as_slice(), &ys);
    proof {
        let p = components(style, a@);
        let q = components(style, b@);
        if p.len() == q.len() && q.is_prefix_of(p) {
            assert(p.subrange(0, q.len() as int) =~= p);
        }
        if p == q {
            assert(p.subrange(0, q.len() as int) =~= p);
        }
    }
    r
}

/// What is left of a path below `base`.
pub fn strip_prefix(style: PathStyle, t: &str, base: &str) -> (r: Option<String>)
    ensures
        text::opt_text(r) == below(style, t@, base@),
{
    let x = text::chars_of(t);
    let y = text::chars_of(base);
    let xl = find_layout(style, x.as_slice());
    let yl = find_layout(style, y.as_slice());
    let xs = find_pieces(style, x.as_slice(), &xl);
    let ys = find_pieces(style, y.as_slice(), &yl);
    if !begins_with(style, x.as_slice(), &xs, y.as_slice(), &ys) {
        return None;
    }
    let ghost len: usize = x.len();
    proof {
        lemma_names(style, x@);
    }
    let k: usize = ys.len();
    let before: usize = xs.len() - xl.names.len();
    let end: usize = if xl.names.len() > 0 {
        xl.names[xl.names.len() - 1].end
    } else {
        xl.start
    };
    assert(end == end_of(style, x@));
    assert(before == lead(style, x@).len());
    assert(k == components(style, base@).len());
    if k == 0 {
        let s = text::string_of(x.as_slice(), 0, end);
        assert(s@ =~= x@.take(end as int));
        return Some(s);
    }
    if k == 1 && xl.has_prefix() {
        return Some(text::string_of(x.as_slice(), xl.head.len, end));
    }
    if k >= before && k - before < xl.names.len() {
        let m: usize = k - before;
        proof {
            let n = names(style, x@);
            assert(in_text(n[m as int], x@));
            assert(m < n.len() - 1 ==> n[m as int].end <= n[n.len() - 1].start);
            assert(in_text(n[n.len() - 1], x@));
        }
        return Some(text::string_of(x.as_slice(), xl.names[m].start, end));
    }
    let s = String::new();
    assert(s@ =~= seq![]);
    Some(s)
}

/// The path without its last component.
pub fn parent(style: PathStyle, t: &str) -> (r: Option<String>)
    ensures
        text::opt_text(r) == parent_of(style, t@),
{
    let x = text::chars_of(t);
    let l = find_layout(style, x.as_slice());
    let n: usize = l.names.len();
    let ghost len: usize = x.len();
    proof {
        lemma_names(style, x@);
    }
    if n > 1 {
        assert(in_text(names(style, x@)[n - 2], x@));
        let s = text::string_of(x.as_slice(), 0, l.names[n - 2].end);
        assert(s@ =~= t@.take(l.names@[n - 2].end as int));
        return Some(s);
    }
    if n == 1 {
        let s = text::string_of(x.as_slice(), 0, l.start);
        assert(s@ =~= t@.take(l.start as int));
        return Some(s);
    }
    if !l.has_prefix() && l.dot {
        let s = String::new();
        assert(s@ =~= seq![]);
        return Some(s);
    }
    None
}

/// The last component, where it is a name.
pub fn file_name(style: PathStyle, t: &str) -> (r: Option<String>)
    ensures
        text::opt_text(r) == name_of(style, t@),
{
    let x = text::chars_of(t);
    let l = find_layout(style, x.as_slice());
    let n: usize = l.names.len();
    if n == 0 {
        return None;
    }
    let ghost len: usize = x.len();
    proof {
        lemma_names(style, x@);
        assert(in_text(names(style, x@)[n - 1], x@));
    }
    let last = l.names[n - 1];
    if is_dot(x.as_slice(), last) || is_dots(x.as_slice(), last) {
        return None;
    }
    Some(text::string_of(x.as_slice(), last.start, last.end))
}

/// The entry of a plain name in a directory.
pub(crate) fn entry(style: PathStyle, dir: &str, name: &str) -> (r: String)
    ensures
        r@ == entry_of(style, dir@, name@),
{
    let x = text::chars_of(dir);
    let l = find_layout(style, x.as_slice());
    let len: usize = x.len();
    proof {
        lemma_names(style, x@);
    }
    if l.verbatim {
        let mut r = text::string_of(x.as_slice(), 0, l.head.len);
        let ghost start = r@;
        assert(start =~= dir@.take(l.head.len as int));
        let ghost all = names(style, x@);
        let mut i: usize = 0;
        assert(r@ =~= start + rebuilt(x@, all.take(0)));
        while i < l.names.len()
            invariant
                i <= l.names@.len(),
                l.names@ == all,
                forall|k: int| 0 <= k < all.len() ==> in_text(#[trigger] all[k], x@),
                r@ == start + rebuilt(x@, all.take(i as int)),
            decreases l.names@.len() - i,
        {
            let ghost before = r@;
            let s = l.names[i];
            assert(in_text(all[i as int], x@));
            r.push('\\');
            r.append(text::string_of(x.as_slice(), s.start, s.end).as_str());
            assert(all.take(i + 1).drop_last() =~= all.take(i as int));
            assert(all.take(i + 1).last() == all[i as int]);
            i += 1;
            assert(r@ =~= start + rebuilt(x@, all.take(i as int)));
        }
        assert(all.take(i as int) =~= all);
        r.push('\\');
        r.append(name);
        assert(r@ =~= entry_of(style, dir@, name@));
        return r;
    }
    let bare = match l.head.prefix {
        Some(p) => p.tag == Tag::Disk && l.head.len == len,
        None => false,
    };
    let mut r = text::string_from(x.as_slice());
    if len > 0 && !bare && !separates(style, x[len - 1]) {
        match style {
            PathStyle::Unix => r.push('/'),
            PathStyle::Windows => r.push('\\'),
        }
    }
    r.append(name);
    r
}

}
