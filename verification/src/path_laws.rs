//! Paths, stated of the pieces between their separators.

use vstd::prelude::*;

use crate::display;
use crate::path;
use crate::path::Part;
use crate::path::PathStyle;
use crate::path::Piece;
use crate::path::Span;
use crate::path::Tag;
use crate::text;
use crate::text_laws;

verus! {

/// A slash of the system: on Windows a backslash is one too.
pub open spec fn is_slash(style: PathStyle, c: char) -> bool {
    match style {
        PathStyle::Unix => c == '/',
        PathStyle::Windows => c == '/' || c == '\\',
    }
}

/// An ASCII letter.
pub open spec fn is_letter(c: char) -> bool {
    'a' <= c <= 'z' || 'A' <= c <= 'Z'
}

/// The text with every separator written the same way.
pub open spec fn flat(style: PathStyle, verbatim: bool, t: Seq<char>) -> Seq<char> {
    if style == PathStyle::Windows && !verbatim {
        text::replaced(t, '\\', '/')
    } else {
        t
    }
}

/// The pieces that count: those that are not empty and, unless the path is
/// taken as it stands, not a single dot.
pub open spec fn counts(verbatim: bool) -> spec_fn(Seq<char>) -> bool {
    |n: Seq<char>| n.len() > 0 && (verbatim || n != seq!['.'])
}

/// The names in a text: the pieces between its separators that count.
pub open spec fn names_in(style: PathStyle, verbatim: bool, t: Seq<char>) -> Seq<Seq<char>> {
    text::split_at_each(
        flat(style, verbatim, t),
        if verbatim {
            '\\'
        } else {
            '/'
        },
    ).filter(counts(verbatim))
}

/// A name as a component.
pub open spec fn name_part(n: Seq<char>) -> Part {
    Part { tag: Tag::Name, drive: 0, a: n, b: seq![] }
}

/// Names as components.
pub open spec fn name_parts(ns: Seq<Seq<char>>) -> Seq<Part> {
    ns.map_values(|n: Seq<char>| name_part(n))
}

/// The root as a component.
pub open spec fn root_part() -> Part {
    Part { tag: Tag::Root, drive: 0, a: seq![], b: seq![] }
}

/// The root, where the text begins with a slash.
pub open spec fn root_of(style: PathStyle, t: Seq<char>) -> Seq<Part> {
    if t.len() > 0 && is_slash(style, t[0]) {
        seq![root_part()]
    } else {
        seq![]
    }
}

/// Two texts agree but for how a backslash is written, with one character that
/// separates.
proof fn lemma_flat(style: PathStyle, verbatim: bool, t: Seq<char>, i: int)
    requires
        style == PathStyle::Windows || !verbatim,
        0 <= i <= t.len(),
    ensures
        flat(style, verbatim, t).len() == t.len(),
        flat(style, verbatim, t.skip(i)) == flat(style, verbatim, t).skip(i),
        forall|k: int|
            0 <= k < t.len() ==> (path::splits(style, verbatim, #[trigger] t[k]) <==> flat(
                style,
                verbatim,
                t,
            )[k] == (if verbatim {
                '\\'
            } else {
                '/'
            })),
        forall|k: int|
            0 <= k < t.len() && !path::splits(style, verbatim, #[trigger] t[k]) ==> flat(
                style,
                verbatim,
                t,
            )[k] == t[k],
{
    assert(flat(style, verbatim, t.skip(i)) =~= flat(style, verbatim, t).skip(i));
}

/// A list with one more in front.
proof fn lemma_filter_cons(x: Seq<char>, r: Seq<Seq<char>>, p: spec_fn(Seq<char>) -> bool)
    ensures
        (seq![x] + r).filter(p) == (if p(x) {
            seq![x]
        } else {
            seq![]
        }) + r.filter(p),
    decreases r.len(),
{
    reveal(Seq::filter);
    let l = seq![x] + r;
    if r.len() == 0 {
        assert(l =~= seq![x]);
        assert(seq![x].drop_last() =~= seq![]);
        assert(r =~= seq![]);
    } else {
        lemma_filter_cons(x, r.drop_last(), p);
        assert(l.drop_last() =~= seq![x] + r.drop_last());
        assert(l.last() == r.last());
    }
    assert(l.filter(p) =~= (if p(x) {
        seq![x]
    } else {
        seq![]
    }) + r.filter(p));
}

/// The next separator is the first one of the rest of the text.
proof fn lemma_next(style: PathStyle, verbatim: bool, t: Seq<char>, i: int)
    requires
        style == PathStyle::Windows || !verbatim,
        0 <= i <= t.len(),
    ensures
        path::next_sep(style, verbatim, t, i) == i + text::first_of(
            flat(style, verbatim, t).skip(i),
            if verbatim {
                '\\'
            } else {
                '/'
            },
        ),
    decreases t.len() - i,
{
    lemma_flat(style, verbatim, t, i);
    let s = flat(style, verbatim, t).skip(i);
    if i < t.len() {
        assert(s[0] == flat(style, verbatim, t)[i]);
        if !path::splits(style, verbatim, t[i]) {
            lemma_next(style, verbatim, t, i + 1);
            assert(s.drop_first() =~= flat(style, verbatim, t).skip(i + 1));
        }
    }
}

/// The texts of stretches.
pub open spec fn span_texts(t: Seq<char>, s: Seq<Span>) -> Seq<Seq<char>> {
    s.map_values(|x: Span| path::span_text(t, x))
}

/// The names from a position on are the pieces of the rest that count.
proof fn lemma_names_in(style: PathStyle, verbatim: bool, t: Seq<char>, i: int)
    requires
        style == PathStyle::Windows || !verbatim,
        t.len() <= usize::MAX,
        0 <= i <= t.len(),
    ensures
        span_texts(t, path::names_from(style, verbatim, t, i)) == names_in(
            style,
            verbatim,
            t.skip(i),
        ),
    decreases t.len() - i,
{
    let c = if verbatim {
        '\\'
    } else {
        '/'
    };
    let f = counts(verbatim);
    let u = flat(style, verbatim, t);
    let s = u.skip(i);
    let ns = path::names_from(style, verbatim, t, i);
    lemma_flat(style, verbatim, t, i);
    lemma_next(style, verbatim, t, i);
    text::lemma_first_of(s, c);
    let e: Seq<Seq<char>> = seq![];
    assert(e.filter(f) =~= e) by {
        reveal(Seq::filter);
    }
    if i == t.len() {
        assert(s.len() == 0);
        lemma_filter_cons(s, e, f);
        assert(seq![s] + e =~= seq![s]);
        assert(span_texts(t, ns) =~= names_in(style, verbatim, t.skip(i)));
    } else if path::splits(style, verbatim, t[i]) {
        lemma_names_in(style, verbatim, t, i + 1);
        lemma_flat(style, verbatim, t, i + 1);
        assert(s[0] == u[i]);
        assert(s.take(0).len() == 0);
        assert(s.skip(1) =~= u.skip(i + 1));
        lemma_filter_cons(s.take(0), text::split_at_each(s.skip(1), c), f);
        assert(span_texts(t, ns) =~= names_in(style, verbatim, t.skip(i)));
    } else {
        let j = path::next_sep(style, verbatim, t, i);
        path::lemma_next_sep(style, verbatim, t, i);
        let w = t.subrange(i, j);
        assert forall|k: int| 0 <= k < w.len() implies w[k] == #[trigger] s.take(j - i)[k] by {
            assert(s[k] != c);
            assert(s[k] == u[i + k]);
            assert(w[k] == t[i + k]);
        }
        assert(w =~= s.take(j - i));
        let rest = path::names_from(style, verbatim, t, j);
        let head = if f(w) {
            seq![path::span(i, j)]
        } else {
            seq![]
        };
        assert(ns =~= head + rest);
        assert(span_texts(t, ns) =~= span_texts(t, head) + span_texts(t, rest));
        assert(span_texts(t, head) =~= if f(w) {
            seq![w]
        } else {
            seq![]
        });
        if j < t.len() {
            lemma_names_in(style, verbatim, t, j + 1);
            lemma_flat(style, verbatim, t, j + 1);
            assert(s[j - i] == c);
            assert(u[j] == c);
            assert(path::splits(style, verbatim, t[j]));
            assert(rest == path::names_from(style, verbatim, t, j + 1));
            assert(s.skip(j - i + 1) =~= u.skip(j + 1));
            lemma_filter_cons(w, text::split_at_each(s.skip(j - i + 1), c), f);
        } else {
            assert(s.take(j - i) =~= s);
            assert(rest.len() == 0);
            assert(span_texts(t, rest) =~= e);
            lemma_filter_cons(w, e, f);
            assert(seq![w] + e =~= seq![w]);
        }
        assert(span_texts(t, ns) =~= names_in(style, verbatim, t.skip(i)));
    }
}

/// A separator in front changes nothing of the names, and neither does a dot
/// that stands alone.
proof fn lemma_skipped(style: PathStyle, verbatim: bool, t: Seq<char>)
    requires
        style == PathStyle::Windows || !verbatim,
        t.len() > 0,
    ensures
        path::splits(style, verbatim, t[0]) ==> names_in(style, verbatim, t) == names_in(
            style,
            verbatim,
            t.skip(1),
        ),
        !verbatim && t[0] == '.' && (t.len() == 1 || path::splits(style, false, t[1]))
            ==> names_in(style, verbatim, t) == names_in(style, verbatim, t.skip(1)),
{
    let c = if verbatim {
        '\\'
    } else {
        '/'
    };
    let f = counts(verbatim);
    let u = flat(style, verbatim, t);
    lemma_flat(style, verbatim, t, 0);
    lemma_flat(style, verbatim, t, 1);
    if path::splits(style, verbatim, t[0]) {
        assert(u[0] == c);
        assert(u.take(0).len() == 0);
        lemma_filter_cons(u.take(0), text::split_at_each(u.skip(1), c), f);
        assert(names_in(style, verbatim, t) =~= names_in(style, verbatim, t.skip(1)));
    }
    if !verbatim && t[0] == '.' && (t.len() == 1 || path::splits(style, false, t[1])) {
        let e: Seq<Seq<char>> = seq![];
        assert(e.filter(f) =~= e) by {
            reveal(Seq::filter);
        }
        assert(!path::splits(style, false, t[0]));
        assert(u[0] == '.');
        reveal_with_fuel(text::first_of, 3);
        let s = u.skip(1);
        if t.len() == 1 {
            assert(u =~= seq!['.']);
            assert(u.drop_first().len() == 0);
            lemma_filter_cons(u, e, f);
            assert(seq![u] + e =~= seq![u]);
            lemma_filter_cons(s, e, f);
            assert(seq![s] + e =~= seq![s]);
        } else {
            assert(path::splits(style, false, t[1]));
            assert(u[1] == c);
            assert(u.drop_first()[0] == c);
            assert(u.take(1) =~= seq!['.']);
            lemma_filter_cons(u.take(1), text::split_at_each(u.skip(2), c), f);
            assert(s[0] == c);
            assert(s.take(0).len() == 0);
            assert(s.skip(1) =~= u.skip(2));
            lemma_filter_cons(s.take(0), text::split_at_each(s.skip(1), c), f);
        }
        assert(names_in(style, verbatim, t) =~= names_in(style, verbatim, t.skip(1)));
    }
}

/// The components are those of what precedes the names, and the names.
proof fn lemma_components(style: PathStyle, t: Seq<char>)
    requires
        t.len() <= usize::MAX,
    ensures
        path::components(style, t) == path::lead(style, t).map_values(
            |p: Piece| path::part(t, p),
        ) + name_parts(span_texts(t, path::names(style, t))),
{
    let e: Seq<char> = seq![];
    assert(path::span_text(t, path::no_span()) =~= e);
    assert(path::components(style, t) =~= path::lead(style, t).map_values(
        |p: Piece| path::part(t, p),
    ) + name_parts(span_texts(t, path::names(style, t))));
}

/// Nothing at the front of the text is a prefix.
pub open spec fn has_no_prefix(style: PathStyle, t: Seq<char>) -> bool {
    style == PathStyle::Unix || t.len() < 2 || !(is_slash(style, t[0]) && is_slash(style, t[1]))
        && !(is_letter(t[0]) && t[1] == ':')
}

/// The first piece of the text is a dot that stands alone.
pub open spec fn leads_with_dot(style: PathStyle, t: Seq<char>) -> bool {
    t.len() > 0 && t[0] == '.' && (t.len() == 1 || is_slash(style, t[1]))
}

/// The components of a path without a prefix are the root where it begins with a
/// slash, a dot where it begins with one, and the names between its slashes.
pub proof fn law_components(style: PathStyle, t: Seq<char>)
    requires
        t.len() <= usize::MAX,
        has_no_prefix(style, t),
    ensures
        path::components(style, t) == root_of(style, t) + (if leads_with_dot(style, t) {
            seq![name_part(seq!['.'])]
        } else {
            seq![]
        }) + name_parts(names_in(style, false, t)),
{
    assert(path::head(style, t) == path::no_head());
    lemma_components(style, t);
    let i = path::start_of(style, t);
    let e: Seq<char> = seq![];
    assert(path::span_text(t, path::no_span()) =~= e);
    assert(t.skip(0) =~= t);
    lemma_names_in(style, false, t, i);
    if t.len() > 0 {
        lemma_skipped(style, false, t);
    }
    if leads_with_dot(style, t) {
        assert(path::span_text(t, path::span(0, 1)) =~= seq!['.']);
    }
    assert(path::lead(style, t).map_values(|p: Piece| path::part(t, p)) =~= root_of(style, t) + (
    if leads_with_dot(style, t) {
        seq![name_part(seq!['.'])]
    } else {
        seq![]
    }));
}

/// A letter written large, by its code.
pub open spec fn large(l: char) -> int {
    if 'a' <= l <= 'z' {
        l as int - 'a' as int + 'A' as int
    } else {
        l as int
    }
}

/// A drive as a component: its letter, large or small.
pub open spec fn drive_part(tag: Tag, l: char) -> Part {
    Part { tag, drive: large(l), a: seq![], b: seq![] }
}

/// The components of a path with a drive are the drive, the root where a slash
/// follows, and the names of the rest. A dot behind the drive is none.
pub proof fn law_components_behind_a_drive(l: char, rest: Seq<char>)
    requires
        is_letter(l),
        rest.len() + 2 <= usize::MAX,
    ensures
        path::components(PathStyle::Windows, seq![l, ':'] + rest) == seq![
            drive_part(Tag::Disk, l),
        ] + root_of(PathStyle::Windows, rest) + name_parts(
            names_in(PathStyle::Windows, false, rest),
        ),
{
    let w = PathStyle::Windows;
    let t = seq![l, ':'] + rest;
    assert(t[0] == l && t[1] == ':');
    assert(path::head(w, t) == path::drive_head(Tag::Disk, 0));
    lemma_components(w, t);
    let i = path::start_of(w, t);
    let e: Seq<char> = seq![];
    assert(path::span_text(t, path::no_span()) =~= e);
    assert(t.skip(2) =~= rest);
    if rest.len() > 0 {
        assert(t[2] == rest[0]);
        if rest.len() > 1 {
            assert(t[3] == rest[1]);
        }
        assert(t.skip(3) =~= rest.skip(1));
        lemma_skipped(w, false, rest);
    }
    lemma_names_in(w, false, t, i);
    assert(path::lead(w, t).map_values(|p: Piece| path::part(t, p)) =~= seq![
        drive_part(Tag::Disk, l),
    ] + root_of(w, rest));
}

/// Two texts are the same path if and only if their components are.
pub proof fn law_same_path(style: PathStyle, a: Seq<char>, b: Seq<char>)
    ensures
        path::same_path(style, a, b) <==> path::components(style, a) == path::components(style, b),
{
}

/// There is no slash in the text.
pub open spec fn no_slash(style: PathStyle, n: Seq<char>) -> bool {
    forall|k: int| 0 <= k < n.len() ==> !is_slash(style, #[trigger] n[k])
}

/// The text is empty or begins with a slash.
pub open spec fn slash_or_nothing(style: PathStyle, s: Seq<char>) -> bool {
    s.len() > 0 ==> is_slash(style, s[0])
}

/// Where a stretch without separators ends.
proof fn lemma_stop(style: PathStyle, verbatim: bool, t: Seq<char>, i: int, j: int)
    requires
        0 <= i <= j <= t.len(),
        forall|k: int| i <= k < j ==> !path::splits(style, verbatim, #[trigger] t[k]),
        j < t.len() ==> path::splits(style, verbatim, t[j]),
    ensures
        path::next_sep(style, verbatim, t, i) == j,
    decreases j - i,
{
    if i < j {
        assert(!path::splits(style, verbatim, t[i]));
        lemma_stop(style, verbatim, t, i + 1, j);
    }
}

/// The components of a path on a share are the share by its server and name, the
/// root, and the names of the rest.
pub proof fn law_components_of_a_share(
    x: char,
    y: char,
    z: char,
    server: Seq<char>,
    share: Seq<char>,
    rest: Seq<char>,
)
    requires
        is_slash(PathStyle::Windows, x),
        is_slash(PathStyle::Windows, y),
        is_slash(PathStyle::Windows, z),
        server.len() > 0,
        share.len() > 0,
        no_slash(PathStyle::Windows, server),
        no_slash(PathStyle::Windows, share),
        server != seq!['?'],
        server != seq!['.'],
        slash_or_nothing(PathStyle::Windows, rest),
        server.len() + share.len() + rest.len() + 3 <= usize::MAX,
    ensures
        path::components(PathStyle::Windows, seq![x, y] + server + seq![z] + share + rest)
            == seq![Part { tag: Tag::Share, drive: 0, a: server, b: share }, root_part()]
            + name_parts(names_in(PathStyle::Windows, false, rest)),
{
    let w = PathStyle::Windows;
    let t = seq![x, y] + server + seq![z] + share + rest;
    let j = 2 + server.len() as int;
    let k = j + 1 + share.len();
    assert(t[0] == x && t[1] == y && t[2] == server[0]);
    assert(t[j] == z);
    assert forall|q: int| 2 <= q < j implies !path::splits(w, false, #[trigger] t[q]) by {
        assert(t[q] == server[q - 2]);
    }
    assert forall|q: int| j + 1 <= q < k implies !path::splits(w, false, #[trigger] t[q]) by {
        assert(t[q] == share[q - j - 1]);
    }
    if rest.len() > 0 {
        assert(t[k] == rest[0]);
    }
    lemma_stop(w, false, t, 2, j);
    lemma_stop(w, false, t, j + 1, k);
    if server.len() == 1 {
        assert(server =~= seq![server[0]]);
    } else {
        assert(t[3] == server[1]);
    }
    assert(path::head(w, t) == path::share_head(t, 2, false));
    lemma_components(w, t);
    let i = path::start_of(w, t);
    let e: Seq<char> = seq![];
    assert(path::span_text(t, path::no_span()) =~= e);
    assert(t.subrange(2, j) =~= server);
    assert(t.subrange(j + 1, k) =~= share);
    assert(t.skip(k) =~= rest);
    if rest.len() > 0 {
        assert(t.skip(k + 1) =~= rest.skip(1));
        lemma_skipped(w, false, rest);
    }
    lemma_names_in(w, false, t, i);
    assert(path::lead(w, t).map_values(|p: Piece| path::part(t, p)) =~= seq![
        Part { tag: Tag::Share, drive: 0, a: server, b: share },
        root_part(),
    ]);
}

/// The components of a device's path are the device, the root, and the names of
/// the rest.
pub proof fn law_components_of_a_device(
    x: char,
    y: char,
    z: char,
    name: Seq<char>,
    rest: Seq<char>,
)
    requires
        is_slash(PathStyle::Windows, x),
        is_slash(PathStyle::Windows, y),
        is_slash(PathStyle::Windows, z),
        no_slash(PathStyle::Windows, name),
        slash_or_nothing(PathStyle::Windows, rest),
        name.len() + rest.len() + 4 <= usize::MAX,
    ensures
        path::components(PathStyle::Windows, seq![x, y, '.', z] + name + rest) == seq![
            Part { tag: Tag::Device, drive: 0, a: name, b: seq![] },
            root_part(),
        ] + name_parts(names_in(PathStyle::Windows, false, rest)),
{
    let w = PathStyle::Windows;
    let t = seq![x, y, '.', z] + name + rest;
    let j = 4 + name.len() as int;
    assert(t[0] == x && t[1] == y && t[2] == '.' && t[3] == z);
    assert forall|q: int| 4 <= q < j implies !path::splits(w, false, #[trigger] t[q]) by {
        assert(t[q] == name[q - 4]);
    }
    if rest.len() > 0 {
        assert(t[j] == rest[0]);
    }
    lemma_stop(w, false, t, 4, j);
    assert(path::head(w, t) == path::one_name(Tag::Device, 4, j));
    lemma_components(w, t);
    let i = path::start_of(w, t);
    let e: Seq<char> = seq![];
    assert(path::span_text(t, path::no_span()) =~= e);
    assert(t.subrange(4, j) =~= name);
    assert(t.skip(j) =~= rest);
    if rest.len() > 0 {
        assert(t.skip(j + 1) =~= rest.skip(1));
        lemma_skipped(w, false, rest);
    }
    lemma_names_in(w, false, t, i);
    assert(path::lead(w, t).map_values(|p: Piece| path::part(t, p)) =~= seq![
        Part { tag: Tag::Device, drive: 0, a: name, b: seq![] },
        root_part(),
    ]);
}

/// There is no backslash in the text.
pub open spec fn no_backslash(n: Seq<char>) -> bool {
    forall|k: int| 0 <= k < n.len() ==> (#[trigger] n[k]) != '\\'
}

/// The text is empty or begins with a backslash.
pub open spec fn backslash_or_nothing(s: Seq<char>) -> bool {
    s.len() > 0 ==> s[0] == '\\'
}

/// What takes a path as it stands.
pub open spec fn as_it_stands() -> Seq<char> {
    seq!['\\', '\\', '?', '\\']
}

/// Behind `\\?\` a path is taken as it stands: only a backslash separates, and
/// a dot is a name. Its components are what it begins with, the root where a
/// backslash follows, and the names of the rest.
pub proof fn law_components_as_they_stand(name: Seq<char>, rest: Seq<char>)
    requires
        no_backslash(name),
        backslash_or_nothing(rest),
        !(name.len() >= 3 && name[0] == 'U' && name[1] == 'N' && name[2] == 'C'),
        !(name.len() >= 2 && is_letter(name[0]) && name[1] == ':'),
        name.len() + rest.len() + 4 <= usize::MAX,
    ensures
        path::components(PathStyle::Windows, as_it_stands() + name + rest) == seq![
            Part { tag: Tag::Verbatim, drive: 0, a: name, b: seq![] },
        ] + root_of(PathStyle::Windows, rest) + name_parts(
            names_in(PathStyle::Windows, true, rest),
        ),
{
    let w = PathStyle::Windows;
    let t = as_it_stands() + name + rest;
    let j = 4 + name.len() as int;
    assert(t[0] == '\\' && t[1] == '\\' && t[2] == '?' && t[3] == '\\');
    assert forall|q: int| 4 <= q < j implies !path::splits(w, true, #[trigger] t[q]) by {
        assert(t[q] == name[q - 4]);
    }
    if rest.len() > 0 {
        assert(t[j] == rest[0]);
    }
    lemma_stop(w, true, t, 4, j);
    assert(name.len() > 0 ==> t[4] == name[0]);
    assert(name.len() > 1 ==> t[5] == name[1]);
    assert(name.len() > 2 ==> t[6] == name[2]);
    assert(path::head(w, t) == path::one_name(Tag::Verbatim, 4, j));
    lemma_components(w, t);
    let i = path::start_of(w, t);
    let e: Seq<char> = seq![];
    assert(path::span_text(t, path::no_span()) =~= e);
    assert(t.subrange(4, j) =~= name);
    assert(t.skip(j) =~= rest);
    if rest.len() > 0 {
        assert(t.skip(j + 1) =~= rest.skip(1));
        lemma_skipped(w, true, rest);
    }
    lemma_names_in(w, true, t, i);
    assert(path::lead(w, t).map_values(|p: Piece| path::part(t, p)) =~= seq![
        Part { tag: Tag::Verbatim, drive: 0, a: name, b: seq![] },
    ] + root_of(w, rest));
}

/// So it is behind a drive that is taken as it stands.
pub proof fn law_components_of_a_drive_as_it_stands(l: char, rest: Seq<char>)
    requires
        is_letter(l),
        backslash_or_nothing(rest),
        rest.len() + 6 <= usize::MAX,
    ensures
        path::components(PathStyle::Windows, as_it_stands() + seq![l, ':'] + rest) == seq![
            drive_part(Tag::VerbatimDisk, l),
        ] + root_of(PathStyle::Windows, rest) + name_parts(
            names_in(PathStyle::Windows, true, rest),
        ),
{
    let w = PathStyle::Windows;
    let t = as_it_stands() + seq![l, ':'] + rest;
    assert(t[0] == '\\' && t[1] == '\\' && t[2] == '?' && t[3] == '\\');
    assert(t[4] == l && t[5] == ':');
    if rest.len() > 0 {
        assert(t[6] == rest[0]);
    }
    assert(path::head(w, t) == path::drive_head(Tag::VerbatimDisk, 4));
    lemma_components(w, t);
    let i = path::start_of(w, t);
    let e: Seq<char> = seq![];
    assert(path::span_text(t, path::no_span()) =~= e);
    assert(t.skip(6) =~= rest);
    if rest.len() > 0 {
        assert(t.skip(7) =~= rest.skip(1));
        lemma_skipped(w, true, rest);
    }
    lemma_names_in(w, true, t, i);
    assert(path::lead(w, t).map_values(|p: Piece| path::part(t, p)) =~= seq![
        drive_part(Tag::VerbatimDisk, l),
    ] + root_of(w, rest));
}

/// And behind a share that is taken as it stands, which has no root of its own.
pub proof fn law_components_of_a_share_as_it_stands(
    server: Seq<char>,
    share: Seq<char>,
    rest: Seq<char>,
)
    requires
        no_backslash(server),
        no_backslash(share),
        share.len() > 0,
        backslash_or_nothing(rest),
        server.len() + share.len() + rest.len() + 9 <= usize::MAX,
    ensures
        path::components(
            PathStyle::Windows,
            as_it_stands() + seq!['U', 'N', 'C', '\\'] + server + seq!['\\'] + share + rest,
        ) == seq![Part { tag: Tag::VerbatimShare, drive: 0, a: server, b: share }] + root_of(
            PathStyle::Windows,
            rest,
        ) + name_parts(names_in(PathStyle::Windows, true, rest)),
{
    let w = PathStyle::Windows;
    let t = as_it_stands() + seq!['U', 'N', 'C', '\\'] + server + seq!['\\'] + share + rest;
    let j = 8 + server.len() as int;
    let k = j + 1 + share.len();
    assert(t[0] == '\\' && t[1] == '\\' && t[2] == '?' && t[3] == '\\');
    assert(t[4] == 'U' && t[5] == 'N' && t[6] == 'C' && t[7] == '\\');
    assert(t[j] == '\\');
    assert forall|q: int| 8 <= q < j implies !path::splits(w, true, #[trigger] t[q]) by {
        assert(t[q] == server[q - 8]);
    }
    assert forall|q: int| j + 1 <= q < k implies !path::splits(w, true, #[trigger] t[q]) by {
        assert(t[q] == share[q - j - 1]);
    }
    if rest.len() > 0 {
        assert(t[k] == rest[0]);
    }
    lemma_stop(w, true, t, 8, j);
    lemma_stop(w, true, t, j + 1, k);
    assert(path::head(w, t) == path::share_head(t, 8, true));
    lemma_components(w, t);
    let i = path::start_of(w, t);
    let e: Seq<char> = seq![];
    assert(path::span_text(t, path::no_span()) =~= e);
    assert(t.subrange(8, j) =~= server);
    assert(t.subrange(j + 1, k) =~= share);
    assert(t.skip(k) =~= rest);
    if rest.len() > 0 {
        assert(t.skip(k + 1) =~= rest.skip(1));
        lemma_skipped(w, true, rest);
    }
    lemma_names_in(w, true, t, i);
    assert(path::lead(w, t).map_values(|p: Piece| path::part(t, p)) =~= seq![
        Part { tag: Tag::VerbatimShare, drive: 0, a: server, b: share },
    ] + root_of(w, rest));
}

/// The name of a path is its last component, where that is a name and neither
/// `.` nor `..`; else it has none.
pub proof fn law_name_of(style: PathStyle, t: Seq<char>, n: Seq<char>)
    requires
        t.len() <= usize::MAX,
    ensures
        path::name_of(style, t) == Some(n) <==> {
            &&& path::components(style, t).len() > 0
            &&& path::components(style, t).last() == name_part(n)
            &&& n != seq!['.']
            &&& n != seq!['.', '.']
        },
{
    lemma_components(style, t);
    let c = path::components(style, t);
    let ns = path::names(style, t);
    let l = path::lead(style, t);
    let e: Seq<char> = seq![];
    assert(path::span_text(t, path::no_span()) =~= e);
    if ns.len() > 0 {
        assert(c.last() == name_part(path::span_text(t, ns.last())));
    } else {
        assert(c =~= l.map_values(|p: Piece| path::part(t, p)));
        if c.len() > 0 {
            assert(c.last() == path::part(t, l.last()));
            if path::begins_with_dot(style, t) && path::head(style, t).prefix is None {
                assert(path::span_text(t, path::span(0, 1)) =~= seq!['.']);
            }
        }
    }
}

/// A path lies below another if and only if that one's components begin its own.
pub proof fn law_what_lies_below(style: PathStyle, t: Seq<char>, base: Seq<char>)
    ensures
        path::below(style, t, base) is Some <==> exists|rest: Seq<Part>|
            path::components(style, t) == #[trigger] path::components(style, base).add(rest),
{
    let a = path::components(style, base);
    let b = path::components(style, t);
    if a.is_prefix_of(b) {
        assert(b =~= a.add(b.skip(a.len() as int)));
    }
    if exists|rest: Seq<Part>| b == #[trigger] a.add(rest) {
        let rest = choose|rest: Seq<Part>| b == #[trigger] a.add(rest);
        assert(a =~= b.subrange(0, a.len() as int));
    }
}

/// The names of a text and of what is added to it, where a separator stands
/// between them.
proof fn lemma_concat(style: PathStyle, verbatim: bool, a: Seq<char>, b: Seq<char>, i: int)
    requires
        0 <= i <= a.len(),
        (a + b).len() <= usize::MAX,
        a.len() == i || b.len() == 0 || path::splits(style, verbatim, b[0]) || path::splits(
            style,
            verbatim,
            a.last(),
        ),
    ensures
        path::names_from(style, verbatim, a + b, i) == path::names_from(style, verbatim, a, i)
            + path::names_from(style, verbatim, a + b, a.len() as int),
    decreases a.len() - i,
{
    let t = a + b;
    let n = a.len() as int;
    let e: Seq<Span> = seq![];
    let last = path::names_from(style, verbatim, t, n);
    if i == n {
        assert(path::names_from(style, verbatim, a, i) =~= e);
        assert(e + last =~= last);
    } else if path::splits(style, verbatim, a[i]) {
        assert(t[i] == a[i]);
        if i + 1 == n {
            lemma_concat(style, verbatim, a, b, n);
        } else {
            lemma_concat(style, verbatim, a, b, i + 1);
        }
    } else {
        assert(t[i] == a[i]);
        let j = path::next_sep(style, verbatim, a, i);
        path::lemma_next_sep(style, verbatim, a, i);
        lemma_no_sep_before(style, verbatim, a, i);
        assert forall|k: int| i <= k < j implies !path::splits(style, verbatim, #[trigger] t[k]) by {
            assert(t[k] == a[k]);
        }
        if j < n {
            assert(t[j] == a[j]);
        } else {
            assert(!path::splits(style, verbatim, a[n - 1]));
            if b.len() > 0 {
                assert(t[n] == b[0]);
            }
        }
        lemma_stop(style, verbatim, t, i, j);
        assert(t.subrange(i, j) =~= a.subrange(i, j));
        lemma_concat(style, verbatim, a, b, j);
        let s = path::names_from(style, verbatim, a, j);
        assert(seq![path::span(i, j)] + (s + last) =~= seq![path::span(i, j)] + s + last);
    }
}

/// No separator stands before the next one, and one stands there.
proof fn lemma_no_sep_before(style: PathStyle, verbatim: bool, t: Seq<char>, i: int)
    requires
        0 <= i <= t.len(),
    ensures
        ({
            let j = path::next_sep(style, verbatim, t, i);
            &&& forall|k: int| i <= k < j ==> !path::splits(style, verbatim, #[trigger] t[k])
            &&& j < t.len() ==> path::splits(style, verbatim, t[j])
        }),
    decreases t.len() - i,
{
    if i < t.len() && !path::splits(style, verbatim, t[i]) {
        lemma_no_sep_before(style, verbatim, t, i + 1);
    }
}

/// A name that can stand in a path: not empty, without a slash, and not a dot.
pub open spec fn is_plain(style: PathStyle, n: Seq<char>) -> bool {
    n.len() > 0 && no_slash(style, n) && n != seq!['.']
}

/// How many characters of a path of this style are a drive.
pub open spec fn drive_len(style: PathStyle) -> nat {
    match style {
        PathStyle::Unix => 0,
        PathStyle::Windows => 2,
    }
}

/// A path of Unix, or one of Windows with a drive; with something in it, or
/// behind the drive.
pub open spec fn is_anchored(style: PathStyle, d: Seq<char>) -> bool {
    &&& d.len() > drive_len(style)
    &&& style == PathStyle::Windows ==> is_letter(d[0]) && d[1] == ':'
}

/// What precedes the names does not change where something is added to a path.
proof fn lemma_extends(style: PathStyle, d: Seq<char>, b: Seq<char>)
    requires
        is_anchored(style, d),
        (d + b).len() <= usize::MAX,
        slash_or_nothing(style, b) || is_slash(style, d.last()),
    ensures
        path::head(style, d + b) == path::head(style, d),
        !path::is_verbatim(path::head(style, d)),
        path::head(style, d).len == drive_len(style),
        path::head(style, d).prefix is Some <==> style == PathStyle::Windows,
        path::start_of(style, d + b) == path::start_of(style, d),
        path::start_of(style, d) <= d.len(),
        path::lead(style, d + b) == path::lead(style, d),
        path::names(style, d + b) == path::names(style, d) + path::names_from(
            style,
            false,
            d + b,
            d.len() as int,
        ),
{
    let t = d + b;
    let n = drive_len(style) as int;
    assert(t[n] == d[n]);
    if style == PathStyle::Windows {
        assert(t[0] == d[0] && t[1] == d[1]);
        assert(path::head(style, d) == path::drive_head(Tag::Disk, 0));
        assert(path::head(style, t) == path::drive_head(Tag::Disk, 0));
    }
    assert(path::is_rooted(style, t) == path::is_rooted(style, d));
    if d.len() > n + 1 {
        assert(t[n + 1] == d[n + 1]);
    } else if b.len() > 0 {
        assert(t[n + 1] == b[0]);
        assert(d.last() == d[n]);
    }
    assert(path::begins_with_dot(style, t) == path::begins_with_dot(style, d));
    lemma_concat(style, false, d, b, path::start_of(style, d));
}

/// The components of two such paths differ by the names that are added.
proof fn lemma_longer(style: PathStyle, d: Seq<char>, b: Seq<char>)
    requires
        is_anchored(style, d),
        (d + b).len() <= usize::MAX,
        slash_or_nothing(style, b) || is_slash(style, d.last()),
    ensures
        path::components(style, d + b) == path::components(style, d) + name_parts(
            names_in(style, false, b),
        ),
{
    let t = d + b;
    let n = d.len() as int;
    lemma_extends(style, d, b);
    path::lemma_names(style, d);
    lemma_components(style, t);
    lemma_components(style, d);
    lemma_names_in(style, false, t, n);
    assert(t.skip(n) =~= b);
    let e: Seq<char> = seq![];
    assert(path::span_text(t, path::no_span()) =~= e);
    assert(path::span_text(d, path::no_span()) =~= e);
    let l = path::lead(style, d);
    assert forall|k: int| 0 <= k < l.len() implies path::part(t, #[trigger] l[k]) == path::part(
        d,
        l[k],
    ) by {
        if style == PathStyle::Unix && path::begins_with_dot(style, d) {
            assert(path::span_text(t, path::span(0, 1)) =~= path::span_text(d, path::span(0, 1)));
        }
        if style == PathStyle::Windows {
            assert(t[0] == d[0]);
        }
    }
    assert(l.map_values(|p: Piece| path::part(t, p)) =~= l.map_values(
        |p: Piece| path::part(d, p),
    ));
    let ns = path::names(style, d);
    assert forall|k: int| 0 <= k < ns.len() implies path::span_text(t, #[trigger] ns[k])
        == path::span_text(d, ns[k]) by {
        assert(path::in_text(ns[k], d));
        assert(path::span_text(t, ns[k]) =~= path::span_text(d, ns[k]));
    }
    let more = path::names_from(style, false, t, n);
    assert(span_texts(t, ns + more) =~= span_texts(d, ns) + span_texts(t, more));
    assert(name_parts(span_texts(d, ns) + span_texts(t, more)) =~= name_parts(span_texts(d, ns))
        + name_parts(span_texts(t, more)));
    assert(path::components(style, t) =~= path::components(style, d) + name_parts(
        names_in(style, false, b),
    ));
}

/// A path goes on where a slash and more is added to it: its components are
/// followed by the names of what is added. So slashes and lone dots at its end
/// count for nothing.
pub proof fn law_paths_go_on(style: PathStyle, d: Seq<char>, b: Seq<char>)
    requires
        is_anchored(style, d),
        d.len() + b.len() <= usize::MAX,
        slash_or_nothing(style, b) || is_slash(style, d.last()),
    ensures
        path::components(style, d + b) == path::components(style, d) + name_parts(
            names_in(style, false, b),
        ),
        names_in(style, false, b).len() == 0 ==> path::same_path(style, d + b, d),
{
    lemma_longer(style, d, b);
    if names_in(style, false, b).len() == 0 {
        assert(path::components(style, d + b) =~= path::components(style, d));
    }
}

/// The names of a text that is one name, alone or behind a slash.
proof fn lemma_one_name(style: PathStyle, s: char, n: Seq<char>)
    requires
        is_plain(style, n),
        is_slash(style, s),
        n.len() < usize::MAX,
    ensures
        names_in(style, false, n) == seq![n],
        names_in(style, false, seq![s] + n) == seq![n],
{
    let w = n.len() as int;
    lemma_stop(style, false, n, 0, w);
    assert(n.subrange(0, w) =~= n);
    assert(n.skip(0) =~= n);
    assert(path::names_from(style, false, n, w).len() == 0);
    assert(path::names_from(style, false, n, 0) =~= seq![path::span(0, w)]);
    lemma_names_in(style, false, n, 0);
    assert(span_texts(n, path::names_from(style, false, n, 0)) =~= seq![n]);
    let t = seq![s] + n;
    assert(t[0] == s);
    assert(t.skip(1) =~= n);
    lemma_skipped(style, false, t);
}

/// An entry of a directory is the directory, a separator of the system unless it
/// ends with one, and the name; its components are those of the directory and
/// the name. In a place that is empty it is the name alone.
pub proof fn law_entries(style: PathStyle, dir: Seq<char>, name: Seq<char>)
    requires
        is_plain(style, name),
        is_anchored(style, dir),
        dir.len() + name.len() < usize::MAX,
    ensures
        is_slash(style, dir.last()) ==> path::entry_of(style, dir, name) == dir + name,
        !is_slash(style, dir.last()) && style == PathStyle::Unix ==> path::entry_of(
            style,
            dir,
            name,
        ) == dir + seq!['/'] + name,
        !is_slash(style, dir.last()) && style == PathStyle::Windows ==> path::entry_of(
            style,
            dir,
            name,
        ) == dir + seq!['\\'] + name,
        path::components(style, path::entry_of(style, dir, name)) == path::components(style, dir)
            + seq![name_part(name)],
        path::entry_of(style, seq![], name) == name,
{
    let s = path::main_sep(style);
    let e: Seq<char> = seq![];
    assert(e + name =~= name);
    lemma_extends(style, dir, e);
    assert(dir + e =~= dir);
    lemma_one_name(style, s, name);
    assert(name_parts(seq![name]) =~= seq![name_part(name)]);
    assert(dir.push(s) + name =~= dir + seq![s] + name);
    assert(dir.push(s) + name =~= dir + (seq![s] + name));
    if is_slash(style, dir.last()) {
        lemma_longer(style, dir, name);
    } else {
        lemma_longer(style, dir, seq![s] + name);
    }
}

/// The last name of a path that ends with one.
proof fn lemma_last_name(style: PathStyle, a: Seq<char>, n: Seq<char>, i: int)
    requires
        is_plain(style, n),
        0 <= i <= a.len(),
        a.len() == i || is_slash(style, a.last()),
        (a + n).len() <= usize::MAX,
    ensures
        path::names_from(style, false, a + n, i) == path::names_from(style, false, a, i) + seq![
            path::span(a.len() as int, (a + n).len() as int),
        ],
{
    let t = a + n;
    let k = a.len() as int;
    lemma_concat(style, false, a, n, i);
    assert forall|q: int| k <= q < t.len() implies !path::splits(style, false, #[trigger] t[q]) by {
        assert(t[q] == n[q - k]);
    }
    lemma_stop(style, false, t, k, t.len() as int);
    assert(t[k] == n[0]);
    assert(t.subrange(k, t.len() as int) =~= n);
    assert(path::names_from(style, false, t, t.len() as int).len() == 0);
    assert(path::names_from(style, false, t, k) =~= seq![path::span(k, t.len() as int)]);
}

/// The first name of a text that begins with one.
proof fn lemma_first_name(style: PathStyle, a: Seq<char>, n: Seq<char>, b: Seq<char>)
    requires
        is_plain(style, n),
        slash_or_nothing(style, b),
        (a + n + b).len() <= usize::MAX,
    ensures
        path::names_from(style, false, a + n + b, a.len() as int).len() > 0,
        path::names_from(style, false, a + n + b, a.len() as int)[0].start == a.len(),
{
    let t = a + n + b;
    let k = a.len() as int;
    let j = k + n.len();
    assert forall|q: int| k <= q < j implies !path::splits(style, false, #[trigger] t[q]) by {
        assert(t[q] == n[q - k]);
    }
    if b.len() > 0 {
        assert(t[j] == b[0]);
    }
    lemma_stop(style, false, t, k, j);
    assert(t[k] == n[0]);
    assert(t.subrange(k, j) =~= n);
}

/// A path that begins with a slash, behind its drive if it has one, or any other
/// of Unix, has a component besides the drive.
proof fn lemma_some_component(style: PathStyle, d: Seq<char>)
    requires
        is_anchored(style, d),
        style == PathStyle::Windows ==> is_slash(style, d[2]),
        d.len() <= usize::MAX,
    ensures
        path::lead(style, d).len() + path::names(style, d).len() > (if style
            == PathStyle::Windows {
            1int
        } else {
            0
        }),
{
    let e: Seq<char> = seq![];
    assert(d + e =~= d);
    lemma_extends(style, d, e);
    if style == PathStyle::Unix && !is_slash(style, d[0]) {
        let j = path::next_sep(style, false, d, 0);
        path::lemma_next_sep(style, false, d, 0);
        lemma_no_sep_before(style, false, d, 0);
        if d.subrange(0, j) == seq!['.'] {
            assert(d.subrange(0, j).len() == j);
            assert(d[0] == d.subrange(0, j)[0]);
            assert(path::begins_with_dot(style, d));
        } else if !path::begins_with_dot(style, d) {
            assert(path::names_from(style, false, d, 0).len() > 0);
        }
    }
}

/// Where the names behind a directory begin and end.
proof fn lemma_reach(
    style: PathStyle,
    d: Seq<char>,
    first: Seq<char>,
    y: Seq<char>,
    x: Seq<char>,
    last: Seq<char>,
    tail: Seq<char>,
)
    requires
        d.len() > 0,
        is_slash(style, d.last()),
        is_plain(style, first),
        slash_or_nothing(style, y),
        is_plain(style, last),
        x.len() > 0 ==> is_slash(style, x.last()),
        first + y == x + last,
        slash_or_nothing(style, tail),
        names_in(style, false, tail).len() == 0,
        d.len() + first.len() + y.len() + tail.len() <= usize::MAX,
    ensures
        ({
            let rest = path::names_from(
                style,
                false,
                d + (first + y) + tail,
                d.len() as int,
            );
            &&& rest.len() > 0
            &&& rest[0].start == d.len()
            &&& rest.last().end == d.len() + (first + y).len()
        }),
{
    let r = first + y;
    let q = d + r;
    let t = q + tail;
    let n = d.len() as int;
    assert(t =~= d + first + (y + tail));
    assert(slash_or_nothing(style, y + tail)) by {
        if y.len() > 0 {
            assert((y + tail)[0] == y[0]);
        } else if tail.len() > 0 {
            assert((y + tail)[0] == tail[0]);
        }
    }
    lemma_first_name(style, d, first, y + tail);
    let rest = path::names_from(style, false, t, n);
    let a = d + x;
    assert(a + last =~= q);
    assert(is_slash(style, a.last())) by {
        if x.len() > 0 {
            assert(a.last() == x.last());
        } else {
            assert(a =~= d);
        }
    }
    lemma_last_name(style, a, last, n);
    lemma_concat(style, false, q, tail, n);
    lemma_names_in(style, false, t, q.len() as int);
    assert(t.skip(q.len() as int) =~= tail);
    let beyond = path::names_from(style, false, t, q.len() as int);
    assert(beyond.len() == span_texts(t, beyond).len());
    assert(beyond =~= seq![]);
    assert(rest =~= path::names_from(style, false, q, n));
    assert(rest.last() == path::span(a.len() as int, q.len() as int));
}

/// What is left of a path below a directory is the text that follows the
/// directory and its slash, from the first further name to the end of the last,
/// as it is written; of the directory itself nothing is left. What follows the
/// last name in slashes and dots is left out.
pub proof fn law_the_rest_below(
    style: PathStyle,
    d: Seq<char>,
    first: Seq<char>,
    y: Seq<char>,
    x: Seq<char>,
    last: Seq<char>,
    tail: Seq<char>,
)
    requires
        is_anchored(style, d),
        style == PathStyle::Windows ==> is_slash(style, d[2]),
        is_slash(style, d.last()),
        is_plain(style, first),
        slash_or_nothing(style, y),
        is_plain(style, last),
        x.len() > 0 ==> is_slash(style, x.last()),
        first + y == x + last,
        slash_or_nothing(style, tail),
        names_in(style, false, tail).len() == 0,
        d.len() + first.len() + y.len() + tail.len() <= usize::MAX,
    ensures
        path::below(style, d + (first + y) + tail, d) == Some(first + y),
        path::below(style, d, d) == Some(Seq::<char>::empty()),
{
    let r = first + y;
    let q = d + r;
    let t = q + tail;
    let n = d.len() as int;
    let e: Seq<char> = seq![];
    assert(d + e =~= d);
    lemma_extends(style, d, e);
    lemma_some_component(style, d);
    let more = r + tail;
    assert(t =~= d + more);
    lemma_extends(style, d, more);
    lemma_longer(style, d, more);
    lemma_reach(style, d, first, y, x, last, tail);
    let c = path::components(style, d);
    let ns = path::names(style, d);
    let rest = path::names_from(style, false, t, n);
    assert(c =~= path::components(style, t).subrange(0, c.len() as int));
    assert(c =~= c.subrange(0, c.len() as int));
    assert(c.len() == path::lead(style, d).len() + ns.len());
    assert((ns + rest)[ns.len() as int] == rest[0]);
    assert((ns + rest).last() == rest.last());
    assert(path::end_of(style, t) == q.len());
    assert(t.subrange(n, q.len() as int) =~= r);
    assert(path::text_from(style, t, c.len() as int) == r);
    assert(path::text_from(style, d, c.len() as int) =~= e);
}

/// The directory of a path without its last slash is the same below.
pub proof fn law_below_without_the_slash(
    style: PathStyle,
    d: Seq<char>,
    s: char,
    t: Seq<char>,
)
    requires
        is_anchored(style, d),
        is_slash(style, s),
        d.len() < usize::MAX,
    ensures
        path::below(style, t, d + seq![s]) == path::below(style, t, d),
{
    let b = seq![s];
    lemma_longer(style, d, b);
    let e: Seq<char> = seq![];
    assert(b.skip(1) =~= e);
    lemma_skipped(style, false, b);
    lemma_names_in(style, false, e, 0);
    assert(e.skip(0) =~= e);
    assert(span_texts(e, path::names_from(style, false, e, 0)).len() == 0);
    assert(path::components(style, d + b) =~= path::components(style, d));
}

/// The parent of a path is its text up to the end of the name before the last;
/// where there is only one name, it is what precedes that: the drive, the root,
/// or nothing. Slashes and dots at the end change nothing.
pub proof fn law_parents(
    style: PathStyle,
    x: Seq<char>,
    name: Seq<char>,
    s: Seq<char>,
    last: Seq<char>,
    tail: Seq<char>,
)
    requires
        is_anchored(style, x + name),
        is_plain(style, name),
        x.len() == drive_len(style) || x.len() > drive_len(style) && is_slash(style, x.last()),
        style == PathStyle::Windows ==> is_letter(x[0]) && x[1] == ':',
        s.len() > 0,
        is_slash(style, s[0]),
        is_slash(style, s.last()),
        names_in(style, false, s).len() == 0,
        is_plain(style, last),
        slash_or_nothing(style, tail),
        names_in(style, false, tail).len() == 0,
        x.len() + name.len() + s.len() + last.len() + tail.len() <= usize::MAX,
    ensures
        path::parent_of(style, x + name + s + last + tail) == Some(x + name),
{
    let p = x + name;
    let q = p + s + last;
    let t = q + tail;
    let i = path::start_of(style, p);
    let e: Seq<char> = seq![];
    assert(p + e =~= p);
    assert(p.last() == name.last());
    lemma_extends(style, p, e);
    let more = s + last + tail;
    assert(t =~= p + more);
    assert(more[0] == s[0]);
    lemma_extends(style, p, more);
    // The name before the last ends the parent.
    let k = x.len() as int;
    assert(i <= k) by {
        if k == drive_len(style) {
            assert(p[k] == name[0]);
            if path::begins_with_dot(style, p) {
                if name.len() > 1 {
                    assert(p[k + 1] == name[1]);
                } else {
                    assert(name =~= seq!['.']);
                }
            }
        }
    }
    lemma_last_name(style, x, name, i);
    let before = path::names(style, p);
    assert(before.last() == path::span(k, p.len() as int));
    // The last name stands alone behind it.
    let n = p.len() as int;
    let a = p + s;
    assert(a.last() == s.last());
    lemma_last_name(style, a, last, n);
    lemma_names_in(style, false, a, n);
    assert(a.skip(n) =~= s);
    let between = path::names_from(style, false, a, n);
    assert(between.len() == span_texts(a, between).len());
    lemma_concat(style, false, q, tail, n);
    lemma_names_in(style, false, t, q.len() as int);
    assert(t.skip(q.len() as int) =~= tail);
    let beyond = path::names_from(style, false, t, q.len() as int);
    assert(beyond.len() == span_texts(t, beyond).len());
    let rest = path::names_from(style, false, t, n);
    assert(rest.len() == 1);
    let ns = path::names(style, t);
    assert(ns.len() == before.len() + 1);
    assert(ns[ns.len() - 2] == before.last());
    assert(t.take(n) =~= p);
}

/// The parent of a single name is what precedes it: the root or the drive, or
/// nothing. What has no name but a lone dot has nothing as its parent, and a
/// root, a drive and nothing have none.
pub proof fn law_topmost_parents(style: PathStyle, l: char, s: char, name: Seq<char>)
    requires
        is_plain(style, name),
        is_slash(style, s),
        is_letter(l),
        name.len() + 3 <= usize::MAX,
    ensures
        path::parent_of(PathStyle::Unix, seq!['/']) is None,
        path::parent_of(style, seq![]) is None,
        path::parent_of(PathStyle::Windows, seq![l, ':', '\\']) is None,
        path::parent_of(PathStyle::Windows, seq![l, ':']) is None,
        path::parent_of(style, seq!['.']) == Some(Seq::<char>::empty()),
        style == PathStyle::Unix ==> {
            &&& path::parent_of(style, name) == Some(Seq::<char>::empty())
            &&& path::parent_of(style, seq![s] + name) == Some(seq![s])
        },
        style == PathStyle::Windows ==> {
            &&& path::parent_of(style, seq![l, ':'] + name) == Some(seq![l, ':'])
            &&& path::parent_of(style, seq![l, ':', s] + name) == Some(seq![l, ':', s])
        },
{
    let u = PathStyle::Unix;
    let w = PathStyle::Windows;
    let e: Seq<char> = seq![];
    let root = seq!['/'];
    assert(path::names_from(u, false, root, 1).len() == 0);
    assert(path::parent_of(u, root) is None);
    assert(path::names_from(style, false, e, 0).len() == 0);
    assert(path::parent_of(style, e) is None);
    let drive = seq![l, ':'];
    let top = seq![l, ':', '\\'];
    assert(path::names_from(w, false, drive, 2).len() == 0);
    assert(path::names_from(w, false, top, 3).len() == 0);
    assert(path::head(w, drive) == path::drive_head(Tag::Disk, 0));
    assert(path::head(w, top) == path::drive_head(Tag::Disk, 0));
    let dot = seq!['.'];
    assert(path::head(style, dot) == path::no_head());
    assert(path::begins_with_dot(style, dot));
    assert(path::names_from(style, false, dot, 1).len() == 0);
    assert(path::parent_of(style, dot) == Some(e));
    if style == PathStyle::Unix {
        assert(e + name =~= name);
        lemma_alone(style, e, name);
        lemma_alone(style, seq![s], name);
    } else {
        lemma_alone(style, drive, name);
        lemma_alone(style, seq![l, ':', s], name);
    }
    assert(Seq::<char>::empty() =~= e);
}

/// The parent of one name behind a drive or a root.
proof fn lemma_alone(style: PathStyle, x: Seq<char>, name: Seq<char>)
    requires
        is_plain(style, name),
        x.len() == drive_len(style) || x.len() == drive_len(style) + 1 && is_slash(
            style,
            x.last(),
        ),
        style == PathStyle::Windows ==> is_letter(x[0]) && x[1] == ':',
        x.len() + name.len() <= usize::MAX,
    ensures
        path::parent_of(style, x + name) == Some(x),
{
    let t = x + name;
    let n = drive_len(style) as int;
    let k = x.len() as int;
    let e: Seq<char> = seq![];
    assert(t + e =~= t);
    if style == PathStyle::Windows {
        assert(t[0] == x[0] && t[1] == x[1]);
    }
    lemma_extends(style, t, e);
    assert(t[k] == name[0]);
    assert(path::start_of(style, t) == k) by {
        if k == n {
            assert(!is_slash(style, name[0]));
            if path::begins_with_dot(style, t) {
                if name.len() > 1 {
                    assert(t[k + 1] == name[1]);
                } else {
                    assert(name =~= seq!['.']);
                }
            }
        } else {
            assert(t[n] == x.last());
        }
    }
    lemma_last_name(style, x, name, k);
    assert(path::names_from(style, false, x, k).len() == 0);
    assert(t.take(k) =~= x);
}

/// How an entry is written on Windows, in any directory that is not taken as it
/// stands: behind a backslash, unless the directory is empty, ends with a slash,
/// or is a bare drive.
pub proof fn law_entries_on_windows(dir: Seq<char>, name: Seq<char>)
    requires
        dir.len() <= usize::MAX,
        !(dir.len() >= 4 && dir.take(4) == as_it_stands()),
    ensures
        ({
            let w = PathStyle::Windows;
            let bare = dir.len() == 2 && is_letter(dir[0]) && dir[1] == ':';
            &&& bare || dir.len() == 0 || is_slash(w, dir.last()) ==> path::entry_of(w, dir, name)
                == dir + name
            &&& !bare && dir.len() > 0 && !is_slash(w, dir.last()) ==> path::entry_of(
                w,
                dir,
                name,
            ) == dir + seq!['\\'] + name
        }),
{
    if path::is_verbatim_text(dir) {
        assert(dir.take(4) =~= as_it_stands());
    }
    assert(dir.push('\\') + name =~= dir + seq!['\\'] + name);
}

/// A text with one more piece at its end.
proof fn lemma_split_tail(a: Seq<char>, c: char, n: Seq<char>)
    requires
        !n.contains(c),
    ensures
        text::split_at_each(a + seq![c] + n, c) == text::split_at_each(a, c) + seq![n],
    decreases a.len(),
{
    text::lemma_first_of(a, c);
    let k = text::first_of(a, c);
    let p = a.take(k);
    assert(!p.contains(c)) by {
        if p.contains(c) {
            let i = choose|i: int| 0 <= i < p.len() && p[i] == c;
            assert(a[i] == c);
        }
    }
    if k == a.len() {
        assert(p =~= a);
        text_laws::law_split(a, c, n);
        text_laws::law_split(n, c, n);
    } else {
        let q = a.skip(k + 1);
        assert(a =~= p + seq![c] + q);
        text_laws::law_split(p, c, q);
        let r = q + seq![c] + n;
        assert(a + seq![c] + n =~= p + seq![c] + r);
        text_laws::law_split(p, c, r);
        lemma_split_tail(q, c, n);
        assert(seq![p] + (text::split_at_each(q, c) + seq![n]) =~= seq![p] + text::split_at_each(
            q,
            c,
        ) + seq![n]);
    }
}

/// A name more behind a backslash.
proof fn lemma_one_more(a: Seq<char>, n: Seq<char>)
    requires
        n.len() > 0,
        no_backslash(n),
    ensures
        names_in(PathStyle::Windows, true, a + seq!['\\'] + n) == names_in(
            PathStyle::Windows,
            true,
            a,
        ) + seq![n],
{
    reveal(Seq::filter);
    lemma_split_tail(a, '\\', n);
    let s = text::split_at_each(a, '\\');
    assert((s + seq![n]).drop_last() =~= s);
    assert((s + seq![n]).last() == n);
    assert(s.filter(counts(true)).push(n) =~= s.filter(counts(true)) + seq![n]);
}

/// Names written anew are the same names.
proof fn lemma_rebuilt(t: Seq<char>, ns: Seq<Span>)
    requires
        forall|k: int|
            0 <= k < ns.len() ==> path::span_text(t, #[trigger] ns[k]).len() > 0 && no_backslash(
                path::span_text(t, ns[k]),
            ),
    ensures
        names_in(PathStyle::Windows, true, path::rebuilt(t, ns)) == span_texts(t, ns),
        ns.len() > 0 ==> path::rebuilt(t, ns).len() > 0 && path::rebuilt(t, ns)[0] == '\\',
        ns.len() == 0 ==> path::rebuilt(t, ns).len() == 0,
    decreases ns.len(),
{
    if ns.len() == 0 {
        let e: Seq<char> = seq![];
        assert(path::rebuilt(t, ns) =~= e);
        lemma_names_in(PathStyle::Windows, true, e, 0);
        assert(e.skip(0) =~= e);
        assert(span_texts(e, path::names_from(PathStyle::Windows, true, e, 0)) =~= span_texts(
            t,
            ns,
        ));
    } else {
        let d = ns.drop_last();
        assert forall|k: int| 0 <= k < d.len() implies path::span_text(t, #[trigger] d[k]).len() > 0
            && no_backslash(path::span_text(t, d[k])) by {
            assert(ns[k] == d[k]);
        }
        lemma_rebuilt(t, d);
        let n = path::span_text(t, ns[ns.len() - 1]);
        lemma_one_more(path::rebuilt(t, d), n);
        assert(path::rebuilt(t, d).push('\\') + n =~= path::rebuilt(t, d) + seq!['\\'] + n);
        assert(span_texts(t, ns) =~= span_texts(t, d) + seq![n]);
    }
}

/// No piece has the character in it that parts them.
proof fn lemma_pieces_are_clean(s: Seq<char>, c: char)
    ensures
        forall|k: int|
            0 <= k < text::split_at_each(s, c).len() ==> !(#[trigger] text::split_at_each(
                s,
                c,
            )[k]).contains(c),
    decreases s.len(),
{
    text::lemma_first_of(s, c);
    let k = text::first_of(s, c);
    let all = text::split_at_each(s, c);
    let p = s.take(k);
    assert(!p.contains(c)) by {
        if p.contains(c) {
            let i = choose|i: int| 0 <= i < p.len() && p[i] == c;
            assert(s[i] == c);
        }
    }
    if k < s.len() {
        let rest = text::split_at_each(s.skip(k + 1), c);
        lemma_pieces_are_clean(s.skip(k + 1), c);
        assert forall|q: int| 0 <= q < all.len() implies !(#[trigger] all[q]).contains(c) by {
            if q > 0 {
                assert(all[q] == rest[q - 1]);
            }
        }
    } else {
        assert(p =~= s);
    }
}

/// The names that are taken as they stand have no backslash and are not empty.
proof fn lemma_names_are_clean(t: Seq<char>)
    ensures
        forall|k: int|
            0 <= k < names_in(PathStyle::Windows, true, t).len() ==> {
                &&& (#[trigger] names_in(PathStyle::Windows, true, t)[k]).len() > 0
                &&& no_backslash(names_in(PathStyle::Windows, true, t)[k])
            },
{
    let s = text::split_at_each(t, '\\');
    let f = s.filter(counts(true));
    lemma_pieces_are_clean(t, '\\');
    assert forall|k: int| 0 <= k < f.len() implies (#[trigger] f[k]).len() > 0 && no_backslash(
        f[k],
    ) by {
        s.lemma_filter_pred(counts(true), k);
        assert(s.contains(f[k])) by {
            lemma_filter_from(s, counts(true));
        }
        let i = choose|i: int| 0 <= i < s.len() && s[i] == f[k];
        assert(!s[i].contains('\\'));
        assert forall|q: int| 0 <= q < f[k].len() implies (#[trigger] f[k][q]) != '\\' by {
            if f[k][q] == '\\' {
                assert(f[k].contains('\\'));
            }
        }
    }
}

/// What is left of a list is from the list.
proof fn lemma_filter_from(s: Seq<Seq<char>>, p: spec_fn(Seq<char>) -> bool)
    ensures
        forall|k: int| 0 <= k < s.filter(p).len() ==> s.contains(#[trigger] s.filter(p)[k]),
    decreases s.len(),
{
    reveal(Seq::filter);
    if s.len() > 0 {
        let d = s.drop_last();
        lemma_filter_from(d, p);
        assert forall|k: int| 0 <= k < s.filter(p).len() implies s.contains(
            #[trigger] s.filter(p)[k],
        ) by {
            if k < d.filter(p).len() {
                assert(s.filter(p)[k] == d.filter(p)[k]);
                let i = choose|i: int| 0 <= i < d.len() && d[i] == d.filter(p)[k];
                assert(s[i] == s.filter(p)[k]);
            } else {
                assert(s[s.len() - 1] == s.filter(p)[k]);
            }
        }
    }
}

/// An entry of a directory that is taken as it stands is behind the directory's
/// names and its root, which it has even where the directory does not say so.
pub proof fn law_entries_as_they_stand(l: char, rest: Seq<char>, name: Seq<char>)
    requires
        is_letter(l),
        backslash_or_nothing(rest),
        name.len() > 0,
        no_backslash(name),
        rest.len() + 6 <= usize::MAX,
    ensures
        ({
            let w = PathStyle::Windows;
            let dir = as_it_stands() + seq![l, ':'] + rest;
            let entry = path::entry_of(w, dir, name);
            entry.len() <= usize::MAX ==> path::components(w, entry) == seq![
                drive_part(Tag::VerbatimDisk, l),
                root_part(),
            ] + name_parts(names_in(w, true, rest)) + seq![name_part(name)]
        }),
{
    let w = PathStyle::Windows;
    let t = as_it_stands() + seq![l, ':'] + rest;
    let entry = path::entry_of(w, t, name);
    if entry.len() <= usize::MAX {
        assert(t[0] == '\\' && t[1] == '\\' && t[2] == '?' && t[3] == '\\');
        assert(t[4] == l && t[5] == ':');
        if rest.len() > 0 {
            assert(t[6] == rest[0]);
        }
        assert(path::head(w, t) == path::drive_head(Tag::VerbatimDisk, 4));
        let ns = path::names(w, t);
        let i = path::start_of(w, t);
        lemma_names_in(w, true, t, i);
        assert(t.skip(6) =~= rest);
        if rest.len() > 0 {
            assert(t.skip(7) =~= rest.skip(1));
            lemma_skipped(w, true, rest);
        }
        assert(span_texts(t, ns) == names_in(w, true, rest));
        lemma_names_are_clean(rest);
        assert forall|k: int| 0 <= k < ns.len() implies path::span_text(t, #[trigger] ns[k]).len()
            > 0 && no_backslash(path::span_text(t, ns[k])) by {
            assert(span_texts(t, ns)[k] == path::span_text(t, ns[k]));
        }
        lemma_rebuilt(t, ns);
        let b = path::rebuilt(t, ns);
        lemma_one_more(b, name);
        let more = b + seq!['\\'] + name;
        assert(t.take(6) =~= as_it_stands() + seq![l, ':']);
        assert(entry =~= as_it_stands() + seq![l, ':'] + more);
        assert(more[0] == '\\') by {
            if ns.len() > 0 {
                assert(more[0] == b[0]);
            } else {
                assert(more =~= seq!['\\'] + name);
            }
        }
        law_components_of_a_drive_as_it_stands(l, more);
        assert(name_parts(names_in(w, true, rest) + seq![name]) =~= name_parts(
            names_in(w, true, rest),
        ) + seq![name_part(name)]);
        assert(path::components(w, entry) =~= seq![
            drive_part(Tag::VerbatimDisk, l),
            root_part(),
        ] + name_parts(names_in(w, true, rest)) + seq![name_part(name)]);
    }
}

/// A place in the home directory is shown as `~/` and what follows the home
/// directory's slash, and the home directory, with or without that slash, as `~`.
pub proof fn law_home_is_shown_as_a_tilde(
    style: PathStyle,
    h: Seq<char>,
    s: char,
    first: Seq<char>,
    y: Seq<char>,
    x: Seq<char>,
    last: Seq<char>,
)
    requires
        is_anchored(style, h),
        style == PathStyle::Windows ==> is_slash(style, h[2]),
        is_slash(style, s),
        is_plain(style, first),
        slash_or_nothing(style, y),
        is_plain(style, last),
        x.len() > 0 ==> is_slash(style, x.last()),
        first + y == x + last,
        !(first + y).contains('\\'),
        h.len() + first.len() + y.len() < usize::MAX,
    ensures
        display::tilde(h + seq![s] + (first + y), Some(h), style) == "~/"@ + (first + y),
        display::tilde(h + seq![s], Some(h), style) == "~"@,
{
    let e: Seq<char> = seq![];
    let d = h + seq![s];
    let r = first + y;
    assert(d.last() == s);
    assert(d[2] == h[2] || style == PathStyle::Unix);
    assert(is_anchored(style, d)) by {
        if style == PathStyle::Windows {
            assert(d[0] == h[0] && d[1] == h[1]);
        }
    }
    lemma_names_in(style, false, e, 0);
    assert(e.skip(0) =~= e);
    assert(span_texts(e, path::names_from(style, false, e, 0)).len() == 0);
    law_the_rest_below(style, d, first, y, x, last, e);
    assert(d + r + e =~= d + r);
    law_below_without_the_slash(style, h, s, d + r);
    law_below_without_the_slash(style, h, s, d);
    let shown = text::replaced(r, '\\', '/');
    assert forall|i: int| 0 <= i < r.len() implies r[i] == shown[i] by {
        assert(r.contains(r[i]));
    }
    assert(shown =~= r);
}

/// Below nothing at all lies every path of Unix, as it is written up to the end of
/// its last name; and below a bare drive lies what follows it, up to there.
pub proof fn law_below_nothing(
    style: PathStyle,
    x: Seq<char>,
    last: Seq<char>,
    tail: Seq<char>,
)
    requires
        is_plain(style, last),
        x.len() == drive_len(style) || x.len() > drive_len(style) && is_slash(style, x.last()),
        style == PathStyle::Windows ==> is_letter(x[0]) && x[1] == ':',
        slash_or_nothing(style, tail),
        names_in(style, false, tail).len() == 0,
        x.len() + last.len() + tail.len() <= usize::MAX,
    ensures
        style == PathStyle::Unix ==> path::below(style, x + last + tail, seq![]) == Some(x + last),
        style == PathStyle::Windows ==> path::below(style, x + last + tail, x.take(2)) == Some(
            x.skip(2) + last,
        ),
{
    let q = x + last;
    let t = q + tail;
    let n = drive_len(style) as int;
    let k = x.len() as int;
    let e: Seq<char> = seq![];
    if style == PathStyle::Windows {
        assert(q[0] == x[0] && q[1] == x[1]);
    }
    assert(q + e =~= q);
    lemma_extends(style, q, e);
    lemma_extends(style, q, tail);
    let i = path::start_of(style, q);
    assert(i <= k) by {
        if k == n {
            assert(q[k] == last[0]);
            if path::begins_with_dot(style, q) {
                if last.len() > 1 {
                    assert(q[k + 1] == last[1]);
                } else {
                    assert(last =~= seq!['.']);
                }
            }
        }
    }
    lemma_last_name(style, x, last, i);
    lemma_names_in(style, false, t, q.len() as int);
    assert(t.skip(q.len() as int) =~= tail);
    let beyond = path::names_from(style, false, t, q.len() as int);
    assert(beyond.len() == span_texts(t, beyond).len());
    let before = path::names(style, q);
    assert(before.last() == path::span(k, q.len() as int));
    assert(beyond =~= seq![]);
    assert(path::names(style, t) =~= before);
    assert(path::end_of(style, t) == q.len());
    if style == PathStyle::Unix {
        assert(path::head(style, e) == path::no_head());
        assert(path::names_from(style, false, e, 0).len() == 0);
        let c = path::components(style, e);
        assert(c.len() == 0);
        assert(c =~= path::components(style, t).subrange(0, 0));
        assert(t.take(q.len() as int) =~= q);
    } else {
        let d = x.take(2);
        assert(d[0] == x[0] && d[1] == x[1]);
        assert(path::head(style, d) == path::drive_head(Tag::Disk, 0));
        assert(path::names_from(style, false, d, 2).len() == 0);
        let c = path::components(style, d);
        assert(c.len() == 1);
        assert(t[0] == x[0]);
        assert(path::lead(style, t)[0] == path::drive_head(Tag::Disk, 0).prefix->0);
        assert(c[0] == path::components(style, t)[0]);
        assert(c =~= path::components(style, t).subrange(0, 1));
        assert(t.subrange(2, q.len() as int) =~= x.skip(2) + last);
    }
}

}
