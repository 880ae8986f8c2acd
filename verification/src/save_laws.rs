//! The state file, line by line as it is written and read.

use vstd::prelude::*;

use crate::path;
use crate::path::PathStyle;
use crate::save_data;
use crate::save_data::Record;
use crate::text;
use crate::text_laws;
use crate::timestamp;
use crate::timestamp::Timestamp;
use crate::types::RecentModel;

verus! {

/// The state file stands in the directory that `USERPROFILE` names, or else in
/// the one that `HOME` does; without either there is none.
pub proof fn law_where_the_state_is_kept(
    u: Seq<char>,
    h: Option<Seq<char>>,
    d: Seq<char>,
    style: PathStyle,
)
    ensures
        save_data::default_location(Some(u), h, style) == Some(
            path::entry_of(style, u, "shell_state.ss"@),
        ),
        save_data::default_location(None, Some(d), style) == Some(
            path::entry_of(style, d, "shell_state.ss"@),
        ),
        save_data::default_location(None, None, style) is None,
{
}

/// The file has a comment, then a line for each bookmark and then one for each
/// recent directory, in order.
pub proof fn law_lines_of_the_file(b: Seq<Seq<char>>, d: Seq<RecentModel>, i: int)
    ensures
        ({
            let l = save_data::saved_lines(b, d);
            &&& l.len() == 1 + b.len() + d.len()
            &&& l[0] == "# Shell state — auto-generated. Do not edit while shell is running."@
            &&& 0 <= i < b.len() ==> l[1 + i] == "BOOKMARK "@ + b[i]
            &&& 0 <= i < d.len() ==> l[1 + b.len() + i] == "RECENT_DIR "@ + timestamp::rfc3339_text(
                d[i].dt.secs,
                d[i].dt.nanos,
            ) + " "@ + d[i].path
        }),
{
}

/// Each line of the file ends with a line break, and reading the file finds the
/// lines again.
pub proof fn law_the_text_of_the_file(l: Seq<char>, lines: Seq<Seq<char>>)
    ensures
        save_data::file_of(seq![]).len() == 0,
        save_data::file_of(seq![l] + lines) == l + "\n"@ + save_data::file_of(lines),
        !l.contains('\n') ==> text::split_at_each(save_data::file_of(seq![l] + lines), '\n')
            == seq![l] + text::split_at_each(save_data::file_of(lines), '\n'),
{
    reveal_strlit("\n");
    let all = seq![l] + lines;
    assert(all[0] == l);
    assert(all.drop_first() =~= lines);
    let rest = save_data::file_of(lines);
    assert(l.push('\n') + rest =~= l + "\n"@ + rest);
    if !l.contains('\n') {
        text_laws::law_split(l, '\n', rest);
        assert(l.push('\n') + rest =~= l + seq!['\n'] + rest);
    }
}

/// A line `BOOKMARK` and a path is read as that bookmark, whatever white space
/// stands around it; a line without a path is passed over.
pub proof fn law_reading_a_bookmark(a: Seq<char>, p: Seq<char>, b: Seq<char>)
    requires
        text_laws::blank(a),
        text_laws::blank(b),
        p.len() > 0,
        !text::is_white(p.last()),
    ensures
        save_data::read_record(a + ("BOOKMARK "@ + p) + b) == Record::Bookmark(p),
        save_data::read_record(a + "BOOKMARK "@ + b) == Record::Other,
{
    reveal_strlit("BOOKMARK ");
    reveal_strlit("RECENT_DIR ");
    let t = "BOOKMARK "@ + p;
    assert(t[0] == 'B');
    assert(t.last() == p.last());
    text_laws::law_trim(a, t, b);
    assert("BOOKMARK "@ =~= t.subrange(0, 9));
    assert(t.skip(9) =~= p);
    let w = seq!['B', 'O', 'O', 'K', 'M', 'A', 'R', 'K'];
    let tail = seq![' '] + b;
    assert(a + "BOOKMARK "@ + b =~= a + w + tail);
    assert forall|i: int| 0 <= i < tail.len() implies text::is_white(#[trigger] tail[i]) by {
        if i > 0 {
            assert(tail[i] == b[i - 1]);
        }
    }
    text_laws::law_trim(a, w, tail);
}

/// A line `RECENT_DIR`, a moment and a path is read as that directory at that
/// moment; where what stands for the moment is none, or the path is missing,
/// the line is passed over.
pub proof fn law_reading_a_recent_dir(
    a: Seq<char>,
    stamp: Seq<char>,
    gap: Seq<char>,
    p: Seq<char>,
    b: Seq<char>,
)
    requires
        text_laws::blank(a),
        text_laws::blank(b),
        text_laws::blank(gap),
        !stamp.contains(' '),
        p.len() > 0,
        text_laws::tight(p),
    ensures
        ({
            let r = save_data::read_record(
                a + ("RECENT_DIR "@ + stamp + " "@ + gap + p) + b,
            );
            &&& timestamp::rfc3339_parsed(stamp) is None ==> r == Record::Other
            &&& timestamp::rfc3339_parsed(stamp) matches Some((secs, nanos)) ==> r
                == Record::Recent(RecentModel { path: p, dt: Timestamp { secs, nanos } })
        }),
        stamp.len() > 0 && !text::is_white(stamp.last()) ==> save_data::read_record(
            a + ("RECENT_DIR "@ + stamp) + b,
        ) == Record::Other,
{
    reveal_strlit("BOOKMARK ");
    reveal_strlit("RECENT_DIR ");
    reveal_strlit(" ");
    let tag = "RECENT_DIR "@;
    let t = tag + stamp + " "@ + gap + p;
    assert(tag.len() == 11);
    assert(t[0] == 'R');
    assert(t.last() == p.last());
    text_laws::law_trim(a, t, b);
    assert(tag =~= t.subrange(0, 11));
    if "BOOKMARK "@.is_prefix_of(t) {
        assert(t.subrange(0, "BOOKMARK "@.len() as int)[0] == 'B');
    }
    let rest = t.skip(11);
    let more = gap + p;
    assert(rest =~= stamp + seq![' '] + more);
    text_laws::law_first_of(stamp, ' ', more);
    assert(rest.take(stamp.len() as int) =~= stamp);
    let tail = rest.skip(stamp.len() as int);
    let lead = seq![' '] + gap;
    assert(tail =~= lead + p);
    assert forall|i: int| 0 <= i < lead.len() implies text::is_white(#[trigger] lead[i]) by {
        if i > 0 {
            assert(lead[i] == gap[i - 1]);
        }
    }
    text_laws::law_trim_start(lead, p);
    let u = tag + stamp;
    if stamp.len() > 0 && !text::is_white(stamp.last()) {
        assert(u[0] == 'R');
        assert(u.last() == stamp.last());
        text_laws::law_trim(a, u, b);
        assert(tag =~= u.subrange(0, 11));
        if "BOOKMARK "@.is_prefix_of(u) {
            assert(u.subrange(0, "BOOKMARK "@.len() as int)[0] == 'B');
        }
        assert(u.skip(11) =~= stamp);
    }
}

/// A line that begins with `#` is passed over, and so are a blank one and one
/// with another tag.
pub proof fn law_comments(a: Seq<char>, t: Seq<char>, b: Seq<char>)
    requires
        text_laws::blank(a),
        text_laws::blank(b),
        text_laws::tight(t),
    ensures
        t.len() == 0 || t[0] == '#' || (t[0] != 'B' && t[0] != 'R') ==> save_data::read_record(
            a + t + b,
        ) == Record::Other,
{
    reveal_strlit("BOOKMARK ");
    reveal_strlit("RECENT_DIR ");
    text_laws::law_trim(a, t, b);
    if t.len() > 0 && t[0] != 'B' && t[0] != 'R' {
        if "BOOKMARK "@.is_prefix_of(t) {
            assert(t.subrange(0, "BOOKMARK "@.len() as int)[0] == 'B');
        }
        if "RECENT_DIR "@.is_prefix_of(t) {
            assert(t.subrange(0, "RECENT_DIR "@.len() as int)[0] == 'R');
        }
    }
}

/// Each line adds what it is read as, behind what the lines before it gave.
pub proof fn law_reading_line_by_line(
    lines: Seq<Seq<char>>,
    l: Seq<char>,
    p: Seq<char>,
    r: RecentModel,
)
    ensures
        save_data::bookmarks_in(seq![]).len() == 0,
        save_data::recents_in(seq![]).len() == 0,
        save_data::read_record(l) == Record::Bookmark(p) ==> {
            &&& save_data::bookmarks_in(lines + seq![l]) == save_data::bookmarks_in(lines) + seq![p]
            &&& save_data::recents_in(lines + seq![l]) == save_data::recents_in(lines)
        },
        save_data::read_record(l) == Record::Recent(r) ==> {
            &&& save_data::bookmarks_in(lines + seq![l]) == save_data::bookmarks_in(lines)
            &&& save_data::recents_in(lines + seq![l]) == save_data::recents_in(lines) + seq![r]
        },
        save_data::read_record(l) == Record::Other ==> {
            &&& save_data::bookmarks_in(lines + seq![l]) == save_data::bookmarks_in(lines)
            &&& save_data::recents_in(lines + seq![l]) == save_data::recents_in(lines)
        },
{
    let all = lines + seq![l];
    assert(all.drop_last() =~= lines);
    assert(all.last() == l);
    assert(save_data::bookmarks_in(lines).push(p) =~= save_data::bookmarks_in(lines) + seq![p]);
    assert(save_data::recents_in(lines).push(r) =~= save_data::recents_in(lines) + seq![r]);
}

}
