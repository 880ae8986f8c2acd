//! What holds of the text operations, stated of how a text is put together.

use vstd::prelude::*;

use crate::text;

verus! {

/// Every character is white space.
pub open spec fn blank(s: Seq<char>) -> bool {
    forall|i: int| 0 <= i < s.len() ==> text::is_white(#[trigger] s[i])
}

/// No character is white space.
pub open spec fn unbroken(s: Seq<char>) -> bool {
    forall|i: int| 0 <= i < s.len() ==> !text::is_white(#[trigger] s[i])
}

/// There is no white space at either end.
pub open spec fn tight(s: Seq<char>) -> bool {
    s.len() > 0 ==> !text::is_white(s[0]) && !text::is_white(s.last())
}

/// White space is what Unicode gives the property `White_Space`: by code point,
/// tab to carriage return, space, next line, the no-break space, and the spaces
/// and separators of other scripts.
pub proof fn law_white_space(c: char)
    ensures
        text::is_white(c) <==> {
            let n = c as u32;
            9 <= n <= 13 || n == 32 || n == 133 || n == 160 || n == 5760 || 8192 <= n <= 8202
                || n == 8232 || n == 8233 || n == 8239 || n == 8287 || n == 12288
        },
{
}

/// White space at the front is taken off, all of it and nothing else.
pub proof fn law_trim_start(a: Seq<char>, t: Seq<char>)
    requires
        blank(a),
        t.len() > 0 ==> !text::is_white(t[0]),
    ensures
        text::trim_start(a + t) == t,
    decreases a.len(),
{
    if a.len() == 0 {
        assert(a + t =~= t);
    } else {
        assert(text::is_white(a[0]));
        assert((a + t)[0] == a[0]);
        assert((a + t).drop_first() =~= a.drop_first() + t);
        assert forall|i: int| 0 <= i < a.drop_first().len() implies text::is_white(
            #[trigger] a.drop_first()[i],
        ) by {
            assert(a[i + 1] == a.drop_first()[i]);
        }
        law_trim_start(a.drop_first(), t);
    }
}

/// White space at the end is taken off.
proof fn lemma_trim_end(t: Seq<char>, b: Seq<char>)
    requires
        blank(b),
        t.len() > 0 ==> !text::is_white(t.last()),
    ensures
        text::trim_end(t + b) == t,
    decreases b.len(),
{
    if b.len() == 0 {
        assert(t + b =~= t);
    } else {
        assert(text::is_white(b[b.len() - 1]));
        assert((t + b).last() == b.last());
        assert((t + b).drop_last() =~= t + b.drop_last());
        lemma_trim_end(t, b.drop_last());
    }
}

/// A text that is blank comes to nothing.
proof fn lemma_trim_blank(a: Seq<char>)
    requires
        blank(a),
    ensures
        text::trim_start(a).len() == 0,
{
    let e: Seq<char> = seq![];
    law_trim_start(a, e);
    assert(a + e =~= a);
}

/// Trimming takes off the white space at both ends and nothing else: what stands
/// between blank stretches, and is tight itself, is what is left.
pub proof fn law_trim(a: Seq<char>, t: Seq<char>, b: Seq<char>)
    requires
        blank(a),
        blank(b),
        tight(t),
    ensures
        text::trim(a + t + b) == t,
{
    if t.len() == 0 {
        assert(a + t + b =~= a + b);
        assert(blank(a + b));
        lemma_trim_blank(a + b);
        assert(text::trim_start(a + b) =~= t);
        assert(text::trim_end(t) == t);
    } else {
        assert(a + t + b =~= a + (t + b));
        assert((t + b)[0] == t[0]);
        law_trim_start(a, t + b);
        lemma_trim_end(t, b);
    }
}

/// Every text is some blank stretch, what trimming leaves, and another blank
/// stretch; what trimming leaves is tight.
pub proof fn law_trim_parts(s: Seq<char>) -> (r: (Seq<char>, Seq<char>))
    ensures
        blank(r.0),
        blank(r.1),
        tight(text::trim(s)),
        s == r.0 + text::trim(s) + r.1,
{
    let a = lemma_lead(s);
    let t = text::trim_start(s);
    let b = lemma_tail(t);
    let u = text::trim(s);
    assert(s =~= a + u + b);
    if u.len() > 0 {
        assert(t[0] == u[0]);
    }
    (a, b)
}

/// The blank stretch at the front.
proof fn lemma_lead(s: Seq<char>) -> (a: Seq<char>)
    ensures
        blank(a),
        s == a + text::trim_start(s),
        text::trim_start(s).len() > 0 ==> !text::is_white(text::trim_start(s)[0]),
    decreases s.len(),
{
    if s.len() > 0 && text::is_white(s[0]) {
        let a = lemma_lead(s.drop_first());
        let r = seq![s[0]] + a;
        assert(s =~= seq![s[0]] + s.drop_first());
        assert(seq![s[0]] + (a + text::trim_start(s)) =~= r + text::trim_start(s));
        r
    } else {
        let e: Seq<char> = seq![];
        assert(s =~= e + s);
        e
    }
}

/// The blank stretch at the end.
proof fn lemma_tail(s: Seq<char>) -> (b: Seq<char>)
    ensures
        blank(b),
        s == text::trim_end(s) + b,
        text::trim_end(s).len() > 0 ==> !text::is_white(text::trim_end(s).last()),
    decreases s.len(),
{
    if s.len() > 0 && text::is_white(s.last()) {
        let b = lemma_tail(s.drop_last());
        let r = b.push(s.last());
        assert(s =~= s.drop_last().push(s.last()));
        assert((text::trim_end(s) + b).push(s.last()) =~= text::trim_end(s) + r);
        r
    } else {
        let e: Seq<char> = seq![];
        assert(s =~= s + e);
        e
    }
}

/// The first white space stands where the first word ends.
pub proof fn law_first_word(w: Seq<char>, s: Seq<char>)
    requires
        unbroken(w),
        s.len() > 0 ==> text::is_white(s[0]),
    ensures
        text::first_white(w + s) == w.len(),
    decreases w.len(),
{
    if w.len() == 0 {
        assert(w + s =~= s);
    } else {
        assert(!text::is_white(w[0]));
        assert((w + s)[0] == w[0]);
        assert((w + s).drop_first() =~= w.drop_first() + s);
        assert forall|i: int| 0 <= i < w.drop_first().len() implies !text::is_white(
            #[trigger] w.drop_first()[i],
        ) by {
            assert(w[i + 1] == w.drop_first()[i]);
        }
        law_first_word(w.drop_first(), s);
    }
}

/// A character first stands where the text without it ends.
pub proof fn law_first_of(p: Seq<char>, c: char, q: Seq<char>)
    requires
        !p.contains(c),
    ensures
        text::first_of(p, c) == p.len(),
        text::first_of(p + seq![c] + q, c) == p.len(),
{
    let t = p + seq![c] + q;
    text::lemma_first_of(p, c);
    text::lemma_first_of(t, c);
    if text::first_of(p, c) < p.len() {
        assert(p.contains(p[text::first_of(p, c)]));
    }
    let k = text::first_of(t, c);
    assert(t[p.len() as int] == c);
    if k < p.len() {
        assert(t[k] == p[k]);
        assert(p.contains(p[k]));
    }
}

/// A text falls into the pieces between the copies of a character: one piece
/// where there is none, and else what is before the first copy and then the
/// pieces of what is behind it.
pub proof fn law_split(p: Seq<char>, c: char, q: Seq<char>)
    requires
        !p.contains(c),
    ensures
        text::split_at_each(p, c) == seq![p],
        text::split_at_each(p + seq![c] + q, c) == seq![p] + text::split_at_each(q, c),
{
    law_first_of(p, c, q);
    let t = p + seq![c] + q;
    assert(t.take(p.len() as int) =~= p);
    assert(t.skip(p.len() as int + 1) =~= q);
}

/// The copies of a character at the end of a text are taken off, all of them and
/// nothing else.
pub proof fn law_trim_end_of(t: Seq<char>, c: char, n: nat)
    requires
        t.len() > 0 ==> t.last() != c,
    ensures
        text::trim_end_of(t + Seq::new(n, |i: int| c), c) == t,
    decreases n,
{
    let s = Seq::new(n, |i: int| c);
    if n == 0 {
        assert(t + s =~= t);
    } else {
        law_trim_end_of(t, c, (n - 1) as nat);
        assert((t + s).drop_last() =~= t + Seq::new((n - 1) as nat, |i: int| c));
        assert((t + s).last() == c);
    }
}

/// Replacing a character keeps the length and every other character.
pub proof fn law_replaced(s: Seq<char>, from: char, to: char, i: int)
    ensures
        text::replaced(s, from, to).len() == s.len(),
        0 <= i < s.len() ==> text::replaced(s, from, to)[i] == if s[i] == from {
            to
        } else {
            s[i]
        },
{
}

/// Every character is a decimal digit.
pub open spec fn all_digits(d: Seq<char>) -> bool {
    forall|i: int| 0 <= i < d.len() ==> '0' <= #[trigger] d[i] <= '9'
}

/// The value of a run of digits: nothing is zero, and one more digit makes ten
/// times as much and the digit.
pub proof fn law_value_of_digits(d: Seq<char>, c: char)
    requires
        '0' <= c <= '9',
    ensures
        text::digits_value(seq![]) == 0,
        text::digits_value(d.push(c)) == 10 * text::digits_value(d) + (c as u32 - 48),
{
    assert(d.push(c).drop_last() =~= d);
}

/// A number is read of digits alone, at least one, where its value is not above
/// the largest; a plus sign before them changes nothing. Nothing else is read.
pub proof fn law_numbers_read(d: Seq<char>, max: nat, i: int)
    ensures
        d.len() > 0 && all_digits(d) && text::digits_value(d) <= max ==> {
            &&& text::parsed_uint(d, max) == Some(text::digits_value(d))
            &&& text::parsed_uint(seq!['+'] + d, max) == Some(text::digits_value(d))
        },
        d.len() > 0 && all_digits(d) && text::digits_value(d) > max ==> {
            &&& text::parsed_uint(d, max) is None
            &&& text::parsed_uint(seq!['+'] + d, max) is None
        },
        0 <= i < d.len() && !('0' <= d[i] <= '9') && (i > 0 || d[0] != '+') ==> text::parsed_uint(
            d,
            max,
        ) is None,
        text::parsed_uint(seq![], max) is None,
        text::parsed_uint(seq!['+'], max) is None,
{
    assert((seq!['+'] + d).drop_first() =~= d);
    if d.len() > 0 && all_digits(d) {
        assert('0' <= d[0] <= '9');
        assert(text::unsigned_digits(d) == d);
        assert(text::unsigned_digits(seq!['+'] + d) == d);
    }
    if 0 <= i < d.len() && !('0' <= d[i] <= '9') && (i > 0 || d[0] != '+') {
        let u = text::unsigned_digits(d);
        if d[0] == '+' {
            assert(u[i - 1] == d[i]);
        } else {
            assert(u[i] == d[i]);
        }
    }
    assert(seq!['+'].drop_first().len() == 0);
}

/// The decimal notation of a number is read back as that number, is made of
/// digits alone, and does not begin with a zero but for zero itself.
pub proof fn law_decimal(n: nat, max: nat)
    ensures
        n <= max ==> text::parsed_uint(text::decimal(n), max) == Some(n),
        n > max ==> text::parsed_uint(text::decimal(n), max) is None,
        text::decimal(n).len() > 0,
        all_digits(text::decimal(n)),
        n > 0 ==> text::decimal(n)[0] != '0',
{
    text::lemma_decimal(n);
    lemma_no_leading_zero(n);
    if n <= max {
        text::lemma_decimal_read(n, max);
    }
    assert(text::unsigned_digits(text::decimal(n)) == text::decimal(n));
}

/// A number above zero does not begin with a zero.
proof fn lemma_no_leading_zero(n: nat)
    ensures
        text::decimal(n).len() > 0,
        n > 0 ==> text::decimal(n)[0] != '0',
        text::decimal(n)[0] != '+',
    decreases n,
{
    if n >= 10 {
        lemma_no_leading_zero(n / 10);
    }
}

}
