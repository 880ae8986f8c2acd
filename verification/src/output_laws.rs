//! What holds of output and its escape sequences, stated on the text of the
//! sequences themselves.

use vstd::prelude::*;

use crate::ansi;
use crate::ansi::Color32;
use crate::ansi::SegmentModel;
use crate::ansi::Style;
use crate::gui;
use crate::text;
use crate::text_laws;
use crate::types::OutModel;
use crate::types::OutType;

verus! {

/// An ASCII letter.
pub open spec fn is_letter(c: char) -> bool {
    'a' <= c <= 'z' || 'A' <= c <= 'Z'
}

/// There is no ASCII letter in the text.
pub open spec fn no_letter(p: Seq<char>) -> bool {
    forall|i: int| 0 <= i < p.len() ==> !is_letter(#[trigger] p[i])
}

/// Neither a bell nor an escape character is in the text.
pub open spec fn no_end_of_osc(p: Seq<char>) -> bool {
    forall|i: int| 0 <= i < p.len() ==> (#[trigger] p[i]) != '\u{7}' && p[i] != '\u{1b}'
}

/// A stretch of text without letters, and then a letter.
proof fn lemma_first_letter(p: Seq<char>, s: Seq<char>)
    requires
        no_letter(p),
    ensures
        ansi::first_alpha(p + s) == p.len() + ansi::first_alpha(s),
    decreases p.len(),
{
    if p.len() == 0 {
        assert(p + s =~= s);
    } else {
        assert(!is_letter(p[0]));
        assert((p + s)[0] == p[0]);
        assert((p + s).drop_first() =~= p.drop_first() + s);
        assert forall|i: int| 0 <= i < p.drop_first().len() implies !is_letter(
            #[trigger] p.drop_first()[i],
        ) by {
            assert(p[i + 1] == p.drop_first()[i]);
        }
        lemma_first_letter(p.drop_first(), s);
    }
}

/// A stretch of text in an OSC sequence that does not end it.
proof fn lemma_osc(p: Seq<char>, s: Seq<char>)
    requires
        no_end_of_osc(p),
    ensures
        ansi::osc_len(p + s) == p.len() + ansi::osc_len(s),
    decreases p.len(),
{
    if p.len() == 0 {
        assert(p + s =~= s);
    } else {
        assert(p[0] != '\u{7}' && p[0] != '\u{1b}');
        assert((p + s)[0] == p[0]);
        assert((p + s).drop_first() =~= p.drop_first() + s);
        assert forall|i: int| 0 <= i < p.drop_first().len() implies (#[trigger] p.drop_first()[i])
            != '\u{7}' && p.drop_first()[i] != '\u{1b}' by {
            assert(p[i + 1] == p.drop_first()[i]);
        }
        lemma_osc(p.drop_first(), s);
    }
}

/// A CSI sequence that is not SGR shows nothing, from its escape character up to
/// and with its final letter, and changes no style: the text behind it is read
/// as if the sequence were not there.
pub proof fn law_csi_sequences_show_nothing(
    p: Seq<char>,
    f: char,
    s: Seq<char>,
    style: Style,
    buf: Seq<char>,
)
    requires
        no_letter(p),
        is_letter(f),
        f != 'm',
    ensures
        ansi::parsed_from("\u{1b}["@ + p + seq![f] + s, style, buf) == ansi::parsed_from(
            s,
            style,
            buf,
        ),
        ansi::parsed("\u{1b}["@ + p + seq![f] + s) == ansi::parsed(s),
{
    reveal_strlit("\u{1b}[");
    let t = "\u{1b}["@ + p + seq![f] + s;
    assert(t[0] == '\u{1b}' && t[1] == '[');
    assert(t.skip(2) =~= p + (seq![f] + s));
    lemma_first_letter(p, seq![f] + s);
    assert((seq![f] + s)[0] == f);
    assert(ansi::first_alpha(t.skip(2)) == p.len());
    assert(t[p.len() as int + 2] == f);
    assert(t.skip(p.len() as int + 3) =~= s);
    assert(ansi::read_item(t) == (ansi::Item::Nothing, p.len() as int + 3));
}

/// A CSI sequence that is cut short shows nothing.
pub proof fn law_cut_csi_sequences_show_nothing(p: Seq<char>, style: Style, buf: Seq<char>)
    requires
        no_letter(p),
    ensures
        ansi::parsed_from("\u{1b}["@ + p, style, buf) == ansi::parsed_from(seq![], style, buf),
        ansi::parsed_from("\u{1b}"@, style, buf) == ansi::parsed_from(seq![], style, buf),
{
    reveal_strlit("\u{1b}[");
    reveal_strlit("\u{1b}");
    let t = "\u{1b}["@ + p;
    assert(t[0] == '\u{1b}' && t[1] == '[');
    let e: Seq<char> = seq![];
    assert(t.skip(2) =~= p + e);
    lemma_first_letter(p, e);
    assert(t.skip(t.len() as int) =~= e);
    assert("\u{1b}"@.skip(1) =~= e);
}

/// An SGR sequence closes the text that was gathered before it, in the style
/// that held until then, and shows nothing; what follows it is read in the style
/// that its numbers lead to.
pub proof fn law_sgr_sequences(p: Seq<char>, s: Seq<char>, style: Style, buf: Seq<char>)
    requires
        no_letter(p),
    ensures
        ansi::parsed_from("\u{1b}["@ + p + "m"@ + s, style, buf) == (if buf.len() == 0 {
            seq![]
        } else {
            seq![SegmentModel { text: buf, style }]
        }) + ansi::parsed_from(s, ansi::sgr(style, ansi::sgr_params(p)), seq![]),
{
    reveal_strlit("\u{1b}[");
    reveal_strlit("m");
    let t = "\u{1b}["@ + p + "m"@ + s;
    assert(t[0] == '\u{1b}' && t[1] == '[');
    assert(t.skip(2) =~= p + ("m"@ + s));
    lemma_first_letter(p, "m"@ + s);
    assert(("m"@ + s)[0] == 'm');
    assert(ansi::first_alpha(t.skip(2)) == p.len());
    assert(t[p.len() as int + 2] == 'm');
    assert(t.skip(p.len() as int + 3) =~= s);
    assert(t.subrange(2, p.len() as int + 2) =~= p);
}

/// An OSC sequence shows nothing, whether a bell ends it, an escape character
/// with the character behind it, or nothing at all.
pub proof fn law_osc_sequences_show_nothing(
    p: Seq<char>,
    c: char,
    s: Seq<char>,
    style: Style,
    buf: Seq<char>,
)
    requires
        no_end_of_osc(p),
    ensures
        ansi::parsed_from("\u{1b}]"@ + p + "\u{7}"@ + s, style, buf) == ansi::parsed_from(
            s,
            style,
            buf,
        ),
        ansi::parsed_from("\u{1b}]"@ + p + "\u{1b}"@ + seq![c] + s, style, buf)
            == ansi::parsed_from(s, style, buf),
        ansi::parsed_from("\u{1b}]"@ + p, style, buf) == ansi::parsed_from(seq![], style, buf),
        ansi::parsed_from("\u{1b}]"@ + p + "\u{1b}"@, style, buf) == ansi::parsed_from(
            seq![],
            style,
            buf,
        ),
{
    reveal_strlit("\u{1b}]");
    reveal_strlit("\u{7}");
    reveal_strlit("\u{1b}");
    let e: Seq<char> = seq![];
    let t = "\u{1b}]"@ + p + "\u{7}"@ + s;
    assert(t[0] == '\u{1b}' && t[1] == ']');
    assert(t.skip(2) =~= p + ("\u{7}"@ + s));
    lemma_osc(p, "\u{7}"@ + s);
    assert(("\u{7}"@ + s)[0] == '\u{7}');
    assert(t.skip(p.len() as int + 3) =~= s);
    let u = "\u{1b}]"@ + p + "\u{1b}"@ + seq![c] + s;
    assert(u[0] == '\u{1b}' && u[1] == ']');
    assert(u.skip(2) =~= p + ("\u{1b}"@ + seq![c] + s));
    lemma_osc(p, "\u{1b}"@ + seq![c] + s);
    assert(("\u{1b}"@ + seq![c] + s)[0] == '\u{1b}');
    assert(u.skip(p.len() as int + 4) =~= s);
    let w = "\u{1b}]"@ + p;
    assert(w[0] == '\u{1b}' && w[1] == ']');
    assert(w.skip(2) =~= p + e);
    lemma_osc(p, e);
    assert(w.skip(w.len() as int) =~= e);
    let x = "\u{1b}]"@ + p + "\u{1b}"@;
    assert(x[0] == '\u{1b}' && x[1] == ']');
    assert(x.skip(2) =~= p + "\u{1b}"@);
    lemma_osc(p, "\u{1b}"@);
    assert(x.skip(x.len() as int) =~= e);
}

/// Any other escape is two characters that show nothing.
pub proof fn law_other_escapes_show_nothing(c: char, s: Seq<char>, style: Style, buf: Seq<char>)
    requires
        c != '[',
        c != ']',
    ensures
        ansi::parsed_from("\u{1b}"@ + seq![c] + s, style, buf) == ansi::parsed_from(s, style, buf),
{
    reveal_strlit("\u{1b}");
    let t = "\u{1b}"@ + seq![c] + s;
    assert(t[0] == '\u{1b}' && t[1] == c);
    assert(t.skip(2) =~= s);
}

/// Text outside of sequences is shown as it stands: each character joins the
/// text gathered so far, and at the end that text is one segment, or none where
/// there is none. A stream begins in a style without colours or attributes.
pub proof fn law_plain_characters_are_shown(
    c: char,
    s: Seq<char>,
    style: Style,
    buf: Seq<char>,
)
    ensures
        c != '\u{1b}' ==> ansi::parsed_from(seq![c] + s, style, buf) == ansi::parsed_from(
            s,
            style,
            buf + seq![c],
        ),
        buf.len() > 0 ==> ansi::parsed_from(seq![], style, buf) == seq![
            SegmentModel { text: buf, style },
        ],
        ansi::parsed_from(seq![], style, seq![]).len() == 0,
        ansi::parsed(s) == ansi::parsed_from(
            s,
            (Style { fg: None, bg: None, bold: false, italic: false, underline: false }),
            seq![],
        ),
{
    let t = seq![c] + s;
    assert(t[0] == c);
    assert(t.skip(1) =~= s);
    assert(buf.push(c) =~= buf + seq![c]);
}

/// The numbers of an SGR sequence stand between semicolons, in order. A part
/// that is no number counts as zero, and so does an empty one.
pub proof fn law_numbers_of_sgr_sequences(p: Seq<char>, q: Seq<char>, n: u32)
    requires
        !p.contains(';'),
    ensures
        ansi::sgr_params(p) == seq![ansi::sgr_number(p)],
        ansi::sgr_params(p + ";"@ + q) == seq![ansi::sgr_number(p)] + ansi::sgr_params(q),
        ansi::sgr_number(text::decimal(n as nat)) == n,
        text::parsed_uint(p, u32::MAX as nat) is None ==> ansi::sgr_number(p) == 0,
        text::parsed_uint(p, u32::MAX as nat) matches Some(k) ==> ansi::sgr_number(p) == k,
        ansi::sgr_number(seq![]) == 0,
{
    reveal_strlit(";");
    let t = p + ";"@ + q;
    text::lemma_first_of(p, ';');
    text::lemma_first_of(t, ';');
    assert(text::first_of(p, ';') == p.len()) by {
        if text::first_of(p, ';') < p.len() {
            assert(p[text::first_of(p, ';')] == ';');
        }
    }
    assert(text::first_of(t, ';') == p.len()) by {
        let k = text::first_of(t, ';');
        assert(t[p.len() as int] == ';');
        if k < p.len() {
            assert(t[k] == p[k]);
            assert(p.contains(p[k]));
        }
    }
    assert(text::split_at_each(p, ';') =~= seq![p]);
    assert(ansi::sgr_params(p) =~= seq![ansi::sgr_number(p)]);
    assert(t.take(p.len() as int) =~= p);
    assert(t.skip(p.len() as int + 1) =~= q);
    assert(text::split_at_each(t, ';') == seq![p] + text::split_at_each(q, ';'));
    assert(ansi::sgr_params(t) =~= seq![ansi::sgr_number(p)] + ansi::sgr_params(q));
    text::lemma_decimal_read(n as nat, u32::MAX as nat);
}

/// What one instruction does to the style that the rest of the list starts from:
/// reset, bold, italic, underline, and their ends.
pub proof fn law_attributes(s: Style, q: Seq<u32>)
    ensures
        ansi::sgr(s, seq![]) == s,
        ansi::sgr(s, seq![0u32] + q) == ansi::sgr(
            (Style { fg: None, bg: None, bold: false, italic: false, underline: false }),
            q,
        ),
        ansi::sgr(s, seq![1u32] + q) == ansi::sgr((Style { bold: true, ..s }), q),
        ansi::sgr(s, seq![3u32] + q) == ansi::sgr((Style { italic: true, ..s }), q),
        ansi::sgr(s, seq![4u32] + q) == ansi::sgr((Style { underline: true, ..s }), q),
        ansi::sgr(s, seq![22u32] + q) == ansi::sgr((Style { bold: false, ..s }), q),
        ansi::sgr(s, seq![23u32] + q) == ansi::sgr((Style { italic: false, ..s }), q),
        ansi::sgr(s, seq![24u32] + q) == ansi::sgr((Style { underline: false, ..s }), q),
        ansi::sgr(s, seq![39u32] + q) == ansi::sgr((Style { fg: None, ..s }), q),
        ansi::sgr(s, seq![49u32] + q) == ansi::sgr((Style { bg: None, ..s }), q),
{
    lemma_first(s, 0, q);
    lemma_first(s, 1, q);
    lemma_first(s, 3, q);
    lemma_first(s, 4, q);
    lemma_first(s, 22, q);
    lemma_first(s, 23, q);
    lemma_first(s, 24, q);
    lemma_first(s, 39, q);
    lemma_first(s, 49, q);
}

/// The first instruction of a list, where it takes no number behind it.
proof fn lemma_first(s: Style, c: u32, q: Seq<u32>)
    requires
        c != 38,
        c != 48,
    ensures
        ansi::sgr(s, seq![c] + q) == ansi::sgr(ansi::sgr_first(s, seq![c]).0, q),
{
    let p = seq![c] + q;
    assert(p[0] == c);
    assert(p.skip(1) =~= q);
    assert(ansi::sgr_first(s, p) == ansi::sgr_first(s, seq![c]));
}

/// The sixteen colours are set by 30 to 37 and 90 to 97 for the text, and by 40
/// to 47 and 100 to 107 for what is behind it; nothing else is changed. An
/// instruction that is not known changes nothing.
pub proof fn law_colours(s: Style, k: u32, c: u32, q: Seq<u32>)
    requires
        k < 8,
    ensures
        ansi::sgr(s, seq![(30 + k) as u32] + q) == ansi::sgr(
            (Style { fg: Some(dark(k)), ..s }),
            q,
        ),
        ansi::sgr(s, seq![(90 + k) as u32] + q) == ansi::sgr(
            (Style { fg: Some(bright(k)), ..s }),
            q,
        ),
        ansi::sgr(s, seq![(40 + k) as u32] + q) == ansi::sgr(
            (Style { bg: Some(dark(k)), ..s }),
            q,
        ),
        ansi::sgr(s, seq![(100 + k) as u32] + q) == ansi::sgr(
            (Style { bg: Some(bright(k)), ..s }),
            q,
        ),
        c == 2 || 5 <= c <= 21 || 25 <= c <= 29 || 50 <= c <= 89 || 98 <= c <= 99 || c >= 108
            ==> ansi::sgr(s, seq![c] + q) == ansi::sgr(s, q),
{
    lemma_first(s, (30 + k) as u32, q);
    lemma_first(s, (90 + k) as u32, q);
    lemma_first(s, (40 + k) as u32, q);
    lemma_first(s, (100 + k) as u32, q);
    if c != 38 && c != 48 {
        lemma_first(s, c, q);
    }
}

/// The opaque colour of three channels.
pub open spec fn opaque(r: u8, g: u8, b: u8) -> Color32 {
    Color32 { r, g, b, a: 255 }
}

/// The eight dark colours.
pub open spec fn dark(k: u32) -> Color32 {
    seq![
        opaque(40, 40, 40),
        opaque(200, 70, 70),
        opaque(90, 200, 90),
        opaque(200, 180, 70),
        opaque(90, 130, 230),
        opaque(200, 90, 200),
        opaque(70, 200, 200),
        opaque(200, 200, 200),
    ][k as int]
}

/// The eight bright colours.
pub open spec fn bright(k: u32) -> Color32 {
    seq![
        opaque(110, 110, 110),
        opaque(255, 110, 110),
        opaque(130, 255, 130),
        opaque(255, 230, 110),
        opaque(130, 170, 255),
        opaque(255, 130, 255),
        opaque(130, 255, 255),
        opaque(255, 255, 255),
    ][k as int]
}

/// `38` and `48` take the numbers behind them: `5` and an entry of the palette,
/// or `2` and three channels, each number taken modulo 256. They set the colour
/// of the text, or what is behind it, and nothing else. Where the numbers are
/// others, or too few, the instruction changes nothing.
pub proof fn law_extended_colours(s: Style, n: u32, r: u32, g: u32, b: u32, q: Seq<u32>)
    ensures
        ansi::sgr(s, seq![38u32, 5, n] + q) == ansi::sgr(
            (Style { fg: Some(ansi::palette256((n % 256) as u8)), ..s }),
            q,
        ),
        ansi::sgr(s, seq![48u32, 5, n] + q) == ansi::sgr(
            (Style { bg: Some(ansi::palette256((n % 256) as u8)), ..s }),
            q,
        ),
        ansi::sgr(s, seq![38u32, 2, r, g, b] + q) == ansi::sgr(
            (Style {
                fg: Some(opaque((r % 256) as u8, (g % 256) as u8, (b % 256) as u8)),
                ..s
            }),
            q,
        ),
        ansi::sgr(s, seq![48u32, 2, r, g, b] + q) == ansi::sgr(
            (Style {
                bg: Some(opaque((r % 256) as u8, (g % 256) as u8, (b % 256) as u8)),
                ..s
            }),
            q,
        ),
        !(q.len() >= 2 && q[0] == 5) && !(q.len() >= 4 && q[0] == 2) ==> {
            &&& ansi::sgr(s, seq![38u32] + q) == ansi::sgr(s, q)
            &&& ansi::sgr(s, seq![48u32] + q) == ansi::sgr(s, q)
        },
{
    let f5 = seq![38u32, 5, n] + q;
    let b5 = seq![48u32, 5, n] + q;
    let f2 = seq![38u32, 2, r, g, b] + q;
    let b2 = seq![48u32, 2, r, g, b] + q;
    assert(f5.skip(3) =~= q);
    assert(b5.skip(3) =~= q);
    assert(f2.skip(5) =~= q);
    assert(b2.skip(5) =~= q);
    assert(f5.skip(1)[0] == 5 && f5.skip(1)[1] == n);
    assert(b5.skip(1)[0] == 5 && b5.skip(1)[1] == n);
    assert(f2.skip(1)[0] == 2 && f2.skip(1)[1] == r && f2.skip(1)[2] == g && f2.skip(1)[3] == b);
    assert(b2.skip(1)[0] == 2 && b2.skip(1)[1] == r && b2.skip(1)[2] == g && b2.skip(1)[3] == b);
    assert(f5[0] == 38 && b5[0] == 48 && f2[0] == 38 && b2[0] == 48);
    let f = seq![38u32] + q;
    let h = seq![48u32] + q;
    assert(f.skip(1) =~= q);
    assert(h.skip(1) =~= q);
    assert(f[0] == 38 && h[0] == 48);
}

/// The palette of 256 colours: the sixteen; then a cube, each step of which is
/// one of six levels for each channel, red changing slowest; then 24 greys from
/// 8 in steps of 10.
pub proof fn law_palette(k: u32, r: int, g: int, b: int, i: int)
    requires
        k < 8,
        0 <= r < 6,
        0 <= g < 6,
        0 <= b < 6,
        0 <= i < 24,
    ensures
        ansi::palette256(k as u8) == dark(k),
        ansi::palette256((k + 8) as u8) == bright(k),
        ansi::palette256((16 + 36 * r + 6 * g + b) as u8) == opaque(level(r), level(g), level(b)),
        ansi::palette256((232 + i) as u8) == opaque(
            (8 + 10 * i) as u8,
            (8 + 10 * i) as u8,
            (8 + 10 * i) as u8,
        ),
{
    let c = 36 * r + 6 * g + b;
    assert(c / 36 == r && c % 36 == 6 * g + b && c % 36 / 6 == g && c % 6 == b) by (nonlinear_arith)
        requires
            c == 36 * r + 6 * g + b,
            0 <= r < 6,
            0 <= g < 6,
            0 <= b < 6,
    ;
}

/// The six levels of a channel.
pub open spec fn level(i: int) -> u8 {
    seq![0u8, 95, 135, 175, 215, 255][i]
}

/// The colour of a section depends on the default only where the segment has no
/// colour of its own, and bold lifts whichever colour it is, each channel half
/// the way to the brightest.
pub proof fn law_section_colours(s: SegmentModel, c: Color32, d: Color32, e: Color32)
    ensures
        s.style.fg == Some(c) ==> ansi::section(s, d).color == ansi::section(s, e).color,
        s.style.fg == Some(c) && !s.style.bold ==> ansi::section(s, d).color == c,
        s.style.fg == Some(c) && s.style.bold ==> ansi::section(s, d).color == opaque(
            half_way(c.r),
            half_way(c.g),
            half_way(c.b),
        ),
        s.style.fg is None && !s.style.bold ==> ansi::section(s, d).color == d,
        s.style.fg is None && s.style.bold ==> ansi::section(s, d).color == opaque(
            half_way(d.r),
            half_way(d.g),
            half_way(d.b),
        ),
{
}

/// Half the way from a channel to 255, rounded down.
pub open spec fn half_way(v: u8) -> u8 {
    ((v + 255) / 2) as u8
}

/// A section shows the text of its segment, slanted where that is italic, before
/// the segment's own background or none, and underlined, where it is, in the
/// colour of the text.
pub proof fn law_section_formats(s: SegmentModel, c: Color32, d: Color32)
    ensures
        ansi::section(s, d).text == s.text,
        ansi::section(s, d).italics == s.style.italic,
        s.style.bg == Some(c) ==> ansi::section(s, d).background == c,
        s.style.bg is None ==> ansi::section(s, d).background == (Color32 {
            r: 0,
            g: 0,
            b: 0,
            a: 0,
        }),
        s.style.underline ==> ansi::section(s, d).underline == Some(ansi::section(s, d).color),
        !s.style.underline ==> ansi::section(s, d).underline is None,
{
}

/// Segments are laid out one by one, in order.
pub proof fn law_layout_is_in_order(s: Seq<SegmentModel>, d: Color32, i: int)
    ensures
        ansi::layout(s, d).len() == s.len(),
        0 <= i < s.len() ==> ansi::layout(s, d)[i] == ansi::section(s[i], d),
{
}

/// A chunk of output is laid out from its text without the line breaks at its
/// end, however many, and in the colour of its stream where it sets none: pale
/// yellow for prompts, light grey for output, light red for errors.
pub proof fn law_chunks_of_output(o: OutModel, t: Seq<char>, d: Color32)
    requires
        t.len() == 0 || t.last() != '\n',
        o.type_ == OutType::Prompt ==> d == opaque(220, 220, 90),
        o.type_ == OutType::StdOut ==> d == opaque(210, 210, 210),
        o.type_ == OutType::StdErr ==> d == opaque(240, 110, 110),
        exists|n: nat| o.text == #[trigger] with_breaks(t, n),
    ensures
        gui::out_sections(o) == ansi::layout(ansi::parsed(t), d),
{
    let n = choose|n: nat| o.text == #[trigger] with_breaks(t, n);
    text_laws::law_trim_end_of(t, '\n', n);
    let c = '\n';
    assert(with_breaks(t, n) =~= t + Seq::new(n, |i: int| c));
}

/// A text with line breaks at its end.
pub open spec fn with_breaks(t: Seq<char>, n: nat) -> Seq<char> {
    t + Seq::new(n, |i: int| '\n')
}

}
