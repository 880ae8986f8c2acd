//! ANSI escape sequences in command output.
//!
//! Shells colour their output with sequences such as `ESC[32;1m`. They are
//! read here into styled segments, so that a terminal pane can show real
//! colours and never the raw codes.

use vstd::prelude::*;

use crate::text;

verus! {

/// A colour with premultiplied alpha, one byte for each channel.
#[derive(Clone, Copy, Debug, PartialEq, Eq, Structural)]
pub struct Color32 {
    pub r: u8,
    pub g: u8,
    pub b: u8,
    pub a: u8,
}

/// The opaque colour of the three channels.
pub open spec fn rgb(r: u8, g: u8, b: u8) -> Color32 {
    Color32 { r, g, b, a: 255 }
}

impl Color32 {
    /// The opaque colour of the three channels.
    pub fn from_rgb(r: u8, g: u8, b: u8) -> (c: Self)
        ensures
            c == rgb(r, g, b),
    {
        Color32 { r, g, b, a: 255 }
    }
}

/// No colour at all.
pub open spec fn transparent() -> Color32 {
    Color32 { r: 0, g: 0, b: 0, a: 0 }
}

/// How a run of text is shown.
#[derive(Clone, Copy, Debug, PartialEq, Eq, Structural)]
pub struct Style {
    pub fg: Option<Color32>,
    pub bg: Option<Color32>,
    pub bold: bool,
    pub italic: bool,
    pub underline: bool,
}

/// The style in which output begins, and to which a reset returns.
pub open spec fn plain_style() -> Style {
    Style { fg: None, bg: None, bold: false, italic: false, underline: false }
}

impl Style {
    /// The plain style.
    pub fn new() -> (s: Self)
        ensures
            s == plain_style(),
    {
        Style { fg: None, bg: None, bold: false, italic: false, underline: false }
    }
}

/// A run of text of one style.
pub struct Segment {
    pub text: String,
    pub fg: Option<Color32>,
    pub bg: Option<Color32>,
    pub bold: bool,
    pub italic: bool,
    pub underline: bool,
}

/// A segment's text and style.
#[verifier::ext_equal]
pub struct SegmentModel {
    pub text: Seq<char>,
    pub style: Style,
}

impl View for Segment {
    type V = SegmentModel;

    open spec fn view(&self) -> SegmentModel {
        SegmentModel {
            text: self.text@,
            style: Style {
                fg: self.fg,
                bg: self.bg,
                bold: self.bold,
                italic: self.italic,
                underline: self.underline,
            },
        }
    }
}

/// The models of a list of segments.
pub open spec fn segments_view(v: Seq<Segment>) -> Seq<SegmentModel> {
    v.map_values(|s: Segment| s@)
}

/// The 16-colour palette, tuned to read well on a black background.
pub open spec fn palette16(code: u32, bright: bool) -> Option<Color32> {
    match (code, bright) {
        (0, false) => Some(rgb(40, 40, 40)),
        (1, false) => Some(rgb(200, 70, 70)),
        (2, false) => Some(rgb(90, 200, 90)),
        (3, false) => Some(rgb(200, 180, 70)),
        (4, false) => Some(rgb(90, 130, 230)),
        (5, false) => Some(rgb(200, 90, 200)),
        (6, false) => Some(rgb(70, 200, 200)),
        (7, false) => Some(rgb(200, 200, 200)),
        (0, true) => Some(rgb(110, 110, 110)),
        (1, true) => Some(rgb(255, 110, 110)),
        (2, true) => Some(rgb(130, 255, 130)),
        (3, true) => Some(rgb(255, 230, 110)),
        (4, true) => Some(rgb(130, 170, 255)),
        (5, true) => Some(rgb(255, 130, 255)),
        (6, true) => Some(rgb(130, 255, 255)),
        (7, true) => Some(rgb(255, 255, 255)),
        _ => None,
    }
}

/// The colour of a palette entry; `None` for a code above 7.
pub fn ansi_color(code: u32, bright: bool) -> (c: Option<Color32>)
    ensures
        c == palette16(code, bright),
        c is Some <==> code < 8,
{
    match (code, bright) {
        (0, false) => Some(Color32::from_rgb(40, 40, 40)),
        (1, false) => Some(Color32::from_rgb(200, 70, 70)),
        (2, false) => Some(Color32::from_rgb(90, 200, 90)),
        (3, false) => Some(Color32::from_rgb(200, 180, 70)),
        (4, false) => Some(Color32::from_rgb(90, 130, 230)),
        (5, false) => Some(Color32::from_rgb(200, 90, 200)),
        (6, false) => Some(Color32::from_rgb(70, 200, 200)),
        (7, false) => Some(Color32::from_rgb(200, 200, 200)),
        (0, true) => Some(Color32::from_rgb(110, 110, 110)),
        (1, true) => Some(Color32::from_rgb(255, 110, 110)),
        (2, true) => Some(Color32::from_rgb(130, 255, 130)),
        (3, true) => Some(Color32::from_rgb(255, 230, 110)),
        (4, true) => Some(Color32::from_rgb(130, 170, 255)),
        (5, true) => Some(Color32::from_rgb(255, 130, 255)),
        (6, true) => Some(Color32::from_rgb(130, 255, 255)),
        (7, true) => Some(Color32::from_rgb(255, 255, 255)),
        _ => None,
    }
}

/// The brightness of a step along one axis of the colour cube.
pub open spec fn cube_level(i: int) -> u8 {
    if i == 0 {
        0
    } else {
        (55 + 40 * i) as u8
    }
}

/// The 256-colour palette: the 16 colours twice over eight, a cube of six
/// levels for each channel, and a ramp of 24 greys.
pub open spec fn palette256(n: u8) -> Color32 {
    if n < 16 {
        palette16((n % 8) as u32, n >= 8)->0
    } else if n < 232 {
        let c = n - 16;
        rgb(cube_level(c / 36), cube_level(c % 36 / 6), cube_level(c % 6))
    } else {
        let v = (8 + (n - 232) * 10) as u8;
        rgb(v, v, v)
    }
}

/// The colour of an entry of the 256-colour palette.
pub fn xterm256(n: u8) -> (c: Color32)
    ensures
        c == palette256(n),
{
    if n < 16 {
        let bright = n >= 8;
        let code: u32 = (n % 8) as u32;
        return match ansi_color(code, bright) {
            Some(c) => c,
            None => Color32::from_rgb(255, 255, 255),
        };
    }
    if n >= 232 {
        let v: u8 = 8 + (n - 232) * 10;
        return Color32::from_rgb(v, v, v);
    }
    let c: u8 = n - 16;
    let levels: [u8; 6] = [0, 95, 135, 175, 215, 255];
    let r: usize = (c / 36) as usize;
    let g: usize = ((c % 36) / 6) as usize;
    let b: usize = (c % 6) as usize;
    Color32::from_rgb(levels[r], levels[g], levels[b])
}

/// An extended colour: `5;n` for a palette entry or `2;r;g;b` for the
/// channels, each number taken modulo 256, with how many parameters it is
/// made of. What is neither, or is cut short, is no colour.
pub open spec fn extended_color(p: Seq<u32>) -> Option<(Color32, int)> {
    if p.len() >= 2 && p[0] == 5 {
        Some((palette256((p[1] % 256) as u8), 2))
    } else if p.len() >= 4 && p[0] == 2 {
        Some((rgb((p[1] % 256) as u8, (p[2] % 256) as u8, (p[3] % 256) as u8), 4))
    } else {
        None
    }
}

/// The style after the first SGR instruction of a non-empty parameter list,
/// and how many parameters the instruction is made of.
pub open spec fn sgr_first(s: Style, p: Seq<u32>) -> (Style, int) {
    let c = p[0];
    if c == 0 {
        (plain_style(), 1)
    } else if c == 1 {
        (Style { bold: true, ..s }, 1)
    } else if c == 3 {
        (Style { italic: true, ..s }, 1)
    } else if c == 4 {
        (Style { underline: true, ..s }, 1)
    } else if c == 22 {
        (Style { bold: false, ..s }, 1)
    } else if c == 23 {
        (Style { italic: false, ..s }, 1)
    } else if c == 24 {
        (Style { underline: false, ..s }, 1)
    } else if 30 <= c <= 37 {
        (Style { fg: palette16((c - 30) as u32, false), ..s }, 1)
    } else if 90 <= c <= 97 {
        (Style { fg: palette16((c - 90) as u32, true), ..s }, 1)
    } else if 40 <= c <= 47 {
        (Style { bg: palette16((c - 40) as u32, false), ..s }, 1)
    } else if 100 <= c <= 107 {
        (Style { bg: palette16((c - 100) as u32, true), ..s }, 1)
    } else if c == 39 {
        (Style { fg: None, ..s }, 1)
    } else if c == 49 {
        (Style { bg: None, ..s }, 1)
    } else if c == 38 {
        match extended_color(p.skip(1)) {
            Some((col, k)) => (Style { fg: Some(col), ..s }, 1 + k),
            None => (s, 1),
        }
    } else if c == 48 {
        match extended_color(p.skip(1)) {
            Some((col, k)) => (Style { bg: Some(col), ..s }, 1 + k),
            None => (s, 1),
        }
    } else {
        (s, 1)
    }
}

/// The style after the SGR instructions of a parameter list, in order.
pub open spec fn sgr(s: Style, p: Seq<u32>) -> Style
    decreases p.len(),
{
    if p.len() == 0 {
        s
    } else {
        let (t, k) = sgr_first(s, p);
        if 0 < k <= p.len() {
            sgr(t, p.skip(k))
        } else {
            t
        }
    }
}

/// Reads an extended colour from the parameters after position `i`.
fn read_extended(params: &[u32], i: usize) -> (r: Option<(Color32, usize)>)
    requires
        i < params@.len(),
    ensures
        match r {
            Some((c, k)) => extended_color(params@.skip(i + 1)) == Some((c, k as int)) && i + k
                < params@.len(),
            None => extended_color(params@.skip(i + 1)) is None,
        },
{
    let left: usize = params.len() - i;
    let ghost p = params@.skip(i + 1);
    assert(p.len() == left - 1);
    if left > 2 && params[i + 1] == 5 {
        assert(p[0] == params@[i + 1] && p[1] == params@[i + 2]);
        Some((xterm256((params[i + 2] % 256) as u8), 2))
    } else if left > 4 && params[i + 1] == 2 {
        assert(p[0] == params@[i + 1] && p[1] == params@[i + 2] && p[2] == params@[i + 3] && p[3]
            == params@[i + 4]);
        Some(
            (
                Color32::from_rgb(
                    (params[i + 2] % 256) as u8,
                    (params[i + 3] % 256) as u8,
                    (params[i + 4] % 256) as u8,
                ),
                4,
            ),
        )
    } else {
        assert(left > 1 ==> p[0] == params@[i + 1]);
        None
    }
}

/// Applies the SGR instructions of a parameter list to a style.
pub fn apply_sgr(style: &mut Style, params: &[u32])
    ensures
        *final(style) == sgr(*old(style), params@),
{
    let mut i: usize = 0;
    assert(params@.skip(0) == params@);
    while i < params.len()
        invariant
            i <= params@.len(),
            sgr(*old(style), params@) == sgr(*style, params@.skip(i as int)),
        decreases params@.len() - i,
    {
        let p: u32 = params[i];
        let ghost rest = params@.skip(i as int);
        let ghost before = *style;
        let mut used: usize = 1;
        assert(rest[0] == p);
        assert(rest.skip(1) == params@.skip(i + 1));
        if p == 0 {
            *style = Style::new();
        } else if p == 1 {
            style.bold = true;
        } else if p == 3 {
            style.italic = true;
        } else if p == 4 {
            style.underline = true;
        } else if p == 22 {
            style.bold = false;
        } else if p == 23 {
            style.italic = false;
        } else if p == 24 {
            style.underline = false;
        } else if 30 <= p && p <= 37 {
            style.fg = ansi_color(p - 30, false);
        } else if 90 <= p && p <= 97 {
            style.fg = ansi_color(p - 90, true);
        } else if 40 <= p && p <= 47 {
            style.bg = ansi_color(p - 40, false);
        } else if 100 <= p && p <= 107 {
            style.bg = ansi_color(p - 100, true);
        } else if p == 39 {
            style.fg = None;
        } else if p == 49 {
            style.bg = None;
        } else if p == 38 {
            if let Some((c, k)) = read_extended(params, i) {
                style.fg = Some(c);
                used = 1 + k;
            }
        } else if p == 48 {
            if let Some((c, k)) = read_extended(params, i) {
                style.bg = Some(c);
                used = 1 + k;
            }
        }
        assert((*style, used as int) == sgr_first(before, rest));
        assert(rest.skip(used as int) == params@.skip(i + used));
        i += used;
    }
    assert(params@.skip(i as int).len() == 0);
}


/// What stands at the front of a stream of output: a character to show, a
/// change of style, or a sequence that shows nothing.
pub enum Item {
    Char(char),
    Sgr(Seq<u32>),
    Nothing,
}

/// An ASCII letter.
pub open spec fn is_alpha(c: char) -> bool {
    'a' <= c <= 'z' || 'A' <= c <= 'Z'
}

/// Where the first ASCII letter stands; the length where there is none.
pub open spec fn first_alpha(s: Seq<char>) -> int
    decreases s.len(),
{
    if s.len() == 0 || is_alpha(s[0]) {
        0
    } else {
        1 + first_alpha(s.drop_first())
    }
}

/// How long the rest of an OSC sequence is: up to and with a BEL, or an
/// escape and the character behind it, or else all there is.
pub open spec fn osc_len(s: Seq<char>) -> int
    decreases s.len(),
{
    if s.len() == 0 {
        0
    } else if s[0] == '\u{7}' {
        1
    } else if s[0] == '\u{1b}' {
        if s.len() == 1 {
            1
        } else {
            2
        }
    } else {
        1 + osc_len(s.drop_first())
    }
}

/// The numbers of an SGR sequence: one for each part between semicolons,
/// zero where a part is no number.
pub open spec fn sgr_params(s: Seq<char>) -> Seq<u32> {
    text::split_at_each(s, ';').map_values(|p: Seq<char>| sgr_number(p))
}

/// One number of an SGR sequence.
pub open spec fn sgr_number(p: Seq<char>) -> u32 {
    match text::parsed_uint(p, u32::MAX as nat) {
        Some(n) => n as u32,
        None => 0,
    }
}

/// What a non-empty stream begins with, and how many characters that takes.
pub open spec fn read_item(s: Seq<char>) -> (Item, int) {
    if s[0] != '\u{1b}' {
        (Item::Char(s[0]), 1)
    } else if s.len() == 1 {
        (Item::Nothing, 1)
    } else if s[1] == '[' {
        let n = first_alpha(s.skip(2));
        if n >= s.len() - 2 {
            (Item::Nothing, s.len() as int)
        } else if s[n + 2] == 'm' {
            (Item::Sgr(sgr_params(s.subrange(2, n + 2))), n + 3)
        } else {
            (Item::Nothing, n + 3)
        }
    } else if s[1] == ']' {
        (Item::Nothing, 2 + osc_len(s.skip(2)))
    } else {
        (Item::Nothing, 2)
    }
}

/// A segment of the text gathered so far, or none where there is no text.
pub open spec fn flushed(buf: Seq<char>, style: Style) -> Seq<SegmentModel> {
    if buf.len() == 0 {
        seq![]
    } else {
        seq![SegmentModel { text: buf, style }]
    }
}

/// The segments of a stream that is read in a style, behind text already
/// gathered: a change of style closes the segment it follows.
pub open spec fn parsed_from(s: Seq<char>, style: Style, buf: Seq<char>) -> Seq<SegmentModel>
    decreases s.len(),
{
    if s.len() == 0 {
        flushed(buf, style)
    } else {
        let (item, k) = read_item(s);
        if !(0 < k <= s.len()) {
            flushed(buf, style)
        } else {
            match item {
                Item::Char(c) => parsed_from(s.skip(k), style, buf.push(c)),
                Item::Sgr(p) => flushed(buf, style) + parsed_from(
                    s.skip(k),
                    sgr(style, p),
                    seq![],
                ),
                Item::Nothing => parsed_from(s.skip(k), style, buf),
            }
        }
    }
}

/// The segments of a whole stream.
pub open spec fn parsed(s: Seq<char>) -> Seq<SegmentModel> {
    parsed_from(s, plain_style(), seq![])
}

/// Where the first ASCII letter from `from` on stands.
fn find_alpha(v: &[char], from: usize) -> (n: usize)
    requires
        from <= v@.len(),
    ensures
        from <= n <= v@.len(),
        n - from == first_alpha(v@.skip(from as int)),
{
    let mut n: usize = from;
    while n < v.len() && !(('a' <= v[n] && v[n] <= 'z') || ('A' <= v[n] && v[n] <= 'Z'))
        invariant
            from <= n <= v@.len(),
            first_alpha(v@.skip(from as int)) == n - from + first_alpha(v@.skip(n as int)),
        decreases v@.len() - n,
    {
        assert(v@.skip(n as int).drop_first() == v@.skip(n + 1));
        n += 1;
    }
    n
}

/// Where the OSC sequence whose rest begins at `from` ends.
fn find_osc_end(v: &[char], from: usize) -> (n: usize)
    requires
        from <= v@.len(),
    ensures
        from <= n <= v@.len(),
        n - from == osc_len(v@.skip(from as int)),
{
    let mut n: usize = from;
    while n < v.len()
        invariant
            from <= n <= v@.len(),
            osc_len(v@.skip(from as int)) == n - from + osc_len(v@.skip(n as int)),
        decreases v@.len() - n,
    {
        let ghost rest = v@.skip(n as int);
        assert(rest.drop_first() == v@.skip(n + 1));
        if v[n] == '\u{7}' {
            return n + 1;
        }
        if v[n] == '\u{1b}' {
            return if v.len() - n == 1 {
                n + 1
            } else {
                n + 2
            };
        }
        n += 1;
    }
    n
}

/// The numbers of the SGR sequence whose parameters are the characters from
/// `from` up to `to`.
fn read_params(v: &[char], from: usize, to: usize) -> (r: Vec<u32>)
    requires
        from <= to <= v@.len(),
    ensures
        r@ == sgr_params(v@.subrange(from as int, to as int)),
{
    let mut r: Vec<u32> = Vec::new();
    let mut i: usize = from;
    let ghost all = sgr_params(v@.subrange(from as int, to as int));
    assert(r@ + all =~= all);
    loop
        invariant
            from <= i <= to <= v@.len(),
            r@ + sgr_params(v@.subrange(i as int, to as int)) == all,
            all == sgr_params(v@.subrange(from as int, to as int)),
        decreases to - i,
    {
        let ghost rest = v@.subrange(i as int, to as int);
        let part = vstd::slice::slice_subrange(v, i, to);
        let n: usize = text::find_char(part, ';');
        let s = text::string_of(part, 0, n);
        let x: u32 = match text::parse_uint(s.as_str(), u32::MAX as u64) {
            Some(k) => k as u32,
            None => 0,
        };
        assert(s@ == rest.take(n as int));
        assert(x == sgr_number(s@));
        r.push(x);
        if n == part.len() {
            assert(rest.take(n as int) == rest);
            assert(text::split_at_each(rest, ';') == seq![rest]);
            assert(sgr_params(rest) =~= seq![x]);
            assert(r@ =~= all);
            return r;
        }
        let ghost tail = rest.skip(n + 1);
        assert(tail == v@.subrange(i + n + 1, to as int));
        assert(text::split_at_each(rest, ';') == seq![rest.take(n as int)]
            + text::split_at_each(tail, ';'));
        assert(sgr_params(rest) =~= seq![x] + sgr_params(tail));
        i = i + n + 1;
        assert(r@ + sgr_params(v@.subrange(i as int, to as int)) =~= all);
    }
}

/// A segment of the text in the style.
fn make_segment(text: String, style: &Style) -> (s: Segment)
    ensures
        s@ == (SegmentModel { text: text@, style: *style }),
{
    Segment {
        text,
        fg: style.fg,
        bg: style.bg,
        bold: style.bold,
        italic: style.italic,
        underline: style.underline,
    }
}

/// Closes the segment of the text gathered so far, if there is any.
fn flush(segments: &mut Vec<Segment>, buf: String, style: &Style)
    ensures
        segments_view(final(segments)@) == segments_view(old(segments)@) + flushed(buf@, *style),
{
    if !buf.as_str().is_empty() {
        segments.push(make_segment(buf, style));
    }
    assert(segments_view(segments@) =~= segments_view(old(segments)@) + flushed(buf@, *style));
}

/// Reads a string with ANSI escape sequences into styled segments. SGR
/// sequences (`ESC[...m`) change the running style; other escape sequences
/// are dropped.
pub fn parse(input: &str) -> (segments: Vec<Segment>)
    ensures
        segments_view(segments@) == parsed(input@),
{
    let v = text::chars_of(input);
    let mut segments: Vec<Segment> = Vec::new();
    let mut style = Style::new();
    let mut buf = String::new();
    let mut i: usize = 0;
    assert(v@.skip(0) == v@);
    assert(buf@ =~= seq![]);
    assert(segments_view(segments@) + parsed(input@) =~= parsed(input@));
    while i < v.len()
        invariant
            i <= v@.len(),
            v@ == input@,
            segments_view(segments@) + parsed_from(v@.skip(i as int), style, buf@) == parsed(
                input@,
            ),
        decreases v@.len() - i,
    {
        let ghost rest = v@.skip(i as int);
        let ghost style0 = style;
        let ghost buf0 = buf@;
        let c = v[i];
        let left: usize = v.len() - i;
        assert(rest[0] == c);
        assert(left > 1 ==> rest[1] == v@[i + 1]);
        if c != '\u{1b}' {
            buf.push(c);
            assert(rest.skip(1) == v@.skip(i + 1));
            i += 1;
        } else if left == 1 {
            assert(rest.skip(1) == v@.skip(i + 1));
            i += 1;
        } else if v[i + 1] == '[' {
            assert(rest.skip(2) == v@.skip(i + 2));
            let n = find_alpha(v.as_slice(), i + 2);
            if n == v.len() {
                assert(rest.skip(rest.len() as int) == v@.skip(n as int));
                i = n;
            } else {
                assert(rest[n - i] == v@[n as int]);
                assert(rest.subrange(2, n - i) == v@.subrange(i + 2, n as int));
                assert(rest.skip(n - i + 1) == v@.skip(n + 1));
                if v[n] == 'm' {
                    let params = read_params(v.as_slice(), i + 2, n);
                    let ghost before = segments_view(segments@);
                    flush(&mut segments, buf, &style);
                    apply_sgr(&mut style, params.as_slice());
                    buf = String::new();
                    proof {
                        assert(read_item(rest) == (Item::Sgr(params@), n - i + 1));
                        assert(buf@ =~= seq![]);
                        let tail = parsed_from(v@.skip(n + 1), style, buf@);
                        assert(before + (flushed(buf0, style0) + tail) =~= before + flushed(
                            buf0,
                            style0,
                        ) + tail);
                    }
                }
                i = n + 1;
            }
        } else if v[i + 1] == ']' {
            assert(rest.skip(2) == v@.skip(i + 2));
            let n = find_osc_end(v.as_slice(), i + 2);
            assert(rest.skip(n - i) == v@.skip(n as int));
            i = n;
        } else {
            assert(rest.skip(2) == v@.skip(i + 2));
            i += 2;
        }
    }
    assert(v@.skip(i as int).len() == 0);
    flush(&mut segments, buf, &style);
    segments
}


/// A channel lifted half of the way to full.
pub open spec fn lifted(v: u8) -> u8 {
    ((v + 255) / 2) as u8
}

/// A colour with each channel lifted half of the way to full, opaque.
pub open spec fn brightened(c: Color32) -> Color32 {
    rgb(lifted(c.r), lifted(c.g), lifted(c.b))
}

/// Lifts each channel of a colour half of the way to full.
pub fn brighten(c: Color32) -> (r: Color32)
    ensures
        r == brightened(c),
{
    Color32::from_rgb(
        ((c.r as u16 + 255) / 2) as u8,
        ((c.g as u16 + 255) / 2) as u8,
        ((c.b as u16 + 255) / 2) as u8,
    )
}

/// A run of text with the format it is laid out in. `underline` is the
/// colour of the line, where there is one.
pub struct LayoutSection {
    pub text: String,
    pub color: Color32,
    pub background: Color32,
    pub italics: bool,
    pub underline: Option<Color32>,
}

/// Text ready to be laid out, section by section.
pub struct LayoutJob {
    pub sections: Vec<LayoutSection>,
}

/// What a layout section holds.
#[verifier::ext_equal]
pub struct SectionModel {
    pub text: Seq<char>,
    pub color: Color32,
    pub background: Color32,
    pub italics: bool,
    pub underline: Option<Color32>,
}

impl View for LayoutSection {
    type V = SectionModel;

    open spec fn view(&self) -> SectionModel {
        SectionModel {
            text: self.text@,
            color: self.color,
            background: self.background,
            italics: self.italics,
            underline: self.underline,
        }
    }
}

impl View for LayoutJob {
    type V = Seq<SectionModel>;

    open spec fn view(&self) -> Seq<SectionModel> {
        self.sections@.map_values(|s: LayoutSection| s@)
    }
}

/// How one segment is laid out: in its own foreground or else the default,
/// brightened where it is bold, and underlined in the same colour.
pub open spec fn section(s: SegmentModel, default_fg: Color32) -> SectionModel {
    let base = match s.style.fg {
        Some(c) => c,
        None => default_fg,
    };
    let color = if s.style.bold {
        brightened(base)
    } else {
        base
    };
    SectionModel {
        text: s.text,
        color,
        background: match s.style.bg {
            Some(c) => c,
            None => transparent(),
        },
        italics: s.style.italic,
        underline: if s.style.underline {
            Some(color)
        } else {
            None
        },
    }
}

/// How a list of segments is laid out.
pub open spec fn layout(s: Seq<SegmentModel>, default_fg: Color32) -> Seq<SectionModel> {
    s.map_values(|g: SegmentModel| section(g, default_fg))
}

/// Lays segments out, one section for each. `default_fg` is the colour of
/// segments without a foreground of their own. No bold font is at hand, so
/// bold is shown by a brighter colour.
pub fn to_layout_job(segments: &[Segment], default_fg: Color32) -> (job: LayoutJob)
    ensures
        job@ == layout(segments_view(segments@), default_fg),
{
    let mut sections: Vec<LayoutSection> = Vec::new();
    let mut i: usize = 0;
    while i < segments.len()
        invariant
            i <= segments@.len(),
            sections@.len() == i,
            forall|j: int|
                0 <= j < i ==> (#[trigger] sections@[j])@ == section(segments@[j]@, default_fg),
        decreases segments@.len() - i,
    {
        let seg = &segments[i];
        let base = match seg.fg {
            Some(c) => c,
            None => default_fg,
        };
        let color = if seg.bold {
            brighten(base)
        } else {
            base
        };
        let background = match seg.bg {
            Some(c) => c,
            None => Color32 { r: 0, g: 0, b: 0, a: 0 },
        };
        let underline = if seg.underline {
            Some(color)
        } else {
            None
        };
        sections.push(
            LayoutSection {
                text: seg.text.clone(),
                color,
                background,
                italics: seg.italic,
                underline,
            },
        );
        i += 1;
    }
    let job = LayoutJob { sections };
    assert(job@ =~= layout(segments_view(segments@), default_fg));
    job
}

/// The bounds of what an item takes from a stream.
proof fn lemma_item_len(s: Seq<char>)
    requires
        s.len() > 0,
    ensures
        0 < read_item(s).1 <= s.len(),
{
    if s.len() > 1 {
        lemma_first_alpha(s.skip(2));
        lemma_osc_len(s.skip(2));
    }
}

proof fn lemma_first_alpha(s: Seq<char>)
    ensures
        0 <= first_alpha(s) <= s.len(),
    decreases s.len(),
{
    if s.len() > 0 {
        lemma_first_alpha(s.drop_first());
    }
}

proof fn lemma_osc_len(s: Seq<char>)
    ensures
        0 <= osc_len(s) <= s.len(),
    decreases s.len(),
{
    if s.len() > 0 {
        lemma_osc_len(s.drop_first());
    }
}

/// The characters of a stream that are shown: what is left when every
/// escape sequence is taken out.
pub open spec fn shown(s: Seq<char>) -> Seq<char>
    decreases s.len(),
{
    if s.len() == 0 {
        seq![]
    } else {
        let (item, k) = read_item(s);
        if !(0 < k <= s.len()) {
            seq![]
        } else {
            match item {
                Item::Char(c) => seq![c] + shown(s.skip(k)),
                _ => shown(s.skip(k)),
            }
        }
    }
}

/// The text of a list of segments, run together.
pub open spec fn segments_text(s: Seq<SegmentModel>) -> Seq<char>
    decreases s.len(),
{
    if s.len() == 0 {
        seq![]
    } else {
        s[0].text + segments_text(s.drop_first())
    }
}

/// Escape sequences change how text looks and never which text there is:
/// the segments hold exactly the characters outside the sequences, in order.
pub proof fn law_segments_hold_shown_text(s: Seq<char>)
    ensures
        segments_text(parsed(s)) == shown(s),
{
    lemma_parsed_text(s, plain_style(), seq![]);
    assert(seq![] + shown(s) =~= shown(s));
}

proof fn lemma_parsed_text(s: Seq<char>, style: Style, buf: Seq<char>)
    ensures
        segments_text(parsed_from(s, style, buf)) == buf + shown(s),
    decreases s.len(),
{
    lemma_flushed_text(buf, style);
    if s.len() == 0 {
        assert(buf + shown(s) =~= buf);
    } else {
        lemma_item_len(s);
        let (item, k) = read_item(s);
        match item {
            Item::Char(c) => {
                lemma_parsed_text(s.skip(k), style, buf.push(c));
                assert(buf.push(c) + shown(s.skip(k)) =~= buf + (seq![c] + shown(s.skip(k))));
            },
            Item::Sgr(p) => {
                let rest = parsed_from(s.skip(k), sgr(style, p), seq![]);
                lemma_parsed_text(s.skip(k), sgr(style, p), seq![]);
                assert(seq![] + shown(s.skip(k)) =~= shown(s.skip(k)));
                if buf.len() > 0 {
                    assert((flushed(buf, style) + rest).drop_first() =~= rest);
                } else {
                    assert(flushed(buf, style) + rest =~= rest);
                    assert(buf + shown(s.skip(k)) =~= shown(s.skip(k)));
                }
            },
            Item::Nothing => {
                lemma_parsed_text(s.skip(k), style, buf);
            },
        }
    }
}

proof fn lemma_flushed_text(buf: Seq<char>, style: Style)
    ensures
        segments_text(flushed(buf, style)) == buf,
{
    let f = flushed(buf, style);
    if buf.len() > 0 {
        assert(f.drop_first() =~= seq![]);
        assert(segments_text(f.drop_first()) =~= seq![]);
        assert(buf + segments_text(f.drop_first()) =~= buf);
    } else {
        assert(segments_text(f) =~= buf);
    }
}

/// No escape character is ever part of the text that is shown.
pub proof fn law_no_escape_leaks(s: Seq<char>)
    ensures
        forall|i: int, j: int|
            0 <= i < parsed(s).len() && 0 <= j < parsed(s)[i].text.len()
                ==> #[trigger] parsed(s)[i].text[j] != '\u{1b}',
{
    lemma_no_escape(s, plain_style(), seq![]);
}

proof fn lemma_no_escape(s: Seq<char>, style: Style, buf: Seq<char>)
    requires
        forall|j: int| 0 <= j < buf.len() ==> buf[j] != '\u{1b}',
    ensures
        forall|i: int, j: int|
            0 <= i < parsed_from(s, style, buf).len() && 0 <= j < parsed_from(
                s,
                style,
                buf,
            )[i].text.len() ==> #[trigger] parsed_from(s, style, buf)[i].text[j] != '\u{1b}',
    decreases s.len(),
{
    if s.len() > 0 {
        lemma_item_len(s);
        let (item, k) = read_item(s);
        match item {
            Item::Char(c) => {
                lemma_no_escape(s.skip(k), style, buf.push(c));
            },
            Item::Sgr(p) => {
                let rest = parsed_from(s.skip(k), sgr(style, p), seq![]);
                lemma_no_escape(s.skip(k), sgr(style, p), seq![]);
                let f = flushed(buf, style);
                assert forall|i: int, j: int|
                    0 <= i < (f + rest).len() && 0 <= j < (f + rest)[i].text.len() implies #[trigger] (f
                    + rest)[i].text[j] != '\u{1b}' by {
                    if i >= f.len() {
                        assert((f + rest)[i] == rest[i - f.len()]);
                    }
                }
            },
            Item::Nothing => {
                lemma_no_escape(s.skip(k), style, buf);
            },
        }
    }
}

/// Text without escape characters is one segment in the plain style, or no
/// segment where it is empty.
pub proof fn law_plain_text_is_one_segment(s: Seq<char>)
    requires
        forall|i: int| 0 <= i < s.len() ==> s[i] != '\u{1b}',
    ensures
        parsed(s) == flushed(s, plain_style()),
{
    lemma_plain_text(s, plain_style(), seq![]);
    assert(seq![] + s =~= s);
}

proof fn lemma_plain_text(s: Seq<char>, style: Style, buf: Seq<char>)
    requires
        forall|i: int| 0 <= i < s.len() ==> s[i] != '\u{1b}',
    ensures
        parsed_from(s, style, buf) == flushed(buf + s, style),
    decreases s.len(),
{
    if s.len() == 0 {
        assert(buf + s =~= buf);
    } else {
        lemma_plain_text(s.skip(1), style, buf.push(s[0]));
        assert(buf.push(s[0]) + s.skip(1) =~= buf + s);
    }
}

/// No segment is empty.
pub proof fn law_no_segment_is_empty(s: Seq<char>)
    ensures
        forall|i: int| 0 <= i < parsed(s).len() ==> (#[trigger] parsed(s)[i]).text.len() > 0,
{
    lemma_no_empty_segment(s, plain_style(), seq![]);
}

proof fn lemma_no_empty_segment(s: Seq<char>, style: Style, buf: Seq<char>)
    ensures
        forall|i: int|
            0 <= i < parsed_from(s, style, buf).len() ==> (#[trigger] parsed_from(
                s,
                style,
                buf,
            )[i]).text.len() > 0,
    decreases s.len(),
{
    if s.len() > 0 {
        lemma_item_len(s);
        let (item, k) = read_item(s);
        match item {
            Item::Char(c) => {
                lemma_no_empty_segment(s.skip(k), style, buf.push(c));
            },
            Item::Sgr(p) => {
                lemma_no_empty_segment(s.skip(k), sgr(style, p), seq![]);
            },
            Item::Nothing => {
                lemma_no_empty_segment(s.skip(k), style, buf);
            },
        }
    }
}

/// A reset undoes whatever styling came before it.
pub proof fn law_reset_is_plain(style: Style)
    ensures
        sgr(style, seq![0u32]) == plain_style(),
        sgr_params(seq![]) == seq![0u32],
{
    assert(seq![0u32].skip(1).len() == 0);
    reveal_with_fuel(sgr, 2);
    let e: Seq<char> = seq![];
    assert(text::split_at_each(e, ';') =~= seq![e]);
    assert(sgr_params(e) =~= seq![0u32]);
}

/// Showing bold by a brighter colour never darkens a channel.
pub proof fn law_brighter_is_not_darker(c: Color32)
    ensures
        brightened(c).r >= c.r,
        brightened(c).g >= c.g,
        brightened(c).b >= c.b,
{
}

/// Instructions can be given in one list or in two, where the first list has
/// none that takes the numbers behind it.
pub proof fn law_lists_of_instructions_join(style: Style, p: Seq<u32>, q: Seq<u32>)
    requires
        !p.contains(38),
        !p.contains(48),
    ensures
        sgr(style, p + q) == sgr(sgr(style, p), q),
    decreases p.len(),
{
    if p.len() == 0 {
        assert(p + q =~= q);
    } else {
        let a = p + q;
        let rest = p.skip(1);
        assert(p.contains(p[0]));
        assert(a[0] == p[0]);
        assert(sgr_first(style, a) == sgr_first(style, p));
        assert(a.skip(1) =~= rest + q);
        assert forall|c: u32| rest.contains(c) implies p.contains(c) by {
            let i = choose|i: int| 0 <= i < rest.len() && rest[i] == c;
            assert(p[i + 1] == c);
        }
        law_lists_of_instructions_join(sgr_first(style, p).0, rest, q);
    }
}

/// A reset closes the text before it, and what follows is shown as if nothing
/// had gone before.
pub proof fn law_a_reset_starts_afresh(s: Seq<char>, style: Style, buf: Seq<char>)
    ensures
        parsed_from("\u{1b}[0m"@ + s, style, buf) == flushed(buf, style) + parsed(s),
{
    reveal_strlit("\u{1b}[0m");
    let a = "\u{1b}[0m"@ + s;
    assert(a[0] == '\u{1b}' && a[1] == '[' && a[2] == '0' && a[3] == 'm');
    let t = a.skip(2);
    assert(t[0] == '0');
    assert(t.drop_first()[0] == 'm');
    assert(first_alpha(t.drop_first()) == 0);
    assert(first_alpha(t) == 1);
    let zero = seq!['0'];
    assert(a.subrange(2, 3) =~= zero);
    assert(a.skip(4) =~= s);
    text::lemma_first_of(zero, ';');
    assert(text::split_at_each(zero, ';') =~= seq![zero]);
    assert(text::digits_value(zero) == 0) by {
        reveal_with_fuel(text::digits_value, 2);
        assert(zero.drop_last() =~= seq![]);
    }
    assert(sgr_number(zero) == 0);
    assert(sgr_params(zero) =~= seq![0u32]);
    law_reset_is_plain(style);
    assert(sgr(style, seq![0u32]) == plain_style()) by {
        reveal_with_fuel(sgr, 2);
    }
}

}
