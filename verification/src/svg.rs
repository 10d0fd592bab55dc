//! Rendering of lines to a self-contained SVG document.
//!
//! All metrics are held in tenths of an SVG pixel, so that every position
//! is exact: a character cell is 28.8 px wide and 60 px high, the content
//! is padded by 60 px on every side, the text baseline lies 46.8 px below
//! the top of its cell, and box-drawing rules are 4.2 px thick.
//! Coordinates are written floored and sizes ceiled to whole pixels, and
//! a value beyond `u32::MAX` is written as `u32::MAX`.

use vstd::prelude::*;
use crate::model::{css, is_blank_line, push_color_css, Color, Line, Style, StyledSpan, Theme};
use crate::text::{
    dec, escape, has_sub, lemma_occurs_inside, occurs_at, push_dec, push_escaped, push_str,
};

verus! {

/// Width of one character cell, in tenths of a pixel (28.8 px).
pub const CHAR_WIDTH: u64 = 288;
/// Height of one line, in tenths of a pixel (60 px).
pub const LINE_HEIGHT: u64 = 600;
/// Font size, in tenths of a pixel (48 px).
pub const FONT_SIZE: u64 = 480;
/// Padding around the content, in tenths of a pixel (60 px).
pub const PAD: u64 = 600;
/// Distance from the top of a cell to the text baseline, in tenths of a
/// pixel: 0.78 of the line height (46.8 px).
pub const BASELINE: u64 = 468;
/// Thickness of a box-drawing rule, in tenths of a pixel: 0.07 of the line
/// height (4.2 px), at least 2 px.
pub const BAR: u64 = 42;
/// Half a character cell (14.4 px).
pub const HALF_CHAR: u64 = 144;
/// Half a line (30 px).
pub const HALF_LINE: u64 = 300;
/// Half a rule's thickness (2.1 px).
pub const HALF_BAR: u64 = 21;

/// Positions at or beyond this many tenths of a pixel are all written as
/// `u32::MAX`; exact sums are capped here.
pub const CAP: u64 = 42_949_672_960;

/// A length in tenths of a pixel, floored to whole pixels and saturated.
pub open spec fn floor_px(v: int) -> nat {
    if v < 0 {
        0
    } else if v / 10 > u32::MAX {
        u32::MAX as nat
    } else {
        (v / 10) as nat
    }
}

/// A length in tenths of a pixel, ceiled to whole pixels and saturated.
pub open spec fn ceil_px(v: int) -> nat {
    if v < 0 {
        0
    } else if (v + 9) / 10 > u32::MAX {
        u32::MAX as nat
    } else {
        ((v + 9) / 10) as nat
    }
}

/// `v`, or `CAP` where it is larger.
pub open spec fn cap(v: int) -> int {
    if v > CAP {
        CAP as int
    } else {
        v
    }
}

proof fn lemma_cap(a: int, d: int)
    requires
        a >= 0,
        d >= 0,
    ensures
        floor_px(cap(a) + d) == floor_px(a + d),
        ceil_px(cap(a)) == ceil_px(a),
        cap(cap(a) + d) == cap(a + d),
{
}

fn floor_px_exec(v: u64) -> (p: u64)
    ensures
        p == floor_px(v as int),
{
    if v / 10 > 0xffff_ffff {
        0xffff_ffff
    } else {
        v / 10
    }
}

fn ceil_px_exec(v: u64) -> (p: u64)
    requires
        v <= CAP,
    ensures
        p == ceil_px(v as int),
{
    if (v + 9) / 10 > 0xffff_ffff {
        0xffff_ffff
    } else {
        (v + 9) / 10
    }
}

/// `a + b`, capped at `CAP`.
fn cap_add(a: u64, b: u64) -> (r: u64)
    requires
        a <= CAP,
    ensures
        r == cap(a + b as int),
{
    if b > CAP - a {
        CAP
    } else {
        a + b
    }
}

/// `k * m`, capped at `CAP`.
fn cap_mul(k: u64, m: u64) -> (r: u64)
    requires
        0 < m <= 1000,
    ensures
        r == cap(k * m as int),
{
    if k > CAP / m {
        assert(k * m > CAP) by (nonlinear_arith)
            requires
                k > CAP / m,
                m > 0,
        ;
        CAP
    } else {
        assert(k * m <= CAP) by (nonlinear_arith)
            requires
                k <= CAP / m,
                m > 0,
        ;
        k * m
    }
}

/// The top of row `row`, in tenths of a pixel.
pub open spec fn row_top(row: int) -> int {
    PAD + LINE_HEIGHT * row
}

/// `<rect x=".." y=".." width=".." height=".." fill=".."/>`: position floored
/// and size ceiled to whole pixels.
#[verifier::opaque]
pub open spec fn rect(x: int, y: int, w: int, h: int, fill: Seq<char>) -> Seq<char> {
    "<rect x=\""@ + dec(floor_px(x)) + "\" y=\""@ + dec(floor_px(y)) + "\" width=\""@ + dec(
        ceil_px(w),
    ) + "\" height=\""@ + dec(ceil_px(h)) + "\" fill=\""@ + fill + "\"/>"@
}

/// Appends one `<rect>`.
fn svg_rect(out: &mut String, x: u64, y: u64, w: u64, h: u64, fill: &str)
    requires
        w <= CAP,
        h <= CAP,
    ensures
        final(out)@ == old(out)@ + rect(x as int, y as int, w as int, h as int, fill@),
{
    reveal(rect);
    let ghost start = out@;
    push_str(out, "<rect x=\"");
    push_dec(out, floor_px_exec(x));
    push_str(out, "\" y=\"");
    push_dec(out, floor_px_exec(y));
    push_str(out, "\" width=\"");
    push_dec(out, ceil_px_exec(w));
    push_str(out, "\" height=\"");
    push_dec(out, ceil_px_exec(h));
    push_str(out, "\" fill=\"");
    push_str(out, fill);
    push_str(out, "\"/>");
    assert(out@ =~= start + rect(x as int, y as int, w as int, h as int, fill@));
}

/// The display width in terminal columns of a string, as
/// `unicode_width::UnicodeWidthStr::width` computes it.
pub uninterp spec fn str_width(s: Seq<char>) -> usize;

/// Calls `unicode_width::UnicodeWidthStr::width`. The contract only ties the
/// result to `str_width` of the string: the widths of characters are the
/// crate's Unicode tables and are not restated here.
#[verifier::external_body]
fn display_width(s: &str) -> (w: usize)
    ensures
        w == str_width(s@),
{
    unicode_width::UnicodeWidthStr::width(s)
}

/// The display widths of the spans of a line.
pub open spec fn widths_of(spans: Seq<StyledSpan>) -> Seq<usize> {
    Seq::new(spans.len(), |i: int| str_width(spans[i].text@))
}

/// The display width of each span of `line`, in order.
pub fn span_widths(line: &Line) -> (res: Vec<usize>)
    ensures
        res@ == widths_of(line.spans@),
{
    let mut res: Vec<usize> = Vec::new();
    let n = line.spans.len();
    let mut i: usize = 0;
    while i < n
        invariant
            n == line.spans@.len(),
            i <= n,
            res@ == widths_of(line.spans@).take(i as int),
        decreases n - i,
    {
        let w = display_width(line.spans[i].text.as_str());
        res.push(w);
        i = i + 1;
        assert(res@ =~= widths_of(line.spans@).take(i as int));
    }
    assert(widths_of(line.spans@).take(n as int) =~= widths_of(line.spans@));
    res
}

/// The columns taken by the first `n` spans.
pub open spec fn cols(widths: Seq<usize>, n: int) -> nat
    decreases n,
{
    if n <= 0 {
        0
    } else {
        cols(widths, n - 1) + widths[n - 1] as nat
    }
}

/// The background rectangle of one span starting at `x`, if it has a
/// background colour.
pub open spec fn bg_rect(span: StyledSpan, x: int, w: int, y: int) -> Seq<char> {
    match span.style.bg {
        Some(c) => rect(x, y, w, LINE_HEIGHT as int, css(c)),
        None => seq![],
    }
}

/// The background rectangles of the first `n` spans of a line whose top is `y`.
pub open spec fn bg_rects(spans: Seq<StyledSpan>, widths: Seq<usize>, y: int, n: int) -> Seq<char>
    decreases n,
{
    if n <= 0 {
        seq![]
    } else {
        bg_rects(spans, widths, y, n - 1) + bg_rect(
            spans[n - 1],
            PAD + CHAR_WIDTH * cols(widths, n - 1),
            CHAR_WIDTH * widths[n - 1],
            y,
        )
    }
}

/// One `<rect>` per span of `line` (in row `row`) that has a background
/// colour, spanning its columns.
pub fn svg_bg_rects(line: &Line, row: usize) -> (res: String)
    ensures
        res@ == bg_rects(
            line.spans@,
            widths_of(line.spans@),
            row_top(row as int),
            line.spans@.len() as int,
        ),
{
    let widths = span_widths(line);
    svg_bg_rects_with_widths(line, widths.as_slice(), row)
}

/// The background rectangles of `line` in row `row`, given the display
/// width of each of its spans.
pub fn svg_bg_rects_with_widths(line: &Line, widths: &[usize], row: usize) -> (res: String)
    requires
        widths@.len() == line.spans@.len(),
    ensures
        res@ == bg_rects(line.spans@, widths@, row_top(row as int), line.spans@.len() as int),
{
    let mut out = String::new();
    let y = cap_add(PAD, cap_mul(row as u64, LINE_HEIGHT));
    proof {
        lemma_cap(LINE_HEIGHT * row as int, PAD as int);
    }
    let n = line.spans.len();
    let mut col: u64 = 0;
    let mut i: usize = 0;
    while i < n
        invariant
            n == line.spans@.len(),
            widths@.len() == n,
            i <= n,
            col == cap(CHAR_WIDTH * cols(widths@, i as int)),
            y == cap(row_top(row as int)),
            out@ == bg_rects(line.spans@, widths@, row_top(row as int), i as int),
        decreases n - i,
    {
        let span = &line.spans[i];
        let w = cap_mul(widths[i] as u64, CHAR_WIDTH);
        match span.style.bg {
            Some(c) => {
                let fill = crate::model::color_css(c);
                svg_rect(&mut out, PAD + col, y, w, LINE_HEIGHT, fill.as_str());
                proof {
                    reveal(rect);
                    lemma_cap(CHAR_WIDTH * cols(widths@, i as int), PAD as int);
                    lemma_cap(row_top(row as int), 0);
                    lemma_cap(CHAR_WIDTH * widths@[i as int], 0);
                }
            },
            None => {},
        }
        proof {
            assert(CHAR_WIDTH * cols(widths@, i + 1) == CHAR_WIDTH * cols(widths@, i as int)
                + CHAR_WIDTH * widths@[i as int]) by (nonlinear_arith);
            lemma_cap(CHAR_WIDTH * cols(widths@, i as int), CHAR_WIDTH * widths@[i as int]);
        }
        col = cap_add(col, w);
        i = i + 1;
    }
    out
}

/// The colour a span's text is drawn in: its own foreground, else the theme's.
pub open spec fn span_fg(span: StyledSpan, theme: Theme) -> Color {
    match span.style.fg {
        Some(c) => c,
        None => theme.fg,
    }
}

/// The `text-decoration` attribute for underline and strike-through.
pub open spec fn decoration_attr(underline: bool, strikethrough: bool) -> Seq<char> {
    if underline && strikethrough {
        " text-decoration=\"underline line-through\""@
    } else if underline {
        " text-decoration=\"underline\""@
    } else if strikethrough {
        " text-decoration=\"line-through\""@
    } else {
        seq![]
    }
}

/// `s` when `b` holds, else nothing.
pub open spec fn when(b: bool, s: Seq<char>) -> Seq<char> {
    if b {
        s
    } else {
        seq![]
    }
}

/// The attributes of the `<tspan>` of a span starting at `x`: position,
/// fill colour, then weight, style, decoration and opacity where set.
#[verifier::opaque]
pub open spec fn tspan_attrs(span: StyledSpan, x: int, theme: Theme) -> Seq<char> {
    " x=\""@ + dec(floor_px(x)) + "\" fill=\""@ + css(span_fg(span, theme)) + "\""@ + when(
        span.style.bold,
        " font-weight=\"bold\""@,
    ) + when(span.style.italic, " font-style=\"italic\""@) + decoration_attr(
        span.style.underline,
        span.style.strikethrough,
    ) + when(span.style.dim, " opacity=\"0.5\""@)
}

/// Builds the attribute string of one `<tspan>`.
fn svg_tspan_attrs(span: &StyledSpan, x: u64, theme: &Theme) -> (res: String)
    ensures
        res@ == tspan_attrs(*span, x as int, *theme),
{
    reveal(tspan_attrs);
    let mut out = String::new();
    push_str(&mut out, " x=\"");
    push_dec(&mut out, floor_px_exec(x));
    push_str(&mut out, "\" fill=\"");
    let fg = match span.style.fg {
        Some(c) => c,
        None => theme.fg,
    };
    push_color_css(&mut out, fg);
    push_str(&mut out, "\"");
    if span.style.bold {
        push_str(&mut out, " font-weight=\"bold\"");
    }
    if span.style.italic {
        push_str(&mut out, " font-style=\"italic\"");
    }
    if span.style.underline && span.style.strikethrough {
        push_str(&mut out, " text-decoration=\"underline line-through\"");
    } else if span.style.underline {
        push_str(&mut out, " text-decoration=\"underline\"");
    } else if span.style.strikethrough {
        push_str(&mut out, " text-decoration=\"line-through\"");
    }
    if span.style.dim {
        push_str(&mut out, " opacity=\"0.5\"");
    }
    assert(out@ =~= tspan_attrs(*span, x as int, *theme));
    out
}

/// The `<tspan>` of a span starting at `x`, with its text escaped.
pub open spec fn tspan(span: StyledSpan, x: int, theme: Theme) -> Seq<char> {
    "<tspan"@ + tspan_attrs(span, x, theme) + ">"@ + escape(span.text@) + "</tspan>"@
}

/// Appends the `<tspan>` of a span starting at `x`.
fn push_tspan(out: &mut String, span: &StyledSpan, x: u64, theme: &Theme)
    ensures
        final(out)@ == old(out)@ + tspan(*span, x as int, *theme),
{
    let ghost start = out@;
    let attrs = svg_tspan_attrs(span, x, theme);
    push_str(out, "<tspan");
    push_str(out, attrs.as_str());
    push_str(out, ">");
    push_escaped(out, span.text.as_str());
    push_str(out, "</tspan>");
    assert(out@ =~= start + tspan(*span, x as int, *theme));
}

proof fn lemma_tspan_cap(span: StyledSpan, a: int, theme: Theme)
    requires
        a >= 0,
    ensures
        tspan(span, cap(a) + PAD, theme) == tspan(span, a + PAD, theme),
{
    reveal(tspan_attrs);
    lemma_cap(a, PAD as int);
}

/// The `<tspan>`s of the first `n` spans.
pub open spec fn tspans(spans: Seq<StyledSpan>, widths: Seq<usize>, theme: Theme, n: int) -> Seq<
    char,
>
    decreases n,
{
    if n <= 0 {
        seq![]
    } else {
        tspans(spans, widths, theme, n - 1) + tspan(
            spans[n - 1],
            PAD + CHAR_WIDTH * cols(widths, n - 1),
            theme,
        )
    }
}

/// The `<text>` element of a line of styled text in row `row`.
pub open spec fn text_line(spans: Seq<StyledSpan>, widths: Seq<usize>, row: int, theme: Theme) -> Seq<
    char,
> {
    "<text y=\""@ + dec(floor_px(row_top(row) + BASELINE)) + "\" xml:space=\"preserve\">"@ + tspans(
        spans,
        widths,
        theme,
        spans.len() as int,
    ) + "</text>"@
}

/// Renders a line of styled text in row `row` as `<text>…</text>` with one
/// `<tspan>` per span, each placed at the column where the span begins.
pub fn svg_text_line(line: &Line, row: usize, theme: &Theme) -> (res: String)
    ensures
        res@ == text_line(line.spans@, widths_of(line.spans@), row as int, *theme),
{
    let widths = span_widths(line);
    svg_text_line_with_widths(line, widths.as_slice(), row, theme)
}

/// The `<text>` element of `line` in row `row`, given the display width of
/// each of its spans.
pub fn svg_text_line_with_widths(
    line: &Line,
    widths: &[usize],
    row: usize,
    theme: &Theme,
) -> (res: String)
    requires
        widths@.len() == line.spans@.len(),
    ensures
        res@ == text_line(line.spans@, widths@, row as int, *theme),
{
    let mut out = String::new();
    let y = cap_add(PAD, cap_mul(row as u64, LINE_HEIGHT));
    proof {
        lemma_cap(LINE_HEIGHT * row as int, PAD as int);
        lemma_cap(row_top(row as int), BASELINE as int);
    }
    push_str(&mut out, "<text y=\"");
    push_dec(&mut out, floor_px_exec(y + BASELINE));
    push_str(&mut out, "\" xml:space=\"preserve\">");
    let ghost head = out@;
    let n = line.spans.len();
    let mut col: u64 = 0;
    let mut i: usize = 0;
    while i < n
        invariant
            n == line.spans@.len(),
            widths@.len() == n,
            i <= n,
            col == cap(CHAR_WIDTH * cols(widths@, i as int)),
            out@ == head + tspans(line.spans@, widths@, *theme, i as int),
        decreases n - i,
    {
        let span = &line.spans[i];
        let ghost before = out@;
        push_tspan(&mut out, span, PAD + col, theme);
        proof {
            lemma_tspan_cap(*span, CHAR_WIDTH * cols(widths@, i as int), *theme);
            assert(out@ == before + tspan(*span, PAD + CHAR_WIDTH * cols(widths@, i as int), *theme));
            assert(out@ =~= head + tspans(line.spans@, widths@, *theme, i + 1));
            assert(CHAR_WIDTH * cols(widths@, i + 1) == CHAR_WIDTH * cols(widths@, i as int)
                + CHAR_WIDTH * widths@[i as int]) by (nonlinear_arith);
            lemma_cap(CHAR_WIDTH * cols(widths@, i as int), CHAR_WIDTH * widths@[i as int]);
        }
        col = cap_add(col, cap_mul(widths[i] as u64, CHAR_WIDTH));
        i = i + 1;
    }
    push_str(&mut out, "</text>");
    out
}

/// All characters of the spans, in order.
pub open spec fn all_chars(spans: Seq<StyledSpan>) -> Seq<char>
    decreases spans.len(),
{
    if spans.len() == 0 {
        seq![]
    } else {
        all_chars(spans.drop_last()) + spans.last().text@
    }
}

/// The characters of all spans of `line`, in order.
fn line_chars(line: &Line) -> (res: Vec<char>)
    ensures
        res@ == all_chars(line.spans@),
{
    let mut res: Vec<char> = Vec::new();
    let n = line.spans.len();
    let mut i: usize = 0;
    while i < n
        invariant
            n == line.spans@.len(),
            i <= n,
            res@ == all_chars(line.spans@.take(i as int)),
        decreases n - i,
    {
        let text = line.spans[i].text.as_str();
        let m = text.unicode_len();
        let ghost before = res@;
        let mut j: usize = 0;
        while j < m
            invariant
                m == text@.len(),
                j <= m,
                res@ == before + text@.take(j as int),
            decreases m - j,
        {
            res.push(text.get_char(j));
            j = j + 1;
            assert(res@ =~= before + text@.take(j as int));
        }
        assert(line.spans@.take(i + 1).drop_last() =~= line.spans@.take(i as int));
        assert(text@.take(m as int) =~= text@);
        i = i + 1;
    }
    assert(line.spans@.take(n as int) =~= line.spans@);
    res
}

/// The rounded box-drawing glyphs that tables are drawn with.
pub open spec fn is_box_char(c: char) -> bool {
    ||| c == '─'
    ||| c == '│'
    ||| c == '╭'
    ||| c == '╮'
    ||| c == '╰'
    ||| c == '╯'
    ||| c == '├'
    ||| c == '┤'
    ||| c == '┬'
    ||| c == '┴'
    ||| c == '┼'
}

/// Every character other than a space is a box-drawing glyph.
pub open spec fn is_box_line(spans: Seq<StyledSpan>) -> bool {
    let cs = all_chars(spans);
    forall|k: int| 0 <= k < cs.len() ==> cs[k] == ' ' || is_box_char(cs[k])
}

fn is_box_char_exec(c: char) -> (b: bool)
    ensures
        b == is_box_char(c),
{
    c == '─' || c == '│' || c == '╭' || c == '╮' || c == '╰' || c == '╯' || c == '├' || c == '┤'
        || c == '┬' || c == '┴' || c == '┼'
}

/// Returns true if every non-space character in the line is a box-drawing
/// glyph: such lines (table borders) are drawn with rectangles rather than
/// text.
pub fn is_box_drawing_line(line: &Line) -> (r: bool)
    ensures
        r == is_box_line(line.spans@),
{
    let cs = line_chars(line);
    let n = cs.len();
    let mut all_box = true;
    let mut k: usize = 0;
    while k < n
        invariant
            n == cs@.len(),
            cs@ == all_chars(line.spans@),
            k <= n,
            all_box == forall|j: int| 0 <= j < k ==> cs@[j] == ' ' || is_box_char(cs@[j]),
        decreases n - k,
    {
        let c = cs[k];
        if !(c == ' ' || is_box_char_exec(c)) {
            all_box = false;
        }
        k = k + 1;
    }
    all_box
}

/// Which sides of a character cell a box-drawing glyph connects to.
pub struct BoxDirs {
    pub left: bool,
    pub right: bool,
    pub up: bool,
    pub down: bool,
}

/// The sides (left, right, up, down) that a glyph connects; none for any
/// other character.
pub open spec fn box_dirs(c: char) -> (bool, bool, bool, bool) {
    if c == '─' {
        (true, true, false, false)
    } else if c == '│' {
        (false, false, true, true)
    } else if c == '╭' {
        (false, true, false, true)
    } else if c == '╮' {
        (true, false, false, true)
    } else if c == '╰' {
        (false, true, true, false)
    } else if c == '╯' {
        (true, false, true, false)
    } else if c == '├' {
        (false, true, true, true)
    } else if c == '┤' {
        (true, false, true, true)
    } else if c == '┬' {
        (true, true, false, true)
    } else if c == '┴' {
        (true, true, true, false)
    } else if c == '┼' {
        (true, true, true, true)
    } else {
        (false, false, false, false)
    }
}

/// Returns the connection directions for a box-drawing character.
pub fn box_char_dirs(c: char) -> (d: BoxDirs)
    ensures
        (d.left, d.right, d.up, d.down) == box_dirs(c),
{
    let (left, right, up, down) = if c == '─' {
        (true, true, false, false)
    } else if c == '│' {
        (false, false, true, true)
    } else if c == '╭' {
        (false, true, false, true)
    } else if c == '╮' {
        (true, false, false, true)
    } else if c == '╰' {
        (false, true, true, false)
    } else if c == '╯' {
        (true, false, true, false)
    } else if c == '├' {
        (false, true, true, true)
    } else if c == '┤' {
        (true, false, true, true)
    } else if c == '┬' {
        (true, true, false, true)
    } else if c == '┴' {
        (true, true, true, false)
    } else if c == '┼' {
        (true, true, true, true)
    } else {
        (false, false, false, false)
    };
    BoxDirs { left, right, up, down }
}

/// The rectangles of one glyph whose cell starts at `x` in a row whose top
/// is `y`: a half-width bar to the left and to the right of the centre, a
/// half-height bar above and below it, for each side the glyph connects.
pub open spec fn cell_rects(c: char, x: int, y: int, fill: Seq<char>) -> Seq<char> {
    let d = box_dirs(c);
    let bar_y = y + HALF_LINE - HALF_BAR;
    let bar_x = x + HALF_CHAR - HALF_BAR;
    when(d.0, rect(x, bar_y, HALF_CHAR as int, BAR as int, fill)) + when(
        d.1,
        rect(x + HALF_CHAR, bar_y, HALF_CHAR as int, BAR as int, fill),
    ) + when(d.2, rect(bar_x, y, BAR as int, HALF_LINE as int, fill)) + when(
        d.3,
        rect(bar_x, y + HALF_LINE, BAR as int, HALF_LINE as int, fill),
    )
}

/// The rectangles of the first `n` glyphs of `cs`, the k-th in the k-th cell.
pub open spec fn box_cells(cs: Seq<char>, y: int, fill: Seq<char>, n: int) -> Seq<char>
    decreases n,
{
    if n <= 0 {
        seq![]
    } else {
        box_cells(cs, y, fill, n - 1) + cell_rects(cs[n - 1], PAD + CHAR_WIDTH * (n - 1), y, fill)
    }
}

/// The first foreground colour among the spans from index `i` on.
pub open spec fn first_fg(spans: Seq<StyledSpan>, i: int) -> Option<Color>
    decreases spans.len() - i,
{
    if i < 0 || i >= spans.len() {
        None
    } else {
        match spans[i].style.fg {
            Some(c) => Some(c),
            None => first_fg(spans, i + 1),
        }
    }
}

/// The colour of a box-drawing line: the first span foreground, else the
/// theme's.
pub open spec fn box_fill(spans: Seq<StyledSpan>, theme: Theme) -> Color {
    match first_fg(spans, 0) {
        Some(c) => c,
        None => theme.fg,
    }
}

/// The rectangles of a box-drawing line in row `row`.
pub open spec fn box_line(spans: Seq<StyledSpan>, row: int, theme: Theme) -> Seq<char> {
    let cs = all_chars(spans);
    box_cells(cs, row_top(row), css(box_fill(spans, theme)), cs.len() as int)
}

fn box_fill_exec(line: &Line, theme: &Theme) -> (c: Color)
    ensures
        c == box_fill(line.spans@, *theme),
{
    let n = line.spans.len();
    let mut i: usize = 0;
    while i < n
        invariant
            n == line.spans@.len(),
            i <= n,
            first_fg(line.spans@, 0) == first_fg(line.spans@, i as int),
        decreases n - i,
    {
        match line.spans[i].style.fg {
            Some(c) => {
                return c;
            },
            None => {},
        }
        i = i + 1;
    }
    theme.fg
}

/// Appends the rectangles of one glyph whose cell starts at `x`, in a row
/// whose top is `y`.
fn push_cell_rects(out: &mut String, c: char, x: u64, y: u64, fill: &str)
    requires
        x <= CAP + PAD,
        y <= CAP,
    ensures
        final(out)@ == old(out)@ + cell_rects(c, x as int, y as int, fill@),
{
    let ghost start = out@;
    let ghost f = fill@;
    let d = box_char_dirs(c);
    let bar_y = y + HALF_LINE - HALF_BAR;
    let bar_x = x + HALF_CHAR - HALF_BAR;
    if d.left {
        svg_rect(out, x, bar_y, HALF_CHAR, BAR, fill);
    }
    let ghost s1 = out@;
    assert(s1 == start + when(d.left, rect(x as int, bar_y as int, HALF_CHAR as int, BAR as int, f)));
    if d.right {
        svg_rect(out, x + HALF_CHAR, bar_y, HALF_CHAR, BAR, fill);
    }
    let ghost s2 = out@;
    assert(s2 == s1 + when(d.right, rect(x + HALF_CHAR, bar_y as int, HALF_CHAR as int, BAR as int, f)));
    if d.up {
        svg_rect(out, bar_x, y, BAR, HALF_LINE, fill);
    }
    let ghost s3 = out@;
    assert(s3 == s2 + when(d.up, rect(bar_x as int, y as int, BAR as int, HALF_LINE as int, f)));
    if d.down {
        svg_rect(out, bar_x, y + HALF_LINE, BAR, HALF_LINE, fill);
    }
    assert(out@ == s3 + when(d.down, rect(bar_x as int, y + HALF_LINE, BAR as int, HALF_LINE as int, f)));
    assert(out@ =~= start + cell_rects(c, x as int, y as int, f));
}

proof fn lemma_rect_cap(x: int, y: int, dx: int, dy: int, w: int, h: int, f: Seq<char>)
    requires
        x >= 0,
        y >= 0,
        dx >= 0,
        dy >= 0,
    ensures
        rect(cap(x) + dx, cap(y) + dy, w, h, f) == rect(x + dx, y + dy, w, h, f),
{
    reveal(rect);
    lemma_cap(x, dx);
    lemma_cap(y, dy);
}

proof fn lemma_cell_rects_cap(c: char, a: int, yt: int, f: Seq<char>)
    requires
        a >= 0,
        yt >= 0,
    ensures
        cell_rects(c, cap(a) + PAD, cap(yt), f) == cell_rects(c, a + PAD, yt, f),
{
    lemma_rect_cap(a, yt, PAD as int, HALF_LINE - HALF_BAR, HALF_CHAR as int, BAR as int, f);
    lemma_rect_cap(a, yt, PAD + HALF_CHAR, HALF_LINE - HALF_BAR, HALF_CHAR as int, BAR as int, f);
    lemma_rect_cap(a, yt, PAD + HALF_CHAR - HALF_BAR, 0, BAR as int, HALF_LINE as int, f);
    lemma_rect_cap(a, yt, PAD + HALF_CHAR - HALF_BAR, HALF_LINE as int, BAR as int, HALF_LINE as int, f);
    assert(cap(yt) + HALF_LINE - HALF_BAR == cap(yt) + (HALF_LINE - HALF_BAR));
    assert(cap(a) + PAD + HALF_CHAR == cap(a) + (PAD + HALF_CHAR));
    assert(cap(a) + PAD + HALF_CHAR - HALF_BAR == cap(a) + (PAD + HALF_CHAR - HALF_BAR));
}

/// Renders a box-drawing line in row `row` as rectangles: each glyph in its
/// own cell, drawn as bars from the cell's centre to the sides it connects.
pub fn svg_box_line(line: &Line, row: usize, theme: &Theme) -> (res: String)
    ensures
        res@ == box_line(line.spans@, row as int, *theme),
{
    let fill_color = box_fill_exec(line, theme);
    let fill = crate::model::color_css(fill_color);
    let cs = line_chars(line);
    let y = cap_add(PAD, cap_mul(row as u64, LINE_HEIGHT));
    proof {
        lemma_cap(LINE_HEIGHT * row as int, PAD as int);
    }
    let ghost yt = row_top(row as int);
    let ghost f = fill@;
    let mut out = String::new();
    let n = cs.len();
    let mut cx: u64 = 0;
    let mut k: usize = 0;
    while k < n
        invariant
            n == cs@.len(),
            k <= n,
            yt >= 0,
            f == fill@,
            y == cap(yt),
            cx == cap(CHAR_WIDTH * k),
            out@ == box_cells(cs@, yt, f, k as int),
        decreases n - k,
    {
        let ghost before = out@;
        let c = cs[k];
        assert(c == cs@[k as int]);
        push_cell_rects(&mut out, c, PAD + cx, y, fill.as_str());
        proof {
            lemma_cell_rects_cap(cs@[k as int], CHAR_WIDTH * k, yt, f);
            assert((PAD + cx) as int == cap(CHAR_WIDTH * k) + PAD);
            assert(out@ == before + cell_rects(cs@[k as int], cap(CHAR_WIDTH * k) + PAD, cap(yt), f));
            assert(out@ == before + cell_rects(cs@[k as int], PAD + CHAR_WIDTH * k, yt, f));
            lemma_cap(CHAR_WIDTH * k, CHAR_WIDTH as int);
        }
        cx = cap_add(cx, CHAR_WIDTH);
        k = k + 1;
    }
    out
}

/// What is drawn of a line in row `row` on top of its backgrounds: nothing
/// for an empty line, rectangles for a box-drawing line, text otherwise.
pub open spec fn row_content(line: Line, row: int, theme: Theme) -> Seq<char> {
    if line.spans@.len() == 0 {
        seq![]
    } else if is_box_line(line.spans@) {
        box_line(line.spans@, row, theme)
    } else {
        text_line(line.spans@, widths_of(line.spans@), row, theme)
    }
}

/// Everything drawn for a line in row `row`: its span backgrounds, then its
/// content.
pub open spec fn svg_row(line: Line, row: int, theme: Theme) -> Seq<char> {
    bg_rects(line.spans@, widths_of(line.spans@), row_top(row), line.spans@.len() as int)
        + row_content(line, row, theme)
}

/// The first `n` lines, each in its own row.
pub open spec fn svg_rows(lines: Seq<Line>, theme: Theme, n: int) -> Seq<char>
    decreases n,
{
    if n <= 0 {
        seq![]
    } else {
        svg_rows(lines, theme, n - 1) + svg_row(lines[n - 1], n - 1, theme)
    }
}

/// The `<svg>` element of a canvas `w` by `h` pixels, with its view box.
#[verifier::opaque]
pub open spec fn svg_open_tag(w: Seq<char>, h: Seq<char>) -> Seq<char> {
    "<svg xmlns=\"http://www.w3.org/2000/svg\" width=\""@ + w + "\" height=\""@ + h
        + "\" viewBox=\"0 0 "@ + w + " "@ + h + "\">"@
}

/// The background rectangle over the whole canvas.
#[verifier::opaque]
pub open spec fn svg_canvas(w: Seq<char>, h: Seq<char>, bg: Color) -> Seq<char> {
    "<rect width=\""@ + w + "\" height=\""@ + h + "\" fill=\""@ + css(bg) + "\"/>"@
}

/// The font style of the text.
pub open spec fn svg_font() -> Seq<char> {
    "<style>text{font-family:'Courier New','DejaVu Sans Mono',Courier,monospace;font-size:"@
        + dec(floor_px(FONT_SIZE as int)) + "px;dominant-baseline:auto;}</style>"@
}

/// The opening of an SVG document `width` columns wide and `n_rows` rows
/// high: the `<svg>` element with its size and view box, a background
/// rectangle over the whole canvas, and the font style.
pub open spec fn svg_head(width: nat, n_rows: nat, theme: Theme) -> Seq<char> {
    let w = dec(floor_px(CHAR_WIDTH * width + 2 * PAD));
    let h = dec(floor_px(LINE_HEIGHT * n_rows + 2 * PAD));
    svg_open_tag(w, h) + svg_canvas(w, h, theme.bg) + svg_font()
}

/// An SVG document `n_rows` rows high that draws `lines` in its first rows.
pub open spec fn svg_page(lines: Seq<Line>, n_rows: nat, width: nat, theme: Theme) -> Seq<char> {
    svg_head(width, n_rows, theme) + svg_rows(lines, theme, lines.len() as int) + "</svg>"@
}

/// Renders `lines` into an SVG document sized for `n_rows` rows.
pub(crate) fn svg_document(lines: &[Line], n_rows: usize, width: usize, theme: &Theme) -> (res: String)
    ensures
        res@ == svg_page(lines@, n_rows as nat, width as nat, *theme),
{
    let mut out = String::new();
    let w = floor_px_exec(cap_mul(width as u64, CHAR_WIDTH) + 2 * PAD);
    let h = floor_px_exec(cap_mul(n_rows as u64, LINE_HEIGHT) + 2 * PAD);
    proof {
        lemma_cap(CHAR_WIDTH * width, 2 * PAD);
        lemma_cap(LINE_HEIGHT * n_rows, 2 * PAD);
    }
    push_str(&mut out, "<svg xmlns=\"http://www.w3.org/2000/svg\" width=\"");
    push_dec(&mut out, w);
    push_str(&mut out, "\" height=\"");
    push_dec(&mut out, h);
    push_str(&mut out, "\" viewBox=\"0 0 ");
    push_dec(&mut out, w);
    push_str(&mut out, " ");
    push_dec(&mut out, h);
    push_str(&mut out, "\">");
    push_str(&mut out, "<rect width=\"");
    push_dec(&mut out, w);
    push_str(&mut out, "\" height=\"");
    push_dec(&mut out, h);
    push_str(&mut out, "\" fill=\"");
    push_color_css(&mut out, theme.bg);
    push_str(&mut out, "\"/>");
    proof {
        reveal(svg_open_tag);
        reveal(svg_canvas);
    }
    push_str(
        &mut out,
        "<style>text{font-family:'Courier New','DejaVu Sans Mono',Courier,monospace;font-size:",
    );
    push_dec(&mut out, floor_px_exec(FONT_SIZE));
    push_str(&mut out, "px;dominant-baseline:auto;}</style>");
    assert(out@ =~= svg_head(width as nat, n_rows as nat, *theme));
    let ghost head = out@;
    let n = lines.len();
    let mut i: usize = 0;
    while i < n
        invariant
            n == lines@.len(),
            i <= n,
            out@ == head + svg_rows(lines@, *theme, i as int),
        decreases n - i,
    {
        let line = &lines[i];
        let bgs = svg_bg_rects(line, i);
        push_str(&mut out, bgs.as_str());
        if line.spans.len() == 0 {
        } else if is_box_drawing_line(line) {
            let content = svg_box_line(line, i, theme);
            push_str(&mut out, content.as_str());
        } else {
            let content = svg_text_line(line, i, theme);
            push_str(&mut out, content.as_str());
        }
        assert(out@ =~= head + svg_rows(lines@, *theme, i + 1));
        i = i + 1;
    }
    push_str(&mut out, "</svg>");
    out
}

/// Renders lines to a self-contained SVG document, one row per line.
/// Each span becomes a `<tspan>` with its colours and font attributes;
/// background colours get a `<rect>` behind the text; table borders made of
/// box-drawing glyphs are drawn with rectangles.
pub fn to_svg_string(lines: &[Line], width: usize, theme: &Theme) -> (res: String)
    ensures
        res@ == svg_page(lines@, lines@.len(), width as nat, *theme),
{
    svg_document(lines, lines.len(), width, theme)
}

proof fn lemma_rows_prefix(a: Seq<Line>, b: Seq<Line>, theme: Theme, k: int)
    requires
        0 <= k <= a.len(),
        k <= b.len(),
        forall|i: int| 0 <= i < k ==> a[i] == b[i],
    ensures
        svg_rows(a, theme, k) == svg_rows(b, theme, k),
    decreases k,
{
    if k > 0 {
        lemma_rows_prefix(a, b, theme, k - 1);
    }
}

proof fn lemma_rows_blank_tail(full: Seq<Line>, theme: Theme, m: int, k: int)
    requires
        0 <= m <= k <= full.len(),
        forall|i: int| m <= i < k ==> is_blank_line(#[trigger] full[i]),
    ensures
        svg_rows(full, theme, k) == svg_rows(full, theme, m),
    decreases k - m,
{
    if k > m {
        lemma_rows_blank_tail(full, theme, m, k - 1);
        assert(is_blank_line(full[k - 1]));
        assert(svg_row(full[k - 1], k - 1, theme) =~= seq![]);
        assert(svg_rows(full, theme, k) =~= svg_rows(full, theme, k - 1));
    }
}

/// Blank lines after the content draw nothing: a document padded with blank
/// lines to a given height is the same document as the unpadded content
/// drawn at that height.
pub proof fn law_blank_padding_draws_nothing(
    lines: Seq<Line>,
    padding: Seq<Line>,
    n_rows: nat,
    width: nat,
    theme: Theme,
)
    requires
        forall|i: int| 0 <= i < padding.len() ==> is_blank_line(#[trigger] padding[i]),
    ensures
        svg_page(lines + padding, n_rows, width, theme) == svg_page(lines, n_rows, width, theme),
{
    let full = lines + padding;
    assert forall|i: int| lines.len() <= i < full.len() implies is_blank_line(#[trigger] full[i]) by {
        assert(full[i] == padding[i - lines.len()]);
    }
    lemma_rows_blank_tail(full, theme, lines.len() as int, full.len() as int);
    lemma_rows_prefix(full, lines, theme, lines.len() as int);
}

proof fn lemma_take_of_concat(a: Seq<char>, b: Seq<char>, n: int)
    requires
        0 <= n <= a.len(),
    ensures
        (a + b).take(n) == a.take(n),
{
    assert((a + b).take(n) =~= a.take(n));
}

/// Every document opens with an `<svg ` element and draws a background
/// `<rect ` over the whole canvas.
pub proof fn law_svg_opens_with_canvas(lines: Seq<Line>, n_rows: nat, width: nat, theme: Theme)
    ensures
        svg_page(lines, n_rows, width, theme).take(5) == "<svg "@,
        exists|i: int|
            0 <= i && i + 6 <= svg_page(lines, n_rows, width, theme).len() && #[trigger] svg_page(
                lines,
                n_rows,
                width,
                theme,
            ).subrange(i, i + 6) == "<rect "@,
{
    let page = svg_page(lines, n_rows, width, theme);
    let w = dec(floor_px(CHAR_WIDTH * width + 2 * PAD));
    let h = dec(floor_px(LINE_HEIGHT * n_rows + 2 * PAD));
    let open = svg_open_tag(w, h);
    let canvas = svg_canvas(w, h, theme.bg);
    let rest = svg_font() + svg_rows(lines, theme, lines.len() as int) + "</svg>"@;
    assert(page =~= open + (canvas + rest));
    assert(open.len() >= 5 && open.take(5) == "<svg "@) by {
        reveal(svg_open_tag);
        reveal_strlit("<svg ");
        reveal_strlit("<svg xmlns=\"http://www.w3.org/2000/svg\" width=\"");
        let lit = "<svg xmlns=\"http://www.w3.org/2000/svg\" width=\""@;
        assert(open =~= lit + (w + "\" height=\""@ + h + "\" viewBox=\"0 0 "@ + w + " "@ + h + "\">"@));
        lemma_take_of_concat(lit, w + "\" height=\""@ + h + "\" viewBox=\"0 0 "@ + w + " "@ + h + "\">"@, 5);
        assert(lit.take(5) =~= "<svg "@);
    }
    assert(canvas.len() >= 6 && canvas.take(6) == "<rect "@) by {
        reveal(svg_canvas);
        reveal_strlit("<rect ");
        reveal_strlit("<rect width=\"");
        let lit = "<rect width=\""@;
        assert(canvas =~= lit + (w + "\" height=\""@ + h + "\" fill=\""@ + css(theme.bg) + "\"/>"@));
        lemma_take_of_concat(lit, w + "\" height=\""@ + h + "\" fill=\""@ + css(theme.bg) + "\"/>"@, 6);
        assert(lit.take(6) =~= "<rect "@);
    }
    lemma_take_of_concat(open, canvas + rest, 5);
    let i = open.len() as int;
    assert(page.subrange(i, i + 6) =~= canvas.take(6));
}

/// Rectangles laid side by side leave no gap: a rectangle at `x` (floored)
/// of width `w` (ceiled) reaches at least to where the next one, at `x + w`
/// (floored), begins. This holds for span backgrounds and for the bars of
/// box-drawing glyphs alike.
pub proof fn law_adjacent_rects_touch(x: int, w: int)
    requires
        x >= 0,
        w >= 0,
    ensures
        floor_px(x + w) <= floor_px(x) + ceil_px(w),
{
    assert((x + w) / 10 <= x / 10 + (w + 9) / 10);
}

/// Underlining or striking through a span adds one `text-decoration`
/// attribute to its `<tspan>` and changes nothing else: `underline` for
/// underlined text, `line-through` for struck-through text, both for both.
/// So the `<tspan>` of an underlined span says `underline`, and that of a
/// struck-through span says `line-through`.
#[verifier::spinoff_prover]
pub proof fn law_svg_decorations(span: StyledSpan, x: int, theme: Theme)
    ensures
        ({
            let u = span.style.underline;
            let s = span.style.strikethrough;
            let plain = StyledSpan {
                style: Style { underline: false, strikethrough: false, ..span.style },
                ..span
            };
            let added = if u && s {
                " text-decoration=\"underline line-through\""@
            } else if u {
                " text-decoration=\"underline\""@
            } else if s {
                " text-decoration=\"line-through\""@
            } else {
                Seq::<char>::empty()
            };
            let a = tspan_attrs(plain, x, theme);
            &&& exists|k: int|
                0 <= k <= a.len() && tspan_attrs(span, x, theme) == #[trigger] a.take(k) + added
                    + a.skip(k)
            &&& u ==> has_sub(tspan(span, x, theme), "underline"@)
            &&& s ==> has_sub(tspan(span, x, theme), "line-through"@)
        }),
{
    reveal(tspan_attrs);
    reveal_strlit(" text-decoration=\"underline line-through\"");
    reveal_strlit(" text-decoration=\"underline\"");
    reveal_strlit(" text-decoration=\"line-through\"");
    reveal_strlit("underline");
    reveal_strlit("line-through");
    let u = span.style.underline;
    let s = span.style.strikethrough;
    let plain = StyledSpan {
        style: Style { underline: false, strikethrough: false, ..span.style },
        ..span
    };
    let added = decoration_attr(u, s);
    let dim = when(span.style.dim, " opacity=\"0.5\""@);
    let a = tspan_attrs(plain, x, theme);
    let k = a.len() - dim.len();
    assert(a.skip(k) =~= dim);
    assert(tspan_attrs(span, x, theme) =~= a.take(k) + added + a.skip(k));
    let pre = "<tspan"@ + a.take(k);
    let post = a.skip(k) + ">"@ + escape(span.text@) + "</tspan>"@;
    assert(tspan(span, x, theme) =~= pre + added + post);
    if u {
        assert(occurs_at(added, "underline"@, 18));
        lemma_occurs_inside(pre, added, post, "underline"@, 18);
    }
    if s {
        let p: int = if u { 28 } else { 18 };
        assert(occurs_at(added, "line-through"@, p));
        lemma_occurs_inside(pre, added, post, "line-through"@, p);
    }
}

/// `cs` is a border row of a table: the glyph `l`, then horizontal rules
/// `─` and column junctions `m`, then the glyph `r`.
pub open spec fn is_border_row(cs: Seq<char>, l: char, m: char, r: char) -> bool {
    &&& cs.len() >= 2
    &&& cs[0] == l
    &&& cs[cs.len() - 1] == r
    &&& forall|i: int| 0 < i < cs.len() - 1 ==> cs[i] == '─' || cs[i] == m
}

/// The borders of a table are unbroken strokes that stay inside it. In its
/// top row `╭─┬─╮`, its separator rows `├─┼─┤` and its bottom row `╰─┴─╯`,
/// every glyph connects to its right neighbour and that neighbour back to
/// it, the first glyph reaches nothing to its left and the last nothing to
/// its right. Vertically, the rules `─` reach neither up nor down, and every
/// other glyph reaches down in the top row, up in the bottom row, and both
/// ways in separator rows; the side rule `│` reaches up and down only.
pub proof fn law_table_borders_connect(cs: Seq<char>, l: char, m: char, r: char)
    requires
        (l, m, r) == ('╭', '┬', '╮') || (l, m, r) == ('├', '┼', '┤') || (l, m, r) == ('╰', '┴', '╯'),
        is_border_row(cs, l, m, r),
    ensures
        !box_dirs(cs[0]).0,
        !box_dirs(cs[cs.len() - 1]).1,
        forall|i: int|
            0 <= i < cs.len() - 1 ==> box_dirs(#[trigger] cs[i]).1 && box_dirs(cs[i + 1]).0,
        forall|i: int|
            0 <= i < cs.len() ==> {
                let d = box_dirs(#[trigger] cs[i]);
                &&& cs[i] == '─' ==> !d.2 && !d.3
                &&& cs[i] != '─' ==> (d.2 <==> l != '╭') && (d.3 <==> l != '╰')
            },
        box_dirs('│') == (false, false, true, true),
{
    assert forall|i: int| 0 <= i < cs.len() - 1 implies box_dirs(#[trigger] cs[i]).1 && box_dirs(
        cs[i + 1],
    ).0 by {
        if 0 < i {
            assert(cs[i] == '─' || cs[i] == m);
        }
        if i + 1 < cs.len() - 1 {
            assert(cs[i + 1] == '─' || cs[i + 1] == m);
        }
    }
    assert forall|i: int| 0 <= i < cs.len() implies {
        let d = box_dirs(#[trigger] cs[i]);
        &&& cs[i] == '─' ==> !d.2 && !d.3
        &&& cs[i] != '─' ==> (d.2 <==> l != '╭') && (d.3 <==> l != '╰')
    } by {
        if 0 < i < cs.len() - 1 {
            assert(cs[i] == '─' || cs[i] == m);
        }
    }
}

proof fn lemma_occurs_whole(w: Seq<char>)
    ensures
        occurs_at(w, w, 0),
{
    assert(w.skip(0).subrange(0, w.len() as int) =~= w);
}

/// Each side a glyph connects to gets a bar in its cell, running from the
/// centre of the cell to the middle of that side (half a cell wide or half
/// a row high); a character that connects to nothing draws nothing.
pub proof fn law_glyph_bars(c: char, x: int, y: int, fill: Seq<char>)
    ensures
        ({
            let d = box_dirs(c);
            let cells = cell_rects(c, x, y, fill);
            let mid_y = y + LINE_HEIGHT / 2 - BAR / 2;
            let mid_x = x + CHAR_WIDTH / 2 - BAR / 2;
            &&& d.0 ==> has_sub(cells, rect(x, mid_y, CHAR_WIDTH as int / 2, BAR as int, fill))
            &&& d.1 ==> has_sub(
                cells,
                rect(x + CHAR_WIDTH / 2, mid_y, CHAR_WIDTH - CHAR_WIDTH / 2, BAR as int, fill),
            )
            &&& d.2 ==> has_sub(cells, rect(mid_x, y, BAR as int, LINE_HEIGHT as int / 2, fill))
            &&& d.3 ==> has_sub(
                cells,
                rect(mid_x, y + LINE_HEIGHT / 2, BAR as int, LINE_HEIGHT - LINE_HEIGHT / 2, fill),
            )
            &&& (!d.0 && !d.1 && !d.2 && !d.3) ==> cells.len() == 0
        }),
{
    let d = box_dirs(c);
    let bar_y = y + HALF_LINE - HALF_BAR;
    let bar_x = x + HALF_CHAR - HALF_BAR;
    let r0 = when(d.0, rect(x, bar_y, HALF_CHAR as int, BAR as int, fill));
    let r1 = when(d.1, rect(x + HALF_CHAR, bar_y, HALF_CHAR as int, BAR as int, fill));
    let r2 = when(d.2, rect(bar_x, y, BAR as int, HALF_LINE as int, fill));
    let r3 = when(d.3, rect(bar_x, y + HALF_LINE, BAR as int, HALF_LINE as int, fill));
    let cells = cell_rects(c, x, y, fill);
    assert(cells == r0 + r1 + r2 + r3);
    if d.0 {
        lemma_occurs_whole(r0);
        lemma_occurs_inside(seq![], r0, r1 + r2 + r3, r0, 0);
        assert(Seq::<char>::empty() + r0 + (r1 + r2 + r3) =~= cells);
    }
    if d.1 {
        lemma_occurs_whole(r1);
        lemma_occurs_inside(r0, r1, r2 + r3, r1, 0);
        assert(r0 + r1 + (r2 + r3) =~= cells);
    }
    if d.2 {
        lemma_occurs_whole(r2);
        lemma_occurs_inside(r0 + r1, r2, r3, r2, 0);
    }
    if d.3 {
        lemma_occurs_whole(r3);
        lemma_occurs_inside(r0 + r1 + r2, r3, seq![], r3, 0);
        assert(r0 + r1 + r2 + r3 + Seq::<char>::empty() =~= cells);
    }
}

/// The `<tspan>` of a span draws it in its own foreground colour (else the
/// theme's), says `font-weight="bold"` when it is bold,
/// `font-style="italic"` when it is italic and `opacity="0.5"` when it is
/// dim, and ends with the span's escaped text.
pub proof fn law_svg_tspan_declares_its_style(span: StyledSpan, x: int, theme: Theme)
    ensures
        ({
            let t = tspan(span, x, theme);
            let fg = match span.style.fg {
                Some(c) => c,
                None => theme.fg,
            };
            let tail = ">"@ + escape(span.text@) + "</tspan>"@;
            &&& has_sub(t, " fill=\""@ + css(fg) + "\""@)
            &&& span.style.bold ==> has_sub(t, " font-weight=\"bold\""@)
            &&& span.style.italic ==> has_sub(t, " font-style=\"italic\""@)
            &&& span.style.dim ==> has_sub(t, " opacity=\"0.5\""@)
            &&& t.len() >= tail.len() && t.skip(t.len() - tail.len()) == tail
        }),
{
    let st = span.style;
    let t = tspan(span, x, theme);
    let tail = ">"@ + escape(span.text@) + "</tspan>"@;
    let p = tspan_parts(span, x, theme);
    lemma_tspan_parts(span, x, theme);
    assert(has_sub(t, p[1])) by {
        lemma_tspan_has_part(span, x, theme, 1);
    }
    assert(st.bold ==> has_sub(t, " font-weight=\"bold\""@)) by {
        lemma_tspan_has_part(span, x, theme, 2);
    }
    assert(st.italic ==> has_sub(t, " font-style=\"italic\""@)) by {
        lemma_tspan_has_part(span, x, theme, 3);
    }
    assert(st.dim ==> has_sub(t, " opacity=\"0.5\""@)) by {
        lemma_tspan_has_part(span, x, theme, 5);
    }
    assert(t.skip(t.len() - tail.len()) =~= tail);
}

/// The attributes of a `<tspan>` in their six parts: position, fill,
/// weight, style, decoration, opacity.
spec fn tspan_parts(span: StyledSpan, x: int, theme: Theme) -> Seq<Seq<char>> {
    let st = span.style;
    seq![
        " x=\""@ + dec(floor_px(x)) + "\""@,
        " fill=\""@ + css(span_fg(span, theme)) + "\""@,
        when(st.bold, " font-weight=\"bold\""@),
        when(st.italic, " font-style=\"italic\""@),
        decoration_attr(st.underline, st.strikethrough),
        when(st.dim, " opacity=\"0.5\""@),
    ]
}

proof fn lemma_tspan_parts(span: StyledSpan, x: int, theme: Theme)
    ensures
        tspan_attrs(span, x, theme) == tspan_parts(span, x, theme).flatten(),
        tspan(span, x, theme) == "<tspan"@ + tspan_attrs(span, x, theme) + ">"@ + escape(span.text@)
            + "</tspan>"@,
{
    let p = tspan_parts(span, x, theme);
    lemma_tspan_attrs_split(span, x, theme);
    lemma_flatten6(p);
}

#[verifier::spinoff_prover]
proof fn lemma_tspan_attrs_split(span: StyledSpan, x: int, theme: Theme)
    ensures
        ({
            let p = tspan_parts(span, x, theme);
            tspan_attrs(span, x, theme) == p[0] + p[1] + p[2] + p[3] + p[4] + p[5]
        }),
{
    reveal(tspan_attrs);
    reveal_strlit("\" fill=\"");
    reveal_strlit(" fill=\"");
    reveal_strlit("\"");
    let p = tspan_parts(span, x, theme);
    assert(tspan_attrs(span, x, theme) =~= p[0] + p[1] + p[2] + p[3] + p[4] + p[5]);
}

proof fn lemma_flatten6(p: Seq<Seq<char>>)
    requires
        p.len() == 6,
    ensures
        p.flatten() == p[0] + p[1] + p[2] + p[3] + p[4] + p[5],
{
    let q1 = p.drop_first();
    let q2 = q1.drop_first();
    let q3 = q2.drop_first();
    let q4 = q3.drop_first();
    let q5 = q4.drop_first();
    let q6 = q5.drop_first();
    assert(q6 =~= Seq::<Seq<char>>::empty());
    assert(q6.flatten() == Seq::<char>::empty());
    assert(q5.flatten() == p[5] + q6.flatten());
    assert(q4.flatten() == p[4] + q5.flatten());
    assert(q3.flatten() == p[3] + q4.flatten());
    assert(q2.flatten() == p[2] + q3.flatten());
    assert(q1.flatten() == p[1] + q2.flatten());
    assert(p.flatten() == p[0] + q1.flatten());
    assert(p.flatten() =~= p[0] + p[1] + p[2] + p[3] + p[4] + p[5]);
}

proof fn lemma_tspan_has_part(span: StyledSpan, x: int, theme: Theme, k: int)
    requires
        0 <= k < 6,
    ensures
        has_sub(tspan(span, x, theme), tspan_parts(span, x, theme)[k]),
{
    lemma_tspan_parts(span, x, theme);
    let p = tspan_parts(span, x, theme);
    let attrs = tspan_attrs(span, x, theme);
    lemma_flatten_split(p, k);
    assert(attrs == p.take(k).flatten() + p[k] + p.skip(k + 1).flatten());
    lemma_sub_in_middle(p.take(k).flatten(), p[k], p.skip(k + 1).flatten());
    lemma_sub_lifts("<tspan"@, attrs, ">"@ + escape(span.text@) + "</tspan>"@, p[k]);
    assert(tspan(span, x, theme) =~= "<tspan"@ + attrs + (">"@ + escape(span.text@) + "</tspan>"@));
}

proof fn lemma_flatten_split(p: Seq<Seq<char>>, k: int)
    requires
        0 <= k < p.len(),
    ensures
        p.flatten() == p.take(k).flatten() + p[k] + p.skip(k + 1).flatten(),
{
    let one = seq![p[k]];
    assert(p =~= p.take(k) + (one + p.skip(k + 1)));
    vstd::seq_lib::lemma_flatten_concat(p.take(k), one + p.skip(k + 1));
    vstd::seq_lib::lemma_flatten_concat(one, p.skip(k + 1));
    assert(one.drop_first() =~= Seq::<Seq<char>>::empty());
    assert(one.drop_first().flatten() == Seq::<char>::empty());
    assert(one.flatten() =~= p[k]);
}

proof fn lemma_sub_in_middle(a: Seq<char>, w: Seq<char>, c: Seq<char>)
    ensures
        has_sub(a + w + c, w),
{
    lemma_occurs_whole(w);
    lemma_occurs_inside(a, w, c, w, 0);
}

proof fn lemma_sub_lifts(a: Seq<char>, b: Seq<char>, c: Seq<char>, w: Seq<char>)
    requires
        has_sub(b, w),
    ensures
        has_sub(a + b + c, w),
{
    let p = choose|p: int| occurs_at(b, w, p);
    lemma_occurs_inside(a, b, c, w, p);
}

} // verus!
