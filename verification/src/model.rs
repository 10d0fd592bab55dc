//! The rendered document that the exporters read: lines of styled spans,
//! colours and the theme.

use vstd::prelude::*;
use crate::text::{hex2, push_hex2, push_str};

verus! {

/// A terminal colour as the exporters see it: an RGB triple, or one of the
/// terminal's own palette colours, which carry no RGB value.
#[derive(Clone, Copy, Debug, PartialEq, Eq)]
pub enum Color {
    Rgb { r: u8, g: u8, b: u8 },
    Palette,
}

/// The visual attributes of a span of text.
#[derive(Clone, Debug)]
pub struct Style {
    pub fg: Option<Color>,
    pub bg: Option<Color>,
    pub bold: bool,
    pub italic: bool,
    pub underline: bool,
    pub strikethrough: bool,
    pub dim: bool,
    pub link_url: Option<String>,
}

/// A run of text with one style.
#[derive(Clone, Debug)]
pub struct StyledSpan {
    pub text: String,
    pub style: Style,
}

/// What a rendered line stands for beyond its spans.
#[derive(Clone, Debug)]
pub enum LineMeta {
    /// An ordinary line of text.
    Plain,
    /// A slide separator (a horizontal rule in slide mode).
    SlideBreak,
    /// One row of the placeholder for an image; `row` counts from 0.
    Image { url: String, alt: String, row: usize },
}

/// One rendered (already wrapped) line.
#[derive(Clone, Debug)]
pub struct Line {
    pub spans: Vec<StyledSpan>,
    pub meta: LineMeta,
}

/// The two theme colours the exporters use.
#[derive(Clone, Copy, Debug)]
pub struct Theme {
    pub fg: Color,
    pub bg: Color,
}

/// A line with no spans and no meaning: it renders as blank.
pub open spec fn is_blank_line(l: Line) -> bool {
    l.spans@.len() == 0 && l.meta is Plain
}

impl Line {
    /// An empty line.
    pub fn empty() -> (l: Line)
        ensures
            is_blank_line(l),
    {
        Line { spans: Vec::new(), meta: LineMeta::Plain }
    }
}

/// The CSS form of a colour: `#rrggbb` for RGB, `#000` otherwise.
pub open spec fn css(c: Color) -> Seq<char> {
    match c {
        Color::Rgb { r, g, b } => "#"@ + hex2(r) + hex2(g) + hex2(b),
        Color::Palette => "#000"@,
    }
}

/// Appends the CSS form of a colour.
pub(crate) fn push_color_css(out: &mut String, c: Color)
    ensures
        final(out)@ == old(out)@ + css(c),
{
    let ghost start = out@;
    match c {
        Color::Rgb { r, g, b } => {
            push_str(out, "#");
            push_hex2(out, r);
            push_hex2(out, g);
            push_hex2(out, b);
            assert(out@ =~= start + css(c));
        },
        Color::Palette => {
            push_str(out, "#000");
        },
    }
}

/// The CSS form of a colour: `#rrggbb` for RGB, `#000` otherwise.
pub fn color_css(c: Color) -> (res: String)
    ensures
        res@ == css(c),
{
    let mut out = String::new();
    push_color_css(&mut out, c);
    assert(out@ =~= css(c));
    out
}

/// The CSS form of an RGB colour is `#` and six lower-case hexadecimal
/// digits, two per channel in the order red, green, blue, reading back as
/// the channels.
pub proof fn law_css_rgb_reads_back(r: u8, g: u8, b: u8)
    ensures
        ({
            let s = css(Color::Rgb { r, g, b });
            &&& s.len() == 7
            &&& s[0] == '#'
            &&& forall|i: int| 1 <= i < 7 ==> crate::text::is_lower_hex(#[trigger] s[i])
            &&& crate::text::hex_value(s[1]) * 16 + crate::text::hex_value(s[2]) == r
            &&& crate::text::hex_value(s[3]) * 16 + crate::text::hex_value(s[4]) == g
            &&& crate::text::hex_value(s[5]) * 16 + crate::text::hex_value(s[6]) == b
        }),
{
    reveal_strlit("#");
    crate::text::law_hex2_reads_back(r);
    crate::text::law_hex2_reads_back(g);
    crate::text::law_hex2_reads_back(b);
    let s = css(Color::Rgb { r, g, b });
    assert(s =~= seq!['#'] + crate::text::hex2(r) + crate::text::hex2(g) + crate::text::hex2(b));
}

} // verus!
