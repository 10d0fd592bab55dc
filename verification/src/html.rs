//! Export of rendered lines as a standalone HTML page.

use vstd::prelude::*;
use crate::model::{css, push_color_css, Line, LineMeta, Style, StyledSpan, Theme};
use crate::text::{escape, has_sub, lemma_occurs_inside, occurs_at, push_escaped, push_str};
use crate::url_safety::{is_safe_img_src, is_safe_url, safe_image, safe_link};

verus! {

/// `seq![d]` when `b` holds, else nothing.
pub open spec fn decl_if(b: bool, d: Seq<char>) -> Seq<Seq<char>> {
    if b {
        seq![d]
    } else {
        Seq::<Seq<char>>::empty()
    }
}

/// The declaration `name` + the colour, where there is one.
pub open spec fn color_decl(name: Seq<char>, c: Option<crate::model::Color>) -> Seq<Seq<char>> {
    match c {
        Some(c) => seq![name + css(c)],
        None => Seq::<Seq<char>>::empty(),
    }
}

/// The `text-decoration` declaration for underline and strike-through.
pub open spec fn decoration_decl(underline: bool, strikethrough: bool) -> Seq<Seq<char>> {
    if underline && strikethrough {
        seq!["text-decoration:underline line-through"@]
    } else if underline {
        seq!["text-decoration:underline"@]
    } else if strikethrough {
        seq!["text-decoration:line-through"@]
    } else {
        Seq::<Seq<char>>::empty()
    }
}

/// The CSS declarations of a span's style, in order: colour, background,
/// weight, style, decoration, opacity (each only where set).
pub open spec fn style_decls(st: Style) -> Seq<Seq<char>> {
    color_decl("color:"@, st.fg) + color_decl("background:"@, st.bg) + decl_if(
        st.bold,
        "font-weight:bold"@,
    ) + decl_if(st.italic, "font-style:italic"@) + decoration_decl(st.underline, st.strikethrough)
        + decl_if(st.dim, "opacity:0.5"@)
}

/// The parts joined with `;` between each two.
pub open spec fn join_semi(parts: Seq<Seq<char>>) -> Seq<char>
    decreases parts.len(),
{
    if parts.len() == 0 {
        seq![]
    } else if parts.len() == 1 {
        parts[0]
    } else {
        join_semi(parts.drop_last()) + ";"@ + parts.last()
    }
}

/// The characters of each string.
pub open spec fn views(v: Seq<String>) -> Seq<Seq<char>> {
    v.map_values(|s: String| s@)
}

fn push_decl(v: &mut Vec<String>, s: String)
    ensures
        views(final(v)@) == views(old(v)@).push(s@),
{
    v.push(s);
    assert(views(v@) =~= views(old(v)@).push(s@));
}

fn decl_with_color(name: &str, c: crate::model::Color) -> (r: String)
    ensures
        r@ == name@ + css(c),
{
    let mut s = String::new();
    push_str(&mut s, name);
    push_color_css(&mut s, c);
    s
}

fn literal(t: &str) -> (r: String)
    ensures
        r@ == t@,
{
    let mut s = String::new();
    push_str(&mut s, t);
    assert(s@ =~= t@);
    s
}

fn push_color_decl(v: &mut Vec<String>, name: &str, c: Option<crate::model::Color>)
    ensures
        views(final(v)@) == views(old(v)@) + color_decl(name@, c),
{
    if let Some(c) = c {
        push_decl(v, decl_with_color(name, c));
    }
    assert(views(v@) =~= views(old(v)@) + color_decl(name@, c));
}

fn push_decl_if(v: &mut Vec<String>, b: bool, d: &str)
    ensures
        views(final(v)@) == views(old(v)@) + decl_if(b, d@),
{
    if b {
        push_decl(v, literal(d));
    }
    assert(views(v@) =~= views(old(v)@) + decl_if(b, d@));
}

fn push_decoration_decl(v: &mut Vec<String>, underline: bool, strikethrough: bool)
    ensures
        views(final(v)@) == views(old(v)@) + decoration_decl(underline, strikethrough),
{
    if underline && strikethrough {
        push_decl(v, literal("text-decoration:underline line-through"));
    } else if underline {
        push_decl(v, literal("text-decoration:underline"));
    } else if strikethrough {
        push_decl(v, literal("text-decoration:line-through"));
    }
    assert(views(v@) =~= views(old(v)@) + decoration_decl(underline, strikethrough));
}

/// The CSS declarations of a style.
fn span_style_decls(st: &Style) -> (r: Vec<String>)
    ensures
        views(r@) == style_decls(*st),
{
    let mut v: Vec<String> = Vec::new();
    assert(views(v@) =~= Seq::<Seq<char>>::empty());
    push_color_decl(&mut v, "color:", st.fg);
    push_color_decl(&mut v, "background:", st.bg);
    push_decl_if(&mut v, st.bold, "font-weight:bold");
    push_decl_if(&mut v, st.italic, "font-style:italic");
    push_decoration_decl(&mut v, st.underline, st.strikethrough);
    push_decl_if(&mut v, st.dim, "opacity:0.5");
    assert(views(v@) =~= style_decls(*st));
    v
}

/// Appends the parts joined with `;`.
fn push_joined(out: &mut String, parts: &Vec<String>)
    ensures
        final(out)@ == old(out)@ + join_semi(views(parts@)),
{
    let ghost start = out@;
    let ghost ps = views(parts@);
    let n = parts.len();
    let mut i: usize = 0;
    while i < n
        invariant
            n == parts@.len(),
            ps == views(parts@),
            i <= n,
            out@ == start + join_semi(ps.take(i as int)),
        decreases n - i,
    {
        if i > 0 {
            push_str(out, ";");
        }
        push_str(out, parts[i].as_str());
        assert(ps.take(i + 1).drop_last() =~= ps.take(i as int));
        assert(ps[i as int] == parts@[i as int]@);
        assert(out@ =~= start + join_semi(ps.take(i + 1)));
        i = i + 1;
    }
    assert(ps.take(n as int) =~= ps);
}

/// The HTML of a span's text inside its styled `<span>`: a link where the
/// span carries an allowed URL, the escaped text otherwise.
pub open spec fn span_body(span: StyledSpan) -> Seq<char> {
    match span.style.link_url {
        Some(u) => if safe_link(u@) {
            "<a href='"@ + escape(u@) + "' style='color:inherit;text-decoration:inherit'>"@ + escape(
                span.text@,
            ) + "</a>"@
        } else {
            escape(span.text@)
        },
        None => escape(span.text@),
    }
}

/// The HTML of one span: its escaped text alone when it has no style,
/// otherwise a `<span>` carrying the style's CSS around the body.
pub open spec fn span_html(span: StyledSpan) -> Seq<char> {
    let decls = style_decls(span.style);
    if decls.len() == 0 {
        escape(span.text@)
    } else {
        "<span style='"@ + join_semi(decls) + "'>"@ + span_body(span) + "</span>"@
    }
}

fn push_span_html(out: &mut String, span: &StyledSpan)
    ensures
        final(out)@ == old(out)@ + span_html(*span),
{
    let ghost start = out@;
    let decls = span_style_decls(&span.style);
    if decls.len() == 0 {
        push_escaped(out, span.text.as_str());
    } else {
        push_str(out, "<span style='");
        push_joined(out, &decls);
        push_str(out, "'>");
        let ghost mid = out@;
        match &span.style.link_url {
            Some(url) => {
                if is_safe_url(url.as_str()) {
                    push_str(out, "<a href='");
                    push_escaped(out, url.as_str());
                    push_str(out, "' style='color:inherit;text-decoration:inherit'>");
                    push_escaped(out, span.text.as_str());
                    push_str(out, "</a>");
                } else {
                    push_escaped(out, span.text.as_str());
                }
            },
            None => {
                push_escaped(out, span.text.as_str());
            },
        }
        assert(out@ =~= mid + span_body(*span));
        push_str(out, "</span>");
    }
    assert(out@ =~= start + span_html(*span));
}

/// The HTML of the first `n` spans.
pub open spec fn spans_html(spans: Seq<StyledSpan>, n: int) -> Seq<char>
    decreases n,
{
    if n <= 0 {
        seq![]
    } else {
        spans_html(spans, n - 1) + span_html(spans[n - 1])
    }
}

/// The HTML of one line. The first row of an image placeholder becomes an
/// `<img>` where the source is allowed and the escaped alt text otherwise;
/// its other rows produce nothing. Any other line is a `<div>` of its spans,
/// holding a non-breaking space when it has none.
pub open spec fn line_html(line: Line) -> Seq<char> {
    match line.meta {
        LineMeta::Image { url, alt, row } => if row == 0 {
            if safe_image(url@) {
                "<div class='line'><img src='"@ + escape(url@) + "' alt='"@ + escape(alt@)
                    + "' style='max-width:100%;height:auto;'></div>\n"@
            } else {
                "<div class='line'>"@ + escape(alt@) + "</div>\n"@
            }
        } else {
            seq![]
        },
        _ => "<div class='line'>"@ + (if line.spans@.len() == 0 {
            "&nbsp;"@
        } else {
            seq![]
        }) + spans_html(line.spans@, line.spans@.len() as int) + "</div>\n"@,
    }
}

fn push_line_html(out: &mut String, line: &Line)
    ensures
        final(out)@ == old(out)@ + line_html(*line),
{
    let ghost start = out@;
    match &line.meta {
        LineMeta::Image { url, alt, row } => {
            if *row == 0 {
                if is_safe_img_src(url.as_str()) {
                    push_str(out, "<div class='line'><img src='");
                    push_escaped(out, url.as_str());
                    push_str(out, "' alt='");
                    push_escaped(out, alt.as_str());
                    push_str(out, "' style='max-width:100%;height:auto;'></div>\n");
                } else {
                    push_str(out, "<div class='line'>");
                    push_escaped(out, alt.as_str());
                    push_str(out, "</div>\n");
                }
            }
            assert(out@ =~= start + line_html(*line));
        },
        _ => {
            push_str(out, "<div class='line'>");
            if line.spans.len() == 0 {
                push_str(out, "&nbsp;");
            }
            let ghost head = out@;
            let n = line.spans.len();
            let mut i: usize = 0;
            while i < n
                invariant
                    n == line.spans@.len(),
                    i <= n,
                    out@ == head + spans_html(line.spans@, i as int),
                decreases n - i,
            {
                push_span_html(out, &line.spans[i]);
                assert(out@ =~= head + spans_html(line.spans@, i + 1));
                i = i + 1;
            }
            push_str(out, "</div>\n");
            assert(out@ =~= start + line_html(*line));
        },
    }
}

/// The head of the page: document type, character set and the page style
/// in the theme's colours.
pub open spec fn html_head(theme: Theme) -> Seq<char> {
    "<!DOCTYPE html>\n"@ + "<html><head>\n"@ + "<meta charset='utf-8'>\n"@
        + "<style>body { font-family: 'SF Mono','Menlo','Consolas',monospace; background:"@ + css(
        theme.bg,
    ) + "; color:"@ + css(theme.fg)
        + "; padding:2em; line-height:1.4; } pre { margin:0; } .line { white-space:pre; min-height:1.2em; }</style>\n"@
        + "</head><body>\n"@
}

/// The HTML of the first `n` lines.
pub open spec fn lines_html(lines: Seq<Line>, n: int) -> Seq<char>
    decreases n,
{
    if n <= 0 {
        seq![]
    } else {
        lines_html(lines, n - 1) + line_html(lines[n - 1])
    }
}

/// The whole page.
pub open spec fn html_page(lines: Seq<Line>, theme: Theme) -> Seq<char> {
    html_head(theme) + lines_html(lines, lines.len() as int) + "</body></html>\n"@
}

/// Renders lines as a standalone HTML page: one `<div class='line'>` per
/// line, a `<span>` with inline CSS per styled span, links and images only
/// where their URLs pass the allowlists, and all text escaped.
pub fn to_html(lines: &[Line], theme: &Theme) -> (res: String)
    ensures
        res@ == html_page(lines@, *theme),
{
    let mut out = String::new();
    push_str(&mut out, "<!DOCTYPE html>\n");
    push_str(&mut out, "<html><head>\n");
    push_str(&mut out, "<meta charset='utf-8'>\n");
    push_str(
        &mut out,
        "<style>body { font-family: 'SF Mono','Menlo','Consolas',monospace; background:",
    );
    push_color_css(&mut out, theme.bg);
    push_str(&mut out, "; color:");
    push_color_css(&mut out, theme.fg);
    push_str(
        &mut out,
        "; padding:2em; line-height:1.4; } pre { margin:0; } .line { white-space:pre; min-height:1.2em; }</style>\n",
    );
    push_str(&mut out, "</head><body>\n");
    assert(out@ =~= html_head(*theme));
    let ghost head = out@;
    let n = lines.len();
    let mut i: usize = 0;
    while i < n
        invariant
            n == lines@.len(),
            i <= n,
            out@ == head + lines_html(lines@, i as int),
        decreases n - i,
    {
        push_line_html(&mut out, &lines[i]);
        assert(out@ =~= head + lines_html(lines@, i + 1));
        i = i + 1;
    }
    push_str(&mut out, "</body></html>\n");
    out
}

/// A link whose URL is refused renders exactly as the same span without a
/// link: its styled text, with no `<a>` element.
pub proof fn law_refused_link_renders_as_text(span: StyledSpan, url: String)
    requires
        span.style.link_url == Some(url),
        !safe_link(url@),
    ensures
        span_html(span) == span_html(
            StyledSpan { style: Style { link_url: None, ..span.style }, ..span },
        ),
{
}

/// Every page opens with the HTML document type and closes the `<body>`
/// and `<html>` elements.
pub proof fn law_html_page_frame(lines: Seq<Line>, theme: Theme)
    ensures
        html_page(lines, theme).take(15) == "<!DOCTYPE html>"@,
        html_page(lines, theme).skip(html_page(lines, theme).len() - 15) == "</body></html>\n"@,
{
    reveal_strlit("<!DOCTYPE html>");
    reveal_strlit("<!DOCTYPE html>\n");
    reveal_strlit("</body></html>\n");
    let page = html_page(lines, theme);
    let first = "<!DOCTYPE html>\n"@;
    let rest = "<html><head>\n"@ + "<meta charset='utf-8'>\n"@
        + "<style>body { font-family: 'SF Mono','Menlo','Consolas',monospace; background:"@ + css(
        theme.bg,
    ) + "; color:"@ + css(theme.fg)
        + "; padding:2em; line-height:1.4; } pre { margin:0; } .line { white-space:pre; min-height:1.2em; }</style>\n"@
        + "</head><body>\n"@ + lines_html(lines, lines.len() as int);
    let last = "</body></html>\n"@;
    assert(page =~= first + (rest + last));
    assert(page.take(15) =~= first.take(15));
    assert(page.skip(page.len() - 15) =~= last);
}

proof fn lemma_join_contains_parts(parts: Seq<Seq<char>>)
    ensures
        forall|k: int| 0 <= k < parts.len() ==> has_sub(join_semi(parts), #[trigger] parts[k]),
    decreases parts.len(),
{
    if parts.len() == 1 {
        assert(occurs_at(parts[0], parts[0], 0)) by {
            assert(parts[0].skip(0).subrange(0, parts[0].len() as int) =~= parts[0]);
        }
        lemma_occurs_inside(seq![], parts[0], seq![], parts[0], 0);
        assert(Seq::<char>::empty() + parts[0] + Seq::<char>::empty() =~= parts[0]);
    } else if parts.len() > 1 {
        lemma_join_contains_parts(parts.drop_last());
        let j = join_semi(parts.drop_last());
        let last = parts.last();
        assert forall|k: int| 0 <= k < parts.len() implies has_sub(
            join_semi(parts),
            #[trigger] parts[k],
        ) by {
            if k < parts.len() - 1 {
                assert(parts.drop_last()[k] == parts[k]);
                assert(has_sub(j, parts[k]));
                let p = choose|p: int| occurs_at(j, parts[k], p);
                lemma_occurs_inside(seq![], j, ";"@ + last, parts[k], p);
                assert(Seq::<char>::empty() + j + (";"@ + last) =~= join_semi(parts));
            } else {
                assert(occurs_at(last, last, 0)) by {
                    assert(last.skip(0).subrange(0, last.len() as int) =~= last);
                }
                lemma_occurs_inside(j + ";"@, last, seq![], last, 0);
                assert(j + ";"@ + last + Seq::<char>::empty() =~= join_semi(parts));
            }
        }
    }
}

/// A span with any style is a `<span>` whose `style` attribute declares
/// each part of it: `color:` and `background:` followed by the CSS form of
/// its colours, `font-weight:bold`, `font-style:italic`,
/// `text-decoration:underline` and `line-through`, and `opacity:0.5`. A
/// span with no style is only its escaped text.
pub proof fn law_html_span_declares_its_style(span: StyledSpan)
    ensures
        ({
            let st = span.style;
            let styled = st.fg is Some || st.bg is Some || st.bold || st.italic || st.underline
                || st.strikethrough || st.dim;
            let ds = join_semi(style_decls(st));
            &&& !styled ==> span_html(span) == escape(span.text@)
            &&& styled ==> span_html(span) == "<span style='"@ + ds + "'>"@ + span_body(span)
                + "</span>"@
            &&& st.fg matches Some(c) ==> has_sub(ds, "color:"@ + css(c))
            &&& st.bg matches Some(c) ==> has_sub(ds, "background:"@ + css(c))
            &&& st.bold ==> has_sub(ds, "font-weight:bold"@)
            &&& st.italic ==> has_sub(ds, "font-style:italic"@)
            &&& st.underline ==> has_sub(ds, "text-decoration:underline"@)
            &&& st.strikethrough ==> has_sub(ds, "line-through"@)
            &&& st.dim ==> has_sub(ds, "opacity:0.5"@)
        }),
{
    let st = span.style;
    let parts = style_decls(st);
    let ds = join_semi(parts);
    lemma_join_contains_parts(parts);
    let a = color_decl("color:"@, st.fg);
    let b = color_decl("background:"@, st.bg);
    let c = decl_if(st.bold, "font-weight:bold"@);
    let d = decl_if(st.italic, "font-style:italic"@);
    let e = decoration_decl(st.underline, st.strikethrough);
    let f = decl_if(st.dim, "opacity:0.5"@);
    assert(parts == a + b + c + d + e + f);
    let ab = a + b;
    let abc = ab + c;
    let abcd = abc + d;
    let abcde = abcd + e;
    assert(parts.len() == abcde.len() + f.len());
    assert(st.fg is Some ==> has_sub(ds, a[0])) by {
        if st.fg is Some {
            assert(parts[0] == a[0]);
        }
    }
    assert(st.bg is Some ==> has_sub(ds, b[0])) by {
        if st.bg is Some {
            assert(parts[a.len() as int] == b[0]);
        }
    }
    assert(st.bold ==> has_sub(ds, c[0])) by {
        if st.bold {
            assert(parts[ab.len() as int] == c[0]);
        }
    }
    assert(st.italic ==> has_sub(ds, d[0])) by {
        if st.italic {
            assert(parts[abc.len() as int] == d[0]);
        }
    }
    assert(st.dim ==> has_sub(ds, f[0])) by {
        if st.dim {
            assert(parts[abcde.len() as int] == f[0]);
        }
    }
    if st.underline || st.strikethrough {
        assert(parts[abcd.len() as int] == e[0]);
        lemma_decoration_words(ds, st.underline, st.strikethrough);
    }
}

proof fn lemma_decoration_words(ds: Seq<char>, u: bool, s: bool)
    requires
        u || s,
        has_sub(ds, decoration_decl(u, s)[0]),
    ensures
        u ==> has_sub(ds, "text-decoration:underline"@),
        s ==> has_sub(ds, "line-through"@),
{
    let e = decoration_decl(u, s)[0];
    let p = choose|p: int| occurs_at(ds, e, p);
    reveal_strlit("text-decoration:underline line-through");
    reveal_strlit("text-decoration:underline");
    reveal_strlit("text-decoration:line-through");
    reveal_strlit("line-through");
    if u {
        assert(occurs_at(ds, "text-decoration:underline"@, p)) by {
            assert(ds.skip(p).subrange(0, 25) =~= e.subrange(0, 25));
        }
    }
    if s {
        let q: int = if u { 26 } else { 16 };
        assert(occurs_at(ds, "line-through"@, p + q)) by {
            assert(ds.skip(p + q).subrange(0, 12) =~= e.subrange(q, q + 12));
        }
    }
}

} // verus!
