use mdterm::html::to_html;
use mdterm::model::{color_css, Color, Line, LineMeta, Style, StyledSpan, Theme};
use mdterm::odp::{
    build_content_xml, build_manifest, build_styles_xml, export_odp, OdpData, OdpImageKind,
};
use mdterm::slides::{export_slides_png, export_slides_svg, slide_ranges};
use mdterm::svg::{
    box_char_dirs, is_box_drawing_line, span_widths, svg_bg_rects, svg_bg_rects_with_widths,
    svg_box_line, svg_text_line, svg_text_line_with_widths,
    to_svg_string,
};
use mdterm::text::{html_escape, strip_url_controls, svg_escape, trim_str};

fn plain_style() -> Style {
    Style {
        fg: None,
        bg: None,
        bold: false,
        italic: false,
        underline: false,
        strikethrough: false,
        dim: false,
        link_url: None,
    }
}

fn span(text: &str, style: Style) -> StyledSpan {
    StyledSpan { text: text.to_string(), style }
}

fn line(spans: Vec<StyledSpan>) -> Line {
    Line { spans, meta: LineMeta::Plain }
}

fn slide_break() -> Line {
    Line { spans: vec![span("---", plain_style())], meta: LineMeta::SlideBreak }
}

fn theme() -> Theme {
    Theme { fg: Color::Rgb { r: 255, g: 255, b: 255 }, bg: Color::Rgb { r: 0, g: 0, b: 0 } }
}

// ── text helpers ─────────────────────────────────────────────────────

#[test]
fn escape_replaces_markup_characters() {
    assert_eq!(html_escape("a<b>&\"'c"), "a&lt;b&gt;&amp;&quot;&#39;c");
    assert_eq!(html_escape("&amp;"), "&amp;amp;");
    assert_eq!(svg_escape("x < y"), "x &lt; y");
    assert_eq!(html_escape("plain text"), "plain text");
    assert_eq!(html_escape(""), "");
}

#[test]
fn svg_escape_of_mixed_text() {
    assert_eq!(svg_escape("a<b & 'c'"), "a&lt;b &amp; &#39;c&#39;");
}

#[test]
fn escaped_text_decodes_back() {
    let s = "x&amp;<\"'>&#39;é";
    let e = html_escape(s);
    let decoded = e
        .replace("&lt;", "<")
        .replace("&gt;", ">")
        .replace("&quot;", "\"")
        .replace("&#39;", "'")
        .replace("&amp;", "&");
    assert_eq!(decoded, s);
    assert_eq!(e.matches('&').count(), e.matches("&amp;").count() + e.matches("&lt;").count()
        + e.matches("&gt;").count() + e.matches("&quot;").count() + e.matches("&#39;").count());
}

#[test]
fn svg_and_html_escaping_agree() {
    let s = "<tag attr='v'>&\"é";
    assert_eq!(svg_escape(s), html_escape(s));
}

#[test]
fn strip_removes_c0_and_c1_controls() {
    assert_eq!(strip_url_controls("a\x00b\x1fc\x7fd\u{9f}e\u{a0}"), "abcde\u{a0}");
    assert_eq!(strip_url_controls("\t\n\r"), "");
}

#[test]
fn trim_removes_unicode_whitespace() {
    assert_eq!(trim_str("  a b \u{3000}"), "a b");
    assert_eq!(trim_str("\u{a0}\u{2028}x"), "x");
    assert_eq!(trim_str("   "), "");
}

#[test]
fn color_css_formats_rgb_as_hex() {
    assert_eq!(color_css(Color::Rgb { r: 255, g: 0, b: 16 }), "#ff0010");
    assert_eq!(color_css(Color::Rgb { r: 10, g: 171, b: 205 }), "#0aabcd");
    assert_eq!(color_css(Color::Palette), "#000");
}

// ── SVG ──────────────────────────────────────────────────────────────

#[test]
fn svg_of_empty_document() {
    let svg = to_svg_string(&[], 10, &theme());
    assert_eq!(
        svg,
        "<svg xmlns=\"http://www.w3.org/2000/svg\" width=\"408\" height=\"120\" viewBox=\"0 0 408 120\">\
<rect width=\"408\" height=\"120\" fill=\"#000000\"/>\
<style>text{font-family:'Courier New','DejaVu Sans Mono',Courier,monospace;font-size:48px;dominant-baseline:auto;}</style>\
</svg>"
    );
}

#[test]
fn svg_text_line_places_spans_by_width() {
    let mut bold = plain_style();
    bold.bold = true;
    bold.fg = Some(Color::Rgb { r: 1, g: 2, b: 3 });
    let mut deco = plain_style();
    deco.underline = true;
    deco.strikethrough = true;
    deco.dim = true;
    deco.italic = true;
    let l = line(vec![span("ab", bold), span("<&", deco)]);
    let widths = span_widths(&l);
    assert_eq!(widths, vec![2, 2]);
    let text = svg_text_line(&l, 1, &theme());
    assert_eq!(text, svg_text_line_with_widths(&l, &widths, 1, &theme()));
    assert_eq!(
        text,
        "<text y=\"166\" xml:space=\"preserve\">\
<tspan x=\"60\" fill=\"#010203\" font-weight=\"bold\">ab</tspan>\
<tspan x=\"117\" fill=\"#ffffff\" font-style=\"italic\" text-decoration=\"underline line-through\" opacity=\"0.5\">&lt;&amp;</tspan>\
</text>"
    );
}

#[test]
fn svg_wide_characters_take_two_columns() {
    let l = line(vec![span("日本", plain_style()), span("x", plain_style())]);
    assert_eq!(span_widths(&l), vec![4, 1]);
    let text = svg_text_line(&l, 0, &theme());
    assert!(text.contains("<tspan x=\"175\" fill=\"#ffffff\">x</tspan>"));
}

#[test]
fn svg_backgrounds_cover_span_columns() {
    let mut bg = plain_style();
    bg.bg = Some(Color::Rgb { r: 0x11, g: 0x22, b: 0x33 });
    let l = line(vec![span("abc", plain_style()), span("de", bg)]);
    let rects = svg_bg_rects(&l, 0);
    assert_eq!(rects, svg_bg_rects_with_widths(&l, &[3, 2], 0));
    // x = 60 + 3 * 28.8 = 146.4, width = 2 * 28.8 = 57.6 → 58
    assert_eq!(rects, "<rect x=\"146\" y=\"60\" width=\"58\" height=\"60\" fill=\"#112233\"/>");
}

#[test]
fn svg_box_lines_become_rectangles() {
    let l = line(vec![span("─", plain_style())]);
    assert!(is_box_drawing_line(&l));
    assert_eq!(
        svg_box_line(&l, 0, &theme()),
        "<rect x=\"60\" y=\"87\" width=\"15\" height=\"5\" fill=\"#ffffff\"/>\
<rect x=\"74\" y=\"87\" width=\"15\" height=\"5\" fill=\"#ffffff\"/>"
    );
    let corner = line(vec![span(" ╭", plain_style())]);
    // second cell: x = 60 + 28.8 = 88.8; right bar at 103.2, down bar at 101.1
    assert_eq!(
        svg_box_line(&corner, 0, &theme()),
        "<rect x=\"103\" y=\"87\" width=\"15\" height=\"5\" fill=\"#ffffff\"/>\
<rect x=\"101\" y=\"90\" width=\"5\" height=\"30\" fill=\"#ffffff\"/>"
    );
}

#[test]
fn box_detection_allows_only_spaces_and_glyphs() {
    assert!(is_box_drawing_line(&line(vec![span("   ", plain_style())])));
    assert!(!is_box_drawing_line(&line(vec![span("│ a │", plain_style())])));
    assert!(!is_box_drawing_line(&line(vec![span("═", plain_style())])));
    assert!(is_box_drawing_line(&line(vec![span("├─", plain_style()), span("┼┤", plain_style())])));
    assert!(is_box_drawing_line(&line(vec![])));
}

#[test]
fn svg_row_of_spaces_draws_no_text() {
    let page = to_svg_string(&[line(vec![span("  ", plain_style())])], 2, &theme());
    assert!(!page.contains("<text"));
    assert!(page.ends_with("</style></svg>"));
}

#[test]
fn box_char_dirs_of_each_glyph() {
    let d = box_char_dirs('┼');
    assert!(d.left && d.right && d.up && d.down);
    let d = box_char_dirs('╯');
    assert!(d.left && !d.right && d.up && !d.down);
    let d = box_char_dirs('x');
    assert!(!d.left && !d.right && !d.up && !d.down);
}

#[test]
fn svg_document_starts_with_svg_and_has_rect() {
    let lines = vec![line(vec![span("hello", plain_style())]), line(vec![])];
    let svg = to_svg_string(&lines, 80, &theme());
    assert!(svg.starts_with("<svg "));
    assert!(svg.contains("<rect "));
    assert!(svg.contains("height=\"240\""));
    assert!(svg.contains("<text y=\"106\" xml:space=\"preserve\"><tspan x=\"60\" fill=\"#ffffff\">hello</tspan></text>"));
    assert!(svg.ends_with("</svg>"));
}

// ── slides ───────────────────────────────────────────────────────────

#[test]
fn slide_ranges_split_after_breaks() {
    let p = line(vec![span("a", plain_style())]);
    let lines = vec![p.clone(), slide_break(), p.clone(), p.clone(), slide_break()];
    assert_eq!(slide_ranges(&lines), vec![(0, 2), (2, 5), (5, 5)]);
    assert_eq!(slide_ranges(&[]), vec![(0, 0)]);
    assert_eq!(slide_ranges(&[p.clone(), p]), vec![(0, 2)]);
}

#[test]
fn export_slides_names_files_with_four_digits() {
    let p = line(vec![span("a", plain_style())]);
    let lines = vec![p.clone(), slide_break(), p.clone(), slide_break(), p];
    let files = export_slides_svg(&lines, 20, &theme(), "out/s_", true);
    let names: Vec<&str> = files.iter().map(|f| f.path.as_str()).collect();
    assert_eq!(names, vec!["out/s_0001.svg", "out/s_0002.svg", "out/s_0003.svg"]);
    assert_eq!(files[2].svg, to_svg_string(&lines[4..5], 20, &theme()));
    let single = export_slides_png(&lines, 20, &theme(), "p", false);
    assert_eq!(single.len(), 1);
    assert_eq!(single[0].path, "p0001.png");
    assert_eq!(single[0].svg, to_svg_string(&lines, 20, &theme()));
}

// ── ODP ──────────────────────────────────────────────────────────────

#[test]
fn manifest_lists_each_picture() {
    let m = build_manifest("svg", 2);
    assert!(m.starts_with("<?xml version=\"1.0\" encoding=\"UTF-8\"?>\n<manifest:manifest"));
    assert!(m.contains(" <manifest:file-entry manifest:full-path=\"Pictures/slide0001.svg\" manifest:media-type=\"image/svg+xml\"/>\n"));
    assert!(m.contains("Pictures/slide0002.svg"));
    assert!(!m.contains("Pictures/slide0003.svg"));
    assert!(m.ends_with("</manifest:manifest>\n"));
    assert!(build_manifest("png", 1).contains("manifest:media-type=\"image/png\""));
}

#[test]
fn styles_give_the_page_size_with_three_decimals() {
    let s = build_styles_xml(25400, 14288);
    assert!(s.contains("fo:page-width=\"25.400cm\" fo:page-height=\"14.288cm\""));
    assert!(build_styles_xml(5, 12001).contains("fo:page-width=\"0.005cm\" fo:page-height=\"12.001cm\""));
}

#[test]
fn content_has_one_page_per_slide() {
    let c = build_content_xml("png", 3, 25400, 14288);
    assert_eq!(c.matches("<draw:page ").count(), 3);
    assert!(c.contains("draw:name=\"Slide3\""));
    assert!(c.contains("svg:width=\"25.400cm\" svg:height=\"14.288cm\""));
    assert!(c.contains("xlink:href=\"Pictures/slide0002.png\""));
    assert!(c.ends_with("</office:document-content>\n"));
}

#[test]
fn odp_entries_in_archive_order() {
    let p = line(vec![span("a", plain_style())]);
    let lines = vec![p.clone(), p.clone(), slide_break(), p.clone()];
    let entries = export_odp(&lines, 30, &theme(), true, OdpImageKind::Svg);
    let names: Vec<&str> = entries.iter().map(|e| e.path.as_str()).collect();
    assert_eq!(
        names,
        vec![
            "mimetype",
            "META-INF/manifest.xml",
            "styles.xml",
            "content.xml",
            "Pictures/slide0001.svg",
            "Pictures/slide0002.svg",
        ]
    );
    assert!(entries[0].stored);
    assert!(entries[1..].iter().all(|e| !e.stored));
    match &entries[0].data {
        OdpData::Text(t) => assert_eq!(t, "application/vnd.oasis.opendocument.presentation"),
        _ => panic!("mimetype must be text"),
    }
    // the first slide is [a, a, ---]: the separator is dropped, and both
    // pictures are three rows high (the longest slide)
    let padded = vec![p.clone(), p.clone(), Line::empty()];
    match &entries[4].data {
        OdpData::Text(t) => assert_eq!(t, &to_svg_string(&padded, 30, &theme())),
        _ => panic!("svg slides are text"),
    }
    let padded2 = vec![p, Line::empty(), Line::empty()];
    match &entries[5].data {
        OdpData::Text(t) => assert_eq!(t, &to_svg_string(&padded2, 30, &theme())),
        _ => panic!("svg slides are text"),
    }
}

#[test]
fn odp_manifest_and_content_list_the_picture_entries_in_order() {
    let p = line(vec![span("a", plain_style())]);
    let lines = vec![p.clone(), slide_break(), p.clone(), slide_break(), p];
    let entries = export_odp(&lines, 30, &theme(), true, OdpImageKind::Png);
    let text = |i: usize| match &entries[i].data {
        OdpData::Text(t) => t.clone(),
        _ => panic!("text entry"),
    };
    let manifest = text(1);
    let content = text(3);
    let pictures: Vec<&str> = entries[4..].iter().map(|e| e.path.as_str()).collect();
    assert_eq!(pictures.len(), 3);
    let declared: Vec<&str> = manifest
        .split("manifest:full-path=\"")
        .skip(1)
        .map(|r| &r[..r.find('"').unwrap()])
        .filter(|p| p.starts_with("Pictures/"))
        .collect();
    let shown: Vec<&str> = content
        .split("xlink:href=\"")
        .skip(1)
        .map(|r| &r[..r.find('"').unwrap()])
        .collect();
    assert_eq!(declared, pictures);
    assert_eq!(shown, pictures);
}

#[test]
fn odp_png_pictures_are_rasterised_at_4k() {
    let lines = vec![line(vec![span("a", plain_style())])];
    let entries = export_odp(&lines, 30, &theme(), false, OdpImageKind::Png);
    assert_eq!(entries.len(), 5);
    assert_eq!(entries[4].path, "Pictures/slide0001.png");
    match &entries[4].data {
        OdpData::Raster { svg, width, height } => {
            assert_eq!((*width, *height), (3840, 2160));
            assert_eq!(svg, &to_svg_string(&lines, 30, &theme()));
        }
        _ => panic!("png slides are rasterised"),
    }
}

// ── HTML ─────────────────────────────────────────────────────────────

#[test]
fn html_page_frame_and_plain_lines() {
    let page = to_html(&[line(vec![]), line(vec![span("a<b", plain_style())])], &theme());
    assert!(page.starts_with("<!DOCTYPE html>\n<html><head>\n<meta charset='utf-8'>\n<style>body { font-family: 'SF Mono','Menlo','Consolas',monospace; background:#000000; color:#ffffff;"));
    assert!(page.contains("<div class='line'>&nbsp;</div>\n<div class='line'>a&lt;b</div>\n"));
    assert!(page.ends_with("</body></html>\n"));
}

#[test]
fn html_styled_span_and_links() {
    let mut st = plain_style();
    st.bold = true;
    st.fg = Some(Color::Rgb { r: 1, g: 2, b: 3 });
    st.underline = true;
    st.link_url = Some("https://example.com/?a=1&b=2".to_string());
    let mut bad = st.clone();
    bad.link_url = Some("javascript:alert(1)".to_string());
    let mut unstyled_link = plain_style();
    unstyled_link.link_url = Some("https://example.com".to_string());
    let page = to_html(
        &[line(vec![span("go", st), span("x", bad), span("y", unstyled_link)])],
        &theme(),
    );
    assert!(page.contains("<div class='line'><span style='color:#010203;font-weight:bold;text-decoration:underline'><a href='https://example.com/?a=1&amp;b=2' style='color:inherit;text-decoration:inherit'>go</a></span><span style='color:#010203;font-weight:bold;text-decoration:underline'>x</span>y</div>\n"));
    assert!(!page.contains("javascript"));
}

#[test]
fn html_images_only_from_allowed_sources() {
    let img = |url: &str, row: usize| Line {
        spans: vec![],
        meta: LineMeta::Image { url: url.to_string(), alt: "a'lt".to_string(), row },
    };
    let page = to_html(
        &[img("https://x.org/p.png", 0), img("https://x.org/p.png", 1), img("javascript:1", 0)],
        &theme(),
    );
    assert!(page.contains("<div class='line'><img src='https://x.org/p.png' alt='a&#39;lt' style='max-width:100%;height:auto;'></div>\n<div class='line'>a&#39;lt</div>\n</body>"));
}

#[test]
fn adjacent_backgrounds_touch() {
    let mut bg = plain_style();
    bg.bg = Some(Color::Rgb { r: 1, g: 1, b: 1 });
    let l = line(vec![span("abc", bg.clone()), span("de", bg.clone()), span("f", bg)]);
    let rects = svg_bg_rects(&l, 2);
    // spans at 60, 146.4, 204.0 px with widths 86.4, 57.6, 28.8 px
    assert_eq!(
        rects,
        "<rect x=\"60\" y=\"180\" width=\"87\" height=\"60\" fill=\"#010101\"/>\
<rect x=\"146\" y=\"180\" width=\"58\" height=\"60\" fill=\"#010101\"/>\
<rect x=\"204\" y=\"180\" width=\"29\" height=\"60\" fill=\"#010101\"/>"
    );
}
