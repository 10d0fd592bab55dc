//! Export of a document as an OpenDocument presentation: the archive's
//! entries, one picture per slide on fixed 16:9 pages.

use vstd::prelude::*;
use crate::model::{Line, Theme};
use crate::slides::{
    export_ranges, is_break, is_slide_break, law_slides_partition, ranges_view, slide_ranges,
};
use crate::svg::{svg_document, svg_page};
use crate::text::{
    dec, digits_value, fixed3, is_digit, law_pad4_reads_back, pad4, push_dec, push_fixed3, push_pad4,
    push_str, str_eq,
};

verus! {

/// Which image format to embed inside the ODP archive.
#[derive(Clone, Copy, Debug, PartialEq, Eq)]
pub enum OdpImageKind {
    /// Embed SVG (default — smaller, vector, renders perfectly in LibreOffice).
    Svg,
    /// Embed rasterised PNG (compatible with PowerPoint and any ODP viewer).
    Png,
}

/// Slide width in thousandths of a centimetre (25.4 cm, 10 inches).
pub const PAGE_WIDTH: u64 = 25400;
/// Slide height in thousandths of a centimetre (14.288 cm, 5.625 inches).
pub const PAGE_HEIGHT: u64 = 14288;
/// Raster width of PNG slides in pixels.
pub const PNG_WIDTH: u32 = 3840;
/// Raster height of PNG slides in pixels.
pub const PNG_HEIGHT: u32 = 2160;

/// The file extension of the embedded pictures.
pub open spec fn kind_ext(kind: OdpImageKind) -> Seq<char> {
    match kind {
        OdpImageKind::Svg => "svg"@,
        OdpImageKind::Png => "png"@,
    }
}

/// The media type of pictures with extension `ext`.
pub open spec fn picture_mime(ext: Seq<char>) -> Seq<char> {
    if ext == "svg"@ {
        "image/svg+xml"@
    } else {
        "image/png"@
    }
}

/// `Pictures/slide{i:04}.{ext}`: the archive path of the i-th picture.
pub open spec fn picture_path(i: nat, ext: Seq<char>) -> Seq<char> {
    "Pictures/slide"@ + pad4(i) + "."@ + ext
}

fn push_picture_path(out: &mut String, i: u64, ext: &str)
    ensures
        final(out)@ == old(out)@ + picture_path(i as nat, ext@),
{
    let ghost start = out@;
    push_str(out, "Pictures/slide");
    push_pad4(out, i);
    push_str(out, ".");
    push_str(out, ext);
    assert(out@ =~= start + picture_path(i as nat, ext@));
}

/// The XML declaration and the opening `<manifest:manifest>` element.
pub open spec fn manifest_open() -> Seq<char> {
    "<?xml version=\"1.0\" encoding=\"UTF-8\"?>\n<manifest:manifest xmlns:manifest=\"urn:oasis:names:tc:opendocument:xmlns:manifest:1.0\" manifest:version=\"1.3\">\n"@
}

/// The media type of an OpenDocument presentation.
pub open spec fn presentation_mime() -> Seq<char> {
    "application/vnd.oasis.opendocument.presentation"@
}

/// The fixed start of the manifest: the XML declaration, the document
/// itself and its content and styles parts.
pub open spec fn manifest_head() -> Seq<char> {
    manifest_open() + manifest_entry_at("/"@, presentation_mime()) + manifest_entry_at(
        "content.xml"@,
        "text/xml"@,
    ) + manifest_entry_at("styles.xml"@, "text/xml"@)
}

/// The manifest entry of the file `path` with media type `mime`.
pub open spec fn manifest_entry_at(path: Seq<char>, mime: Seq<char>) -> Seq<char> {
    " <manifest:file-entry manifest:full-path=\""@ + path + "\" manifest:media-type=\""@ + mime
        + "\"/>\n"@
}

/// The manifest entry of the i-th picture.
pub open spec fn manifest_entry(ext: Seq<char>, i: nat) -> Seq<char> {
    manifest_entry_at(picture_path(i, ext), picture_mime(ext))
}

/// One manifest entry per path of `paths`, in order, all of media type
/// `mime`.
pub open spec fn manifest_list(paths: Seq<Seq<char>>, mime: Seq<char>) -> Seq<char>
    decreases paths.len(),
{
    if paths.len() == 0 {
        seq![]
    } else {
        manifest_list(paths.drop_last(), mime) + manifest_entry_at(paths.last(), mime)
    }
}

/// The manifest entries of pictures 1 to n.
pub open spec fn manifest_entries(ext: Seq<char>, n: nat) -> Seq<char>
    decreases n,
{
    if n == 0 {
        seq![]
    } else {
        manifest_entries(ext, (n - 1) as nat) + manifest_entry(ext, n)
    }
}

/// The ODF manifest listing all entries of an archive with `n` pictures.
pub open spec fn manifest(ext: Seq<char>, n: nat) -> Seq<char> {
    manifest_head() + manifest_entries(ext, n) + "</manifest:manifest>\n"@
}

fn push_manifest_entry(out: &mut String, path: &str, mime: &str)
    ensures
        final(out)@ == old(out)@ + manifest_entry_at(path@, mime@),
{
    let ghost start = out@;
    push_str(out, " <manifest:file-entry manifest:full-path=\"");
    push_str(out, path);
    push_str(out, "\" manifest:media-type=\"");
    push_str(out, mime);
    push_str(out, "\"/>\n");
    assert(out@ =~= start + manifest_entry_at(path@, mime@));
}

/// Builds the ODF manifest listing all entries in the archive.
pub fn build_manifest(ext: &str, n_slides: usize) -> (res: String)
    ensures
        res@ == manifest(ext@, n_slides as nat),
{
    let mut s = String::new();
    push_str(
        &mut s,
        "<?xml version=\"1.0\" encoding=\"UTF-8\"?>\n<manifest:manifest xmlns:manifest=\"urn:oasis:names:tc:opendocument:xmlns:manifest:1.0\" manifest:version=\"1.3\">\n",
    );
    push_manifest_entry(&mut s, "/", "application/vnd.oasis.opendocument.presentation");
    push_manifest_entry(&mut s, "content.xml", "text/xml");
    push_manifest_entry(&mut s, "styles.xml", "text/xml");
    let mime = if str_eq(ext, "svg") {
        "image/svg+xml"
    } else {
        "image/png"
    };
    assert(mime@ == picture_mime(ext@));
    assert(s@ =~= manifest_head());
    let ghost head = s@;
    let mut i: usize = 0;
    while i < n_slides
        invariant
            i <= n_slides,
            mime@ == picture_mime(ext@),
            s@ == head + manifest_entries(ext@, i as nat),
        decreases n_slides - i,
    {
        i = i + 1;
        let ghost before = s@;
        push_str(&mut s, " <manifest:file-entry manifest:full-path=\"");
        push_picture_path(&mut s, i as u64, ext);
        push_str(&mut s, "\" manifest:media-type=\"");
        push_str(&mut s, mime);
        push_str(&mut s, "\"/>\n");
        assert(s@ =~= before + manifest_entry(ext@, i as nat));
    }
    push_str(&mut s, "</manifest:manifest>\n");
    s
}

/// styles.xml: the page layout of `w` × `h` thousandths of a centimetre
/// and the master page. PowerPoint's ODP importer needs the master page here,
/// not in content.xml.
pub open spec fn styles_xml(w: nat, h: nat) -> Seq<char> {
    "<?xml version=\"1.0\" encoding=\"UTF-8\"?>\n<office:document-styles\n  xmlns:office=\"urn:oasis:names:tc:opendocument:xmlns:office:1.0\"\n  xmlns:style=\"urn:oasis:names:tc:opendocument:xmlns:style:1.0\"\n  xmlns:fo=\"urn:oasis:names:tc:opendocument:xmlns:xsl-fo-compatible:1.0\"\n  xmlns:draw=\"urn:oasis:names:tc:opendocument:xmlns:drawing:1.0\"\n  xmlns:presentation=\"urn:oasis:names:tc:opendocument:xmlns:presentation:1.0\"\n  office:version=\"1.3\">\n <office:styles/>\n <office:automatic-styles>\n  <style:page-layout style:name=\"pl1\">\n   <style:page-layout-properties fo:page-width=\""@
        + fixed3(w) + "cm\" fo:page-height=\""@ + fixed3(h)
        + "cm\" style:print-orientation=\"landscape\"/>\n  </style:page-layout>\n  <style:style style:name=\"dp1\" style:family=\"drawing-page\"/>\n </office:automatic-styles>\n <office:master-styles>\n  <style:master-page style:name=\"Default\" style:page-layout-name=\"pl1\" draw:style-name=\"dp1\"/>\n </office:master-styles>\n</office:document-styles>\n"@
}

/// Builds styles.xml for pages `w_milli_cm` × `h_milli_cm` thousandths of a
/// centimetre.
pub fn build_styles_xml(w_milli_cm: u64, h_milli_cm: u64) -> (res: String)
    ensures
        res@ == styles_xml(w_milli_cm as nat, h_milli_cm as nat),
{
    let mut s = String::new();
    push_str(
        &mut s,
        "<?xml version=\"1.0\" encoding=\"UTF-8\"?>\n<office:document-styles\n  xmlns:office=\"urn:oasis:names:tc:opendocument:xmlns:office:1.0\"\n  xmlns:style=\"urn:oasis:names:tc:opendocument:xmlns:style:1.0\"\n  xmlns:fo=\"urn:oasis:names:tc:opendocument:xmlns:xsl-fo-compatible:1.0\"\n  xmlns:draw=\"urn:oasis:names:tc:opendocument:xmlns:drawing:1.0\"\n  xmlns:presentation=\"urn:oasis:names:tc:opendocument:xmlns:presentation:1.0\"\n  office:version=\"1.3\">\n <office:styles/>\n <office:automatic-styles>\n  <style:page-layout style:name=\"pl1\">\n   <style:page-layout-properties fo:page-width=\"",
    );
    push_fixed3(&mut s, w_milli_cm);
    push_str(&mut s, "cm\" fo:page-height=\"");
    push_fixed3(&mut s, h_milli_cm);
    push_str(
        &mut s,
        "cm\" style:print-orientation=\"landscape\"/>\n  </style:page-layout>\n  <style:style style:name=\"dp1\" style:family=\"drawing-page\"/>\n </office:automatic-styles>\n <office:master-styles>\n  <style:master-page style:name=\"Default\" style:page-layout-name=\"pl1\" draw:style-name=\"dp1\"/>\n </office:master-styles>\n</office:document-styles>\n",
    );
    assert(s@ =~= styles_xml(w_milli_cm as nat, h_milli_cm as nat));
    s
}

/// The fixed start of content.xml.
pub open spec fn content_head() -> Seq<char> {
    "<?xml version=\"1.0\" encoding=\"UTF-8\"?>\n<office:document-content\n  xmlns:office=\"urn:oasis:names:tc:opendocument:xmlns:office:1.0\"\n  xmlns:style=\"urn:oasis:names:tc:opendocument:xmlns:style:1.0\"\n  xmlns:text=\"urn:oasis:names:tc:opendocument:xmlns:text:1.0\"\n  xmlns:draw=\"urn:oasis:names:tc:opendocument:xmlns:drawing:1.0\"\n  xmlns:presentation=\"urn:oasis:names:tc:opendocument:xmlns:presentation:1.0\"\n  xmlns:fo=\"urn:oasis:names:tc:opendocument:xmlns:xsl-fo-compatible:1.0\"\n  xmlns:xlink=\"http://www.w3.org/1999/xlink\"\n  xmlns:svg=\"urn:oasis:names:tc:opendocument:xmlns:svg-compatible:1.0\"\n  office:version=\"1.3\">\n <office:automatic-styles>\n  <style:style style:name=\"gr1\" style:family=\"graphic\">\n   <style:graphic-properties style:protect=\"position size\"/>\n  </style:style>\n </office:automatic-styles>\n <office:body>\n  <office:presentation>\n"@
}

/// The i-th `<draw:page>`: a frame over the whole `w` × `h` page showing
/// the picture at `path`.
pub open spec fn content_page_at(i: nat, path: Seq<char>, w: nat, h: nat) -> Seq<char> {
    "   <draw:page draw:name=\"Slide"@ + dec(i)
        + "\" draw:style-name=\"dp1\" draw:master-page-name=\"Default\">\n    <draw:frame draw:style-name=\"gr1\" svg:x=\"0cm\" svg:y=\"0cm\" svg:width=\""@
        + fixed3(w) + "cm"@ + "\" svg:height=\""@ + fixed3(h) + "cm"@
        + "\">\n     <draw:image xlink:href=\""@ + path
        + "\" xlink:type=\"simple\" xlink:show=\"embed\" xlink:actuate=\"onLoad\"/>\n    </draw:frame>\n   </draw:page>\n"@
}

/// The i-th `<draw:page>`, showing the i-th picture.
pub open spec fn content_page(ext: Seq<char>, i: nat, w: nat, h: nat) -> Seq<char> {
    content_page_at(i, picture_path(i, ext), w, h)
}

/// One page per path of `paths`, in order: the k-th page (counting from 1)
/// shows the picture at the k-th path.
pub open spec fn content_list(paths: Seq<Seq<char>>, w: nat, h: nat) -> Seq<char>
    decreases paths.len(),
{
    if paths.len() == 0 {
        seq![]
    } else {
        content_list(paths.drop_last(), w, h) + content_page_at(
            paths.len(),
            paths.last(),
            w,
            h,
        )
    }
}

/// The pages of slides 1 to n.
pub open spec fn content_pages(ext: Seq<char>, n: nat, w: nat, h: nat) -> Seq<char>
    decreases n,
{
    if n == 0 {
        seq![]
    } else {
        content_pages(ext, (n - 1) as nat, w, h) + content_page(ext, n, w, h)
    }
}

/// content.xml with one `<draw:page>` per slide.
pub open spec fn content_xml(ext: Seq<char>, n: nat, w: nat, h: nat) -> Seq<char> {
    content_head() + content_pages(ext, n, w, h)
        + "  </office:presentation>\n </office:body>\n</office:document-content>\n"@
}

fn push_content_page(s: &mut String, ext: &str, i: u64, w: u64, h: u64)
    ensures
        final(s)@ == old(s)@ + content_page(ext@, i as nat, w as nat, h as nat),
{
    let ghost start = s@;
    push_str(s, "   <draw:page draw:name=\"Slide");
    push_dec(s, i);
    push_str(
        s,
        "\" draw:style-name=\"dp1\" draw:master-page-name=\"Default\">\n    <draw:frame draw:style-name=\"gr1\" svg:x=\"0cm\" svg:y=\"0cm\" svg:width=\"",
    );
    push_fixed3(s, w);
    push_str(s, "cm");
    push_str(s, "\" svg:height=\"");
    push_fixed3(s, h);
    push_str(s, "cm");
    push_str(s, "\">\n     <draw:image xlink:href=\"");
    push_picture_path(s, i, ext);
    push_str(
        s,
        "\" xlink:type=\"simple\" xlink:show=\"embed\" xlink:actuate=\"onLoad\"/>\n    </draw:frame>\n   </draw:page>\n",
    );
    assert(s@ =~= start + content_page(ext@, i as nat, w as nat, h as nat));
}

/// Builds content.xml with one `<draw:page>` per slide, each showing its
/// picture over the whole `w_milli_cm` × `h_milli_cm` page.
pub fn build_content_xml(ext: &str, n_slides: usize, w_milli_cm: u64, h_milli_cm: u64) -> (res: String)
    ensures
        res@ == content_xml(ext@, n_slides as nat, w_milli_cm as nat, h_milli_cm as nat),
{
    let mut s = String::new();
    push_str(
        &mut s,
        "<?xml version=\"1.0\" encoding=\"UTF-8\"?>\n<office:document-content\n  xmlns:office=\"urn:oasis:names:tc:opendocument:xmlns:office:1.0\"\n  xmlns:style=\"urn:oasis:names:tc:opendocument:xmlns:style:1.0\"\n  xmlns:text=\"urn:oasis:names:tc:opendocument:xmlns:text:1.0\"\n  xmlns:draw=\"urn:oasis:names:tc:opendocument:xmlns:drawing:1.0\"\n  xmlns:presentation=\"urn:oasis:names:tc:opendocument:xmlns:presentation:1.0\"\n  xmlns:fo=\"urn:oasis:names:tc:opendocument:xmlns:xsl-fo-compatible:1.0\"\n  xmlns:xlink=\"http://www.w3.org/1999/xlink\"\n  xmlns:svg=\"urn:oasis:names:tc:opendocument:xmlns:svg-compatible:1.0\"\n  office:version=\"1.3\">\n <office:automatic-styles>\n  <style:style style:name=\"gr1\" style:family=\"graphic\">\n   <style:graphic-properties style:protect=\"position size\"/>\n  </style:style>\n </office:automatic-styles>\n <office:body>\n  <office:presentation>\n",
    );
    assert(s@ =~= content_head());
    let ghost head = s@;
    let mut i: usize = 0;
    while i < n_slides
        invariant
            i <= n_slides,
            s@ == head + content_pages(ext@, i as nat, w_milli_cm as nat, h_milli_cm as nat),
        decreases n_slides - i,
    {
        i = i + 1;
        push_content_page(&mut s, ext, i as u64, w_milli_cm, h_milli_cm);
    }
    push_str(&mut s, "  </office:presentation>\n </office:body>\n</office:document-content>\n");
    s
}

/// The data of one archive entry.
pub enum OdpData {
    /// Stored as the UTF-8 bytes of the text.
    Text(String),
    /// An SVG document to be stored rasterised to `width` × `height` pixels.
    Raster { svg: String, width: u32, height: u32 },
}

/// One entry of the ODP archive.
pub struct OdpEntry {
    /// The entry's path inside the archive.
    pub path: String,
    /// Stored uncompressed (otherwise deflated).
    pub stored: bool,
    pub data: OdpData,
}

/// The largest length among the first `k` ranges (0 for none).
pub open spec fn max_range_len(rs: Seq<(int, int)>, k: int) -> int
    decreases k,
{
    if k <= 0 {
        0
    } else {
        let m = max_range_len(rs, k - 1);
        let l = rs[k - 1].1 - rs[k - 1].0;
        if l > m {
            l
        } else {
            m
        }
    }
}

/// The number of rows every slide picture has: the length of the longest
/// slide, at least 1.
pub open spec fn slide_rows(rs: Seq<(int, int)>) -> int {
    let m = max_range_len(rs, rs.len() as int);
    if m < 1 {
        1
    } else {
        m
    }
}

/// The end of the range `[s, e)` once trailing separators are dropped.
pub open spec fn trimmed_end(lines: Seq<Line>, s: int, e: int) -> int
    decreases e - s,
{
    if e > s && is_break(lines[e - 1]) {
        trimmed_end(lines, s, e - 1)
    } else {
        e
    }
}

/// The picture of the slide with range `r`: its lines without trailing
/// separators, drawn on a canvas of `rows` rows.
pub open spec fn odp_picture(lines: Seq<Line>, r: (int, int), rows: nat, width: nat, theme: Theme) -> Seq<
    char,
> {
    svg_page(lines.subrange(r.0, trimmed_end(lines, r.0, r.1)), rows, width, theme)
}

/// `e` is the entry `path` holding `text`, stored or deflated.
pub open spec fn text_entry_is(e: OdpEntry, path: Seq<char>, stored: bool, text: Seq<char>) -> bool {
    &&& e.path@ == path
    &&& e.stored == stored
    &&& match e.data {
        OdpData::Text(t) => t@ == text,
        _ => false,
    }
}

/// `e` is the deflated picture entry `path` for the SVG document `svg`:
/// the SVG itself, or it rasterised to the PNG size.
pub open spec fn picture_entry_is(e: OdpEntry, path: Seq<char>, kind: OdpImageKind, svg: Seq<char>) -> bool {
    &&& e.path@ == path
    &&& !e.stored
    &&& match (kind, e.data) {
        (OdpImageKind::Svg, OdpData::Text(t)) => t@ == svg,
        (OdpImageKind::Png, OdpData::Raster { svg: t, width, height }) => t@ == svg && width
            == PNG_WIDTH && height == PNG_HEIGHT,
        _ => false,
    }
}

/// The entries of the ODP archive of a document, in order: `mimetype`
/// (stored, first, as ODF requires), the manifest, styles.xml, content.xml,
/// then one picture per slide.
pub open spec fn odp_entries_ok(
    res: Seq<OdpEntry>,
    lines: Seq<Line>,
    width: nat,
    theme: Theme,
    slide_mode: bool,
    kind: OdpImageKind,
) -> bool {
    let rs = export_ranges(lines, slide_mode);
    let n = rs.len();
    let ext = kind_ext(kind);
    &&& res.len() == 4 + n
    &&& text_entry_is(res[0], "mimetype"@, true, "application/vnd.oasis.opendocument.presentation"@)
    &&& text_entry_is(res[1], "META-INF/manifest.xml"@, false, manifest(ext, n))
    &&& text_entry_is(res[2], "styles.xml"@, false, styles_xml(PAGE_WIDTH as nat, PAGE_HEIGHT as nat))
    &&& text_entry_is(
        res[3],
        "content.xml"@,
        false,
        content_xml(ext, n, PAGE_WIDTH as nat, PAGE_HEIGHT as nat),
    )
    &&& forall|k: int|
        0 <= k < n ==> picture_entry_is(
            #[trigger] res[4 + k],
            picture_path((k + 1) as nat, ext),
            kind,
            odp_picture(lines, rs[k], slide_rows(rs) as nat, width, theme),
        )
}

fn text_entry(path: &str, stored: bool, text: String) -> (e: OdpEntry)
    ensures
        text_entry_is(e, path@, stored, text@),
{
    let mut p = String::new();
    push_str(&mut p, path);
    assert(p@ =~= path@);
    OdpEntry { path: p, stored, data: OdpData::Text(text) }
}

fn literal_string(t: &str) -> (r: String)
    ensures
        r@ == t@,
{
    let mut s = String::new();
    push_str(&mut s, t);
    assert(s@ =~= t@);
    s
}

/// Builds the entries of an ODP presentation of a document: one slide per
/// slide in slide mode, otherwise a single one. Every slide is drawn without
/// its trailing separators on a canvas as tall as the longest slide, so all
/// pictures have the same size; pages are 16:9 widescreen (25.4 × 14.288 cm).
pub fn export_odp(lines: &[Line], width: usize, theme: &Theme, slide_mode: bool, kind: OdpImageKind) -> (res:
    Vec<OdpEntry>)
    ensures
        odp_entries_ok(res@, lines@, width as nat, *theme, slide_mode, kind),
{
    let ranges = if slide_mode {
        slide_ranges(lines)
    } else {
        let mut v: Vec<(usize, usize)> = Vec::new();
        v.push((0, lines.len()));
        v
    };
    let ghost rs = export_ranges(lines@, slide_mode);
    proof {
        law_slides_partition(lines@);
        assert(ranges_view(ranges@) =~= rs);
    }
    let ext = match kind {
        OdpImageKind::Svg => "svg",
        OdpImageKind::Png => "png",
    };
    assert(ext@ == kind_ext(kind));
    let m = ranges.len();

    let mut max_lines: usize = 0;
    let mut k: usize = 0;
    while k < m
        invariant
            m == ranges@.len(),
            ranges_view(ranges@) == rs,
            forall|j: int| 0 <= j < rs.len() ==> 0 <= #[trigger] rs[j].0 <= rs[j].1 <= lines@.len(),
            k <= m,
            max_lines == max_range_len(rs, k as int),
        decreases m - k,
    {
        let (s, e) = ranges[k];
        assert(rs[k as int] == (s as int, e as int));
        if e - s > max_lines {
            max_lines = e - s;
        }
        k = k + 1;
    }
    if max_lines < 1 {
        max_lines = 1;
    }
    assert(max_lines == slide_rows(rs));

    let mut res: Vec<OdpEntry> = Vec::new();
    res.push(
        text_entry(
            "mimetype",
            true,
            literal_string("application/vnd.oasis.opendocument.presentation"),
        ),
    );
    res.push(text_entry("META-INF/manifest.xml", false, build_manifest(ext, m)));
    res.push(text_entry("styles.xml", false, build_styles_xml(PAGE_WIDTH, PAGE_HEIGHT)));
    res.push(text_entry("content.xml", false, build_content_xml(ext, m, PAGE_WIDTH, PAGE_HEIGHT)));

    let mut k: usize = 0;
    while k < m
        invariant
            m == ranges@.len(),
            rs == export_ranges(lines@, slide_mode),
            ranges_view(ranges@) == rs,
            forall|j: int| 0 <= j < rs.len() ==> 0 <= #[trigger] rs[j].0 <= rs[j].1 <= lines@.len(),
            max_lines == slide_rows(rs),
            ext@ == kind_ext(kind),
            k <= m,
            res@.len() == 4 + k,
            text_entry_is(res@[0], "mimetype"@, true, "application/vnd.oasis.opendocument.presentation"@),
            text_entry_is(res@[1], "META-INF/manifest.xml"@, false, manifest(ext@, m as nat)),
            text_entry_is(res@[2], "styles.xml"@, false, styles_xml(PAGE_WIDTH as nat, PAGE_HEIGHT as nat)),
            text_entry_is(
                res@[3],
                "content.xml"@,
                false,
                content_xml(ext@, m as nat, PAGE_WIDTH as nat, PAGE_HEIGHT as nat),
            ),
            forall|j: int|
                0 <= j < k ==> picture_entry_is(
                    #[trigger] res@[4 + j],
                    picture_path((j + 1) as nat, ext@),
                    kind,
                    odp_picture(lines@, rs[j], slide_rows(rs) as nat, width as nat, *theme),
                ),
        decreases m - k,
    {
        let (s, e) = ranges[k];
        assert(rs[k as int] == (s as int, e as int));
        let mut t = e;
        while t > s && is_slide_break(&lines[t - 1])
            invariant
                s <= t <= e <= lines@.len(),
                trimmed_end(lines@, s as int, e as int) == trimmed_end(lines@, s as int, t as int),
            decreases t,
        {
            t = t - 1;
        }
        let slide = vstd::slice::slice_subrange(lines, s, t);
        let svg = svg_document(slide, max_lines, width, theme);
        let mut path = String::new();
        push_picture_path(&mut path, (k + 1) as u64, ext);
        let data = match kind {
            OdpImageKind::Svg => OdpData::Text(svg),
            OdpImageKind::Png => OdpData::Raster { svg, width: PNG_WIDTH, height: PNG_HEIGHT },
        };
        let ghost old_res = res@;
        res.push(OdpEntry { path, stored: false, data });
        assert(res@[4 + k as int] == res@.last());
        assert forall|j: int| 0 <= j < k + 1 implies picture_entry_is(
            #[trigger] res@[4 + j],
            picture_path((j + 1) as nat, ext@),
            kind,
            odp_picture(lines@, rs[j], slide_rows(rs) as nat, width as nat, *theme),
        ) by {
            if j < k {
                assert(res@[4 + j] == old_res[4 + j]);
            }
        }
        k = k + 1;
    }
    res
}

/// Dropping trailing separators keeps a prefix of the range, removes only
/// separators, and leaves a slide that is empty or does not end with one.
pub proof fn law_trailing_breaks_trimmed(lines: Seq<Line>, s: int, e: int)
    requires
        0 <= s <= e <= lines.len(),
    ensures
        s <= trimmed_end(lines, s, e) <= e,
        forall|j: int| trimmed_end(lines, s, e) <= j < e ==> is_break(#[trigger] lines[j]),
        trimmed_end(lines, s, e) == s || !is_break(lines[trimmed_end(lines, s, e) - 1]),
    decreases e - s,
{
    if e > s && is_break(lines[e - 1]) {
        law_trailing_breaks_trimmed(lines, s, e - 1);
    }
}

proof fn lemma_max_range_len(rs: Seq<(int, int)>, k: int, j: int)
    requires
        0 <= j < k <= rs.len(),
    ensures
        rs[j].1 - rs[j].0 <= max_range_len(rs, k),
    decreases k,
{
    if j < k - 1 {
        lemma_max_range_len(rs, k - 1, j);
    }
}

/// Each slide picture is exactly the SVG document of its slide (without
/// trailing separators) padded with blank lines to the height of the
/// longest slide.
pub proof fn law_picture_is_padded_slide(
    lines: Seq<Line>,
    slide_mode: bool,
    k: int,
    padding: Seq<Line>,
    width: nat,
    theme: Theme,
)
    requires
        0 <= k < export_ranges(lines, slide_mode).len(),
        forall|i: int| 0 <= i < padding.len() ==> crate::model::is_blank_line(#[trigger] padding[i]),
        ({
            let rs = export_ranges(lines, slide_mode);
            let r = rs[k];
            trimmed_end(lines, r.0, r.1) - r.0 + padding.len() == slide_rows(rs)
        }),
    ensures
        ({
            let rs = export_ranges(lines, slide_mode);
            let r = rs[k];
            let slide = lines.subrange(r.0, trimmed_end(lines, r.0, r.1));
            odp_picture(lines, r, slide_rows(rs) as nat, width, theme) == svg_page(
                slide + padding,
                (slide + padding).len(),
                width,
                theme,
            )
        }),
{
    let rs = export_ranges(lines, slide_mode);
    let r = rs[k];
    law_slides_partition(lines);
    law_trailing_breaks_trimmed(lines, r.0, r.1);
    let slide = lines.subrange(r.0, trimmed_end(lines, r.0, r.1));
    crate::svg::law_blank_padding_draws_nothing(slide, padding, slide_rows(rs) as nat, width, theme);
}

/// Every slide's picture is wide enough for any slide: the trimmed slide
/// never has more lines than the picture has rows.
pub proof fn law_slides_fit_picture(lines: Seq<Line>, slide_mode: bool, k: int)
    requires
        0 <= k < export_ranges(lines, slide_mode).len(),
    ensures
        ({
            let rs = export_ranges(lines, slide_mode);
            trimmed_end(lines, rs[k].0, rs[k].1) - rs[k].0 <= slide_rows(rs)
        }),
{
    let rs = export_ranges(lines, slide_mode);
    law_slides_partition(lines);
    law_trailing_breaks_trimmed(lines, rs[k].0, rs[k].1);
    lemma_max_range_len(rs, rs.len() as int, k);
}

/// The paths of pictures 1 to n.
pub open spec fn picture_paths(ext: Seq<char>, n: nat) -> Seq<Seq<char>> {
    Seq::new(n, |k: int| picture_path((k + 1) as nat, ext))
}

proof fn lemma_lists_of_paths(ext: Seq<char>, n: nat, w: nat, h: nat)
    ensures
        manifest_entries(ext, n) == manifest_list(picture_paths(ext, n), picture_mime(ext)),
        content_pages(ext, n, w, h) == content_list(picture_paths(ext, n), w, h),
    decreases n,
{
    if n > 0 {
        lemma_lists_of_paths(ext, (n - 1) as nat, w, h);
        assert(picture_paths(ext, n).drop_last() =~= picture_paths(ext, (n - 1) as nat));
    }
}

/// The archive's picture entries, the manifest and content.xml agree: the
/// paths of the picture entries, in archive order, are exactly the files the
/// manifest declares after its fixed entries, in the same order and with
/// the pictures' media type, and exactly the pictures the pages of
/// content.xml show, the k-th page the k-th picture.
pub proof fn law_archive_lists_every_picture(
    res: Seq<OdpEntry>,
    lines: Seq<Line>,
    width: nat,
    theme: Theme,
    slide_mode: bool,
    kind: OdpImageKind,
)
    requires
        odp_entries_ok(res, lines, width, theme, slide_mode, kind),
    ensures
        ({
            let n = export_ranges(lines, slide_mode).len();
            let paths = Seq::new(n, |k: int| res[4 + k].path@);
            &&& res.len() == 4 + n
            &&& text_entry_is(
                res[1],
                "META-INF/manifest.xml"@,
                false,
                manifest_head() + manifest_list(paths, picture_mime(kind_ext(kind)))
                    + "</manifest:manifest>\n"@,
            )
            &&& text_entry_is(
                res[3],
                "content.xml"@,
                false,
                content_head() + content_list(paths, PAGE_WIDTH as nat, PAGE_HEIGHT as nat)
                    + "  </office:presentation>\n </office:body>\n</office:document-content>\n"@,
            )
        }),
{
    let n = export_ranges(lines, slide_mode).len();
    let ext = kind_ext(kind);
    let paths = Seq::new(n, |k: int| res[4 + k].path@);
    assert forall|k: int| 0 <= k < n implies paths[k] == picture_paths(ext, n)[k] by {
        assert(picture_entry_is(
            res[4 + k],
            picture_path((k + 1) as nat, ext),
            kind,
            odp_picture(
                lines,
                export_ranges(lines, slide_mode)[k],
                slide_rows(export_ranges(lines, slide_mode)) as nat,
                width,
                theme,
            ),
        ));
    }
    assert(paths =~= picture_paths(ext, n));
    lemma_lists_of_paths(ext, n, PAGE_WIDTH as nat, PAGE_HEIGHT as nat);
}

/// Every slide picture has the same canvas: the same `<svg>` size, view
/// box, background and font, set by the longest slide.
pub proof fn law_pictures_share_canvas(lines: Seq<Line>, slide_mode: bool, k: int, width: nat, theme: Theme)
    requires
        0 <= k < export_ranges(lines, slide_mode).len(),
    ensures
        ({
            let rs = export_ranges(lines, slide_mode);
            let head = crate::svg::svg_head(width, slide_rows(rs) as nat, theme);
            let pic = odp_picture(lines, rs[k], slide_rows(rs) as nat, width, theme);
            pic.len() >= head.len() && pic.take(head.len() as int) == head
        }),
{
    let rs = export_ranges(lines, slide_mode);
    let head = crate::svg::svg_head(width, slide_rows(rs) as nat, theme);
    let r = rs[k];
    let slide = lines.subrange(r.0, trimmed_end(lines, r.0, r.1));
    let rest = crate::svg::svg_rows(slide, theme, slide.len() as int) + "</svg>"@;
    let pic = odp_picture(lines, r, slide_rows(rs) as nat, width, theme);
    assert(pic =~= head + rest);
    assert(pic.take(head.len() as int) =~= head);
}

/// The path of the i-th picture is `Pictures/slide`, the number i written
/// with exactly four digits, a dot and the extension, for every i below
/// 10000.
pub proof fn law_picture_paths_number_slides(i: nat, ext: Seq<char>)
    requires
        i < 10000,
    ensures
        ({
            let p = picture_path(i, ext);
            let num = p.subrange(14, 18);
            &&& p.len() == 19 + ext.len()
            &&& p.take(14) == "Pictures/slide"@
            &&& p[18] == '.'
            &&& p.skip(19) == ext
            &&& forall|k: int| 0 <= k < 4 ==> is_digit(#[trigger] num[k])
            &&& digits_value(num) == i
        }),
{
    reveal_strlit("Pictures/slide");
    reveal_strlit(".");
    law_pad4_reads_back(i);
    let p = picture_path(i, ext);
    assert(p.take(14) =~= "Pictures/slide"@);
    assert(p.subrange(14, 18) =~= pad4(i));
    assert(p.skip(19) =~= ext);
}

/// One manifest entry per (path, media type) pair, in order.
pub open spec fn manifest_decls(decls: Seq<(Seq<char>, Seq<char>)>) -> Seq<char>
    decreases decls.len(),
{
    if decls.len() == 0 {
        seq![]
    } else {
        manifest_decls(decls.drop_last()) + manifest_entry_at(decls.last().0, decls.last().1)
    }
}

proof fn lemma_decls_append(x: Seq<(Seq<char>, Seq<char>)>, y: Seq<(Seq<char>, Seq<char>)>)
    ensures
        manifest_decls(x + y) == manifest_decls(x) + manifest_decls(y),
    decreases y.len(),
{
    if y.len() == 0 {
        assert(x + y =~= x);
    } else {
        lemma_decls_append(x, y.drop_last());
        assert((x + y).drop_last() =~= x + y.drop_last());
        assert((x + y).last() == y.last());
    }
}

proof fn lemma_decls_of_paths(paths: Seq<Seq<char>>, mime: Seq<char>)
    ensures
        manifest_decls(paths.map_values(|p: Seq<char>| (p, mime))) == manifest_list(paths, mime),
    decreases paths.len(),
{
    if paths.len() > 0 {
        lemma_decls_of_paths(paths.drop_last(), mime);
        assert(paths.map_values(|p: Seq<char>| (p, mime)).drop_last() =~= paths.drop_last().map_values(
            |p: Seq<char>| (p, mime),
        ));
    }
}

proof fn lemma_picture_paths_distinct(i: nat, j: nat, ext: Seq<char>)
    requires
        i != j,
    ensures
        picture_path(i, ext) != picture_path(j, ext),
{
    law_pad4_reads_back(i);
    law_pad4_reads_back(j);
    reveal_strlit(".");
    let a = "Pictures/slide"@;
    if picture_path(i, ext) == picture_path(j, ext) {
        let pi = pad4(i) + "."@;
        let pj = pad4(j) + "."@;
        let x = picture_path(i, ext);
        assert(x =~= a + pi + ext);
        assert(x =~= a + pj + ext);
        assert(pi =~= x.subrange(a.len() as int, x.len() - ext.len()));
        assert(pj =~= x.subrange(a.len() as int, x.len() - ext.len()));
        assert(pad4(i) =~= pi.drop_last());
        assert(pad4(j) =~= pj.drop_last());
    }
}

/// The entries the manifest of an archive with `n` pictures declares, in
/// order: the package root, content.xml, styles.xml, then the pictures.
spec fn archive_decls(ext: Seq<char>, n: nat) -> Seq<(Seq<char>, Seq<char>)> {
    seq![
        ("/"@, presentation_mime()),
        ("content.xml"@, "text/xml"@),
        ("styles.xml"@, "text/xml"@),
    ] + picture_paths(ext, n).map_values(|p: Seq<char>| (p, picture_mime(ext)))
}

proof fn lemma_manifest_as_decls(ext: Seq<char>, n: nat)
    ensures
        manifest(ext, n) == manifest_open() + manifest_decls(archive_decls(ext, n))
            + "</manifest:manifest>\n"@,
{
    let fixed = seq![
        ("/"@, presentation_mime()),
        ("content.xml"@, "text/xml"@),
        ("styles.xml"@, "text/xml"@),
    ];
    let mime = picture_mime(ext);
    let paths = picture_paths(ext, n);
    let pics = paths.map_values(|p: Seq<char>| (p, mime));
    lemma_decls_append(fixed, pics);
    lemma_decls_of_paths(paths, mime);
    lemma_lists_of_paths(ext, n, PAGE_WIDTH as nat, PAGE_HEIGHT as nat);
    let f1 = fixed.drop_last().drop_last();
    let f2 = fixed.drop_last();
    assert(f1.drop_last() =~= Seq::<(Seq<char>, Seq<char>)>::empty());
    assert(manifest_decls(f1.drop_last()) == Seq::<char>::empty());
    assert(manifest_decls(f1) == manifest_entry_at("/"@, presentation_mime()));
    assert(manifest_decls(f2) == manifest_decls(f1) + manifest_entry_at("content.xml"@, "text/xml"@));
    assert(manifest_decls(fixed) == manifest_decls(f2) + manifest_entry_at(
        "styles.xml"@,
        "text/xml"@,
    ));
    assert(manifest_open() + manifest_decls(fixed) =~= manifest_head());
    assert(manifest_open() + manifest_decls(archive_decls(ext, n)) + "</manifest:manifest>\n"@
        =~= manifest(ext, n));
}

proof fn lemma_archive_decl_paths(ext: Seq<char>, n: nat)
    ensures
        archive_decls(ext, n).len() == n + 3,
        archive_decls(ext, n)[0] == ("/"@, presentation_mime()),
        archive_decls(ext, n)[1].0 == "content.xml"@,
        archive_decls(ext, n)[2].0 == "styles.xml"@,
        forall|k: int|
            3 <= k < n + 3 ==> (#[trigger] archive_decls(ext, n)[k]).0 == picture_path(
                (k - 2) as nat,
                ext,
            ),
        forall|k1: int, k2: int|
            0 <= k1 < k2 < n + 3 ==> (#[trigger] archive_decls(ext, n)[k1]).0 != (#[trigger] archive_decls(
                ext,
                n,
            )[k2]).0,
{
    let d = archive_decls(ext, n);
    reveal_strlit("/");
    reveal_strlit("content.xml");
    reveal_strlit("styles.xml");
    reveal_strlit("Pictures/slide");
    assert forall|k: int| 3 <= k < n + 3 implies (#[trigger] d[k]).0 == picture_path(
        (k - 2) as nat,
        ext,
    ) by {
        assert(d[k] == picture_paths(ext, n).map_values(
            |p: Seq<char>| (p, picture_mime(ext)),
        )[k - 3]);
    }
    assert forall|k1: int, k2: int| 0 <= k1 < k2 < n + 3 implies (#[trigger] d[k1]).0 != (
    #[trigger] d[k2]).0 by {
        if k2 >= 3 {
            let p2 = picture_path((k2 - 2) as nat, ext);
            assert(d[k2].0 == p2);
            assert(p2[0] == 'P');
            if k1 >= 3 {
                lemma_picture_paths_distinct((k1 - 2) as nat, (k2 - 2) as nat, ext);
            } else {
                assert(d[k1].0[0] != 'P');
            }
        } else {
            assert(d[k1].0[0] != d[k2].0[0]);
        }
    }
}

/// The manifest declares every file of the archive exactly once: it is a
/// list of file entries, first the package root with the presentation media
/// type, then one entry per archive entry other than `mimetype` and the
/// manifest itself (styles.xml, content.xml and each picture), whose
/// full-path is that entry's path, with no path declared twice.
pub proof fn law_manifest_declares_every_entry(
    res: Seq<OdpEntry>,
    lines: Seq<Line>,
    width: nat,
    theme: Theme,
    slide_mode: bool,
    kind: OdpImageKind,
)
    requires
        odp_entries_ok(res, lines, width, theme, slide_mode, kind),
    ensures
        exists|decls: Seq<(Seq<char>, Seq<char>)>|
            {
                &&& text_entry_is(
                    res[1],
                    "META-INF/manifest.xml"@,
                    false,
                    manifest_open() + #[trigger] manifest_decls(decls) + "</manifest:manifest>\n"@,
                )
                &&& decls.len() == res.len() - 1
                &&& decls[0] == ("/"@, presentation_mime())
                &&& forall|j: int|
                    #![trigger res[j]]
                    2 <= j < res.len() ==> exists|k: int|
                        #![trigger decls[k]]
                        1 <= k < decls.len() && decls[k].0 == res[j].path@
                &&& forall|k: int|
                    #![trigger decls[k]]
                    1 <= k < decls.len() ==> exists|j: int|
                        #![trigger res[j]]
                        2 <= j < res.len() && res[j].path@ == decls[k].0
                &&& forall|k1: int, k2: int|
                    0 <= k1 < k2 < decls.len() ==> (#[trigger] decls[k1]).0 != (#[trigger] decls[k2]).0
            },
{
    let n = export_ranges(lines, slide_mode).len();
    let ext = kind_ext(kind);
    let decls = archive_decls(ext, n);
    lemma_manifest_as_decls(ext, n);
    lemma_archive_decl_paths(ext, n);
    assert forall|k: int| 3 <= k < decls.len() implies (#[trigger] res[k + 1]).path@
        == decls[k].0 by {
        assert(picture_entry_is(
            res[4 + (k - 3)],
            picture_path((k - 2) as nat, ext),
            kind,
            odp_picture(
                lines,
                export_ranges(lines, slide_mode)[k - 3],
                slide_rows(export_ranges(lines, slide_mode)) as nat,
                width,
                theme,
            ),
        ));
        assert(decls[k].0 == picture_path((k - 2) as nat, ext));
    }
    assert forall|j: int| #![trigger res[j]] 2 <= j < res.len() implies exists|k: int|
        #![trigger decls[k]]
        1 <= k < decls.len() && decls[k].0 == res[j].path@ by {
        if j == 2 {
            assert(decls[2].0 == res[j].path@);
        } else if j == 3 {
            assert(decls[1].0 == res[j].path@);
        } else {
            assert(res[(j - 1) + 1].path@ == decls[j - 1].0);
        }
    }
    assert forall|k: int| #![trigger decls[k]] 1 <= k < decls.len() implies exists|j: int|
        #![trigger res[j]]
        2 <= j < res.len() && res[j].path@ == decls[k].0 by {
        if k == 1 {
            assert(res[3].path@ == decls[k].0);
        } else if k == 2 {
            assert(res[2].path@ == decls[k].0);
        } else {
            assert(res[k + 1].path@ == decls[k].0);
        }
    }
    assert(text_entry_is(
        res[1],
        "META-INF/manifest.xml"@,
        false,
        manifest_open() + manifest_decls(decls) + "</manifest:manifest>\n"@,
    ));
}

} // verus!
