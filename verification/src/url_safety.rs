//! Allowlists for the URLs that exported HTML may link to or load images from.

use vstd::prelude::*;
use crate::text::{is_control, strip_controls, strip_url_controls, str_eq, trim, trim_str};

verus! {

/// What `url::Url::parse` makes of `input`: for an absolute URL, its scheme
/// (`Url::scheme`) and its path (`Url::path`); `None` where the parser
/// reports an error.
pub uninterp spec fn url_parse(input: Seq<char>) -> Option<(Seq<char>, Seq<char>)>;

/// Calls `url::Url::parse` and hands out the parsed URL as its scheme and its
/// path. The contract only ties the result to `url_parse` of the input: what
/// the WHATWG parser accepts, and the scheme and path it reports, are the
/// `url` crate's and are not restated here.
#[verifier::external_body]
fn parse_url(input: &str) -> (res: Option<(String, String)>)
    ensures
        match res {
            Some(parts) => url_parse(input@) == Some((parts.0@, parts.1@)),
            None => url_parse(input@) is None,
        },
{
    match url::Url::parse(input) {
        Ok(u) => Some((u.scheme().to_string(), u.path().to_string())),
        Err(_) => None,
    }
}

/// Some `:` comes before the first `/` (or there is a `:` and no `/`):
/// the string begins with something that looks like a URL scheme.
pub open spec fn scheme_like_prefix(s: Seq<char>) -> bool {
    exists|i: int| 0 <= i < s.len() && s[i] == ':' && forall|j: int| 0 <= j < i ==> s[j] != '/'
}

fn has_scheme_like_prefix(s: &str) -> (r: bool)
    ensures
        r == scheme_like_prefix(s@),
{
    let n = s.unicode_len();
    let mut i: usize = 0;
    while i < n
        invariant
            n == s@.len(),
            i <= n,
            forall|j: int| 0 <= j < i ==> s@[j] != ':' && s@[j] != '/',
        decreases n - i,
    {
        let c = s.get_char(i);
        if c == ':' {
            assert(s@[i as int] == ':');
            return true;
        }
        if c == '/' {
            assert forall|k: int| 0 <= k < s@.len() && s@[k] == ':' implies exists|j: int|
                0 <= j < k && s@[j] == '/' by {
                assert(k > i);
                assert(s@[i as int] == '/');
            }
            return false;
        }
        i = i + 1;
    }
    false
}

/// Whether `scheme` is one that links may use.
pub open spec fn link_scheme_allowed(scheme: Seq<char>) -> bool {
    scheme == "http"@ || scheme == "https"@ || scheme == "mailto"@
}

/// The verdict on a non-empty link target `s` that does not start with `#`,
/// given what the URL parser made of it: an absolute URL is allowed when its
/// scheme is `http`, `https` or `mailto`; a string that is no absolute URL is
/// allowed when nothing in it looks like a scheme.
pub open spec fn link_allowed(s: Seq<char>, parsed: Option<(Seq<char>, Seq<char>)>) -> bool {
    match parsed {
        Some(parts) => link_scheme_allowed(parts.0),
        None => !scheme_like_prefix(s),
    }
}

/// The string that the checks look at: `raw` without control characters and
/// without surrounding whitespace.
pub open spec fn url_candidate(raw: Seq<char>) -> Seq<char> {
    trim(strip_controls(raw))
}

/// Whether `raw` may stand in `<a href>`.
pub open spec fn safe_link(raw: Seq<char>) -> bool {
    let s = url_candidate(raw);
    s.len() == 0 || s[0] == '#' || link_allowed(s, url_parse(s))
}

/// The verdict on a link target after the URL parser has been asked:
/// `parsed` is what it reported for `s` (scheme and path, or `None`).
pub fn link_verdict(s: &str, parsed: &Option<(String, String)>) -> (r: bool)
    ensures
        r == link_allowed(
            s@,
            match parsed {
                Some(parts) => Some((parts.0@, parts.1@)),
                None => None,
            },
        ),
{
    match parsed {
        Some(parts) => {
            let scheme = parts.0.as_str();
            str_eq(scheme, "http") || str_eq(scheme, "https") || str_eq(scheme, "mailto")
        },
        None => !has_scheme_like_prefix(s),
    }
}

/// Returns true if the URL is safe for use in `<a href>`.
///
/// An allowlist: only `http`, `https`, `mailto`, anchors (`#…`) and
/// scheme-less relative paths pass. Any other scheme (`javascript:`,
/// `vbscript:`, `data:`, `blob:`, …) is blocked. Control characters are
/// removed and surrounding whitespace trimmed before anything is checked;
/// absolute URLs are recognised by the `url` crate's WHATWG parser.
pub fn is_safe_url(raw: &str) -> (r: bool)
    ensures
        r == safe_link(raw@),
{
    let stripped = strip_url_controls(raw);
    let s = trim_str(stripped.as_str());
    let n = s.unicode_len();
    if n == 0 {
        return true;
    }
    if s.get_char(0) == '#' {
        return true;
    }
    let parsed = parse_url(s);
    link_verdict(s, &parsed)
}

/// Whether `path` starts with `mime` followed by `;` or `,`.
pub open spec fn mime_prefix(path: Seq<char>, mime: Seq<char>) -> bool {
    &&& path.len() > mime.len()
    &&& path.take(mime.len() as int) == mime
    &&& (path[mime.len() as int] == ';' || path[mime.len() as int] == ',')
}

/// The path of a `data:` URL announces one of the allowed raster image types.
/// SVG is not among them: it can carry scripts.
pub open spec fn raster_data_path(path: Seq<char>) -> bool {
    ||| mime_prefix(path, "image/png"@)
    ||| mime_prefix(path, "image/jpeg"@)
    ||| mime_prefix(path, "image/gif"@)
    ||| mime_prefix(path, "image/webp"@)
    ||| mime_prefix(path, "image/bmp"@)
}

fn has_mime_prefix(path: &str, mime: &str) -> (r: bool)
    ensures
        r == mime_prefix(path@, mime@),
{
    let n = path.unicode_len();
    let m = mime.unicode_len();
    if n <= m {
        return false;
    }
    let mut i: usize = 0;
    while i < m
        invariant
            n == path@.len(),
            m == mime@.len(),
            m < n,
            i <= m,
            path@.take(i as int) == mime@.take(i as int),
        decreases m - i,
    {
        if path.get_char(i) != mime.get_char(i) {
            assert(path@.take(m as int)[i as int] != mime@[i as int]);
            return false;
        }
        assert(path@.take(i + 1) =~= path@.take(i as int).push(path@[i as int]));
        assert(mime@.take(i + 1) =~= mime@.take(i as int).push(mime@[i as int]));
        i = i + 1;
    }
    assert(mime@.take(m as int) =~= mime@);
    let c = path.get_char(m);
    c == ';' || c == ','
}

/// Whether `scheme` and `path` make an allowed image source.
pub open spec fn image_parts_allowed(scheme: Seq<char>, path: Seq<char>) -> bool {
    scheme == "http"@ || scheme == "https"@ || (scheme == "data"@ && raster_data_path(path))
}

/// The verdict on a non-empty image source `s`, given what the URL parser
/// made of it.
pub open spec fn image_allowed(s: Seq<char>, parsed: Option<(Seq<char>, Seq<char>)>) -> bool {
    match parsed {
        Some(parts) => image_parts_allowed(parts.0, parts.1),
        None => !scheme_like_prefix(s),
    }
}

/// Whether `raw` may stand in `<img src>`.
pub open spec fn safe_image(raw: Seq<char>) -> bool {
    let s = url_candidate(raw);
    s.len() == 0 || image_allowed(s, url_parse(s))
}

/// The verdict on an image source after the URL parser has been asked:
/// `parsed` is what it reported for `s` (scheme and path, or `None`).
pub fn image_verdict(s: &str, parsed: &Option<(String, String)>) -> (r: bool)
    ensures
        r == image_allowed(
            s@,
            match parsed {
                Some(parts) => Some((parts.0@, parts.1@)),
                None => None,
            },
        ),
{
    match parsed {
        Some(parts) => {
            let scheme = parts.0.as_str();
            let path = parts.1.as_str();
            if str_eq(scheme, "http") || str_eq(scheme, "https") {
                true
            } else if str_eq(scheme, "data") {
                has_mime_prefix(path, "image/png") || has_mime_prefix(path, "image/jpeg")
                    || has_mime_prefix(path, "image/gif") || has_mime_prefix(path, "image/webp")
                    || has_mime_prefix(path, "image/bmp")
            } else {
                false
            }
        },
        None => !has_scheme_like_prefix(s),
    }
}

/// Returns true if the URL is safe for use in `<img src>`.
///
/// An allowlist: `http`, `https`, and `data:` URLs of the raster image
/// types PNG, JPEG, GIF, WebP and BMP (the type must be followed by `;` or
/// `,`). SVG data URIs are excluded because they can carry scripts; any other
/// scheme is blocked; scheme-less relative paths pass.
pub fn is_safe_img_src(raw: &str) -> (r: bool)
    ensures
        r == safe_image(raw@),
{
    let stripped = strip_url_controls(raw);
    let s = trim_str(stripped.as_str());
    let n = s.unicode_len();
    if n == 0 {
        return true;
    }
    let parsed = parse_url(s);
    image_verdict(s, &parsed)
}

proof fn lemma_strip_has_no_controls(s: Seq<char>)
    ensures
        forall|i: int| 0 <= i < strip_controls(s).len() ==> !is_control(#[trigger] strip_controls(s)[i]),
    decreases s.len(),
{
    if s.len() > 0 {
        lemma_strip_has_no_controls(s.drop_last());
        let p = strip_controls(s.drop_last());
        if !is_control(s.last()) {
            assert forall|i: int| 0 <= i < p.push(s.last()).len() implies !is_control(
                #[trigger] p.push(s.last())[i],
            ) by {
                if i < p.len() {
                    assert(p.push(s.last())[i] == p[i]);
                }
            }
        }
    }
}

proof fn lemma_strip_keeps_clean(s: Seq<char>)
    requires
        forall|i: int| 0 <= i < s.len() ==> !is_control(#[trigger] s[i]),
    ensures
        strip_controls(s) == s,
    decreases s.len(),
{
    if s.len() > 0 {
        lemma_strip_keeps_clean(s.drop_last());
        assert(s.drop_last().push(s.last()) =~= s);
    }
}

/// What `strip_url_controls` returns holds no control character, and
/// stripping it again changes nothing.
pub proof fn law_stripped_has_no_controls(s: Seq<char>)
    ensures
        forall|i: int| 0 <= i < strip_controls(s).len() ==> !is_control(#[trigger] strip_controls(s)[i]),
        strip_controls(strip_controls(s)) == strip_controls(s),
{
    lemma_strip_has_no_controls(s);
    lemma_strip_keeps_clean(strip_controls(s));
}

/// Control characters have no effect on the outcome: stripping them first
/// gives the same answer, for links and for images (so `"java\x01script:…"`
/// is refused just as `"javascript:…"` is).
pub proof fn law_controls_ignored(raw: Seq<char>)
    ensures
        safe_link(strip_controls(raw)) == safe_link(raw),
        safe_image(strip_controls(raw)) == safe_image(raw),
{
    law_stripped_has_no_controls(raw);
}

/// Any URL that parses as absolute with a scheme other than `http`, `https`
/// or `mailto` is refused as a link target.
pub proof fn law_unlisted_link_scheme_blocked(raw: Seq<char>, scheme: Seq<char>, path: Seq<char>)
    requires
        url_candidate(raw).len() > 0,
        url_candidate(raw)[0] != '#',
        url_parse(url_candidate(raw)) == Some((scheme, path)),
        !link_scheme_allowed(scheme),
    ensures
        !safe_link(raw),
{
}

/// Any URL that parses as absolute with a scheme other than `http`, `https`
/// or `data` is refused as an image source.
pub proof fn law_unlisted_image_scheme_blocked(raw: Seq<char>, scheme: Seq<char>, path: Seq<char>)
    requires
        url_candidate(raw).len() > 0,
        url_parse(url_candidate(raw)) == Some((scheme, path)),
        scheme != "http"@,
        scheme != "https"@,
        scheme != "data"@,
    ensures
        !safe_image(raw),
{
}

/// A `data:` URL whose path announces SVG (`image/svg+xml…`) is never an
/// allowed image source: SVG can carry scripts.
pub proof fn law_svg_data_image_blocked(raw: Seq<char>, path: Seq<char>)
    requires
        url_candidate(raw).len() > 0,
        url_parse(url_candidate(raw)) == Some(("data"@, path)),
        path.len() >= 13,
        path.take(13) == "image/svg+xml"@,
    ensures
        !safe_image(raw),
{
    reveal_strlit("image/svg+xml");
    reveal_strlit("image/png");
    reveal_strlit("image/jpeg");
    reveal_strlit("image/gif");
    reveal_strlit("image/webp");
    reveal_strlit("image/bmp");
    reveal_strlit("http");
    reveal_strlit("https");
    reveal_strlit("data");
    assert("data"@ != "http"@) by {
        assert("data"@[0] != "http"@[0]);
    }
    assert("data"@ != "https"@) by {
        assert("data"@.len() != "https"@.len());
    }
    assert(path[6] == 's') by {
        assert(path.take(13)[6] == 's');
    }
    assert(!mime_prefix(path, "image/png"@)) by {
        if mime_prefix(path, "image/png"@) {
            assert(path.take(9)[6] == 'p');
        }
    }
    assert(!mime_prefix(path, "image/jpeg"@)) by {
        if mime_prefix(path, "image/jpeg"@) {
            assert(path.take(10)[6] == 'j');
        }
    }
    assert(!mime_prefix(path, "image/gif"@)) by {
        if mime_prefix(path, "image/gif"@) {
            assert(path.take(9)[6] == 'g');
        }
    }
    assert(!mime_prefix(path, "image/webp"@)) by {
        if mime_prefix(path, "image/webp"@) {
            assert(path.take(10)[6] == 'w');
        }
    }
    assert(!mime_prefix(path, "image/bmp"@)) by {
        if mime_prefix(path, "image/bmp"@) {
            assert(path.take(9)[6] == 'b');
        }
    }
}

} // verus!
