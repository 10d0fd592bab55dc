use mdterm::url_safety::{is_safe_img_src, is_safe_url, image_verdict, link_verdict};

// ── is_safe_url ─────────────────────────────────────────────────────

#[test]
fn safe_url_allows_http() {
    assert!(is_safe_url("http://example.com"));
    assert!(is_safe_url("https://example.com/page"));
}

#[test]
fn safe_url_allows_mailto() {
    assert!(is_safe_url("mailto:user@example.com"));
}

#[test]
fn safe_url_allows_anchor() {
    assert!(is_safe_url("#section-1"));
}

#[test]
fn safe_url_allows_relative_paths() {
    assert!(is_safe_url("./foo/bar.html"));
    assert!(is_safe_url("images/photo.png"));
    assert!(is_safe_url("../other.md"));
}

#[test]
fn safe_url_blocks_javascript() {
    assert!(!is_safe_url("javascript:alert(1)"));
    assert!(!is_safe_url("JAVASCRIPT:alert(1)"));
    assert!(!is_safe_url("JavaScript:void(0)"));
}

#[test]
fn safe_url_blocks_vbscript() {
    assert!(!is_safe_url("vbscript:exec"));
    assert!(!is_safe_url("VBSCRIPT:MsgBox"));
}

#[test]
fn safe_url_blocks_data() {
    assert!(!is_safe_url("data:text/html,<script>alert(1)</script>"));
}

#[test]
fn safe_url_blocks_control_char_bypass() {
    assert!(!is_safe_url("java\x01script:alert(1)"));
    assert!(!is_safe_url("java\x0Bscript:alert(1)"));
    assert!(!is_safe_url("\x00javascript:alert(1)"));
}

#[test]
fn safe_url_blocks_tab_newline_in_scheme() {
    assert!(!is_safe_url("java\tscript:alert(1)"));
    assert!(!is_safe_url("java\nscript:alert(1)"));
    assert!(!is_safe_url("java\rscript:alert(1)"));
    assert!(!is_safe_url("j\ta\nv\ra\tscript:alert(1)"));
}

#[test]
fn safe_url_handles_whitespace() {
    assert!(is_safe_url("  https://example.com  "));
    assert!(!is_safe_url("  javascript:alert(1)  "));
}

#[test]
fn safe_url_handles_empty() {
    assert!(is_safe_url(""));
    assert!(is_safe_url("   "));
}

// ── is_safe_img_src ─────────────────────────────────────────────────

#[test]
fn safe_img_allows_http() {
    assert!(is_safe_img_src("http://example.com/img.png"));
    assert!(is_safe_img_src("https://cdn.example.com/photo.jpg"));
}

#[test]
fn safe_img_allows_data_image() {
    assert!(is_safe_img_src("data:image/png;base64,iVBOR..."));
    assert!(is_safe_img_src("data:image/png,rawdata"));
    assert!(is_safe_img_src("data:image/jpeg;base64,/9j/4..."));
}

#[test]
fn safe_img_blocks_data_image_prefix_spoof() {
    assert!(!is_safe_img_src("data:image/pngevil"));
    assert!(!is_safe_img_src("data:image/jpegscript:alert(1)"));
}

#[test]
fn safe_img_blocks_data_non_image() {
    assert!(!is_safe_img_src("data:text/html,<script>alert(1)</script>"));
    assert!(!is_safe_img_src("data:application/pdf,stuff"));
}

#[test]
fn safe_img_blocks_svg_xss() {
    assert!(!is_safe_img_src("data:image/svg+xml,<svg onload='alert(1)'>"));
    assert!(!is_safe_img_src("data:image/svg+xml;base64,PHN2ZyBvbmxvYWQ9ImFsZXJ0KDEpIj4="));
}

#[test]
fn safe_img_blocks_javascript() {
    assert!(!is_safe_img_src("javascript:alert(1)"));
    assert!(!is_safe_img_src("JAVASCRIPT:alert(1)"));
}

#[test]
fn safe_img_blocks_vbscript() {
    assert!(!is_safe_img_src("vbscript:exec"));
}

#[test]
fn safe_img_allows_relative_paths() {
    assert!(is_safe_img_src("./images/photo.png"));
    assert!(is_safe_img_src("photo.jpg"));
}

#[test]
fn safe_img_blocks_control_char_bypass() {
    assert!(!is_safe_img_src("java\x01script:alert(1)"));
    assert!(!is_safe_img_src("\x00javascript:alert(1)"));
}

#[test]
fn safe_img_handles_empty() {
    assert!(is_safe_img_src(""));
    assert!(is_safe_img_src("   "));
}

// ── verdicts on given parser results ────────────────────────────────

fn parts(scheme: &str, path: &str) -> Option<(String, String)> {
    Some((scheme.to_string(), path.to_string()))
}

#[test]
fn link_verdict_follows_scheme_allowlist() {
    assert!(link_verdict("x", &parts("http", "/")));
    assert!(link_verdict("x", &parts("https", "/")));
    assert!(link_verdict("x", &parts("mailto", "a@b")));
    assert!(!link_verdict("x", &parts("ftp", "/")));
    assert!(!link_verdict("x", &parts("javascript", "alert(1)")));
}

#[test]
fn link_verdict_on_unparsed_checks_colon_before_slash() {
    assert!(link_verdict("a/b:c", &None));
    assert!(link_verdict("plain", &None));
    assert!(!link_verdict("a:b/c", &None));
    assert!(!link_verdict("x:", &None));
}

#[test]
fn image_verdict_on_data_paths() {
    assert!(image_verdict("x", &parts("data", "image/gif;base64,R0")));
    assert!(image_verdict("x", &parts("data", "image/webp,raw")));
    assert!(image_verdict("x", &parts("data", "image/bmp;x")));
    assert!(!image_verdict("x", &parts("data", "image/bmp")));
    assert!(!image_verdict("x", &parts("data", "image/svg+xml,<svg/>")));
    assert!(!image_verdict("x", &parts("mailto", "a@b")));
    assert!(image_verdict("x", &parts("https", "/a.png")));
}

#[test]
fn control_characters_do_not_change_verdicts() {
    assert_eq!(is_safe_url("ht\x01tp://example.com"), is_safe_url("http://example.com"));
    assert_eq!(is_safe_img_src("da\x7fta:image/png,x"), is_safe_img_src("data:image/png,x"));
    assert!(is_safe_img_src("da\u{85}ta:image/png,x"));
}

#[test]
fn unicode_whitespace_is_trimmed() {
    assert!(!is_safe_url("\u{3000}javascript:alert(1)\u{a0}"));
    assert!(is_safe_url("\u{2003}#top"));
}

#[test]
fn uppercase_schemes_are_normalised_by_the_parser() {
    assert!(is_safe_url("HTTPS://example.com"));
    assert!(is_safe_img_src("DATA:image/png,x"));
}
