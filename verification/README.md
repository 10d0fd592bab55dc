# mdterm export library

Verified export of rendered terminal documents (lines of styled spans) to
HTML, SVG and OpenDocument presentations, with the URL allowlists that keep
exported links and images safe.

- `src/` — the library, verified with Verus:
  - `text.rs`: character classes, trimming, control stripping, escaping and
    number formatting;
  - `model.rs`: lines, spans, styles, colours and themes;
  - `url_safety.rs`: the link and image-source allowlists (`url` crate parser);
  - `svg.rs`: the SVG renderer, with exact metrics in tenths of a pixel
    (`unicode-width` for span widths);
  - `html.rs`: the HTML page;
  - `slides.rs`: slide ranges and the SVG/PNG slide exports;
  - `odp.rs`: the entries of an ODP archive.
- `app/` — the command-line front end: argument parsing, file and terminal
  I/O, PNG rasterisation (`resvg`) and ZIP writing (`zip`).
- `tests/` — tests of the library.
