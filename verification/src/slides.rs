//! Splitting a document into slides, and the SVG/PNG slide exports.

use vstd::prelude::*;
use crate::model::{Line, LineMeta, Theme};
use crate::svg::{svg_page, to_svg_string};
use crate::text::{digits_value, is_digit, law_pad4_reads_back, pad4, push_pad4, push_str};

verus! {

/// Whether a line is a slide separator.
pub open spec fn is_break(l: Line) -> bool {
    l.meta is SlideBreak
}

pub(crate) fn is_slide_break(l: &Line) -> (b: bool)
    ensures
        b == is_break(*l),
{
    match l.meta {
        LineMeta::SlideBreak => true,
        _ => false,
    }
}

/// Where the slides among the first `n` lines start: at 0, and right after
/// each separator.
pub open spec fn slide_starts(lines: Seq<Line>, n: int) -> Seq<int>
    decreases n,
{
    if n <= 0 {
        seq![0]
    } else if is_break(lines[n - 1]) {
        slide_starts(lines, n - 1).push(n)
    } else {
        slide_starts(lines, n - 1)
    }
}

/// The `(start, end)` line range of each slide: each slide runs from its
/// start to the next slide's start, the last one to the end of the document.
pub open spec fn slide_ranges_of(lines: Seq<Line>) -> Seq<(int, int)> {
    let st = slide_starts(lines, lines.len() as int);
    Seq::new(
        st.len(),
        |k: int| (st[k], if k + 1 < st.len() { st[k + 1] } else { lines.len() as int }),
    )
}

/// The ranges as integers.
pub open spec fn ranges_view(v: Seq<(usize, usize)>) -> Seq<(int, int)> {
    v.map_values(|r: (usize, usize)| (r.0 as int, r.1 as int))
}

/// Returns the `(slide_start, slide_end)` index pairs into `wrapped` for
/// each slide. Without slide separators the whole document is one slide.
pub fn slide_ranges(wrapped: &[Line]) -> (res: Vec<(usize, usize)>)
    ensures
        ranges_view(res@) == slide_ranges_of(wrapped@),
{
    let n = wrapped.len();
    let mut starts: Vec<usize> = Vec::new();
    starts.push(0);
    let mut i: usize = 0;
    while i < n
        invariant
            n == wrapped@.len(),
            i <= n,
            starts@.len() >= 1,
            starts@.map_values(|s: usize| s as int) == slide_starts(wrapped@, i as int),
        decreases n - i,
    {
        let ghost before = starts@;
        if is_slide_break(&wrapped[i]) {
            starts.push(i + 1);
        }
        assert(starts@.map_values(|s: usize| s as int) =~= slide_starts(wrapped@, i + 1));
        i = i + 1;
    }
    let ghost st = slide_starts(wrapped@, n as int);
    let m = starts.len();
    let mut res: Vec<(usize, usize)> = Vec::new();
    let mut k: usize = 0;
    while k < m
        invariant
            n == wrapped@.len(),
            m == starts@.len(),
            st == slide_starts(wrapped@, n as int),
            starts@.map_values(|s: usize| s as int) == st,
            k <= m,
            ranges_view(res@) == slide_ranges_of(wrapped@).take(k as int),
        decreases m - k,
    {
        let end = if k + 1 < m {
            starts[k + 1]
        } else {
            n
        };
        assert(st.len() == m);
        assert(st[k as int] == starts@[k as int] as int);
        assert(k + 1 < m ==> st[k + 1] == starts@[k + 1] as int);
        let ghost old_res = res@;
        let r = (starts[k], end);
        assert(r.0 as int == slide_ranges_of(wrapped@)[k as int].0);
        assert(r.1 as int == slide_ranges_of(wrapped@)[k as int].1);
        res.push(r);
        assert(ranges_view(res@) =~= ranges_view(old_res).push((r.0 as int, r.1 as int)));
        k = k + 1;
        assert(ranges_view(res@) =~= slide_ranges_of(wrapped@).take(k as int));
    }
    assert(slide_ranges_of(wrapped@).take(m as int) =~= slide_ranges_of(wrapped@));
    res
}

/// The number of separators among the first `n` lines.
pub open spec fn break_count(lines: Seq<Line>, n: int) -> nat
    decreases n,
{
    if n <= 0 {
        0
    } else if is_break(lines[n - 1]) {
        break_count(lines, n - 1) + 1
    } else {
        break_count(lines, n - 1)
    }
}

proof fn lemma_starts_count(lines: Seq<Line>, n: int)
    ensures
        slide_starts(lines, n).len() == 1 + break_count(lines, n),
    decreases n,
{
    if n > 0 {
        lemma_starts_count(lines, n - 1);
    }
}

proof fn lemma_starts(lines: Seq<Line>, n: int)
    requires
        0 <= n <= lines.len(),
    ensures
        slide_starts(lines, n).len() >= 1,
        slide_starts(lines, n)[0] == 0,
        forall|k: int|
            0 <= k < slide_starts(lines, n).len() ==> 0 <= #[trigger] slide_starts(lines, n)[k] <= n,
        forall|k: int|
            0 <= k < slide_starts(lines, n).len() - 1 ==> #[trigger] slide_starts(lines, n)[k]
                < slide_starts(lines, n)[k + 1],
        forall|k: int|
            0 < k < slide_starts(lines, n).len() ==> is_break(
                lines[#[trigger] slide_starts(lines, n)[k] - 1],
            ),
        forall|i: int|
            0 <= i < n && is_break(#[trigger] lines[i]) ==> exists|k: int|
                0 < k < slide_starts(lines, n).len() && slide_starts(lines, n)[k] == i + 1,
    decreases n,
{
    if n > 0 {
        lemma_starts(lines, n - 1);
        let prev = slide_starts(lines, n - 1);
        let cur = slide_starts(lines, n);
        if is_break(lines[n - 1]) {
            assert(cur == prev.push(n));
            assert forall|i: int| 0 <= i < n && is_break(#[trigger] lines[i]) implies exists|k: int|
                0 < k < cur.len() && cur[k] == i + 1 by {
                if i == n - 1 {
                    assert(cur[cur.len() - 1] == n);
                } else {
                    let k = choose|k: int| 0 < k < prev.len() && prev[k] == i + 1;
                    assert(cur[k] == prev[k]);
                }
            }
        }
    }
}

/// The slides cut the document into consecutive pieces: the first starts at
/// line 0, the last ends at the last line, each ends where the next begins,
/// and there is one slide more than there are separators. Every slide after
/// the first begins right after a separator, and a separator can only be the
/// last line of its slide.
pub proof fn law_slides_partition(lines: Seq<Line>)
    ensures
        slide_ranges_of(lines).len() == 1 + break_count(lines, lines.len() as int),
        slide_ranges_of(lines)[0].0 == 0,
        slide_ranges_of(lines).last().1 == lines.len(),
        forall|k: int|
            0 <= k < slide_ranges_of(lines).len() ==> 0 <= #[trigger] slide_ranges_of(lines)[k].0
                <= slide_ranges_of(lines)[k].1 <= lines.len(),
        forall|k: int|
            0 <= k < slide_ranges_of(lines).len() - 1 ==> #[trigger] slide_ranges_of(lines)[k].1
                == slide_ranges_of(lines)[k + 1].0,
        forall|k: int|
            0 < k < slide_ranges_of(lines).len() ==> is_break(
                lines[#[trigger] slide_ranges_of(lines)[k].0 - 1],
            ),
        forall|k: int, i: int|
            0 <= k < slide_ranges_of(lines).len() && #[trigger] slide_ranges_of(lines)[k].0 <= i
                && i + 1 < slide_ranges_of(lines)[k].1 ==> !is_break(#[trigger] lines[i]),
{
    let n = lines.len() as int;
    lemma_starts(lines, n);
    lemma_starts_count(lines, n);
    let st = slide_starts(lines, n);
    let r = slide_ranges_of(lines);
    assert forall|k: int, i: int|
        0 <= k < r.len() && #[trigger] r[k].0 <= i && i + 1 < r[k].1 implies !is_break(
        #[trigger] lines[i],
    ) by {
        if is_break(lines[i]) {
            let j = choose|j: int| 0 < j < st.len() && st[j] == i + 1;
            // st is strictly increasing, so st[k] <= i < i + 1 = st[j] < st[k + 1]
            if j <= k {
                lemma_increasing(st, j, k);
            } else {
                lemma_increasing(st, k + 1, j);
            }
        }
    }
}

proof fn lemma_increasing(st: Seq<int>, a: int, b: int)
    requires
        0 <= a <= b < st.len(),
        forall|k: int| 0 <= k < st.len() - 1 ==> #[trigger] st[k] < st[k + 1],
    ensures
        st[a] <= st[b],
    decreases b - a,
{
    if a < b {
        lemma_increasing(st, a, b - 1);
        assert(st[b - 1] < st[b]);
    }
}

/// One exported slide: the file it goes to and its SVG document.
pub struct SlideFile {
    pub path: String,
    pub svg: String,
}

/// The line ranges that are exported: each slide in slide mode, otherwise
/// the whole document as one.
pub open spec fn export_ranges(lines: Seq<Line>, slide_mode: bool) -> Seq<(int, int)> {
    if slide_mode {
        slide_ranges_of(lines)
    } else {
        seq![(0, lines.len() as int)]
    }
}

/// `{prefix}{k+1:04}{ext}`: the file of the k-th exported slide.
pub open spec fn slide_file_path(prefix: Seq<char>, k: int, ext: Seq<char>) -> Seq<char> {
    prefix + pad4((k + 1) as nat) + ext
}

/// The SVG document of the lines in range `r`, one row per line.
pub open spec fn range_svg(lines: Seq<Line>, r: (int, int), width: nat, theme: Theme) -> Seq<char> {
    svg_page(lines.subrange(r.0, r.1), (r.1 - r.0) as nat, width, theme)
}

/// The exports for `lines`, one per slide (or one in all), named with `ext`.
pub open spec fn slide_files_ok(
    res: Seq<SlideFile>,
    lines: Seq<Line>,
    width: nat,
    theme: Theme,
    prefix: Seq<char>,
    slide_mode: bool,
    ext: Seq<char>,
) -> bool {
    let rs = export_ranges(lines, slide_mode);
    &&& res.len() == rs.len()
    &&& forall|k: int|
        0 <= k < res.len() ==> {
            &&& (#[trigger] res[k]).path@ == slide_file_path(prefix, k, ext)
            &&& res[k].svg@ == range_svg(lines, rs[k], width, theme)
        }
}

fn export_slides(
    lines: &[Line],
    width: usize,
    theme: &Theme,
    prefix: &str,
    slide_mode: bool,
    ext: &str,
) -> (res: Vec<SlideFile>)
    ensures
        slide_files_ok(res@, lines@, width as nat, *theme, prefix@, slide_mode, ext@),
{
    let ranges = if slide_mode {
        slide_ranges(lines)
    } else {
        let mut v: Vec<(usize, usize)> = Vec::new();
        v.push((0, lines.len()));
        v
    };
    let ghost rs = export_ranges(lines@, slide_mode);
    proof {
        law_slides_partition(lines@);
        assert(ranges_view(ranges@) =~= rs);
    }
    let mut res: Vec<SlideFile> = Vec::new();
    let m = ranges.len();
    let mut k: usize = 0;
    while k < m
        invariant
            m == ranges@.len(),
            rs == export_ranges(lines@, slide_mode),
            ranges_view(ranges@) == rs,
            forall|j: int| 0 <= j < rs.len() ==> 0 <= #[trigger] rs[j].0 <= rs[j].1 <= lines@.len(),
            k <= m,
            res@.len() == k,
            forall|j: int|
                0 <= j < k ==> {
                    &&& (#[trigger] res@[j]).path@ == slide_file_path(prefix@, j, ext@)
                    &&& res@[j].svg@ == range_svg(lines@, rs[j], width as nat, *theme)
                },
        decreases m - k,
    {
        let (start, end) = ranges[k];
        assert(rs[k as int] == (start as int, end as int));
        let slide = vstd::slice::slice_subrange(lines, start, end);
        let svg = to_svg_string(slide, width, theme);
        let mut path = String::new();
        push_str(&mut path, prefix);
        push_pad4(&mut path, (k + 1) as u64);
        push_str(&mut path, ext);
        assert(path@ =~= slide_file_path(prefix@, k as int, ext@));
        res.push(SlideFile { path, svg });
        k = k + 1;
    }
    res
}

/// The SVG export of a document: one SVG file per slide in slide mode,
/// otherwise a single one, named `{prefix}0001.svg`, `{prefix}0002.svg`, …
pub fn export_slides_svg(
    lines: &[Line],
    width: usize,
    theme: &Theme,
    prefix: &str,
    slide_mode: bool,
) -> (res: Vec<SlideFile>)
    ensures
        slide_files_ok(res@, lines@, width as nat, *theme, prefix@, slide_mode, ".svg"@),
{
    export_slides(lines, width, theme, prefix, slide_mode, ".svg")
}

/// The PNG export of a document: the SVG of each slide (or of the whole
/// document), to be rasterised into `{prefix}0001.png`, `{prefix}0002.png`, …
pub fn export_slides_png(
    lines: &[Line],
    width: usize,
    theme: &Theme,
    prefix: &str,
    slide_mode: bool,
) -> (res: Vec<SlideFile>)
    ensures
        slide_files_ok(res@, lines@, width as nat, *theme, prefix@, slide_mode, ".png"@),
{
    export_slides(lines, width, theme, prefix, slide_mode, ".png")
}

/// A document without slide separators is a single slide.
pub proof fn law_no_breaks_one_slide(lines: Seq<Line>)
    requires
        forall|i: int| 0 <= i < lines.len() ==> !is_break(#[trigger] lines[i]),
    ensures
        slide_ranges_of(lines) == seq![(0int, lines.len() as int)],
{
    law_slides_partition(lines);
    lemma_no_breaks_count(lines, lines.len() as int);
    assert(slide_ranges_of(lines) =~= seq![(0int, lines.len() as int)]);
}

proof fn lemma_no_breaks_count(lines: Seq<Line>, n: int)
    requires
        0 <= n <= lines.len(),
        forall|i: int| 0 <= i < lines.len() ==> !is_break(#[trigger] lines[i]),
    ensures
        break_count(lines, n) == 0,
    decreases n,
{
    if n > 0 {
        lemma_no_breaks_count(lines, n - 1);
    }
}

/// The file of the k-th exported slide (counting from 0) is the prefix, the
/// slide's number k + 1 written with exactly four digits, then the
/// extension, for every slide before the ten-thousandth.
pub proof fn law_slide_file_names_number_slides(prefix: Seq<char>, k: int, ext: Seq<char>)
    requires
        0 <= k < 9999,
    ensures
        ({
            let p = slide_file_path(prefix, k, ext);
            let num = p.subrange(prefix.len() as int, prefix.len() + 4int);
            &&& p.len() == prefix.len() + 4 + ext.len()
            &&& p.take(prefix.len() as int) == prefix
            &&& p.skip(prefix.len() + 4int) == ext
            &&& forall|i: int| 0 <= i < 4 ==> is_digit(#[trigger] num[i])
            &&& digits_value(num) == k + 1
        }),
{
    law_pad4_reads_back((k + 1) as nat);
    let p = slide_file_path(prefix, k, ext);
    let d = pad4((k + 1) as nat);
    assert(p.take(prefix.len() as int) =~= prefix);
    assert(p.subrange(prefix.len() as int, prefix.len() + 4int) =~= d);
    assert(p.skip(prefix.len() + 4int) =~= ext);
}

} // verus!
