use vstd::prelude::*;
use vstd::seq_lib::{group_to_multiset_ensures, lemma_multiset_commutative};

use crate::buffer::column;
use crate::color::{color_le, lemma_raw_injective, raw_of, PColor};
use crate::finder::{
    closes_span, lemma_scan_end, lemma_scan_start, opens_span, scan_end, scan_start, span_end,
};
use crate::line_sorter::{
    apply_spans, in_span, lemma_apply_spans, lemma_line_spans_tile, lemma_sorted_line_shape,
    lemma_span_end_bounds, line_spans, sorted_line, spans_from, spans_tile,
};
use crate::options::{Mode, Options};
use crate::sort::{sort_columns, sort_rows, sorted_grid};
use crate::sorter::{
    color_order, lemma_sorted_colors, lemma_sorted_fixed, sort_segment, sorted_colors,
};

verus! {

/// Sorting a line moves pixels only within their span: after the sort, each span
/// holds the same pixels as before, as many times each.
pub proof fn lemma_spans_keep_pixels(line: Seq<PColor>, mode: Mode)
    ensures
        forall|k: int|
            0 <= k < line_spans(line, mode).len() ==> {
                let (a, e) = #[trigger] line_spans(line, mode)[k];
                sorted_line(line, mode).subrange(a, e + 1).to_multiset() == line.subrange(
                    a,
                    e + 1,
                ).to_multiset()
            },
{
    let spans = line_spans(line, mode);
    lemma_line_spans_tile(line, mode);
    lemma_apply_spans(line, spans);
    assert forall|k: int| 0 <= k < spans.len() implies {
        let (a, e) = #[trigger] spans[k];
        sorted_line(line, mode).subrange(a, e + 1).to_multiset() == line.subrange(
            a,
            e + 1,
        ).to_multiset()
    } by {
        let (a, e) = spans[k];
        lemma_sorted_colors(line.subrange(a, e + 1));
    }
}

/// Sorting one segment keeps the pixels of the whole sequence.
proof fn lemma_sort_segment_permutes(s: Seq<PColor>, start: int, end: int)
    requires
        0 <= start <= end < s.len(),
    ensures
        sort_segment(s, start, end).to_multiset() == s.to_multiset(),
{
    let pre = s.subrange(0, start);
    let mid = s.subrange(start, end + 1);
    let post = s.subrange(end + 1, s.len() as int);
    lemma_sorted_colors(mid);
    lemma_multiset_commutative(pre + sorted_colors(mid), post);
    lemma_multiset_commutative(pre, sorted_colors(mid));
    lemma_multiset_commutative(pre + mid, post);
    lemma_multiset_commutative(pre, mid);
    assert(s =~= pre + mid + post);
}

/// Sorting a line only rearranges its pixels: the sorted line holds the same
/// pixels, as many times each.
pub proof fn lemma_sorted_line_permutes(line: Seq<PColor>, mode: Mode)
    ensures
        sorted_line(line, mode).to_multiset() == line.to_multiset(),
{
    lemma_line_spans_tile(line, mode);
    lemma_apply_spans_permutes(line, line_spans(line, mode));
}

proof fn lemma_apply_spans_permutes(line: Seq<PColor>, spans: Seq<(int, int)>)
    requires
        spans_tile(spans, line.len() as int),
    ensures
        apply_spans(line, spans).to_multiset() == line.to_multiset(),
    decreases spans.len(),
{
    if spans.len() > 0 {
        let init = spans.drop_last();
        assert(spans_tile(init, line.len() as int)) by {
            assert forall|k: int| 0 <= k < init.len() implies 0 <= #[trigger] init[k].0
                <= init[k].1 < line.len() by {
                assert(init[k] == spans[k]);
            }
            assert forall|k: int, j: int| 0 <= k < j < init.len() implies #[trigger] init[k].1
                < #[trigger] init[j].0 by {
                assert(init[k] == spans[k] && init[j] == spans[j]);
            }
        }
        lemma_apply_spans_permutes(line, init);
        lemma_apply_spans(line, init);
        let (a, e) = spans.last();
        assert(spans[spans.len() - 1] == (a, e));
        lemma_sort_segment_permutes(apply_spans(line, init), a, e);
    }
}

/// Each span visited from `pos` opens at a pixel that opens spans, and none of
/// its later pixels closes one.
proof fn lemma_spans_from_shape(line: Seq<PColor>, mode: Mode, pos: int)
    requires
        0 <= pos,
    ensures
        forall|k: int|
            0 <= k < spans_from(line, mode, pos).len() ==> {
                let (a, e) = #[trigger] spans_from(line, mode, pos)[k];
                &&& 0 <= a < line.len()
                &&& opens_span(mode, line[a])
                &&& forall|q: int| a < q <= e ==> !closes_span(mode, #[trigger] line[q])
            },
    decreases line.len() - pos,
{
    lemma_scan_start(line, mode, pos);
    match scan_start(line, mode, pos) {
        None => {},
        Some(p) => {
            let e = span_end(line, mode, p);
            lemma_span_end_bounds(line, mode, p);
            if p + 1 < line.len() {
                lemma_scan_end(line, mode, p + 1);
            }
            let s = spans_from(line, mode, pos);
            if pos <= e && e + 1 < line.len() {
                lemma_spans_from_shape(line, mode, e + 1);
                let rest = spans_from(line, mode, e + 1);
                assert(s =~= seq![(p, e)] + rest);
                assert forall|k: int| 0 <= k < s.len() implies {
                    let (a, f) = #[trigger] s[k];
                    &&& 0 <= a < line.len()
                    &&& opens_span(mode, line[a])
                    &&& forall|q: int| a < q <= f ==> !closes_span(mode, #[trigger] line[q])
                } by {
                    if k > 0 {
                        assert(s[k] == rest[k - 1]);
                    }
                }
            }
        },
    }
}

/// Each span of a line opens at a pixel that opens spans, and none of its later
/// pixels closes one.
proof fn lemma_line_spans_shape(line: Seq<PColor>, mode: Mode)
    ensures
        forall|k: int|
            0 <= k < line_spans(line, mode).len() ==> {
                let (a, e) = #[trigger] line_spans(line, mode)[k];
                &&& opens_span(mode, line[a])
                &&& forall|q: int| a < q <= e ==> !closes_span(mode, #[trigger] line[q])
            },
{
    if line.len() >= 2 {
        lemma_spans_from_shape(line, mode, 0);
    }
}

/// Scans see the pixels only through the two tests.
proof fn lemma_scans_by_tests(a: Seq<PColor>, b: Seq<PColor>, mode: Mode, i: int)
    requires
        0 <= i,
        a.len() == b.len(),
        forall|q: int|
            0 <= q < a.len() ==> opens_span(mode, #[trigger] a[q]) == opens_span(mode, b[q])
                && closes_span(mode, a[q]) == closes_span(mode, b[q]),
    ensures
        scan_start(a, mode, i) == scan_start(b, mode, i),
        scan_end(a, mode, i) == scan_end(b, mode, i),
    decreases a.len() - i,
{
    if i < a.len() {
        lemma_scans_by_tests(a, b, mode, i + 1);
    }
}

proof fn lemma_spans_from_by_tests(a: Seq<PColor>, b: Seq<PColor>, mode: Mode, pos: int)
    requires
        0 <= pos,
        a.len() == b.len(),
        forall|q: int|
            0 <= q < a.len() ==> opens_span(mode, #[trigger] a[q]) == opens_span(mode, b[q])
                && closes_span(mode, a[q]) == closes_span(mode, b[q]),
    ensures
        spans_from(a, mode, pos) == spans_from(b, mode, pos),
    decreases a.len() - pos,
{
    lemma_scans_by_tests(a, b, mode, pos);
    lemma_scan_start(a, mode, pos);
    match scan_start(a, mode, pos) {
        None => {},
        Some(p) => {
            lemma_scans_by_tests(a, b, mode, p + 1);
            let e = span_end(a, mode, p);
            if pos <= e && e + 1 < a.len() {
                lemma_spans_from_by_tests(a, b, mode, e + 1);
            }
        },
    }
}

/// How often `v` occurs in `s`, counted through its first entry.
proof fn lemma_count_first(s: Seq<PColor>, v: PColor)
    requires
        s.len() > 0,
    ensures
        s.to_multiset().count(v) == s.remove(0).to_multiset().count(v) + if s[0] == v {
            1int
        } else {
            0int
        },
{
    broadcast use group_to_multiset_ensures;
    broadcast use vstd::multiset::group_multiset_axioms;

    assert(s.contains(s[0]));
    assert(s.to_multiset().count(s[0]) > 0);
}

/// In black mode, sorting a span keeps which of its pixels open and which close
/// spans.
proof fn lemma_black_segment(s: Seq<PColor>, t: PColor)
    requires
        s.len() > 0,
        opens_span(Mode::Black(t), s[0]),
        forall|j: int| 0 < j < s.len() ==> !closes_span(Mode::Black(t), #[trigger] s[j]),
    ensures
        sorted_colors(s).len() == s.len(),
        forall|j: int|
            0 <= j < s.len() ==> opens_span(Mode::Black(t), #[trigger] sorted_colors(s)[j])
                == opens_span(Mode::Black(t), s[j]) && closes_span(
                Mode::Black(t),
                sorted_colors(s)[j],
            ) == closes_span(Mode::Black(t), s[j]),
{
    broadcast use group_to_multiset_ensures;

    let ss = sorted_colors(s);
    lemma_sorted_colors(s);
    assert forall|j: int| 0 <= j < s.len() implies raw_of(t) <= raw_of(#[trigger] s[j]) by {}
    // every pixel of the sorted span comes from the span
    assert forall|j: int| 0 <= j < ss.len() implies raw_of(t) <= raw_of(#[trigger] ss[j]) by {
        assert(ss.to_multiset().count(ss[j]) > 0);
        assert(s.contains(ss[j]));
    }
    assert forall|j: int| 0 <= j < s.len() implies opens_span(Mode::Black(t), #[trigger] ss[j])
        == opens_span(Mode::Black(t), s[j]) && closes_span(Mode::Black(t), ss[j]) == closes_span(
        Mode::Black(t),
        s[j],
    ) by {
        if j == 0 {
            if closes_span(Mode::Black(t), s[0]) {
                assert(s.to_multiset().count(s[0]) > 0);
                assert(ss.contains(s[0]));
                let m = choose|m: int| 0 <= m < ss.len() && ss[m] == s[0];
                if m > 0 {
                    assert((color_order())(ss[0], ss[m]));
                }
            }
        } else if closes_span(Mode::Black(t), ss[j]) {
            // then `ss[0]` and `ss[j]` are both the threshold's color, which `s`
            // holds once at most
            assert((color_order())(ss[0], ss[j]));
            lemma_raw_injective(ss[0], ss[j]);
            let v = ss[0];
            lemma_count_first(s, v);
            lemma_count_first(ss, v);
            assert forall|m: int| 0 <= m < s.remove(0).len() implies s.remove(0)[m] != v by {
                assert(s.remove(0)[m] == s[m + 1]);
                if s[m + 1] == v {
                    assert(color_le(s[m + 1], t));
                }
            }
            assert(!s.remove(0).contains(v));
            assert(ss.remove(0)[j - 1] == v);
            assert(ss.remove(0).contains(v));
            assert(false);
        }
    }
}

/// In black mode, every pixel of a sorted line opens and closes spans exactly
/// where the pixel of the unsorted line did.
proof fn lemma_black_tests_kept(line: Seq<PColor>, t: PColor)
    ensures
        sorted_line(line, Mode::Black(t)).len() == line.len(),
        forall|q: int|
            0 <= q < line.len() ==> opens_span(
                Mode::Black(t),
                #[trigger] sorted_line(line, Mode::Black(t))[q],
            ) == opens_span(Mode::Black(t), line[q]) && closes_span(
                Mode::Black(t),
                sorted_line(line, Mode::Black(t))[q],
            ) == closes_span(Mode::Black(t), line[q]),
{
    let mode = Mode::Black(t);
    let spans = line_spans(line, mode);
    let r = sorted_line(line, mode);
    lemma_line_spans_tile(line, mode);
    lemma_line_spans_shape(line, mode);
    lemma_apply_spans(line, spans);
    assert forall|q: int| 0 <= q < line.len() implies opens_span(mode, #[trigger] r[q])
        == opens_span(mode, line[q]) && closes_span(mode, r[q]) == closes_span(mode, line[q]) by {
        if exists|k: int| 0 <= k < spans.len() && in_span(q, #[trigger] spans[k]) {
            let k = choose|k: int| 0 <= k < spans.len() && in_span(q, #[trigger] spans[k]);
            let (a, e) = spans[k];
            let seg = line.subrange(a, e + 1);
            assert forall|j: int| 0 < j < seg.len() implies !closes_span(mode, #[trigger] seg[j]) by {
                assert(seg[j] == line[a + j]);
            }
            lemma_black_segment(seg, t);
            assert(r.subrange(a, e + 1)[q - a] == r[q]);
            assert(seg[q - a] == line[q]);
        }
    }
}

/// In black mode a line sorted once is sorted: sorting it again changes nothing.
pub proof fn lemma_black_line_idempotent(line: Seq<PColor>, t: PColor)
    ensures
        sorted_line(sorted_line(line, Mode::Black(t)), Mode::Black(t)) == sorted_line(
            line,
            Mode::Black(t),
        ),
{
    let mode = Mode::Black(t);
    let r = sorted_line(line, mode);
    let spans = line_spans(line, mode);
    lemma_black_tests_kept(line, t);
    if line.len() >= 2 {
        lemma_spans_from_by_tests(r, line, mode, 0);
    }
    assert(line_spans(r, mode) == spans);
    lemma_line_spans_tile(line, mode);
    lemma_apply_spans(line, spans);
    lemma_apply_spans(r, spans);
    let rr = apply_spans(r, spans);
    assert forall|q: int| 0 <= q < r.len() implies rr[q] == r[q] by {
        if exists|k: int| 0 <= k < spans.len() && in_span(q, #[trigger] spans[k]) {
            let k = choose|k: int| 0 <= k < spans.len() && in_span(q, #[trigger] spans[k]);
            let (a, e) = spans[k];
            lemma_sorted_colors(line.subrange(a, e + 1));
            lemma_sorted_fixed(r.subrange(a, e + 1));
            assert(rr.subrange(a, e + 1)[q - a] == rr[q]);
            assert(r.subrange(a, e + 1)[q - a] == r[q]);
        }
    }
    assert(rr =~= r);
}

/// In black mode, sorting an image along one axis a second time changes nothing:
/// every row (or column) is already sorted, and its spans are where they were.
pub proof fn lemma_black_sort_idempotent(g: Seq<Seq<PColor>>, w: nat, options: Options)
    requires
        options.mode is Black,
        !(options.direction is Both),
    ensures
        sorted_grid(sorted_grid(g, w, options), w, options) == sorted_grid(g, w, options),
{
    let mode = options.mode;
    let t = mode->Black_0;
    assert(mode == Mode::Black(t));
    if options.direction is Row {
        let once = sort_rows(g, mode);
        assert forall|y: int| 0 <= y < g.len() implies sort_rows(once, mode)[y] == once[y] by {
            lemma_black_line_idempotent(g[y], t);
        }
        assert(sort_rows(once, mode) =~= once);
    } else {
        let once = sort_columns(g, w, mode);
        let twice = sort_columns(once, w, mode);
        assert forall|y: int| 0 <= y < g.len() implies twice[y] =~= once[y] by {
            assert forall|x: int| 0 <= x < w implies twice[y][x] == once[y][x] by {
                lemma_sorted_line_shape(column(g, x), mode);
                assert(column(once, x) =~= sorted_line(column(g, x), mode));
                lemma_black_line_idempotent(column(g, x), t);
            }
        }
        assert(twice =~= once);
    }
}

} // verus!
