use vstd::prelude::*;

use crate::color::PColor;
use crate::finder::{
    find_span_end, find_span_start, lemma_scan_end, lemma_scan_start, lemma_scan_suffix,
    scan_start, span_end,
};
use crate::options::Mode;
use crate::sorter::{lemma_sorted_colors, sort_colors, sort_segment, sorted_colors};

verus! {

/// The spans that the sorting loop visits on `line` once it resumes at `pos`, each as
/// its first and last position. After a span that ends at `e` the loop goes on at
/// `e + 1` while `e` is not the last position of the line.
pub open spec fn spans_from(line: Seq<PColor>, mode: Mode, pos: int) -> Seq<(int, int)>
    decreases line.len() - pos,
{
    match scan_start(line, mode, pos) {
        None => seq![],
        Some(p) => {
            let e = span_end(line, mode, p);
            // `pos <= e` always holds; it makes the progress of the recursion evident
            if pos <= e && e + 1 < line.len() {
                seq![(p, e)] + spans_from(line, mode, e + 1)
            } else {
                seq![(p, e)]
            }
        },
    }
}

/// The spans of a line, in order: none on a line shorter than two pixels.
pub open spec fn line_spans(line: Seq<PColor>, mode: Mode) -> Seq<(int, int)> {
    if line.len() < 2 {
        seq![]
    } else {
        spans_from(line, mode, 0)
    }
}

/// `line` with the listed spans sorted one after another.
pub open spec fn apply_spans(line: Seq<PColor>, spans: Seq<(int, int)>) -> Seq<PColor>
    decreases spans.len(),
{
    if spans.len() == 0 {
        line
    } else {
        let (a, e) = spans.last();
        sort_segment(apply_spans(line, spans.drop_last()), a, e)
    }
}

/// A line after sorting: every span of it sorted, everything else as it was.
pub open spec fn sorted_line(line: Seq<PColor>, mode: Mode) -> Seq<PColor> {
    apply_spans(line, line_spans(line, mode))
}

/// Whether `i` lies in the span `s`.
pub open spec fn in_span(i: int, s: (int, int)) -> bool {
    s.0 <= i <= s.1
}

/// The spans lie inside a line of length `n`, in increasing order, and do not
/// overlap.
pub open spec fn spans_tile(spans: Seq<(int, int)>, n: int) -> bool {
    &&& forall|k: int| 0 <= k < spans.len() ==> 0 <= #[trigger] spans[k].0 <= spans[k].1 < n
    &&& forall|k: int, j: int| 0 <= k < j < spans.len() ==> #[trigger] spans[k].1 < #[trigger] spans[j].0
}

/// The last position of the span opening at `p` lies in the line, at or after `p`.
pub proof fn lemma_span_end_bounds(line: Seq<PColor>, mode: Mode, p: int)
    requires
        0 <= p < line.len(),
    ensures
        p <= span_end(line, mode, p) < line.len(),
{
    if p + 1 < line.len() {
        lemma_scan_end(line, mode, p + 1);
    }
}

/// The spans visited from `pos` tile the rest of the line.
pub proof fn lemma_spans_from_tile(line: Seq<PColor>, mode: Mode, pos: int)
    requires
        0 <= pos,
    ensures
        spans_tile(spans_from(line, mode, pos), line.len() as int),
        forall|k: int|
            0 <= k < spans_from(line, mode, pos).len() ==> pos <= #[trigger] spans_from(
                line,
                mode,
                pos,
            )[k].0,
    decreases line.len() - pos,
{
    lemma_scan_start(line, mode, pos);
    match scan_start(line, mode, pos) {
        None => {},
        Some(p) => {
            let e = span_end(line, mode, p);
            lemma_span_end_bounds(line, mode, p);
            if pos <= e && e + 1 < line.len() {
                lemma_spans_from_tile(line, mode, e + 1);
                let rest = spans_from(line, mode, e + 1);
                let s = spans_from(line, mode, pos);
                assert(s =~= seq![(p, e)] + rest);
                assert forall|k: int, j: int| 0 <= k < j < s.len() implies #[trigger] s[k].1
                    < #[trigger] s[j].0 by {
                    if k > 0 {
                        assert(s[k] == rest[k - 1] && s[j] == rest[j - 1]);
                    } else {
                        assert(s[j] == rest[j - 1]);
                    }
                }
                assert forall|k: int| 0 <= k < s.len() implies 0 <= #[trigger] s[k].0 <= s[k].1
                    < line.len() && pos <= s[k].0 by {
                    if k > 0 {
                        assert(s[k] == rest[k - 1]);
                    }
                }
            }
        },
    }
}

/// The spans of a line lie inside it, in increasing order, without overlap: each
/// position of the line is in one span at most, and every other position is a
/// pixel between spans.
pub proof fn lemma_line_spans_tile(line: Seq<PColor>, mode: Mode)
    ensures
        spans_tile(line_spans(line, mode), line.len() as int),
        forall|i: int, k: int, j: int|
            #![trigger in_span(i, line_spans(line, mode)[k]), in_span(i, line_spans(line, mode)[j])]
            0 <= i < line.len() && 0 <= k < line_spans(line, mode).len() && 0 <= j
                < line_spans(line, mode).len() && in_span(i, line_spans(line, mode)[k]) && in_span(
                i,
                line_spans(line, mode)[j],
            ) ==> k == j,
{
    if line.len() >= 2 {
        lemma_spans_from_tile(line, mode, 0);
    }
    let s = line_spans(line, mode);
    assert forall|i: int, k: int, j: int|
        #![trigger in_span(i, s[k]), in_span(i, s[j])]
        0 <= i < line.len() && 0 <= k < s.len() && 0 <= j < s.len() && in_span(i, s[k]) && in_span(
            i,
            s[j],
        ) implies k == j by {
        if k < j {
            assert(s[k].1 < s[j].0);
        } else if j < k {
            assert(s[j].1 < s[k].0);
        }
    }
}

/// Sorting the segment `[start, end]` changes nothing outside it.
pub proof fn lemma_sort_segment(s: Seq<PColor>, start: int, end: int)
    requires
        0 <= start <= end < s.len(),
    ensures
        sort_segment(s, start, end).len() == s.len(),
        forall|q: int|
            0 <= q < s.len() && !(start <= q <= end) ==> #[trigger] sort_segment(s, start, end)[q]
                == s[q],
        sort_segment(s, start, end).subrange(start, end + 1) == sorted_colors(
            s.subrange(start, end + 1),
        ),
{
    lemma_sorted_colors(s.subrange(start, end + 1));
    let r = sort_segment(s, start, end);
    assert(r.subrange(start, end + 1) =~= sorted_colors(s.subrange(start, end + 1)));
}

/// After the listed spans are sorted, each span holds the sorted version of what
/// it held, and every position outside all of them holds what it held.
pub proof fn lemma_apply_spans(line: Seq<PColor>, spans: Seq<(int, int)>)
    requires
        spans_tile(spans, line.len() as int),
    ensures
        apply_spans(line, spans).len() == line.len(),
        forall|q: int|
            0 <= q < line.len() && (forall|k: int| 0 <= k < spans.len() ==> !in_span(q, #[trigger] spans[k]))
                ==> #[trigger] apply_spans(line, spans)[q] == line[q],
        forall|k: int|
            0 <= k < spans.len() ==> apply_spans(line, spans).subrange(
                #[trigger] spans[k].0,
                spans[k].1 + 1,
            ) == sorted_colors(line.subrange(spans[k].0, spans[k].1 + 1)),
    decreases spans.len(),
{
    if spans.len() > 0 {
        let init = spans.drop_last();
        let (a, e) = spans.last();
        assert(spans_tile(init, line.len() as int)) by {
            assert forall|k: int| 0 <= k < init.len() implies 0 <= #[trigger] init[k].0
                <= init[k].1 < line.len() by {
                assert(init[k] == spans[k]);
            }
            assert forall|k: int, j: int| 0 <= k < j < init.len() implies #[trigger] init[k].1
                < #[trigger] init[j].0 by {
                assert(init[k] == spans[k] && init[j] == spans[j]);
            }
        }
        lemma_apply_spans(line, init);
        let prev = apply_spans(line, init);
        assert(spans[spans.len() - 1] == (a, e));
        lemma_sort_segment(prev, a, e);
        let r = apply_spans(line, spans);
        assert forall|q: int|
            0 <= q < line.len() && (forall|k: int| 0 <= k < spans.len() ==> !in_span(q, #[trigger] spans[k]))
            implies #[trigger] r[q] == line[q] by {
            assert(!in_span(q, spans[spans.len() - 1]));
            assert forall|k: int| 0 <= k < init.len() implies !in_span(q, #[trigger] init[k]) by {
                assert(init[k] == spans[k]);
            }
        }
        // the last span lies after all earlier ones, so they left it as it was
        assert(prev.subrange(a, e + 1) =~= line.subrange(a, e + 1)) by {
            assert forall|q: int| a <= q <= e implies prev[q] == line[q] by {
                assert forall|k: int| 0 <= k < init.len() implies !in_span(q, #[trigger] init[k]) by {
                    assert(init[k] == spans[k]);
                    assert(spans[k].1 < spans[spans.len() - 1].0);
                }
            }
        }
        assert forall|k: int| 0 <= k < spans.len() implies r.subrange(
            #[trigger] spans[k].0,
            spans[k].1 + 1,
        ) == sorted_colors(line.subrange(spans[k].0, spans[k].1 + 1)) by {
            if k < spans.len() - 1 {
                let (b, f) = spans[k];
                assert(init[k] == spans[k]);
                assert(f < a);
                assert(r.subrange(b, f + 1) =~= prev.subrange(b, f + 1));
            }
        }
    }
}

/// Every color of the line is fully opaque.
pub open spec fn all_opaque(line: Seq<PColor>) -> bool {
    forall|i: int| 0 <= i < line.len() ==> #[trigger] line[i].alpha == 255
}

/// Sorting a line keeps its length, and keeps it opaque when it was.
pub proof fn lemma_sorted_line_shape(line: Seq<PColor>, mode: Mode)
    ensures
        sorted_line(line, mode).len() == line.len(),
        all_opaque(line) ==> all_opaque(sorted_line(line, mode)),
{
    broadcast use vstd::seq_lib::group_to_multiset_ensures;

    let spans = line_spans(line, mode);
    lemma_line_spans_tile(line, mode);
    lemma_apply_spans(line, spans);
    let r = sorted_line(line, mode);
    if all_opaque(line) {
        assert forall|q: int| 0 <= q < r.len() implies #[trigger] r[q].alpha == 255 by {
            if exists|k: int| 0 <= k < spans.len() && in_span(q, #[trigger] spans[k]) {
                let k = choose|k: int| 0 <= k < spans.len() && in_span(q, #[trigger] spans[k]);
                let (a, e) = spans[k];
                let seg = line.subrange(a, e + 1);
                lemma_sorted_colors(seg);
                assert(r.subrange(a, e + 1)[q - a] == r[q]);
                assert(sorted_colors(seg).to_multiset().count(r[q]) > 0);
                assert(seg.contains(r[q]));
            }
        }
    }
}

/// Sorts the part `[start, end]` of `line`: its pixels are read out in order,
/// sorted, and written back in place.
fn sort_span(line: &mut Vec<PColor>, start: usize, end: usize)
    requires
        start <= end < old(line).len(),
    ensures
        final(line)@ == sort_segment(old(line)@, start as int, end as int),
{
    let mut seg: Vec<PColor> = Vec::new();
    let mut i = start;
    while i <= end
        invariant
            start <= i <= end + 1,
            end < line.len(),
            seg@ == line@.subrange(start as int, i as int),
        decreases end + 1 - i,
    {
        seg.push(line[i]);
        i += 1;
    }
    let ghost before = line@;
    sort_colors(&mut seg);
    proof {
        lemma_sorted_colors(before.subrange(start as int, end + 1));
    }
    let mut k: usize = 0;
    let len = seg.len();
    while k < len
        invariant
            k <= len,
            len == seg.len(),
            len == end + 1 - start,
            end < line.len(),
            line.len() == before.len(),
            seg@ == sorted_colors(before.subrange(start as int, end + 1)),
            forall|q: int| 0 <= q < line.len() && !(start <= q < start + k) ==> line@[q] == before[q],
            forall|q: int| start <= q < start + k ==> line@[q] == seg@[q - start],
        decreases len - k,
    {
        line.set(start + k, seg[k]);
        k += 1;
    }
    proof {
        let r = sort_segment(before, start as int, end as int);
        lemma_sort_segment(before, start as int, end as int);
        assert forall|q: int| 0 <= q < line.len() implies line@[q] == r[q] by {
            if start <= q <= end {
                assert(r.subrange(start as int, end + 1)[q - start] == r[q]);
            }
        }
        assert(line@ =~= r);
    }
}

/// Sorts every span of `line` under `mode`.
///
/// From the start of the line, the next span is searched for, its pixels are
/// sorted, and the search resumes after it, until a span reaches the last pixel
/// or no further span opens.
pub fn sort_line(line: &mut Vec<PColor>, mode: &Mode)
    ensures
        final(line)@ == sorted_line(old(line)@, *mode),
{
    let n = line.len();
    let ghost orig = line@;
    let ghost mut done: Seq<(int, int)> = seq![];
    let mut pos: usize = 0;
    let mut pos_end: usize = 0;
    while pos_end + 1 < n
        invariant
            line.len() == n,
            orig.len() == n,
            (pos == 0 && pos_end == 0) || pos == pos_end + 1,
            pos <= n,
            line@ == apply_spans(orig, done),
            forall|q: int| pos <= q < n ==> line@[q] == orig[q],
            line_spans(orig, *mode) == done + (if pos_end + 1 < n {
                spans_from(orig, *mode, pos as int)
            } else {
                seq![]
            }),
        ensures
            line@ == apply_spans(orig, line_spans(orig, *mode)),
        decreases n - pos,
    {
        proof {
            lemma_scan_suffix(line@, orig, *mode, pos as int);
            lemma_scan_start(orig, *mode, pos as int);
        }
        let p = match find_span_start(line, pos, mode) {
            Some(p) => p,
            None => {
                assert(line_spans(orig, *mode) =~= done);
                break;
            },
        };
        let e = find_span_end(line, p, mode);
        proof {
            lemma_scan_suffix(line@, orig, *mode, p + 1);
            lemma_span_end_bounds(orig, *mode, p as int);
            assert(e as int == span_end(orig, *mode, p as int));
            let rest = if e + 1 < n {
                spans_from(orig, *mode, e + 1)
            } else {
                seq![]
            };
            assert(spans_from(orig, *mode, pos as int) == seq![(p as int, e as int)] + rest);
            assert(done.push((p as int, e as int)).drop_last() =~= done);
            assert(line_spans(orig, *mode) =~= done.push((p as int, e as int)) + rest);
            lemma_sort_segment(line@, p as int, e as int);
            done = done.push((p as int, e as int));
        }
        sort_span(line, p, e);
        pos = e + 1;
        pos_end = e;
    }
}

} // verus!
