use vstd::prelude::*;

use crate::buffer::{column, grid_of, height_of, width_of, Image};
use crate::color::{brightness_of, color_le, PColor};
use crate::options::Mode;

verus! {

/// Whether a pixel may open a span: at or above the threshold in black and
/// brightness mode, at or below it in white mode.
pub open spec fn opens_span(mode: Mode, c: PColor) -> bool {
    match mode {
        Mode::Black(t) => color_le(t, c),
        Mode::Brightness(v) => v <= brightness_of(c),
        Mode::White(t) => color_le(c, t),
    }
}

/// Whether a pixel closes the span before it: at or below the threshold in black
/// and brightness mode, at or above it in white mode.
pub open spec fn closes_span(mode: Mode, c: PColor) -> bool {
    match mode {
        Mode::Black(t) => color_le(c, t),
        Mode::Brightness(v) => brightness_of(c) <= v,
        Mode::White(t) => color_le(t, c),
    }
}

/// The first position at or after `i` whose pixel opens a span.
pub open spec fn scan_start(line: Seq<PColor>, mode: Mode, i: int) -> Option<int>
    decreases line.len() - i,
{
    if i < 0 || i >= line.len() {
        None
    } else if opens_span(mode, line[i]) {
        Some(i)
    } else {
        scan_start(line, mode, i + 1)
    }
}

/// The position before the first pixel at or after `i` that closes a span, or the
/// last position of the line when no pixel there closes one.
pub open spec fn scan_end(line: Seq<PColor>, mode: Mode, i: int) -> int
    decreases line.len() - i,
{
    if i < 0 || i >= line.len() {
        line.len() - 1
    } else if closes_span(mode, line[i]) {
        i - 1
    } else {
        scan_end(line, mode, i + 1)
    }
}

/// Where a search for a span from `start` finds one. A start at or past the end of
/// the line is reported as found where it stands.
pub open spec fn span_start(line: Seq<PColor>, mode: Mode, start: int) -> Option<int> {
    if start >= line.len() {
        Some(start)
    } else {
        scan_start(line, mode, start)
    }
}

/// The last position of the span that opens at `start`. A start at or past the last
/// position is returned unchanged.
pub open spec fn span_end(line: Seq<PColor>, mode: Mode, start: int) -> int {
    if start + 1 >= line.len() {
        start
    } else {
        scan_end(line, mode, start + 1)
    }
}

/// An optional position as an optional integer.
pub open spec fn opt_int(o: Option<usize>) -> Option<int> {
    match o {
        Some(p) => Some(p as int),
        None => None,
    }
}

/// What `scan_start` finds is the first opening pixel from `i` on.
pub proof fn lemma_scan_start(line: Seq<PColor>, mode: Mode, i: int)
    requires
        0 <= i,
    ensures
        match scan_start(line, mode, i) {
            Some(p) => {
                &&& i <= p < line.len()
                &&& opens_span(mode, line[p])
                &&& forall|q: int| i <= q < p ==> !opens_span(mode, #[trigger] line[q])
            },
            None => forall|q: int| i <= q < line.len() ==> !opens_span(mode, #[trigger] line[q]),
        },
    decreases line.len() - i,
{
    if i < line.len() && !opens_span(mode, line[i]) {
        lemma_scan_start(line, mode, i + 1);
    }
}

/// What `scan_end` finds is the last pixel before the first closing one from `i` on.
pub proof fn lemma_scan_end(line: Seq<PColor>, mode: Mode, i: int)
    requires
        1 <= i <= line.len(),
    ensures
        i - 1 <= scan_end(line, mode, i) < line.len(),
        forall|q: int| i <= q <= scan_end(line, mode, i) ==> !closes_span(mode, #[trigger] line[q]),
        scan_end(line, mode, i) + 1 < line.len() ==> closes_span(
            mode,
            line[scan_end(line, mode, i) + 1],
        ),
    decreases line.len() - i,
{
    if i < line.len() && !closes_span(mode, line[i]) {
        lemma_scan_end(line, mode, i + 1);
    }
}

/// Scans from `i` see only the pixels from `i` on.
pub proof fn lemma_scan_suffix(a: Seq<PColor>, b: Seq<PColor>, mode: Mode, i: int)
    requires
        0 <= i <= a.len(),
        a.len() == b.len(),
        forall|q: int| i <= q < a.len() ==> a[q] == b[q],
    ensures
        scan_start(a, mode, i) == scan_start(b, mode, i),
        scan_end(a, mode, i) == scan_end(b, mode, i),
    decreases a.len() - i,
{
    if i < a.len() {
        lemma_scan_suffix(a, b, mode, i + 1);
    }
}

/// Whether `c` may open a span under `mode`.
pub fn opens(mode: &Mode, c: &PColor) -> (r: bool)
    ensures
        r == opens_span(*mode, *c),
{
    match mode {
        Mode::Black(t) => t.as_raw() <= c.as_raw(),
        Mode::Brightness(v) => *v <= c.brightness(),
        Mode::White(t) => c.as_raw() <= t.as_raw(),
    }
}

/// Whether `c` closes a span under `mode`.
pub fn closes(mode: &Mode, c: &PColor) -> (r: bool)
    ensures
        r == closes_span(*mode, *c),
{
    match mode {
        Mode::Black(t) => c.as_raw() <= t.as_raw(),
        Mode::Brightness(v) => c.brightness() <= *v,
        Mode::White(t) => t.as_raw() <= c.as_raw(),
    }
}

/// Finds the first position at or after `start` whose pixel opens a span.
///
/// Returns `None` when no such pixel lies before the end of the line, and
/// `Some(start)` when `start` is already at or past the end.
pub fn find_span_start(line: &Vec<PColor>, start: usize, mode: &Mode) -> (r: Option<usize>)
    ensures
        opt_int(r) == span_start(line@, *mode, start as int),
{
    let n = line.len();
    let mut i = start;
    while i < n
        invariant
            n == line.len(),
            start <= i,
            start < n ==> scan_start(line@, *mode, i as int) == scan_start(
                line@,
                *mode,
                start as int,
            ),
        decreases n - i,
    {
        if opens(mode, &line[i]) {
            return Some(i);
        }
        i += 1;
    }
    if start < n {
        None
    } else {
        Some(start)
    }
}

/// Finds the last position of the span that opens at `start`: the position before
/// the first pixel after `start` that closes a span, or the last position of the
/// line when none does. A `start` at or past the last position is returned as is.
pub fn find_span_end(line: &Vec<PColor>, start: usize, mode: &Mode) -> (r: usize)
    ensures
        r as int == span_end(line@, *mode, start as int),
{
    let n = line.len();
    if start >= n || start + 1 >= n {
        return start;
    }
    let mut i = start + 1;
    while i < n
        invariant
            n == line.len(),
            start < i <= n,
            start + 1 < n,
            scan_end(line@, *mode, i as int) == scan_end(line@, *mode, start + 1),
        decreases n - i,
    {
        if closes(mode, &line[i]) {
            return i - 1;
        }
        i += 1;
    }
    n - 1
}

/// An optional pixel coordinate as an optional integer.
pub open spec fn opt_u32(o: Option<u32>) -> Option<int> {
    match o {
        Some(p) => Some(p as int),
        None => None,
    }
}

fn narrow_start(r: Option<usize>, start: u32, n: u32) -> (o: Option<u32>)
    requires
        match r {
            Some(p) => p == start || p < n,
            None => true,
        },
    ensures
        opt_u32(o) == opt_int(r),
{
    match r {
        Some(p) => Some(p as u32),
        None => None,
    }
}

/// Finds the first pixel at or after `x_start` in row `y` that opens a span, as
/// [`find_span_start`] does on that row.
pub fn get_first_x(buf: &Image, x_start: u32, y: u32, mode: &Mode) -> (r: Option<u32>)
    requires
        y < height_of(*buf),
    ensures
        opt_u32(r) == span_start(grid_of(*buf)[y as int], *mode, x_start as int),
{
    let line = buf.row(y);
    let found = find_span_start(&line, x_start as usize, mode);
    proof {
        lemma_scan_start(line@, *mode, x_start as int);
    }
    narrow_start(found, x_start, buf.width())
}

/// Finds the last pixel of the span that opens at `x_start` in row `y`, as
/// [`find_span_end`] does on that row.
pub fn get_next_x(buf: &Image, x_start: u32, y: u32, mode: &Mode) -> (r: u32)
    requires
        y < height_of(*buf),
    ensures
        r as int == span_end(grid_of(*buf)[y as int], *mode, x_start as int),
{
    let line = buf.row(y);
    let end = find_span_end(&line, x_start as usize, mode);
    proof {
        if x_start + 1 < line.len() {
            lemma_scan_end(line@, *mode, x_start + 1);
        }
    }
    end as u32
}

/// Finds the first pixel at or after `y_start` in column `x` that opens a span, as
/// [`find_span_start`] does on that column.
pub fn get_first_y(buf: &Image, x: u32, y_start: u32, mode: &Mode) -> (r: Option<u32>)
    requires
        x < width_of(*buf),
    ensures
        opt_u32(r) == span_start(column(grid_of(*buf), x as int), *mode, y_start as int),
{
    let line = buf.column(x);
    let found = find_span_start(&line, y_start as usize, mode);
    proof {
        lemma_scan_start(line@, *mode, y_start as int);
    }
    narrow_start(found, y_start, buf.height())
}

/// Finds the last pixel of the span that opens at `y_start` in column `x`, as
/// [`find_span_end`] does on that column.
pub fn get_next_y(buf: &Image, x: u32, y_start: u32, mode: &Mode) -> (r: u32)
    requires
        x < width_of(*buf),
    ensures
        r as int == span_end(column(grid_of(*buf), x as int), *mode, y_start as int),
{
    let line = buf.column(x);
    let end = find_span_end(&line, y_start as usize, mode);
    proof {
        if y_start + 1 < line.len() {
            lemma_scan_end(line@, *mode, y_start + 1);
        }
    }
    end as u32
}

} // verus!
