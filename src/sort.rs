use vstd::prelude::*;

use crate::buffer::{column, grid_of, height_of, image_dimensions, width_of, Image};
use crate::color::{opaque, PColor};
use crate::line_sorter::{all_opaque, lemma_sorted_line_shape, sort_line, sorted_line};
use crate::options::{Direction, Mode, Options, DEFAULT_BRIGHTNESS};

verus! {

/// Every row of the grid sorted.
pub open spec fn sort_rows(g: Seq<Seq<PColor>>, mode: Mode) -> Seq<Seq<PColor>> {
    Seq::new(g.len(), |y: int| sorted_line(g[y], mode))
}

/// Every column of a grid `w` wide sorted.
pub open spec fn sort_columns(g: Seq<Seq<PColor>>, w: nat, mode: Mode) -> Seq<Seq<PColor>> {
    Seq::new(g.len(), |y: int| Seq::new(w, |x: int| sorted_line(column(g, x), mode)[y]))
}

/// A grid `w` wide after a sort with `options`: its columns first, when the
/// direction takes columns, then its rows, when it takes rows.
pub open spec fn sorted_grid(g: Seq<Seq<PColor>>, w: nat, options: Options) -> Seq<Seq<PColor>> {
    let after_columns = if options.direction.has_column() {
        sort_columns(g, w, options.mode)
    } else {
        g
    };
    if options.direction.has_row() {
        sort_rows(after_columns, options.mode)
    } else {
        after_columns
    }
}

/// A grid `w` wide with its columns before `col` sorted.
pub open spec fn columns_sorted_before(g: Seq<Seq<PColor>>, w: nat, col: int, mode: Mode) -> Seq<
    Seq<PColor>,
> {
    Seq::new(
        g.len(),
        |y: int|
            Seq::new(
                w,
                |x: int|
                    if x < col {
                        sorted_line(column(g, x), mode)[y]
                    } else {
                        g[y][x]
                    },
            ),
    )
}

/// A grid with its rows before `row` sorted.
pub open spec fn rows_sorted_before(g: Seq<Seq<PColor>>, row: int, mode: Mode) -> Seq<
    Seq<PColor>,
> {
    Seq::new(
        g.len(),
        |y: int|
            if y < row {
                sorted_line(g[y], mode)
            } else {
                g[y]
            },
    )
}

/// Every row of the grid is `w` long and fully opaque.
pub open spec fn grid_shape(g: Seq<Seq<PColor>>, w: nat) -> bool {
    forall|y: int| 0 <= y < g.len() ==> (#[trigger] g[y]).len() == w && all_opaque(g[y])
}

proof fn lemma_grid_shape(img: Image)
    ensures
        grid_shape(grid_of(img), width_of(img)),
        grid_of(img).len() == height_of(img),
{
}

/// Overwrites row `y` with the opaque colors of `line`.
fn write_row(img: &mut Image, y: u32, line: &Vec<PColor>)
    requires
        y < height_of(*old(img)),
        line@.len() == width_of(*old(img)),
        all_opaque(line@),
    ensures
        image_dimensions(*final(img)) == image_dimensions(*old(img)),
        grid_of(*final(img)) == grid_of(*old(img)).update(y as int, line@),
{
    let ghost g0 = grid_of(*img);
    let w = img.width();
    let mut x: u32 = 0;
    proof {
        assert(line@.subrange(0, 0) + g0[y as int].subrange(0, w as int) =~= g0[y as int]);
        assert(g0.update(y as int, g0[y as int]) =~= g0);
    }
    while x < w
        invariant
            w == width_of(*img),
            y < height_of(*img),
            x <= w,
            line@.len() == w,
            all_opaque(line@),
            image_dimensions(*img) == image_dimensions(*old(img)),
            g0 == grid_of(*old(img)),
            grid_of(*img) == g0.update(
                y as int,
                line@.subrange(0, x as int) + g0[y as int].subrange(x as int, w as int),
            ),
        decreases w - x,
    {
        let c = line[x as usize];
        proof {
            assert(line@[x as int].alpha == 255);
        }
        img.set_color(x, y, c);
        proof {
            assert(opaque(c.red, c.green, c.blue) == c);
            assert(line@.subrange(0, x + 1) + g0[y as int].subrange(x + 1, w as int)
                =~= (line@.subrange(0, x as int) + g0[y as int].subrange(x as int, w as int)).update(
                x as int,
                c,
            ));
            assert(grid_of(*img) =~= g0.update(
                y as int,
                line@.subrange(0, x + 1) + g0[y as int].subrange(x + 1, w as int),
            ));
        }
        x += 1;
    }
    proof {
        assert(line@.subrange(0, w as int) + g0[y as int].subrange(w as int, w as int) =~= line@);
    }
}

/// Grid `g` with column `x` replaced by `c`.
pub open spec fn set_column(g: Seq<Seq<PColor>>, x: int, c: Seq<PColor>) -> Seq<Seq<PColor>> {
    Seq::new(g.len(), |y: int| g[y].update(x, c[y]))
}

/// Overwrites column `x` with the opaque colors of `line`.
fn write_column(img: &mut Image, x: u32, line: &Vec<PColor>)
    requires
        x < width_of(*old(img)),
        line@.len() == height_of(*old(img)),
        all_opaque(line@),
    ensures
        image_dimensions(*final(img)) == image_dimensions(*old(img)),
        grid_of(*final(img)) == set_column(grid_of(*old(img)), x as int, line@),
{
    let ghost g0 = grid_of(*img);
    let h = img.height();
    let mut y: u32 = 0;
    while y < h
        invariant
            h == height_of(*img),
            x < width_of(*img),
            y <= h,
            line@.len() == h,
            all_opaque(line@),
            image_dimensions(*img) == image_dimensions(*old(img)),
            g0 == grid_of(*old(img)),
            grid_of(*img) == Seq::new(
                g0.len(),
                |j: int|
                    if j < y {
                        g0[j].update(x as int, line@[j])
                    } else {
                        g0[j]
                    },
            ),
        decreases h - y,
    {
        let c = line[y as usize];
        proof {
            assert(line@[y as int].alpha == 255);
        }
        img.set_color(x, y, c);
        proof {
            assert(opaque(c.red, c.green, c.blue) == c);
            assert(grid_of(*img) =~= Seq::new(
                g0.len(),
                |j: int|
                    if j < y + 1 {
                        g0[j].update(x as int, line@[j])
                    } else {
                        g0[j]
                    },
            ));
        }
        y += 1;
    }
    proof {
        assert(grid_of(*img) =~= set_column(g0, x as int, line@));
    }
}

/// Sorts the spans of row `y`.
pub fn sort_row(img: &mut Image, y: u32, options: &Options)
    requires
        y < height_of(*old(img)),
    ensures
        image_dimensions(*final(img)) == image_dimensions(*old(img)),
        grid_of(*final(img)) == grid_of(*old(img)).update(
            y as int,
            sorted_line(grid_of(*old(img))[y as int], options.mode),
        ),
{
    let mut line = img.row(y);
    proof {
        lemma_grid_shape(*img);
        lemma_sorted_line_shape(line@, options.mode);
    }
    sort_line(&mut line, &options.mode);
    write_row(img, y, &line);
}

/// Sorts the spans of column `x`.
pub fn sort_column(img: &mut Image, x: u32, options: &Options)
    requires
        x < width_of(*old(img)),
    ensures
        image_dimensions(*final(img)) == image_dimensions(*old(img)),
        grid_of(*final(img)) == set_column(
            grid_of(*old(img)),
            x as int,
            sorted_line(column(grid_of(*old(img)), x as int), options.mode),
        ),
{
    let mut line = img.column(x);
    proof {
        lemma_grid_shape(*img);
        assert(all_opaque(line@));
        lemma_sorted_line_shape(line@, options.mode);
    }
    sort_line(&mut line, &options.mode);
    write_column(img, x, &line);
}

/// Sorts the pixels of the image with the given options: every column, when the
/// direction takes columns, then every row, when it takes rows.
pub fn sort_with_options(img: &mut Image, options: &Options)
    ensures
        image_dimensions(*final(img)) == image_dimensions(*old(img)),
        grid_of(*final(img)) == sorted_grid(grid_of(*old(img)), width_of(*old(img)), *options),
{
    let ghost g0 = grid_of(*img);
    let w = img.width();
    let h = img.height();
    let mode = options.mode;
    proof {
        lemma_grid_shape(*img);
        let start = columns_sorted_before(g0, w as nat, 0, mode);
        assert forall|y: int| 0 <= y < g0.len() implies g0[y] =~= start[y] by {}
        assert(g0 =~= start);
    }
    if options.direction.has_column() {
        let mut col: u32 = 0;
        while col < w
            invariant
                w == width_of(*img),
                h == height_of(*img),
                col <= w,
                image_dimensions(*img) == image_dimensions(*old(img)),
                g0 == grid_of(*old(img)),
                mode == options.mode,
                grid_of(*img) == columns_sorted_before(g0, w as nat, col as int, mode),
            decreases w - col,
        {
            let ghost before = grid_of(*img);
            proof {
                assert(column(before, col as int) =~= column(g0, col as int));
            }
            sort_column(img, col, options);
            proof {
                lemma_sorted_line_shape(column(g0, col as int), mode);
                let next = columns_sorted_before(g0, w as nat, col + 1, mode);
                assert forall|y: int| 0 <= y < g0.len() implies grid_of(*img)[y] =~= next[y] by {}
                assert(grid_of(*img) =~= next);
            }
            col += 1;
        }
        proof {
            let all = sort_columns(g0, w as nat, mode);
            assert forall|y: int| 0 <= y < g0.len() implies grid_of(*img)[y] =~= all[y] by {}
            assert(grid_of(*img) =~= all);
        }
    }
    let ghost g1 = grid_of(*img);
    proof {
        assert(g1 =~= rows_sorted_before(g1, 0, mode));
    }
    if options.direction.has_row() {
        let mut row: u32 = 0;
        while row < h
            invariant
                w == width_of(*img),
                h == height_of(*img),
                row <= h,
                g1.len() == h,
                image_dimensions(*img) == image_dimensions(*old(img)),
                mode == options.mode,
                grid_of(*img) == rows_sorted_before(g1, row as int, mode),
            decreases h - row,
        {
            sort_row(img, row, options);
            proof {
                assert(grid_of(*img) =~= rows_sorted_before(g1, row + 1, mode));
            }
            row += 1;
        }
        proof {
            assert(grid_of(*img) =~= sort_rows(g1, mode));
        }
    }
}

/// Sorts the pixels of the image with the default options: brightness mode with
/// threshold `60`, columns then rows.
pub fn sort(img: &mut Image)
    ensures
        image_dimensions(*final(img)) == image_dimensions(*old(img)),
        grid_of(*final(img)) == sorted_grid(
            grid_of(*old(img)),
            width_of(*old(img)),
            Options { mode: Mode::Brightness(DEFAULT_BRIGHTNESS), direction: Direction::Both },
        ),
{
    sort_with_options(img, &Options::default());
}

} // verus!
