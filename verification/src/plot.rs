//! Character grids for text plots: an empty canvas, its axes, and the cells of
//! a data series.

use vstd::prelude::*;

verus! {

/// The characters of `grid`, row by row.
pub open spec fn cells(grid: Seq<Vec<char>>) -> Seq<Seq<char>> {
    grid.map_values(|row: Vec<char>| row@)
}

/// A grid of `height` rows of `width` spaces each.
pub fn make_plot(width: usize, height: usize) -> (grid: Vec<Vec<char>>)
    ensures
        grid@.len() == height,
        forall|r: int| 0 <= r < height ==> #[trigger] grid@[r]@ == Seq::new(width as nat, |c: int| ' '),
{
    let mut grid: Vec<Vec<char>> = Vec::new();
    for r in 0..height
        invariant
            grid@.len() == r,
            forall|q: int| 0 <= q < r ==> #[trigger] grid@[q]@ == Seq::new(width as nat, |c: int| ' '),
    {
        let mut row: Vec<char> = Vec::new();
        for c in 0..width
            invariant
                row@ == Seq::new(c as nat, |k: int| ' '),
        {
            row.push(' ');
            assert(row@ =~= Seq::new((c + 1) as nat, |k: int| ' '));
        }
        grid.push(row);
    }
    grid
}

/// What `draw_axes` leaves at row `r`, column `c` of a grid of `h` rows whose
/// first row is `w` wide, where `old` was before: the corner `+` bottom left,
/// `-` along the bottom row, `|` down the left column.
pub open spec fn axes_cell(old: char, r: int, c: int, w: int, h: int) -> char {
    if r == h - 1 && c == 0 {
        '+'
    } else if r == h - 1 && c < w {
        '-'
    } else if c == 0 {
        '|'
    } else {
        old
    }
}

/// Draws the axes: `|` down the first column, `-` along the last row as far as
/// the first row is wide, and `+` where they meet.
pub fn draw_axes(grid: &mut Vec<Vec<char>>)
    requires
        old(grid)@.len() > 0,
        forall|r: int| 0 <= r < old(grid)@.len() ==> #[trigger] old(grid)@[r]@.len() > 0,
        old(grid)@[old(grid)@.len() - 1]@.len() >= old(grid)@[0]@.len(),
    ensures
        final(grid)@.len() == old(grid)@.len(),
        forall|r: int|
            0 <= r < final(grid)@.len() ==> #[trigger] final(grid)@[r]@.len() == old(grid)@[r]@.len(),
        forall|r: int, c: int|
            0 <= r < final(grid)@.len() && 0 <= c < final(grid)@[r]@.len() ==> #[trigger] final(grid)@[r]@[c] == axes_cell(
                old(grid)@[r]@[c],
                r,
                c,
                old(grid)@[0]@.len() as int,
                old(grid)@.len() as int,
            ),
        final(grid)@[final(grid)@.len() - 1]@[0] == '+',
        forall|c: int|
            1 <= c < old(grid)@[0]@.len() ==> #[trigger] final(grid)@[final(grid)@.len() - 1]@[c] == '-',
        forall|r: int| 0 <= r < final(grid)@.len() - 1 ==> #[trigger] final(grid)@[r]@[0] == '|',
        forall|r: int, c: int|
            0 <= r < final(grid)@.len() && 0 < c < final(grid)@[r]@.len() && (r < final(grid)@.len() - 1
                || c >= old(grid)@[0]@.len()) ==> #[trigger] final(grid)@[r]@[c] == old(grid)@[r]@[c],
{
    let h: usize = grid.len();
    let w: usize = grid[0].len();
    let ghost g0 = cells(old(grid)@);
    for r in 0..h
        invariant
            h == grid@.len(),
            h == g0.len(),
            w == g0[0].len(),
            forall|q: int| 0 <= q < h ==> #[trigger] grid@[q]@.len() == g0[q].len(),
            forall|q: int| 0 <= q < h ==> #[trigger] g0[q].len() > 0,
            forall|q: int, c: int|
                0 <= q < h && 0 <= c < g0[q].len() ==> #[trigger] grid@[q]@[c] == (if c == 0 && q < r {
                    '|'
                } else {
                    g0[q][c]
                }),
    {
        grid[r][0] = '|';
    }
    for c in 0..w
        invariant
            h == grid@.len(),
            h == g0.len(),
            h > 0,
            w == g0[0].len(),
            g0[h - 1].len() >= w,
            forall|q: int| 0 <= q < h ==> #[trigger] grid@[q]@.len() == g0[q].len(),
            forall|q: int, k: int|
                0 <= q < h && 0 <= k < g0[q].len() ==> #[trigger] grid@[q]@[k] == (if q == h - 1 && k
                    < c {
                    '-'
                } else if k == 0 {
                    '|'
                } else {
                    g0[q][k]
                }),
    {
        grid[h - 1][c] = '-';
    }
    grid[h - 1][0] = '+';
    proof {
        assert forall|c: int| 1 <= c < w implies #[trigger] grid@[h - 1]@[c] == '-' by {
            assert(grid@[h - 1]@[c] == axes_cell(g0[h - 1][c], h - 1, c, w as int, h as int));
        }
        assert forall|r: int| 0 <= r < h - 1 implies #[trigger] grid@[r]@[0] == '|' by {
            assert(grid@[r]@[0] == axes_cell(g0[r][0], r, 0, w as int, h as int));
        }
    }
}

/// The axes that `draw_axes` leaves on a grid of `h >= 1` rows whose first row
/// is `w` wide: `+` at the bottom-left corner, `-` in every other bottom-row
/// column left of `w` (however many rows there are), `|` in the first column
/// of every other row, and every remaining cell as it was.
pub proof fn lemma_axes_layout(old: char, r: int, c: int, w: int, h: int)
    requires
        h >= 1,
        0 <= r < h,
        0 <= c,
    ensures
        r == h - 1 && c == 0 ==> axes_cell(old, r, c, w, h) == '+',
        r == h - 1 && 1 <= c < w ==> axes_cell(old, r, c, w, h) == '-',
        r < h - 1 && c == 0 ==> axes_cell(old, r, c, w, h) == '|',
        c > 0 && (r < h - 1 || c >= w) ==> axes_cell(old, r, c, w, h) == old,
{
}

/// The row that a point `up` rows above the bottom of a grid of `h` rows lands
/// on; a point above the top lands on the top row.
pub open spec fn plot_row(h: int, up: int) -> int {
    if up <= h - 1 {
        h - 1 - up
    } else {
        0
    }
}

/// Whether one of `points`, each a column and a height above the bottom row,
/// lands on row `r`, column `c` of a grid of `h` rows whose first row is `w`
/// wide; points at a column `w` or beyond are dropped.
pub open spec fn plotted(points: Seq<(usize, usize)>, w: int, h: int, r: int, c: int) -> bool {
    exists|k: int|
        #![trigger points[k]]
        0 <= k < points.len() && points[k].0 < w && points[k].0 == c && plot_row(h, points[k].1 as int)
            == r
}

/// Marks with `ch` the cell of each of `points` (a column, and a height in rows
/// above the bottom row) whose column lies within the first row's width;
/// every other cell is left as it was.
pub fn plot_points(grid: &mut Vec<Vec<char>>, points: &Vec<(usize, usize)>, ch: char)
    requires
        old(grid)@.len() > 0,
        forall|k: int|
            0 <= k < points@.len() && #[trigger] points@[k].0 < old(grid)@[0]@.len() ==> points@[k].0
                < old(grid)@[plot_row(old(grid)@.len() as int, points@[k].1 as int)]@.len(),
    ensures
        final(grid)@.len() == old(grid)@.len(),
        forall|r: int|
            0 <= r < final(grid)@.len() ==> #[trigger] final(grid)@[r]@.len() == old(grid)@[r]@.len(),
        forall|r: int, c: int|
            0 <= r < final(grid)@.len() && 0 <= c < final(grid)@[r]@.len() ==> #[trigger] final(grid)@[r]@[c]
                == (if plotted(points@, old(grid)@[0]@.len() as int, old(grid)@.len() as int, r, c) {
                ch
            } else {
                old(grid)@[r]@[c]
            }),
        forall|k: int|
            0 <= k < points@.len() && #[trigger] points@[k].0 < old(grid)@[0]@.len() ==> final(grid)@[if points@[k].1
                < old(grid)@.len() {
                old(grid)@.len() - 1 - points@[k].1
            } else {
                0
            }]@[points@[k].0 as int] == ch,
        forall|r: int, c: int|
            0 <= r < final(grid)@.len() && 0 <= c < final(grid)@[r]@.len() && #[trigger] final(grid)@[r]@[c]
                != old(grid)@[r]@[c] ==> final(grid)@[r]@[c] == ch && exists|k: int|
                0 <= k < points@.len() && #[trigger] points@[k].0 == c && c < old(grid)@[0]@.len() && r == (
                if points@[k].1 < old(grid)@.len() {
                    old(grid)@.len() - 1 - points@[k].1
                } else {
                    0
                }),
{
    let ghost g0 = cells(old(grid)@);
    let w: usize = grid[0].len();
    let h: usize = grid.len();
    for i in 0..points.len()
        invariant
            h == grid@.len(),
            h == g0.len(),
            h > 0,
            w == g0[0].len(),
            forall|q: int| 0 <= q < h ==> #[trigger] grid@[q]@.len() == g0[q].len(),
            forall|k: int|
                0 <= k < points@.len() && #[trigger] points@[k].0 < w ==> points@[k].0 < g0[plot_row(
                    h as int,
                    points@[k].1 as int,
                )].len(),
            forall|q: int, c: int|
                0 <= q < h && 0 <= c < g0[q].len() ==> #[trigger] grid@[q]@[c] == (if plotted(
                    points@.take(i as int),
                    w as int,
                    h as int,
                    q,
                    c,
                ) {
                    ch
                } else {
                    g0[q][c]
                }),
    {
        let (col, up): (usize, usize) = points[i];
        let row: usize = (h - 1).saturating_sub(up);
        proof {
            let before = points@.take(i as int);
            let after = points@.take(i + 1);
            assert(after[i as int] == points@[i as int]);
            assert forall|q: int, c: int|
                0 <= q < h && 0 <= c < g0[q].len() implies plotted(after, w as int, h as int, q, c)
                == (plotted(before, w as int, h as int, q, c) || (col < w && col == c
                && plot_row(h as int, up as int) == q)) by {
                if plotted(before, w as int, h as int, q, c) {
                    let k: int = choose|k: int|
                        #![trigger before[k]]
                        0 <= k < before.len() && before[k].0 < w && before[k].0 == c && plot_row(
                            h as int,
                            before[k].1 as int,
                        ) == q;
                    assert(after[k] == before[k]);
                }
                if plotted(after, w as int, h as int, q, c) {
                    let k: int = choose|k: int|
                        #![trigger after[k]]
                        0 <= k < after.len() && after[k].0 < w && after[k].0 == c && plot_row(
                            h as int,
                            after[k].1 as int,
                        ) == q;
                    if k < i {
                        assert(before[k] == after[k]);
                    }
                }
            }
        }
        if col < w && row < h {
            grid[row][col] = ch;
        }
    }
    assert(points@.take(points@.len() as int) =~= points@);
    proof {
        assert forall|k: int|
            0 <= k < points@.len() && #[trigger] points@[k].0 < w implies grid@[plot_row(
                h as int,
                points@[k].1 as int,
            )]@[points@[k].0 as int] == ch by {
            lemma_point_plotted(points@, w as int, h as int, k);
        }
        assert forall|r: int, c: int|
            0 <= r < h && 0 <= c < grid@[r]@.len() && #[trigger] grid@[r]@[c] != g0[r][c] implies grid@[r]@[c]
                == ch && exists|k: int|
                0 <= k < points@.len() && #[trigger] points@[k].0 == c && c < w && r == plot_row(
                    h as int,
                    points@[k].1 as int,
                ) by {
            lemma_plotted_witness(points@, w as int, h as int, r, c);
        }
    }
}

/// Every point whose column lies within the width marks its cell, the row
/// counted `up` rows above the bottom (the top row when `up` reaches past it),
/// whatever the other points are.
pub proof fn lemma_point_plotted(points: Seq<(usize, usize)>, w: int, h: int, k: int)
    requires
        h >= 1,
        0 <= k < points.len(),
        points[k].0 < w,
    ensures
        plotted(
            points,
            w,
            h,
            if points[k].1 < h {
                h - 1 - points[k].1
            } else {
                0
            },
            points[k].0 as int,
        ),
{
}

/// A cell is marked only when some point within the width lands on it.
pub proof fn lemma_plotted_witness(points: Seq<(usize, usize)>, w: int, h: int, r: int, c: int)
    requires
        h >= 1,
        plotted(points, w, h, r, c),
    ensures
        exists|k: int|
            0 <= k < points.len() && #[trigger] points[k].0 == c && c < w && r == (if points[k].1 < h {
                h - 1 - points[k].1
            } else {
                0
            }),
{
    let k: int = choose|k: int|
        #![trigger points[k]]
        0 <= k < points.len() && points[k].0 < w && points[k].0 == c && plot_row(h, points[k].1 as int)
            == r;
    assert(points[k].0 == c);
}

} // verus!
