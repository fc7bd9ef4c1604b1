use vstd::prelude::*;

use crate::board::{col_height, heights_of, rows_of, BOARD_HEIGHT, BOARD_WIDTH};

verus! {

/// The integer description of a board after a trial placement. Together with
/// `height_sum` (from which the mean column height follows) it determines the
/// whole feature vector used to score a placement.
#[derive(Clone, Copy, Debug, PartialEq, Eq, Structural)]
pub struct Features {
    pub landing_height: usize,
    pub eroded_piece_cells: usize,
    pub row_transitions: usize,
    pub column_transitions: usize,
    pub holes: usize,
    pub board_wells: usize,
    pub hole_depth: usize,
    pub rows_with_holes: usize,
    pub diversity: usize,
    pub height_sum: usize,
}

/// `f(0) + ... + f(n - 1)`.
pub open spec fn sum(n: int, f: spec_fn(int) -> int) -> int
    decreases n,
{
    if n <= 0 {
        0
    } else {
        sum(n - 1, f) + f(n - 1)
    }
}

pub open spec fn bit(b: bool) -> int {
    if b {
        1
    } else {
        0
    }
}

pub open spec fn abs(a: int) -> int {
    if a < 0 {
        -a
    } else {
        a
    }
}

pub open spec fn min(a: int, b: int) -> int {
    if a <= b {
        a
    } else {
        b
    }
}

/// Cell `i` of a line, where the cells just beyond either end count as occupied.
pub open spec fn edge(s: Seq<bool>, i: int) -> bool {
    if 0 <= i < s.len() {
        s[i]
    } else {
        true
    }
}

pub open spec fn change_terms(s: Seq<bool>) -> spec_fn(int) -> int {
    |i: int| bit(edge(s, i - 1) != edge(s, i))
}

/// Changes of state between neighbouring cells of a line, both walls counting as occupied.
pub open spec fn transitions(s: Seq<bool>) -> int {
    sum(s.len() + 1int, change_terms(s))
}

/// Column `x` of a grid, bottom cell first.
pub open spec fn column(rows: Seq<Seq<bool>>, x: int) -> Seq<bool> {
    Seq::new(BOARD_HEIGHT as nat, |y: int| rows[y][x])
}

pub open spec fn row_transition_terms(rows: Seq<Seq<bool>>) -> spec_fn(int) -> int {
    |y: int| transitions(rows[y])
}

pub open spec fn row_transitions(rows: Seq<Seq<bool>>) -> int {
    sum(BOARD_HEIGHT as int, row_transition_terms(rows))
}

pub open spec fn column_transition_terms(rows: Seq<Seq<bool>>) -> spec_fn(int) -> int {
    |x: int| transitions(column(rows, x))
}

pub open spec fn column_transitions(rows: Seq<Seq<bool>>) -> int {
    sum(BOARD_WIDTH as int, column_transition_terms(rows))
}

pub open spec fn empty_terms(rows: Seq<Seq<bool>>, x: int) -> spec_fn(int) -> int {
    |y: int| bit(!rows[y][x])
}

pub open spec fn hole_terms(rows: Seq<Seq<bool>>) -> spec_fn(int) -> int {
    |x: int| sum(heights_of(rows)[x], empty_terms(rows, x))
}

/// Empty cells below the top of their column.
pub open spec fn holes(rows: Seq<Seq<bool>>) -> int {
    sum(BOARD_WIDTH as int, hole_terms(rows))
}

pub open spec fn depth_terms(rows: Seq<Seq<bool>>, x: int) -> spec_fn(int) -> int {
    |y: int|
        if !rows[y][x] {
            heights_of(rows)[x] - y
        } else {
            0
        }
}

pub open spec fn hole_depth_terms(rows: Seq<Seq<bool>>) -> spec_fn(int) -> int {
    |x: int| sum(heights_of(rows)[x], depth_terms(rows, x))
}

/// For each empty cell below the top of its column, its distance to that top.
pub open spec fn hole_depth(rows: Seq<Seq<bool>>) -> int {
    sum(BOARD_WIDTH as int, hole_depth_terms(rows))
}

pub open spec fn row_has_hole(rows: Seq<Seq<bool>>, y: int) -> bool {
    exists|x: int| 0 <= x < BOARD_WIDTH && #[trigger] rows[y][x] == false && heights_of(rows)[x] > y
}

pub open spec fn holed_row_terms(rows: Seq<Seq<bool>>) -> spec_fn(int) -> int {
    |y: int| bit(row_has_hole(rows, y))
}

/// Rows holding an empty cell below the top of its column.
pub open spec fn rows_with_holes(rows: Seq<Seq<bool>>) -> int {
    sum(BOARD_HEIGHT as int, holed_row_terms(rows))
}

/// How deep column `x` sits below its neighbours; a column at the edge of the
/// board is compared with its one neighbour.
pub open spec fn well(h: Seq<int>, x: int) -> int {
    let cur = h[x];
    let left = if x > 0 {
        h[x - 1]
    } else {
        h[x + 1]
    };
    let right = if x + 1 < BOARD_WIDTH {
        h[x + 1]
    } else {
        h[x - 1]
    };
    if cur < left && cur < right {
        min(left, right) - cur
    } else {
        0
    }
}

pub open spec fn well_terms(h: Seq<int>) -> spec_fn(int) -> int {
    |x: int| well(h, x)
}

pub open spec fn board_wells(rows: Seq<Seq<bool>>) -> int {
    sum(BOARD_WIDTH as int, well_terms(heights_of(rows)))
}

pub open spec fn step_terms(h: Seq<int>) -> spec_fn(int) -> int {
    |x: int| abs(h[x + 1] - h[x])
}

/// Sum of the height differences of neighbouring columns.
pub open spec fn diversity(rows: Seq<Seq<bool>>) -> int {
    sum(BOARD_WIDTH - 1int, step_terms(heights_of(rows)))
}

pub open spec fn height_terms(h: Seq<int>) -> spec_fn(int) -> int {
    |x: int| h[x]
}

pub open spec fn height_sum(rows: Seq<Seq<bool>>) -> int {
    sum(BOARD_WIDTH as int, height_terms(heights_of(rows)))
}

impl Features {
    /// These are the features of grid `rows`, for a piece whose top cell landed
    /// in row `landing` and which loses `eroded` cell-rows to clearing.
    pub open spec fn describe(self, rows: Seq<Seq<bool>>, landing: int, eroded: int) -> bool {
        &&& self.landing_height == landing
        &&& self.eroded_piece_cells == eroded
        &&& self.row_transitions == row_transitions(rows)
        &&& self.column_transitions == column_transitions(rows)
        &&& self.holes == holes(rows)
        &&& self.board_wells == board_wells(rows)
        &&& self.hole_depth == hole_depth(rows)
        &&& self.rows_with_holes == rows_with_holes(rows)
        &&& self.diversity == diversity(rows)
        &&& self.height_sum == height_sum(rows)
    }
}

pub open spec fn heights_exact(g: [[bool; BOARD_WIDTH]; BOARD_HEIGHT], h: [usize; BOARD_WIDTH]) -> bool {
    forall|x: int|
        0 <= x < BOARD_WIDTH ==> #[trigger] h[x] == col_height(rows_of(g), x, BOARD_HEIGHT as int)
}

proof fn lemma_height_bound(g: [[bool; BOARD_WIDTH]; BOARD_HEIGHT], h: [usize; BOARD_WIDTH], x: int)
    requires
        heights_exact(g, h),
        0 <= x < BOARD_WIDTH,
    ensures
        h[x] <= BOARD_HEIGHT,
        heights_of(rows_of(g))[x] == h[x],
{
    crate::board::lemma_col_height_bound(rows_of(g), x, BOARD_HEIGHT as int);
}

/// Changes of state along a line of cells, both walls counting as occupied.
fn line_transitions(cells: &[bool]) -> (n: usize)
    requires
        cells@.len() <= BOARD_HEIGHT,
    ensures
        n == transitions(cells@),
        n <= BOARD_HEIGHT + 1,
{
    let ghost s = cells@;
    let mut prev = true;
    let mut n: usize = 0;
    for i in 0..cells.len()
        invariant
            s == cells@,
            s.len() <= BOARD_HEIGHT,
            prev == edge(s, i - 1),
            n == sum(i as int, change_terms(s)),
            n <= i,
    {
        let cur = cells[i];
        if cur != prev {
            n += 1;
        }
        prev = cur;
    }
    if !prev {
        n += 1;
    }
    n
}


fn count_row_transitions(g: &[[bool; BOARD_WIDTH]; BOARD_HEIGHT]) -> (n: usize)
    ensures
        n == row_transitions(rows_of(*g)),
        n <= BOARD_HEIGHT * (BOARD_HEIGHT + 1),
{
    let ghost rows = rows_of(*g);
    let mut n: usize = 0;
    for y in 0..BOARD_HEIGHT
        invariant
            rows == rows_of(*g),
            n == sum(y as int, row_transition_terms(rows)),
            n <= y * 16,
    {
        let row = g[y];
        let cells = row.as_slice();
        assert(cells@ == rows[y as int]);
        let t = line_transitions(cells);
        n += t;
    }
    n
}

fn count_column_transitions(g: &[[bool; BOARD_WIDTH]; BOARD_HEIGHT]) -> (n: usize)
    ensures
        n == column_transitions(rows_of(*g)),
        n <= BOARD_WIDTH * (BOARD_HEIGHT + 1),
{
    let ghost rows = rows_of(*g);
    let mut n: usize = 0;
    for x in 0..BOARD_WIDTH
        invariant
            rows == rows_of(*g),
            n == sum(x as int, column_transition_terms(rows)),
            n <= x * 16,
    {
        let mut col = [false; BOARD_HEIGHT];
        for y in 0..BOARD_HEIGHT
            invariant
                x < BOARD_WIDTH,
                rows == rows_of(*g),
                forall|j: int| 0 <= j < y ==> col@[j] == rows[j][x as int],
        {
            col[y] = g[y][x];
        }
        assert(col@ =~= column(rows, x as int));
        let cells = col.as_slice();
        assert(cells@ == column(rows, x as int));
        let t = line_transitions(cells);
        n += t;
    }
    n
}

fn count_holes(g: &[[bool; BOARD_WIDTH]; BOARD_HEIGHT], h: &[usize; BOARD_WIDTH]) -> (n: usize)
    requires
        heights_exact(*g, *h),
    ensures
        n == holes(rows_of(*g)),
        n <= BOARD_WIDTH * BOARD_HEIGHT,
{
    let ghost rows = rows_of(*g);
    let mut n: usize = 0;
    for x in 0..BOARD_WIDTH
        invariant
            heights_exact(*g, *h),
            rows == rows_of(*g),
            n == sum(x as int, hole_terms(rows)),
            n <= x * 15,
    {
        proof {
            lemma_height_bound(*g, *h, x as int);
        }
        let top = h[x];
        let mut c: usize = 0;
        for y in 0..top
            invariant
                x < BOARD_WIDTH,
                top <= BOARD_HEIGHT,
                rows == rows_of(*g),
                c == sum(y as int, empty_terms(rows, x as int)),
                c <= y,
        {
            if !g[y][x] {
                c += 1;
            }
        }
        n += c;
    }
    n
}

fn sum_hole_depth(g: &[[bool; BOARD_WIDTH]; BOARD_HEIGHT], h: &[usize; BOARD_WIDTH]) -> (n: usize)
    requires
        heights_exact(*g, *h),
    ensures
        n == hole_depth(rows_of(*g)),
        n <= BOARD_WIDTH * BOARD_HEIGHT * BOARD_HEIGHT,
{
    let ghost rows = rows_of(*g);
    let mut n: usize = 0;
    for x in 0..BOARD_WIDTH
        invariant
            heights_exact(*g, *h),
            rows == rows_of(*g),
            n == sum(x as int, hole_depth_terms(rows)),
            n <= x * 225,
    {
        proof {
            lemma_height_bound(*g, *h, x as int);
        }
        let top = h[x];
        let mut c: usize = 0;
        for y in 0..top
            invariant
                x < BOARD_WIDTH,
                top <= BOARD_HEIGHT,
                top == heights_of(rows)[x as int],
                rows == rows_of(*g),
                c == sum(y as int, depth_terms(rows, x as int)),
                c <= y * 15,
        {
            if !g[y][x] {
                c += top - y;
            }
        }
        n += c;
    }
    n
}

fn count_rows_with_holes(g: &[[bool; BOARD_WIDTH]; BOARD_HEIGHT], h: &[usize; BOARD_WIDTH]) -> (n:
    usize)
    requires
        heights_exact(*g, *h),
    ensures
        n == rows_with_holes(rows_of(*g)),
        n <= BOARD_HEIGHT,
{
    let ghost rows = rows_of(*g);
    let mut n: usize = 0;
    for y in 0..BOARD_HEIGHT
        invariant
            heights_exact(*g, *h),
            rows == rows_of(*g),
            n == sum(y as int, holed_row_terms(rows)),
            n <= y,
    {
        let mut found = false;
        for x in 0..BOARD_WIDTH
            invariant
                y < BOARD_HEIGHT,
                heights_exact(*g, *h),
                rows == rows_of(*g),
                found == exists|c: int|
                    0 <= c < x && #[trigger] rows[y as int][c] == false && heights_of(rows)[c] > y,
        {
            proof {
                lemma_height_bound(*g, *h, x as int);
            }
            if !g[y][x] && h[x] > y {
                assert(rows[y as int][x as int] == false && heights_of(rows)[x as int] > y);
                found = true;
            }
        }
        if found {
            n += 1;
        }
    }
    n
}

/// Reads column `x` of the heights as an integer.
fn height_at(h: &[usize; BOARD_WIDTH], x: usize) -> (v: usize)
    requires
        x < BOARD_WIDTH,
    ensures
        v == h[x as int],
{
    h[x]
}

fn sum_wells(g: &[[bool; BOARD_WIDTH]; BOARD_HEIGHT], h: &[usize; BOARD_WIDTH]) -> (n: usize)
    requires
        heights_exact(*g, *h),
    ensures
        n == board_wells(rows_of(*g)),
        n <= BOARD_WIDTH * BOARD_HEIGHT,
{
    let ghost hs = heights_of(rows_of(*g));
    proof {
        assert forall|x: int| 0 <= x < BOARD_WIDTH implies #[trigger] h[x] <= 15 && hs[x] == h[x] by {
            lemma_height_bound(*g, *h, x);
        }
    }
    let mut n: usize = 0;
    for x in 0..BOARD_WIDTH
        invariant
            hs == heights_of(rows_of(*g)),
            forall|c: int| 0 <= c < BOARD_WIDTH ==> #[trigger] h[c] <= 15 && hs[c] == h[c],
            n == sum(x as int, well_terms(hs)),
            n <= x * 15,
    {
        let cur = height_at(h, x);
        let left = if x > 0 { height_at(h, x - 1) } else { height_at(h, x + 1) };
        let right = if x + 1 < BOARD_WIDTH { height_at(h, x + 1) } else { height_at(h, x - 1) };
        if cur < left && cur < right {
            let low = if left <= right { left } else { right };
            n += low - cur;
        }
    }
    n
}

fn sum_diversity(g: &[[bool; BOARD_WIDTH]; BOARD_HEIGHT], h: &[usize; BOARD_WIDTH]) -> (n: usize)
    requires
        heights_exact(*g, *h),
    ensures
        n == diversity(rows_of(*g)),
        n <= BOARD_WIDTH * BOARD_HEIGHT,
{
    let ghost hs = heights_of(rows_of(*g));
    proof {
        assert forall|x: int| 0 <= x < BOARD_WIDTH implies #[trigger] h[x] <= 15 && hs[x] == h[x] by {
            lemma_height_bound(*g, *h, x);
        }
    }
    let mut n: usize = 0;
    for x in 0..BOARD_WIDTH - 1
        invariant
            hs == heights_of(rows_of(*g)),
            forall|c: int| 0 <= c < BOARD_WIDTH ==> #[trigger] h[c] <= 15 && hs[c] == h[c],
            n == sum(x as int, step_terms(hs)),
            n <= x * 15,
    {
        let a = h[x];
        let b = h[x + 1];
        if b >= a {
            n += b - a;
        } else {
            n += a - b;
        }
    }
    n
}

fn sum_heights(g: &[[bool; BOARD_WIDTH]; BOARD_HEIGHT], h: &[usize; BOARD_WIDTH]) -> (n: usize)
    requires
        heights_exact(*g, *h),
    ensures
        n == height_sum(rows_of(*g)),
        n <= BOARD_WIDTH * BOARD_HEIGHT,
{
    let ghost hs = heights_of(rows_of(*g));
    proof {
        assert forall|x: int| 0 <= x < BOARD_WIDTH implies #[trigger] h[x] <= 15 && hs[x] == h[x] by {
            lemma_height_bound(*g, *h, x);
        }
    }
    let mut n: usize = 0;
    for x in 0..BOARD_WIDTH
        invariant
            hs == heights_of(rows_of(*g)),
            forall|c: int| 0 <= c < BOARD_WIDTH ==> #[trigger] h[c] <= 15 && hs[c] == h[c],
            n == sum(x as int, height_terms(hs)),
            n <= x * 15,
    {
        n += h[x];
    }
    n
}

/// The features of a settled grid `g` whose column heights are `h`, for a piece
/// whose top cell landed in row `landing` and which lost `eroded` cell-rows.
pub fn grid_features(
    g: &[[bool; BOARD_WIDTH]; BOARD_HEIGHT],
    h: &[usize; BOARD_WIDTH],
    landing: usize,
    eroded: usize,
) -> (f: Features)
    requires
        heights_exact(*g, *h),
    ensures
        f.describe(rows_of(*g), landing as int, eroded as int),
{
    Features {
        landing_height: landing,
        eroded_piece_cells: eroded,
        row_transitions: count_row_transitions(g),
        column_transitions: count_column_transitions(g),
        holes: count_holes(g, h),
        board_wells: sum_wells(g, h),
        hole_depth: sum_hole_depth(g, h),
        rows_with_holes: count_rows_with_holes(g, h),
        diversity: sum_diversity(g, h),
        height_sum: sum_heights(g, h),
    }
}

} // verus!
