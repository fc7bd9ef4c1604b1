use vstd::prelude::*;

use crate::features::{
    bit, board_wells, column_transitions, diversity, grid_features, height_sum, hole_depth, holes,
    row_transitions, rows_with_holes, Features,
};
use crate::lemmas::{
    lemma_count_true_set, lemma_occupied_cleared, lemma_occupied_update, lemma_tags_agree_compacted,
};
use crate::piece::{shape, shape_spec, Piece, PieceType};

verus! {

pub const BOARD_HEIGHT: usize = 15;
pub const BOARD_WIDTH: usize = 10;

/// The playing field. Row 0 is the bottom row; `heights[x]` caches one past
/// the topmost occupied cell of column `x`.
pub struct Board {
    pub grid: [[bool; BOARD_WIDTH]; BOARD_HEIGHT],
    pub color_grid: [[Option<u8>; BOARD_WIDTH]; BOARD_HEIGHT],
    pub heights: [usize; BOARD_WIDTH],
    pub score: i32,
}

/// The rows of a grid, bottom row first.
pub open spec fn rows_of<T>(g: [[T; BOARD_WIDTH]; BOARD_HEIGHT]) -> Seq<Seq<T>> {
    Seq::new(BOARD_HEIGHT as nat, |y: int| g[y]@)
}

/// One past the topmost occupied cell of column `x` among the lowest `n` rows, or 0.
pub open spec fn col_height(rows: Seq<Seq<bool>>, x: int, n: int) -> int
    decreases n,
{
    if n <= 0 {
        0
    } else if rows[n - 1][x] {
        n
    } else {
        col_height(rows, x, n - 1)
    }
}

/// The height of every column of a grid.
pub open spec fn heights_of(rows: Seq<Seq<bool>>) -> Seq<int> {
    Seq::new(BOARD_WIDTH as nat, |x: int| col_height(rows, x, BOARD_HEIGHT as int))
}

pub open spec fn row_full(row: Seq<bool>) -> bool {
    forall|x: int| 0 <= x < BOARD_WIDTH ==> #[trigger] row[x]
}

/// Which rows of a grid are full.
pub open spec fn full_flags(rows: Seq<Seq<bool>>) -> Seq<bool> {
    Seq::new(rows.len(), |y: int| row_full(rows[y]))
}

/// The rows whose flag in `drop` is not set, in the order they had.
pub open spec fn kept<T>(rows: Seq<T>, drop: Seq<bool>) -> Seq<T>
    decreases rows.len(),
{
    if rows.len() == 0 {
        Seq::empty()
    } else {
        let rest = kept(rows.drop_last(), drop);
        if drop[rows.len() - 1] {
            rest
        } else {
            rest.push(rows.last())
        }
    }
}

/// The rows without the flagged ones, moved down, with `blank` rows filling the top.
pub open spec fn compacted<T>(rows: Seq<T>, drop: Seq<bool>, blank: T) -> Seq<T> {
    padded(kept(rows, drop), rows.len(), blank)
}

/// The first `n` rows of `k` followed by `blank` rows, `n` rows in all.
pub open spec fn padded<T>(k: Seq<T>, n: nat, blank: T) -> Seq<T> {
    Seq::new(n, |y: int| if y < k.len() { k[y] } else { blank })
}

/// How many cells of a grid are occupied.
pub open spec fn occupied(rows: Seq<Seq<bool>>) -> int
    decreases rows.len(),
{
    if rows.len() == 0 {
        0
    } else {
        occupied(rows.drop_last()) + count_true(rows.last())
    }
}

pub open spec fn count_true(s: Seq<bool>) -> int
    decreases s.len(),
{
    if s.len() == 0 {
        0
    } else {
        count_true(s.drop_last()) + if s.last() { 1int } else { 0int }
    }
}

/// Each cell of `c` holds a tag exactly where the same cell of `g` is occupied.
pub open spec fn tags_agree(g: Seq<Seq<bool>>, c: Seq<Seq<Option<u8>>>) -> bool {
    &&& g.len() == c.len()
    &&& forall|y: int, x: int|
        0 <= y < g.len() && 0 <= x < BOARD_WIDTH ==> (#[trigger] c[y][x] is Some) == g[y][x]
}

/// Points for clearing `n` rows with one piece.
pub open spec fn line_bonus(n: int) -> int {
    if n == 1 {
        100
    } else if n == 2 {
        300
    } else if n == 3 {
        500
    } else if n == 4 {
        800
    } else {
        0
    }
}

pub open spec fn blank_row<T>(t: T) -> Seq<T> {
    Seq::new(BOARD_WIDTH as nat, |x: int| t)
}

pub open spec fn max(a: int, b: int) -> int {
    if a >= b {
        a
    } else {
        b
    }
}

/// The error message of a placement whose columns leave the board.
pub open spec fn out_of_bounds_msg() -> Seq<char> {
    "Piece out of bounds"@
}

/// The error message of a placement that overlaps cells or leaves through the top.
pub open spec fn collision_msg() -> Seq<char> {
    "Piece doesn't fit"@
}

impl Board {
    pub open spec fn rows(self) -> Seq<Seq<bool>> {
        rows_of(self.grid)
    }

    pub open spec fn colors(self) -> Seq<Seq<Option<u8>>> {
        rows_of(self.color_grid)
    }

    /// The height cache matches the grid, a cell carries a colour tag exactly
    /// when it is occupied, and the score is not negative.
    pub open spec fn wf(self) -> bool {
        &&& tags_agree(self.rows(), self.colors())
        &&& forall|x: int|
            0 <= x < BOARD_WIDTH ==> #[trigger] self.heights[x] == col_height(
                self.rows(),
                x,
                BOARD_HEIGHT as int,
            )
        &&& self.score >= 0
    }

    /// The lowest bottom row of the piece's box for which the cell `k` of the
    /// piece stays above the stack of its column.
    pub open spec fn need(self, p: Piece, x: int, k: int) -> int {
        self.heights[x + p.cells[k].1] - p.cells[k].0
    }

    /// Where the bottom of the piece's box comes to rest when dropped at column `x`.
    pub open spec fn rest_row(self, p: Piece, x: int) -> int {
        max(
            0,
            max(max(self.need(p, x, 0), self.need(p, x, 1)), max(self.need(p, x, 2), self.need(p, x, 3))),
        )
    }

    pub open spec fn in_columns(self, p: Piece, x: int) -> bool {
        0 <= x && x + p.width <= BOARD_WIDTH
    }

    /// Dropped at column `x`, the piece stays on the board and overlaps nothing.
    pub open spec fn fits(self, p: Piece, x: int) -> bool {
        let y = self.rest_row(p, x);
        &&& self.in_columns(p, x)
        &&& forall|k: int|
            0 <= k < 4 ==> y + (#[trigger] p.cells[k]).0 < BOARD_HEIGHT && !self.grid[y
                + p.cells[k].0][x + p.cells[k].1]
    }

    /// The grid with the piece resting at column `x`, before rows are cleared.
    pub open spec fn landed(self, p: Piece, x: int) -> Seq<Seq<bool>> {
        let y0 = self.rest_row(p, x);
        Seq::new(
            BOARD_HEIGHT as nat,
            |y: int|
                Seq::new(BOARD_WIDTH as nat, |c: int| self.grid[y][c] || p.covers(y - y0, c - x)),
        )
    }

    /// The colour grid with the piece's tag on its cells, before rows are cleared.
    pub open spec fn landed_colors(self, p: Piece, x: int, tag: u8) -> Seq<Seq<Option<u8>>> {
        let y0 = self.rest_row(p, x);
        Seq::new(
            BOARD_HEIGHT as nat,
            |y: int|
                Seq::new(
                    BOARD_WIDTH as nat,
                    |c: int|
                        if p.covers(y - y0, c - x) {
                            Some(tag)
                        } else {
                            self.color_grid[y][c]
                        },
                ),
        )
    }

    /// The grid after the piece has landed and the full rows are removed.
    pub open spec fn settled(self, p: Piece, x: int) -> Seq<Seq<bool>> {
        let g = self.landed(p, x);
        compacted(g, full_flags(g), blank_row(false))
    }

    /// How many rows the piece completes.
    pub open spec fn cleared(self, p: Piece, x: int) -> int {
        count_true(full_flags(self.landed(p, x)))
    }
}

pub(crate) proof fn lemma_count_true_bound(s: Seq<bool>)
    ensures
        0 <= count_true(s) <= s.len(),
    decreases s.len(),
{
    if s.len() > 0 {
        lemma_count_true_bound(s.drop_last());
    }
}

/// Writes `v` into cell `(y, x)`.
fn set_cell<T: Copy>(g: &mut [[T; BOARD_WIDTH]; BOARD_HEIGHT], y: usize, x: usize, v: T)
    requires
        y < BOARD_HEIGHT,
        x < BOARD_WIDTH,
    ensures
        rows_of(*final(g)) == rows_of(*old(g)).update(y as int, rows_of(*old(g))[y as int].update(
            x as int,
            v,
        )),
{
    let mut row = g[y];
    row[x] = v;
    g[y] = row;
    assert(rows_of(*g) =~= rows_of(*old(g)).update(
        y as int,
        rows_of(*old(g))[y as int].update(x as int, v),
    ));
}

/// Flags the rows of `g` in which every cell is occupied.
fn full_rows(g: &[[bool; BOARD_WIDTH]; BOARD_HEIGHT]) -> (f: [bool; BOARD_HEIGHT])
    ensures
        f@ == full_flags(rows_of(*g)),
{
    let mut f = [false; BOARD_HEIGHT];
    for y in 0..BOARD_HEIGHT
        invariant
            forall|j: int| 0 <= j < y ==> f@[j] == row_full(rows_of(*g)[j]),
    {
        let mut all = true;
        for x in 0..BOARD_WIDTH
            invariant
                y < BOARD_HEIGHT,
                all == forall|c: int| 0 <= c < x ==> g[y as int]@[c],
        {
            if !g[y][x] {
                all = false;
            }
        }
        f[y] = all;
    }
    assert(f@ =~= full_flags(rows_of(*g)));
    f
}

/// How many flags are set.
fn count_flags(f: &[bool; BOARD_HEIGHT]) -> (n: usize)
    ensures
        n == count_true(f@),
        n <= BOARD_HEIGHT,
{
    let mut n: usize = 0;
    for y in 0..BOARD_HEIGHT
        invariant
            n == count_true(f@.subrange(0, y as int)),
            n <= y,
    {
        assert(f@.subrange(0, y + 1).drop_last() =~= f@.subrange(0, y as int));
        if f[y] {
            n += 1;
        }
    }
    assert(f@.subrange(0, BOARD_HEIGHT as int) =~= f@);
    n
}

/// Removes the flagged rows, moving the rows above them down in order.
fn compact<T: Copy>(
    rows: [[T; BOARD_WIDTH]; BOARD_HEIGHT],
    drop: &[bool; BOARD_HEIGHT],
    blank: T,
) -> (r: [[T; BOARD_WIDTH]; BOARD_HEIGHT])
    ensures
        rows_of(r) == compacted(rows_of(rows), drop@, blank_row(blank)),
{
    let ghost src = rows_of(rows);
    let mut out = [[blank; BOARD_WIDTH]; BOARD_HEIGHT];
    let mut n: usize = 0;
    let mut y: usize = 0;
    while y < BOARD_HEIGHT
        invariant
            src == rows_of(rows),
            y <= BOARD_HEIGHT,
            n <= y,
            n == kept(src.subrange(0, y as int), drop@).len(),
            forall|j: int|
                0 <= j < n ==> #[trigger] rows_of(out)[j] == kept(src.subrange(0, y as int), drop@)[j],
            forall|j: int| n <= j < BOARD_HEIGHT ==> #[trigger] rows_of(out)[j] == blank_row(blank),
        decreases BOARD_HEIGHT - y,
    {
        let ghost before = kept(src.subrange(0, y as int), drop@);
        let ghost prev = rows_of(out);
        assert(src.subrange(0, y + 1).drop_last() =~= src.subrange(0, y as int));
        assert(src.subrange(0, y + 1).last() == src[y as int]);
        if !drop[y] {
            out[n] = rows[y];
            assert(rows_of(out) =~= prev.update(n as int, src[y as int]));
            n += 1;
        } else {
            assert(rows_of(out) =~= prev);
        }
        y += 1;
    }
    assert(src.subrange(0, BOARD_HEIGHT as int) =~= src);
    assert(rows_of(out) =~= compacted(src, drop@, blank_row(blank)));
    out
}

pub proof fn lemma_col_height_bound(rows: Seq<Seq<bool>>, x: int, n: int)
    ensures
        0 <= col_height(rows, x, n) <= if n < 0 { 0 } else { n },
    decreases n,
{
    if n > 0 {
        lemma_col_height_bound(rows, x, n - 1);
    }
}

/// Recomputes every column's height from the grid.
fn column_heights(g: &[[bool; BOARD_WIDTH]; BOARD_HEIGHT]) -> (h: [usize; BOARD_WIDTH])
    ensures
        forall|x: int|
            0 <= x < BOARD_WIDTH ==> #[trigger] h[x] == col_height(
                rows_of(*g),
                x,
                BOARD_HEIGHT as int,
            ),
{
    let ghost rows = rows_of(*g);
    let mut h = [0usize; BOARD_WIDTH];
    for x in 0..BOARD_WIDTH
        invariant
            rows == rows_of(*g),
            forall|c: int| 0 <= c < x ==> #[trigger] h[c] == col_height(rows, c, BOARD_HEIGHT as int),
    {
        let mut top: usize = 0;
        let mut y: usize = BOARD_HEIGHT;
        while y > 0
            invariant_except_break
                top == 0,
            invariant
                x < BOARD_WIDTH,
                y <= BOARD_HEIGHT,
                rows == rows_of(*g),
                col_height(rows, x as int, BOARD_HEIGHT as int) == col_height(rows, x as int, y as int),
            ensures
                top == col_height(rows, x as int, BOARD_HEIGHT as int),
            decreases y,
        {
            assert(rows[y - 1] == g[y - 1]@);
            if g[y - 1][x] {
                top = y;
                break;
            }
            y -= 1;
        }
        h[x] = top;
    }
    h
}

impl Board {
    /// The cached height of column `col`.
    pub fn get_height(&self, col: usize) -> (h: usize)
        requires
            col < BOARD_WIDTH,
        ensures
            h == self.heights[col as int],
    {
        self.heights[col]
    }

    /// The occupancy grid, bottom row first.
    pub fn get_grid(&self) -> (g: &[[bool; BOARD_WIDTH]; BOARD_HEIGHT])
        ensures
            *g == self.grid,
    {
        &self.grid
    }

    /// The piece kind that filled each occupied cell.
    pub fn get_color_grid(&self) -> (g: &[[Option<u8>; BOARD_WIDTH]; BOARD_HEIGHT])
        ensures
            *g == self.color_grid,
    {
        &self.color_grid
    }

    pub fn get_score(&self) -> (s: i32)
        ensures
            s == self.score,
    {
        self.score
    }

    /// An empty board with score 0.
    pub fn new() -> (b: Self)
        ensures
            b.wf(),
            forall|y: int, x: int|
                0 <= y < BOARD_HEIGHT && 0 <= x < BOARD_WIDTH ==> !b.grid[y][x]
                    && b.color_grid[y][x] is None,
            forall|x: int| 0 <= x < BOARD_WIDTH ==> b.heights[x] == 0,
            b.score == 0,
    {
        let b = Board {
            grid: [[false; BOARD_WIDTH]; BOARD_HEIGHT],
            color_grid: [[None; BOARD_WIDTH]; BOARD_HEIGHT],
            heights: [0; BOARD_WIDTH],
            score: 0,
        };
        assert(tags_agree(b.rows(), b.colors()));
        assert forall|x: int| 0 <= x < BOARD_WIDTH implies #[trigger] b.heights[x] == col_height(
            b.rows(),
            x,
            BOARD_HEIGHT as int,
        ) by {
            lemma_col_height_empty(b.rows(), x, BOARD_HEIGHT as int);
        }
        b
    }
}

proof fn lemma_col_height_empty(rows: Seq<Seq<bool>>, x: int, n: int)
    requires
        forall|y: int| 0 <= y < n ==> !rows[y][x],
    ensures
        col_height(rows, x, n) == 0,
    decreases n,
{
    if n > 0 {
        lemma_col_height_empty(rows, x, n - 1);
    }
}


/// Points for clearing `n` rows with one piece.
fn bonus(n: usize) -> (b: i32)
    ensures
        b == line_bonus(n as int),
{
    match n {
        1 => 100,
        2 => 300,
        3 => 500,
        4 => 800,
        _ => 0,
    }
}

impl Board {
    /// How far up cell `k` of the piece pushes the bottom of its box.
    fn need_at(&self, p: &Piece, x: usize, k: usize) -> (n: i64)
        requires
            self.wf(),
            p.wf(),
            x + p.width <= BOARD_WIDTH,
            k < 4,
        ensures
            n == self.need(*p, x as int, k as int),
    {
        let (dy, dx) = p.cells[k];
        proof {
            assert(p.cells[k as int].1 < p.width);
            lemma_col_height_bound(self.rows(), x + dx, BOARD_HEIGHT as int);
        }
        self.heights[x + dx] as i64 - dy as i64
    }

    /// Where the bottom of the piece's box comes to rest at column `x`.
    fn resting_row(&self, p: &Piece, x: usize) -> (y: usize)
        requires
            self.wf(),
            p.wf(),
            x + p.width <= BOARD_WIDTH,
        ensures
            y == self.rest_row(*p, x as int),
            y <= BOARD_HEIGHT,
    {
        proof {
            assert forall|k: int| 0 <= k < 4 implies self.need(*p, x as int, k) <= BOARD_HEIGHT by {
                assert(p.cells[k].1 < p.width);
                lemma_col_height_bound(self.rows(), x + p.cells[k].1, BOARD_HEIGHT as int);
            }
        }
        let a = self.need_at(p, x, 0);
        let b = self.need_at(p, x, 1);
        let c = self.need_at(p, x, 2);
        let d = self.need_at(p, x, 3);
        let ab = if a >= b { a } else { b };
        let cd = if c >= d { c } else { d };
        let m = if ab >= cd { ab } else { cd };
        if m >= 0 { m as usize } else { 0 }
    }

    /// Cell `(y, x)` exists and is empty.
    fn free_cell(&self, y: usize, x: usize) -> (ok: bool)
        requires
            x < BOARD_WIDTH,
        ensures
            ok == (y < BOARD_HEIGHT && !self.grid[y as int][x as int]),
    {
        y < BOARD_HEIGHT && !self.grid[y][x]
    }

    /// With its box's bottom at row `y`, the piece overlaps nothing and stays below the top.
    fn clear_at(&self, p: &Piece, x: usize, y: usize) -> (ok: bool)
        requires
            p.wf(),
            x + p.width <= BOARD_WIDTH,
            y <= BOARD_HEIGHT,
        ensures
            ok == forall|k: int|
                0 <= k < 4 ==> y + (#[trigger] p.cells[k]).0 < BOARD_HEIGHT && !self.grid[y
                    + p.cells[k].0][x + p.cells[k].1],
    {
        let mut ok = true;
        for k in 0..4
            invariant
                p.wf(),
                x + p.width <= BOARD_WIDTH,
                y <= BOARD_HEIGHT,
                ok == forall|j: int|
                    0 <= j < k ==> y + (#[trigger] p.cells[j]).0 < BOARD_HEIGHT && !self.grid[y
                        + p.cells[j].0][x + p.cells[j].1],
        {
            let (dy, dx) = p.cells[k];
            assert(p.cells[k as int].1 < p.width);
            if !self.free_cell(y + dy, x + dx) {
                ok = false;
            }
        }
        ok
    }

    /// The grid with the piece's cells set, its box's bottom at row `y`.
    fn landed_grid(&self, p: &Piece, x: usize, y: usize) -> (g: [[bool; BOARD_WIDTH]; BOARD_HEIGHT])
        requires
            self.wf(),
            p.wf(),
            x + p.width <= BOARD_WIDTH,
            y == self.rest_row(*p, x as int),
            forall|k: int|
                0 <= k < 4 ==> y + (#[trigger] p.cells[k]).0 < BOARD_HEIGHT && !self.grid[y
                    + p.cells[k].0][x + p.cells[k].1],
        ensures
            rows_of(g) == self.landed(*p, x as int),
            occupied(rows_of(g)) == occupied(self.rows()) + 4,
    {
        let mut grid = self.grid;
        for k in 0..4
            invariant
                p.wf(),
                x + p.width <= BOARD_WIDTH,
                forall|j: int|
                    0 <= j < 4 ==> y + (#[trigger] p.cells[j]).0 < BOARD_HEIGHT && !self.grid[y
                        + p.cells[j].0][x + p.cells[j].1],
                occupied(rows_of(grid)) == occupied(self.rows()) + k,
                forall|r: int, c: int|
                    0 <= r < BOARD_HEIGHT && 0 <= c < BOARD_WIDTH ==> #[trigger] rows_of(grid)[r][c]
                        == (self.rows()[r][c] || p.covers_first(k as int, r - y, c - x)),
        {
            let (dy, dx) = p.cells[k];
            assert(p.cells[k as int].1 < p.width);
            let ghost prev = rows_of(grid);
            proof {
                assert(!p.covers_first(k as int, dy as int, dx as int)) by {
                    assert(forall|l: int| 0 <= l < k ==> p.cells[l] != p.cells[k as int]);
                }
                assert(!prev[y + dy][x + dx]);
            }
            set_cell(&mut grid, y + dy, x + dx, true);
            proof {
                lemma_count_true_set(prev[y + dy], x + dx);
                lemma_occupied_update(prev, y + dy, prev[y + dy].update(x + dx, true));
            }
        }
        assert(rows_of(grid) =~~= self.landed(*p, x as int));
        grid
    }

    /// Drops the piece at column `x`, clears the rows it completes and adds their points
    /// to the score. A placement that leaves the board or overlaps cells changes nothing.
    pub fn apply(&mut self, piece_type: PieceType, x: usize, rotate: usize) -> (r: Result<
        (),
        &'static str,
    >)
        requires
            old(self).wf(),
            rotate < 4,
            old(self).score <= i32::MAX - 800,
        ensures
            final(self).wf(),
            (r is Ok) == old(self).fits(shape_spec(piece_type, rotate as int), x as int),
            r is Err ==> *final(self) == *old(self),
            r matches Err(e) ==> (e@ == out_of_bounds_msg() <==> !old(self).in_columns(
                shape_spec(piece_type, rotate as int),
                x as int,
            )),
            r matches Err(e) ==> (e@ == collision_msg() <==> old(self).in_columns(
                shape_spec(piece_type, rotate as int),
                x as int,
            )),
            r is Ok ==> final(self).rows() == old(self).settled(
                shape_spec(piece_type, rotate as int),
                x as int,
            ),
            r is Ok ==> final(self).colors() == ({
                let p = shape_spec(piece_type, rotate as int);
                compacted(
                    old(self).landed_colors(p, x as int, piece_type.spec_index() as u8),
                    full_flags(old(self).landed(p, x as int)),
                    blank_row(None),
                )
            }),
            r is Ok ==> final(self).score == old(self).score + line_bonus(
                old(self).cleared(shape_spec(piece_type, rotate as int), x as int),
            ),
            r is Ok ==> occupied(final(self).rows()) == occupied(old(self).rows()) + 4 - BOARD_WIDTH
                * old(self).cleared(shape_spec(piece_type, rotate as int), x as int),
            final(self).score >= old(self).score,
            final(self).score > old(self).score ==> r is Ok && old(self).cleared(
                shape_spec(piece_type, rotate as int),
                x as int,
            ) >= 1,
    {
        proof {
            reveal_strlit("Piece out of bounds");
            reveal_strlit("Piece doesn't fit");
            assert(out_of_bounds_msg()[6] != collision_msg()[6]);
        }
        let p = shape(piece_type, rotate);
        let tag = piece_type.index() as u8;
        if x > BOARD_WIDTH - p.width {
            return Err("Piece out of bounds");
        }
        let y = self.resting_row(&p, x);
        if !self.clear_at(&p, x, y) {
            return Err("Piece doesn't fit");
        }
        let ghost tagged = self.landed_colors(p, x as int, tag);
        let grid = self.landed_grid(&p, x, y);
        let mut colors = self.color_grid;
        for k in 0..4
            invariant
                p.wf(),
                x + p.width <= BOARD_WIDTH,
                forall|j: int| 0 <= j < 4 ==> y + (#[trigger] p.cells[j]).0 < BOARD_HEIGHT,
                forall|r: int, c: int|
                    0 <= r < BOARD_HEIGHT && 0 <= c < BOARD_WIDTH ==> #[trigger] rows_of(colors)[r][c]
                        == if p.covers_first(k as int, r - y, c - x) {
                        Some(tag)
                    } else {
                        self.colors()[r][c]
                    },
        {
            let (dy, dx) = p.cells[k];
            assert(p.cells[k as int].1 < p.width);
            set_cell(&mut colors, y + dy, x + dx, Some(tag));
        }
        assert(rows_of(colors) =~~= tagged);
        let full = full_rows(&grid);
        let n = count_flags(&full);
        proof {
            lemma_occupied_cleared(rows_of(grid));
            assert(tags_agree(rows_of(grid), rows_of(colors)));
            lemma_tags_agree_compacted(rows_of(grid), rows_of(colors), full@);
        }
        let grid = compact(grid, &full, false);
        let colors = compact(colors, &full, None);
        let heights = column_heights(&grid);
        self.grid = grid;
        self.color_grid = colors;
        self.heights = heights;
        self.score = self.score + bonus(n);
        Ok(())
    }
}


impl Board {
    /// The row of the piece's topmost cell once it has landed at column `x`.
    pub open spec fn landing_row(self, p: Piece, x: int) -> int {
        self.rest_row(p, x) + p.top_offset()
    }

    /// How many of the piece's cells lie in rows that it completes.
    pub open spec fn piece_cells_cleared(self, p: Piece, x: int) -> int {
        let f = full_flags(self.landed(p, x));
        let y = self.rest_row(p, x);
        bit(f[y + p.cells[0].0]) + bit(f[y + p.cells[1].0]) + bit(f[y + p.cells[2].0]) + bit(
            f[y + p.cells[3].0],
        )
    }

    /// What dropping the piece `t` in rotation state `r` at column `x` gives:
    /// a function of the board and the placement alone.
    pub open spec fn evaluation(self, t: PieceType, x: int, r: int) -> Option<(i32, Features)> {
        let p = shape_spec(t, r);
        let rows = self.settled(p, x);
        if self.fits(p, x) {
            Some(
                (
                    self.cleared(p, x) as i32,
                    Features {
                        landing_height: self.landing_row(p, x) as usize,
                        eroded_piece_cells: (self.piece_cells_cleared(p, x) * self.cleared(p, x)) as usize,
                        row_transitions: row_transitions(rows) as usize,
                        column_transitions: column_transitions(rows) as usize,
                        holes: holes(rows) as usize,
                        board_wells: board_wells(rows) as usize,
                        hole_depth: hole_depth(rows) as usize,
                        rows_with_holes: rows_with_holes(rows) as usize,
                        diversity: diversity(rows) as usize,
                        height_sum: height_sum(rows) as usize,
                    },
                ),
            )
        } else {
            None
        }
    }

    /// Computes, without changing the board, what dropping the piece at column `x`
    /// would give: the number of rows cleared and the features of the resulting board.
    /// `None` when the placement leaves the board or overlaps cells.
    pub fn evaluate(&self, piece_type: PieceType, x: usize, rotate: usize) -> (r: Option<
        (i32, Features),
    >)
        requires
            self.wf(),
            rotate < 4,
        ensures
            r == self.evaluation(piece_type, x as int, rotate as int),
            (r is Some) == self.fits(shape_spec(piece_type, rotate as int), x as int),
            r matches Some((c, f)) ==> ({
                let p = shape_spec(piece_type, rotate as int);
                &&& c == self.cleared(p, x as int)
                &&& f.describe(
                    self.settled(p, x as int),
                    self.landing_row(p, x as int),
                    self.piece_cells_cleared(p, x as int) * self.cleared(p, x as int),
                )
            }),
    {
        let p = shape(piece_type, rotate);
        if x > BOARD_WIDTH - p.width {
            return None;
        }
        let y = self.resting_row(&p, x);
        if !self.clear_at(&p, x, y) {
            return None;
        }
        let grid = self.landed_grid(&p, x, y);
        let full = full_rows(&grid);
        let n = count_flags(&full);
        let settled = compact(grid, &full, false);
        let heights = column_heights(&settled);
        let top = p.top();
        let mut lost: usize = 0;
        for k in 0..4
            invariant
                p.wf(),
                full@ == full_flags(self.landed(p, x as int)),
                forall|j: int| 0 <= j < 4 ==> y + (#[trigger] p.cells[j]).0 < BOARD_HEIGHT,
                lost <= k,
                lost == (if k > 0 { bit(full@[y + p.cells[0].0]) } else { 0 }) + (if k > 1 {
                    bit(full@[y + p.cells[1].0])
                } else {
                    0
                }) + (if k > 2 { bit(full@[y + p.cells[2].0]) } else { 0 }) + (if k > 3 {
                    bit(full@[y + p.cells[3].0])
                } else {
                    0
                }),
        {
            let (dy, _dx) = p.cells[k];
            if full[y + dy] {
                lost += 1;
            }
        }
        assert(lost * n <= 4 * 15) by (nonlinear_arith)
            requires
                lost <= 4,
                n <= 15,
        ;
        let f = grid_features(&settled, &heights, y + top, lost * n);
        Some((n as i32, f))
    }
}


/// The lowest of the heights of columns `x .. x + w`.
pub open spec fn min_height(h: [usize; BOARD_WIDTH], x: int, w: int) -> int
    decreases w,
{
    if w <= 1 {
        h[x] as int
    } else {
        let m = min_height(h, x, w - 1);
        if m <= h[x + w - 1] {
            m
        } else {
            h[x + w - 1] as int
        }
    }
}

impl Board {
    /// Whether the extreme cells of the piece stay on the board at column `x`.
    pub open spec fn spans_board(self, p: Piece, x: int) -> bool {
        x + p.leftmost >= 0 && x + p.rightmost < BOARD_WIDTH
    }

    /// The row at which the piece's box starts when its topmost cell is level
    /// with the lowest column under it; 0 when the piece does not span the board.
    pub open spec fn start_row(self, p: Piece, x: int) -> int {
        if self.spans_board(p, x) {
            min_height(self.heights, x, p.width as int) - p.top_offset()
        } else {
            0
        }
    }

    pub fn get_start_y(&mut self, piece_type: PieceType, x: usize, rotate: usize) -> (y: usize)
        requires
            rotate < 4,
            old(self).spans_board(shape_spec(piece_type, rotate as int), x as int) ==> min_height(
                old(self).heights,
                x as int,
                shape_spec(piece_type, rotate as int).width as int,
            ) >= shape_spec(piece_type, rotate as int).top_offset(),
        ensures
            *final(self) == *old(self),
            y == old(self).start_row(shape_spec(piece_type, rotate as int), x as int),
    {
        let p = shape(piece_type, rotate);
        if x >= BOARD_WIDTH {
            return 0;
        }
        let left = x as i64 + p.leftmost as i64;
        let right = x as i64 + p.rightmost as i64;
        if left < 0 || right >= BOARD_WIDTH as i64 {
            return 0;
        }
        let mut low = self.heights[x];
        let mut w: usize = 1;
        while w < p.width
            invariant
                p.wf(),
                x + p.width <= BOARD_WIDTH,
                1 <= w <= p.width,
                low == min_height(self.heights, x as int, w as int),
            decreases p.width - w,
        {
            let h = self.heights[x + w];
            if h < low {
                low = h;
            }
            w += 1;
        }
        low - p.top()
    }
}

} // verus!
