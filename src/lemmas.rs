use vstd::prelude::*;

use crate::board::{
    blank_row, col_height, compacted, count_true, full_flags, kept, lemma_col_height_bound,
    lemma_count_true_bound, occupied, padded, row_full, tags_agree, Board, BOARD_HEIGHT, BOARD_WIDTH,
};
use crate::features::bit;

verus! {

proof fn lemma_col_height_top(rows: Seq<Seq<bool>>, x: int, n: int)
    ensures
        col_height(rows, x, n) > 0 ==> rows[col_height(rows, x, n) - 1][x],
        forall|y: int| col_height(rows, x, n) <= y < n ==> !#[trigger] rows[y][x],
    decreases n,
{
    if n > 0 {
        lemma_col_height_top(rows, x, n - 1);
    }
}

/// On a well-formed board the cached height of each column is one past its
/// topmost occupied cell, or 0 for an empty column.
pub proof fn lemma_heights_match_grid(b: Board)
    requires
        b.wf(),
    ensures
        forall|x: int|
            0 <= x < BOARD_WIDTH ==> {
                &&& #[trigger] b.heights[x] <= BOARD_HEIGHT
                &&& b.heights[x] > 0 ==> b.grid[b.heights[x] - 1][x]
                &&& forall|y: int| b.heights[x] <= y < BOARD_HEIGHT ==> !b.grid[y][x]
            },
{
    assert forall|x: int| 0 <= x < BOARD_WIDTH implies {
        &&& #[trigger] b.heights[x] <= BOARD_HEIGHT
        &&& b.heights[x] > 0 ==> b.grid[b.heights[x] - 1][x]
        &&& forall|y: int| b.heights[x] <= y < BOARD_HEIGHT ==> !b.grid[y][x]
    } by {
        lemma_col_height_bound(b.rows(), x, BOARD_HEIGHT as int);
        lemma_col_height_top(b.rows(), x, BOARD_HEIGHT as int);
        assert forall|y: int| b.heights[x] <= y < BOARD_HEIGHT implies !b.grid[y][x] by {
            assert(!b.rows()[y][x]);
        }
    }
}

proof fn lemma_count_true_prefix_step(s: Seq<bool>, i: int)
    requires
        0 <= i < s.len(),
    ensures
        count_true(s.subrange(0, i + 1)) == count_true(s.subrange(0, i)) + bit(s[i]),
{
    assert(s.subrange(0, i + 1).drop_last() =~= s.subrange(0, i));
}

proof fn lemma_count_true_prefix_grows(s: Seq<bool>, i: int, j: int)
    requires
        0 <= i <= j <= s.len(),
    ensures
        count_true(s.subrange(0, i)) <= count_true(s.subrange(0, j)) <= count_true(s.subrange(0, i))
            + (j - i),
    decreases j - i,
{
    if i < j {
        lemma_count_true_prefix_grows(s, i, j - 1);
        lemma_count_true_prefix_step(s, j - 1);
    }
}

/// `kept` holds every row but the flagged ones; an unflagged row `i` lands at
/// `i` less the number of flagged rows below it.
proof fn lemma_kept_index<T>(rows: Seq<T>, drop: Seq<bool>, i: int)
    requires
        rows.len() <= drop.len(),
        0 <= i < rows.len(),
        !drop[i],
    ensures
        kept(rows, drop).len() == rows.len() - count_true(drop.subrange(0, rows.len() as int)),
        kept(rows, drop)[i - count_true(drop.subrange(0, i))] == rows[i],
    decreases rows.len(),
{
    let n = rows.len() - 1;
    lemma_count_true_prefix_step(drop, n);
    lemma_kept_len(rows.drop_last(), drop);
    let rest = kept(rows.drop_last(), drop);
    if i < n {
        lemma_kept_index(rows.drop_last(), drop, i);
        lemma_count_true_prefix_step(drop, i);
        lemma_count_true_prefix_grows(drop, i + 1, n);
        lemma_count_true_bound(drop.subrange(0, i));
        let idx = i - count_true(drop.subrange(0, i));
        if !drop[n] {
            assert(rest.push(rows.last())[idx] == rest[idx]);
        }
    }
}

proof fn lemma_kept_len<T>(rows: Seq<T>, drop: Seq<bool>)
    requires
        rows.len() <= drop.len(),
    ensures
        kept(rows, drop).len() == rows.len() - count_true(drop.subrange(0, rows.len() as int)),
    decreases rows.len(),
{
    if rows.len() > 0 {
        lemma_kept_len(rows.drop_last(), drop);
        lemma_count_true_prefix_step(drop, rows.len() - 1);
    }
}

/// Clearing rows keeps the surviving rows in their order: the surviving rows
/// `i < j` move down to rows `i'` and `j'` with `i' < j'`, each with its contents.
pub proof fn lemma_clear_preserves_order(rows: Seq<Seq<bool>>, i: int, j: int)
    requires
        rows.len() == BOARD_HEIGHT,
        0 <= i < j < BOARD_HEIGHT,
        !row_full(rows[i]),
        !row_full(rows[j]),
    ensures
        ({
            let f = full_flags(rows);
            let c = compacted(rows, f, blank_row(false));
            let ni = i - count_true(f.subrange(0, i));
            let nj = j - count_true(f.subrange(0, j));
            &&& 0 <= ni < nj < BOARD_HEIGHT
            &&& c[ni] == rows[i]
            &&& c[nj] == rows[j]
        }),
{
    let f = full_flags(rows);
    lemma_count_true_bound(f.subrange(0, i));
    lemma_count_true_bound(f.subrange(0, j));
    lemma_kept_index(rows, f, i);
    lemma_kept_index(rows, f, j);
    lemma_count_true_prefix_grows(f, 0, i);
    lemma_count_true_prefix_grows(f, i, i + 1);
    lemma_count_true_prefix_step(f, i);
    lemma_count_true_prefix_grows(f, i + 1, j);
    lemma_count_true_prefix_grows(f, j + 1, rows.len() as int);
    lemma_count_true_prefix_step(f, j);
    let k = kept(rows, f);
    let ni = i - count_true(f.subrange(0, i));
    let nj = j - count_true(f.subrange(0, j));
    assert(f.subrange(0, rows.len() as int) =~= f);
    assert(nj < k.len());
    assert(ni < nj);
}


pub(crate) proof fn lemma_count_true_set(s: Seq<bool>, i: int)
    requires
        0 <= i < s.len(),
        !s[i],
    ensures
        count_true(s.update(i, true)) == count_true(s) + 1,
    decreases s.len(),
{
    let t = s.update(i, true);
    if i == s.len() - 1 {
        assert(t.drop_last() =~= s.drop_last());
    } else {
        assert(t.drop_last() =~= s.drop_last().update(i, true));
        lemma_count_true_set(s.drop_last(), i);
    }
}

pub(crate) proof fn lemma_occupied_update(rows: Seq<Seq<bool>>, y: int, row: Seq<bool>)
    requires
        0 <= y < rows.len(),
    ensures
        occupied(rows.update(y, row)) == occupied(rows) - count_true(rows[y]) + count_true(row),
    decreases rows.len(),
{
    let t = rows.update(y, row);
    if y == rows.len() - 1 {
        assert(t.drop_last() =~= rows.drop_last());
    } else {
        assert(t.drop_last() =~= rows.drop_last().update(y, row));
        lemma_occupied_update(rows.drop_last(), y, row);
    }
}

proof fn lemma_count_true_full(s: Seq<bool>)
    requires
        forall|i: int| 0 <= i < s.len() ==> s[i],
    ensures
        count_true(s) == s.len(),
    decreases s.len(),
{
    if s.len() > 0 {
        lemma_count_true_full(s.drop_last());
    }
}

proof fn lemma_count_true_empty(s: Seq<bool>)
    requires
        forall|i: int| 0 <= i < s.len() ==> !s[i],
    ensures
        count_true(s) == 0,
    decreases s.len(),
{
    if s.len() > 0 {
        lemma_count_true_empty(s.drop_last());
    }
}

/// Dropping full rows removes a whole row's worth of cells for each of them.
proof fn lemma_occupied_kept(rows: Seq<Seq<bool>>, drop: Seq<bool>)
    requires
        rows.len() <= drop.len(),
        forall|i: int|
            0 <= i < rows.len() && drop[i] ==> count_true(#[trigger] rows[i]) == BOARD_WIDTH,
    ensures
        occupied(kept(rows, drop)) == occupied(rows) - BOARD_WIDTH * count_true(
            drop.subrange(0, rows.len() as int),
        ),
    decreases rows.len(),
{
    if rows.len() > 0 {
        let n = rows.len() - 1;
        lemma_occupied_kept(rows.drop_last(), drop);
        lemma_count_true_prefix_step(drop, n);
        let rest = kept(rows.drop_last(), drop);
        if !drop[n] {
            assert(rest.push(rows.last()).drop_last() =~= rest);
        }
    }
}

proof fn lemma_occupied_padded(k: Seq<Seq<bool>>, n: nat)
    requires
        k.len() <= n,
    ensures
        occupied(padded(k, n, blank_row(false))) == occupied(k),
    decreases n,
{
    let p = padded(k, n, blank_row(false));
    if n == k.len() {
        assert(p =~= k);
    } else {
        assert(p.drop_last() =~= padded(k, (n - 1) as nat, blank_row(false)));
        lemma_occupied_padded(k, (n - 1) as nat);
        lemma_count_true_empty(blank_row(false));
    }
}

/// Clearing the full rows of a grid removes exactly their cells.
pub proof fn lemma_occupied_cleared(rows: Seq<Seq<bool>>)
    requires
        forall|y: int| 0 <= y < rows.len() ==> (#[trigger] rows[y]).len() == BOARD_WIDTH,
    ensures
        occupied(compacted(rows, full_flags(rows), blank_row(false))) == occupied(rows)
            - BOARD_WIDTH * count_true(full_flags(rows)),
{
    let f = full_flags(rows);
    assert forall|i: int|
        0 <= i < rows.len() && f[i] implies count_true(#[trigger] rows[i]) == BOARD_WIDTH by {
        lemma_count_true_full(rows[i]);
    }
    lemma_occupied_kept(rows, f);
    lemma_kept_len(rows, f);
    lemma_count_true_bound(f.subrange(0, rows.len() as int));
    assert(f.subrange(0, rows.len() as int) =~= f);
    lemma_occupied_padded(kept(rows, f), rows.len());
}


proof fn lemma_tags_agree_kept(g: Seq<Seq<bool>>, c: Seq<Seq<Option<u8>>>, drop: Seq<bool>)
    requires
        tags_agree(g, c),
        g.len() <= drop.len(),
    ensures
        tags_agree(kept(g, drop), kept(c, drop)),
    decreases g.len(),
{
    if g.len() > 0 {
        assert(tags_agree(g.drop_last(), c.drop_last()));
        lemma_tags_agree_kept(g.drop_last(), c.drop_last(), drop);
    }
}

/// Removing the same rows from a grid and its colour grid keeps tags and cells matched.
pub(crate) proof fn lemma_tags_agree_compacted(
    g: Seq<Seq<bool>>,
    c: Seq<Seq<Option<u8>>>,
    drop: Seq<bool>,
)
    requires
        tags_agree(g, c),
        g.len() <= drop.len(),
    ensures
        tags_agree(compacted(g, drop, blank_row(false)), compacted(c, drop, blank_row(None))),
{
    lemma_tags_agree_kept(g, c, drop);
}

} // verus!
