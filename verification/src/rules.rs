//! The transition rule of the Game of Life, as mathematics.
//!
//! A board is a sequence of rows, each a sequence of cells, `true` where a
//! cell is alive. What lies outside the board counts as dead.

use vstd::prelude::*;
use crate::neighbors::{in_quadrant, kept, neighbors, ring};

verus! {

/// Whether every row of `b` is as long as its first one.
pub open spec fn rectangular(b: Seq<Seq<bool>>) -> bool {
    forall|r: int| 0 <= r < b.len() ==> (#[trigger] b[r]).len() == b[0].len()
}

/// Whether `b` has `dim` rows of `dim` cells each.
pub open spec fn square(b: Seq<Seq<bool>>, dim: nat) -> bool {
    &&& b.len() == dim
    &&& forall|r: int| 0 <= r < dim ==> (#[trigger] b[r]).len() == dim
}

/// Whether `a` and `b` have as many rows, and row by row as many cells.
pub open spec fn same_shape(a: Seq<Seq<bool>>, b: Seq<Seq<bool>>) -> bool {
    &&& a.len() == b.len()
    &&& forall|r: int| 0 <= r < a.len() ==> (#[trigger] a[r]).len() == b[r].len()
}

/// The board of `rows` rows and `cols` columns on which nothing lives.
pub open spec fn dead_board(rows: nat, cols: nat) -> Seq<Seq<bool>> {
    Seq::new(rows, |r: int| Seq::new(cols, |c: int| false))
}

/// Whether no cell of `b` is alive.
pub open spec fn all_dead(b: Seq<Seq<bool>>) -> bool {
    forall|r: int, c: int| 0 <= r < b.len() && 0 <= c < b[r].len() ==> !(#[trigger] b[r][c])
}

/// Whether `(row, col)` lies on the board `b` and the cell there is alive.
pub open spec fn is_alive(b: Seq<Seq<bool>>, row: int, col: int) -> bool {
    0 <= row < b.len() && 0 <= col < b[row].len() && b[row][col]
}

/// 1 for a living cell and 0 for a dead one.
pub open spec fn one_if(alive: bool) -> nat {
    if alive {
        1
    } else {
        0
    }
}

/// The number of living cells among the eight positions around `(row, col)`.
pub open spec fn live_neighbors(b: Seq<Seq<bool>>, row: int, col: int) -> nat {
    one_if(is_alive(b, row - 1, col - 1)) + one_if(is_alive(b, row - 1, col)) + one_if(
        is_alive(b, row - 1, col + 1),
    ) + one_if(is_alive(b, row, col + 1)) + one_if(is_alive(b, row + 1, col + 1)) + one_if(
        is_alive(b, row + 1, col),
    ) + one_if(is_alive(b, row + 1, col - 1)) + one_if(is_alive(b, row, col - 1))
}

/// What the cell at `(row, col)` is in the next generation: a dead cell comes
/// to life with exactly three living neighbours, and a living cell stays
/// alive with two or three.
pub open spec fn next_cell(b: Seq<Seq<bool>>, row: int, col: int) -> bool {
    let n = live_neighbors(b, row, col);
    if b[row][col] {
        n == 2 || n == 3
    } else {
        n == 3
    }
}

/// The next generation of `b`: a board of the same shape, each cell of which
/// follows from the cells of `b` alone.
pub open spec fn next_board(b: Seq<Seq<bool>>) -> Seq<Seq<bool>> {
    Seq::new(b.len(), |r: int| Seq::new(b[r].len(), |c: int| next_cell(b, r, c)))
}

/// The board `n` generations after `b`.
pub open spec fn generations(b: Seq<Seq<bool>>, n: nat) -> Seq<Seq<bool>>
    decreases n,
{
    if n == 0 {
        b
    } else {
        next_board(generations(b, (n - 1) as nat))
    }
}

/// How many of the positions in `cells` hold a living cell of `b`.
pub open spec fn count_alive(b: Seq<Seq<bool>>, cells: Seq<(int, int)>) -> nat
    decreases cells.len(),
{
    if cells.len() == 0 {
        0
    } else {
        count_alive(b, cells.drop_last()) + one_if(is_alive(b, cells.last().0, cells.last().1))
    }
}

/// Counting over one more position of `cells` adds that position's cell.
pub proof fn lemma_count_alive_step(b: Seq<Seq<bool>>, cells: Seq<(int, int)>, k: int)
    requires
        0 <= k < cells.len(),
    ensures
        count_alive(b, cells.take(k + 1)) == count_alive(b, cells.take(k)) + one_if(
            is_alive(b, cells[k].0, cells[k].1),
        ),
{
    assert(cells.take(k + 1).drop_last() =~= cells.take(k));
}

/// Positions with a negative component hold no living cell, so leaving them
/// out changes no count.
pub proof fn lemma_count_alive_filter(b: Seq<Seq<bool>>, cells: Seq<(int, int)>)
    ensures
        count_alive(b, cells.filter(kept())) == count_alive(b, cells),
    decreases cells.len(),
{
    reveal(Seq::filter);
    if cells.len() > 0 {
        let init = cells.drop_last();
        lemma_count_alive_filter(b, init);
        if in_quadrant(cells.last()) {
            assert(init.filter(kept()).push(cells.last()).drop_last() =~= init.filter(kept()));
        }
    }
}

/// The living cells among the neighbours of `(row, col)` are the living
/// cells around it.
pub proof fn lemma_count_alive_neighbors(b: Seq<Seq<bool>>, row: int, col: int)
    ensures
        count_alive(b, neighbors(row, col)) == live_neighbors(b, row, col),
{
    let r = ring(row, col);
    lemma_count_alive_filter(b, r);
    assert(r.take(0).len() == 0);
    lemma_count_alive_step(b, r, 0);
    lemma_count_alive_step(b, r, 1);
    lemma_count_alive_step(b, r, 2);
    lemma_count_alive_step(b, r, 3);
    lemma_count_alive_step(b, r, 4);
    lemma_count_alive_step(b, r, 5);
    lemma_count_alive_step(b, r, 6);
    lemma_count_alive_step(b, r, 7);
    assert(r.take(8) =~= r);
}

/// No cell has more than eight living neighbours.
pub proof fn lemma_live_neighbors_bound(b: Seq<Seq<bool>>, row: int, col: int)
    ensures
        live_neighbors(b, row, col) <= 8,
{
}

/// A generation keeps the board's shape.
pub proof fn lemma_next_board_shape(b: Seq<Seq<bool>>)
    ensures
        same_shape(next_board(b), b),
        rectangular(b) ==> rectangular(next_board(b)),
{
}

/// A board on which nothing lives stays as it is, however many generations
/// pass.
pub proof fn lemma_dead_board_is_stable(b: Seq<Seq<bool>>, n: nat)
    requires
        all_dead(b),
    ensures
        generations(b, n) == b,
    decreases n,
{
    if n > 0 {
        lemma_dead_board_is_stable(b, (n - 1) as nat);
        let next = next_board(b);
        assert forall|r: int| 0 <= r < b.len() implies #[trigger] next[r] == b[r] by {
            assert forall|c: int| 0 <= c < b[r].len() implies #[trigger] next[r][c] == b[r][c] by {
                assert(!b[r][c]);
                lemma_dead_has_no_live_neighbors(b, r, c);
            }
            assert(next[r] =~= b[r]);
        }
        assert(next =~= b);
    }
}

/// On a board on which nothing lives, no cell has a living neighbour.
pub proof fn lemma_dead_has_no_live_neighbors(b: Seq<Seq<bool>>, row: int, col: int)
    requires
        all_dead(b),
    ensures
        live_neighbors(b, row, col) == 0,
{
    assert forall|r: int, c: int| !is_alive(b, r, c) by {
        if 0 <= r < b.len() && 0 <= c < b[r].len() {
            assert(!b[r][c]);
        }
    }
}

} // verus!
