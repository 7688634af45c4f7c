//! The Moore neighbourhood of a cell, and an iterator over it.

use vstd::prelude::*;

verus! {

/// A row, column position in a two-dimensional grid.
#[derive(Debug, Clone, Copy, PartialEq, Eq, Structural)]
pub struct Coord {
    pub row: usize,
    pub col: usize,
}

impl View for Coord {
    type V = (int, int);

    /// The position as a pair of mathematical integers, row first.
    open spec fn view(&self) -> (int, int) {
        (self.row as int, self.col as int)
    }
}

impl Coord {
    /// The position in row `row` and column `col`.
    pub fn new(row: usize, col: usize) -> (coord: Self)
        ensures
            coord.row == row,
            coord.col == col,
    {
        Coord { row, col }
    }
}

/// The eight positions around `(row, col)`, clockwise from the top-left one:
/// top-left, top-mid, top-right, mid-right, bottom-right, bottom-mid,
/// bottom-left, mid-left. Some of them are negative where `row` or `col` is 0.
pub open spec fn ring(row: int, col: int) -> Seq<(int, int)> {
    seq![
        (row - 1, col - 1),
        (row - 1, col),
        (row - 1, col + 1),
        (row, col + 1),
        (row + 1, col + 1),
        (row + 1, col),
        (row + 1, col - 1),
        (row, col - 1),
    ]
}

/// Whether neither component of `p` is negative.
pub open spec fn in_quadrant(p: (int, int)) -> bool {
    p.0 >= 0 && p.1 >= 0
}

/// [`in_quadrant`] as a predicate to filter a sequence with.
pub open spec fn kept() -> spec_fn((int, int)) -> bool {
    |p: (int, int)| in_quadrant(p)
}

/// The neighbours of `(row, col)` in the order in which they are visited: the
/// ring around the cell, without the positions that have a negative
/// component. Nothing is known here of the grid's far edges, so a position
/// beyond them is still a neighbour.
pub open spec fn neighbors(row: int, col: int) -> Seq<(int, int)> {
    ring(row, col).filter(kept())
}

/// The neighbours of `(row, col)` that come at or after the `from`-th
/// position of the ring.
spec fn ring_tail(row: int, col: int, from: int) -> Seq<(int, int)> {
    ring(row, col).subrange(from, 8).filter(kept())
}

/// The whole ring's tail is the neighbourhood, and nothing comes after the
/// ring's last position.
proof fn lemma_ring_tail_ends(row: int, col: int)
    ensures
        ring_tail(row, col, 0) == neighbors(row, col),
        ring_tail(row, col, 8) == Seq::<(int, int)>::empty(),
{
    let r = ring(row, col);
    assert(r.subrange(0, 8) =~= r);
    assert(r.subrange(8, 8) =~= Seq::<(int, int)>::empty());
    reveal_with_fuel(Seq::filter, 1);
}

/// A tail of the ring starts with the ring's position at `from` if that
/// position has no negative component, and goes on with the next tail.
proof fn lemma_ring_tail_step(row: int, col: int, from: int)
    requires
        0 <= from < 8,
    ensures
        ring_tail(row, col, from) == if in_quadrant(ring(row, col)[from]) {
            seq![ring(row, col)[from]] + ring_tail(row, col, from + 1)
        } else {
            ring_tail(row, col, from + 1)
        },
{
    let r = ring(row, col);
    let rest = r.subrange(from + 1, 8);
    assert(r.subrange(from, 8) =~= seq![r[from]] + rest);
    rest.lemma_filter_prepend(r[from], kept());
    assert(Seq::<(int, int)>::empty() + rest.filter(kept()) =~= rest.filter(kept()));
}

/// The neighbourhood written out. Away from the top row and the left column
/// it is the whole ring; in the top row the three upper positions are
/// missing, in the left column the three on the left, and in the top-left
/// corner both.
pub proof fn lemma_neighbors_unfold(row: int, col: int)
    requires
        0 <= row,
        0 <= col,
    ensures
        row > 0 && col > 0 ==> neighbors(row, col) == ring(row, col),
        row > 0 && col == 0 ==> neighbors(row, col) == seq![
            (row - 1, col),
            (row - 1, col + 1),
            (row, col + 1),
            (row + 1, col + 1),
            (row + 1, col),
        ],
        row == 0 && col > 0 ==> neighbors(row, col) == seq![
            (row, col + 1),
            (row + 1, col + 1),
            (row + 1, col),
            (row + 1, col - 1),
            (row, col - 1),
        ],
        row == 0 && col == 0 ==> neighbors(row, col) == seq![
            (row, col + 1),
            (row + 1, col + 1),
            (row + 1, col),
        ],
{
    lemma_ring_tail_ends(row, col);
    lemma_ring_tail_step(row, col, 0);
    lemma_ring_tail_step(row, col, 1);
    lemma_ring_tail_step(row, col, 2);
    lemma_ring_tail_step(row, col, 3);
    lemma_ring_tail_step(row, col, 4);
    lemma_ring_tail_step(row, col, 5);
    lemma_ring_tail_step(row, col, 6);
    lemma_ring_tail_step(row, col, 7);
    if row > 0 && col > 0 {
        assert(neighbors(row, col) =~= ring(row, col));
    } else if row > 0 {
        assert(neighbors(row, col) =~= seq![
            (row - 1, col),
            (row - 1, col + 1),
            (row, col + 1),
            (row + 1, col + 1),
            (row + 1, col),
        ]);
    } else if col > 0 {
        assert(neighbors(row, col) =~= seq![
            (row, col + 1),
            (row + 1, col + 1),
            (row + 1, col),
            (row + 1, col - 1),
            (row, col - 1),
        ]);
    } else {
        assert(neighbors(row, col) =~= seq![(row, col + 1), (row + 1, col + 1), (row + 1, col)]);
    }
}

/// Whether `p` is one of the eight positions that touch `q`, by a side or by
/// a corner.
pub open spec fn adjacent(p: (int, int), q: (int, int)) -> bool {
    &&& p != q
    &&& -1 <= p.0 - q.0 <= 1
    &&& -1 <= p.1 - q.1 <= 1
}

/// A corner against both axes has three neighbours, a cell on one axis has
/// five, and every other cell has eight.
pub proof fn lemma_neighbors_len(row: int, col: int)
    requires
        0 <= row,
        0 <= col,
    ensures
        neighbors(row, col).len() == if row > 0 && col > 0 {
            8nat
        } else if row > 0 || col > 0 {
            5nat
        } else {
            3nat
        },
{
    lemma_neighbors_unfold(row, col);
}

/// The neighbours of a cell are exactly the positions that touch it and have
/// no negative component. So the cell itself is never among them.
pub proof fn lemma_neighbors_membership(row: int, col: int, p: (int, int))
    ensures
        neighbors(row, col).contains(p) <==> adjacent(p, (row, col)) && in_quadrant(p),
{
    let r = ring(row, col);
    if neighbors(row, col).contains(p) {
        r.lemma_filter_contains_rev(kept(), p);
        let k = choose|k: int| 0 <= k < r.len() && r[k] == p;
        assert(adjacent(p, (row, col)));
        let i = choose|i: int| 0 <= i < neighbors(row, col).len() && neighbors(row, col)[i] == p;
        r.lemma_filter_pred(kept(), i);
    }
    if adjacent(p, (row, col)) && in_quadrant(p) {
        let dr = p.0 - row;
        let dc = p.1 - col;
        let k: int = if dr == -1 {
            dc + 1
        } else if dr == 0 {
            if dc == 1 {
                3
            } else {
                7
            }
        } else {
            5 - dc
        };
        assert(r[k] == p);
        r.lemma_filter_contains(kept(), k);
    }
}

/// No position occurs twice among the neighbours of a cell.
pub proof fn lemma_neighbors_distinct(row: int, col: int)
    requires
        0 <= row,
        0 <= col,
    ensures
        neighbors(row, col).no_duplicates(),
{
    lemma_neighbors_unfold(row, col);
}

/// Walks the positions next to an origin in a two-dimensional grid.
///
/// The walk goes clockwise round the origin, from the top-left position, and
/// ends after at most eight steps. It passes over the positions with a
/// negative row or column. It knows nothing of the grid's far edges: leaving
/// out what lies beyond them is the caller's part.
#[derive(Debug)]
pub struct GridIter {
    origin_row: usize,
    origin_col: usize,
    curr_row: usize,
    curr_col: usize,
}

impl View for GridIter {
    type V = Seq<(int, int)>;

    /// The positions that the walk has still to give, in order.
    closed spec fn view(&self) -> Seq<(int, int)> {
        ring_tail(self.origin_row as int, self.origin_col as int, self.ring_index())
    }
}

impl GridIter {
    /// The current position is the origin, where the walk ends, or lies next
    /// to it, and the position right below and to the right of the origin
    /// exists.
    #[verifier::type_invariant]
    spec fn wf(self) -> bool {
        &&& self.origin_row < usize::MAX
        &&& self.origin_col < usize::MAX
        &&& -1 <= self.curr_row - self.origin_row <= 1
        &&& -1 <= self.curr_col - self.origin_col <= 1
    }

    /// Where on the ring the current position lies, and 8 at the origin.
    spec fn ring_index(self) -> int {
        let dr = self.curr_row - self.origin_row;
        let dc = self.curr_col - self.origin_col;
        if dr == -1 && dc == -1 {
            0
        } else if dr == -1 && dc == 0 {
            1
        } else if dr == -1 && dc == 1 {
            2
        } else if dr == 0 && dc == 1 {
            3
        } else if dr == 1 && dc == 1 {
            4
        } else if dr == 1 && dc == 0 {
            5
        } else if dr == 1 && dc == -1 {
            6
        } else if dr == 0 && dc == -1 {
            7
        } else {
            8
        }
    }

    /// The position that the walk goes round.
    pub closed spec fn origin(self) -> (int, int) {
        (self.origin_row as int, self.origin_col as int)
    }

    /// A walk round `(origin_row, origin_col)` with all of the neighbourhood
    /// still to come.
    pub fn new(origin_row: usize, origin_col: usize) -> (it: Self)
        requires
            origin_row < usize::MAX,
            origin_col < usize::MAX,
        ensures
            it.origin() == (origin_row as int, origin_col as int),
            it@ == neighbors(origin_row as int, origin_col as int),
    {
        let curr_row: usize = origin_row.saturating_sub(1);
        let mut curr_col: usize = origin_col.saturating_sub(1);

        if curr_row == origin_row {
            // there is no row above: start to the right of the origin
            curr_col = origin_col + 1;
        }
        proof {
            let (r, c) = (origin_row as int, origin_col as int);
            lemma_ring_tail_ends(r, c);
            lemma_ring_tail_step(r, c, 0);
            lemma_ring_tail_step(r, c, 1);
            lemma_ring_tail_step(r, c, 2);
        }
        GridIter { origin_row, origin_col, curr_row, curr_col }
    }

    /// The current position.
    fn curr_coord(&self) -> (coord: Coord)
        ensures
            coord.row == self.curr_row,
            coord.col == self.curr_col,
    {
        Coord { row: self.curr_row, col: self.curr_col }
    }

    /// Gives the next neighbour and moves on, or `None` once the walk has
    /// come round to the origin; from then on it stays there.
    pub fn next(&mut self) -> (res: Option<Coord>)
        ensures
            final(self).origin() == old(self).origin(),
            old(self)@.len() == 0 ==> res is None && final(self)@ == old(self)@,
            old(self)@.len() > 0 ==> res is Some && res.unwrap()@ == old(self)@[0] && final(self)@
                == old(self)@.skip(1),
    {
        proof {
            use_type_invariant(&*self);
            let (r, c) = (self.origin_row as int, self.origin_col as int);
            lemma_ring_tail_ends(r, c);
            if self.ring_index() < 8 {
                lemma_ring_tail_step(r, c, self.ring_index());
            }
            if self.ring_index() == 5 && c == 0 {
                lemma_ring_tail_step(r, c, 6);
                lemma_ring_tail_step(r, c, 7);
            }
        }
        let ghost before = self@;
        if self.curr_row == self.origin_row && self.curr_col == self.origin_col {
            return None;
        }
        let res = self.curr_coord();
        if self.curr_row < self.origin_row && self.curr_col <= self.origin_col {
            // top left, top mid
            self.curr_col += 1;
        } else if self.origin_col < self.curr_col && self.curr_row <= self.origin_row {
            // top right, mid right
            self.curr_row += 1;
        } else if self.origin_col <= self.curr_col && self.origin_row < self.curr_row {
            // bottom right, bottom mid
            let next_col: usize = self.curr_col.saturating_sub(1);
            if next_col < self.curr_col {
                self.curr_col = next_col;
            } else {
                // bottom mid with nothing to its left: the walk is over
                self.curr_row -= 1;
            }
        } else if self.origin_row < self.curr_row && self.curr_col < self.origin_col {
            // bottom left
            self.curr_row -= 1;
        } else {
            // mid left
            self.curr_col += 1;
        }
        proof {
            assert(before.len() > 0);
            assert(before[0] == res@);
            assert(self@ =~= before.skip(1));
        }
        Some(res)
    }
}

} // verus!
