//! The board of a Game of Life and its move from one generation to the next.

use rand::distributions::Bernoulli;
use rand::thread_rng;
use vstd::prelude::*;
use crate::coin::sample;
use crate::neighbors::{lemma_neighbors_len, neighbors, GridIter};
use crate::rules::{
    count_alive, dead_board, lemma_count_alive_neighbors, lemma_count_alive_step, live_neighbors,
    next_board, next_cell, rectangular, same_shape, square,
};

verus! {

/// Why a board could not be made.
#[derive(Debug, Clone, Copy, PartialEq, Eq, Structural)]
pub enum GolError {
    /// The side asked for is below 4, the least on which the rule makes sense.
    InvalidDimension,
}

impl GolError {
    /// The error in words.
    pub fn message(&self) -> (text: &'static str)
        ensures
            text@ == "Board dimension must be greater than 3"@,
    {
        "Board dimension must be greater than 3"
    }
}

/// The cells that `rows` holds, as a sequence of sequences.
pub open spec fn grid_of(rows: Vec<Vec<bool>>) -> Seq<Seq<bool>> {
    Seq::new(rows@.len(), |r: int| rows@[r]@)
}

/// A board of `rows` rows and `cols` columns on which nothing lives.
fn dead_rows(rows: usize, cols: usize) -> (board: Vec<Vec<bool>>)
    ensures
        grid_of(board) == dead_board(rows as nat, cols as nat),
{
    let mut board: Vec<Vec<bool>> = Vec::with_capacity(rows);
    for r in 0..rows
        invariant
            board@.len() == r,
            forall|i: int|
                0 <= i < r ==> (#[trigger] board@[i])@ == Seq::new(cols as nat, |c: int| false),
    {
        let mut row: Vec<bool> = Vec::with_capacity(cols);
        for c in 0..cols
            invariant
                row@.len() == c,
                forall|j: int| 0 <= j < c ==> !(#[trigger] row@[j]),
        {
            row.push(false);
        }
        assert(row@ =~= Seq::new(cols as nat, |c: int| false));
        board.push(row);
    }
    assert(grid_of(board) =~= dead_board(rows as nat, cols as nat));
    board
}

/// Instantiates and manages board state in Conway's Game of Life.
///
/// Two boards of one shape are held: the current one, which callers read,
/// and a scratch board, into which the next generation is written before the
/// two change places.
#[derive(Debug)]
pub struct ConwayGol {
    board: Vec<Vec<bool>>,
    buffer: Vec<Vec<bool>>,
}

impl View for ConwayGol {
    type V = Seq<Seq<bool>>;

    /// The current board.
    closed spec fn view(&self) -> Seq<Seq<bool>> {
        grid_of(self.board)
    }
}

impl ConwayGol {
    /// The scratch board.
    pub closed spec fn scratch(&self) -> Seq<Seq<bool>> {
        grid_of(self.buffer)
    }

    /// The current board is rectangular, and the scratch board has its shape.
    #[verifier::type_invariant]
    spec fn wf(&self) -> bool {
        &&& rectangular(grid_of(self.board))
        &&& same_shape(grid_of(self.buffer), grid_of(self.board))
    }

    /// The number of rows.
    pub open spec fn rows(&self) -> nat {
        self@.len()
    }

    /// The number of columns: the length of the first row, and 0 where there
    /// is no row.
    pub open spec fn cols(&self) -> nat {
        if self@.len() == 0 {
            0
        } else {
            self@[0].len()
        }
    }

    /// Returns a Conway GoL board of dim x dim dimensions with a random
    /// initial state: each cell is alive or dead by the toss of a fair coin.
    /// A side below 4 is refused. Nothing lives on the scratch board.
    pub fn build_rand(dim: usize) -> (res: Result<Self, GolError>)
        ensures
            dim < 4 ==> res == Err::<Self, GolError>(GolError::InvalidDimension),
            dim >= 4 ==> res is Ok,
            res is Ok ==> square(res.unwrap()@, dim as nat),
            res is Ok ==> res.unwrap().scratch() == dead_board(dim as nat, dim as nat),
    {
        if dim < 4 {
            return Err(GolError::InvalidDimension);
        }
        let dist = Bernoulli::from_ratio(1, 2).unwrap();
        let mut rng = thread_rng();
        let mut board: Vec<Vec<bool>> = Vec::with_capacity(dim);
        for r in 0..dim
            invariant
                board@.len() == r,
                forall|i: int| 0 <= i < r ==> (#[trigger] board@[i])@.len() == dim,
        {
            let mut row: Vec<bool> = Vec::with_capacity(dim);
            for c in 0..dim
                invariant
                    row@.len() == c,
            {
                row.push(sample(&dist, &mut rng));
            }
            board.push(row);
        }
        assert(rectangular(grid_of(board)));
        let game = Self::from_board(board).unwrap();
        Ok(game)
    }

    /// A game that starts from `board`, if every row of `board` is as long as
    /// the first one. The scratch board starts with nothing alive.
    pub fn from_board(board: Vec<Vec<bool>>) -> (res: Option<Self>)
        ensures
            res is Some <==> rectangular(grid_of(board)),
            res is Some ==> res.unwrap()@ == grid_of(board),
            res is Some ==> res.unwrap().scratch() == dead_board(
                res.unwrap().rows(),
                res.unwrap().cols(),
            ),
    {
        let rows: usize = board.len();
        let cols: usize = if rows == 0 {
            0
        } else {
            board[0].len()
        };
        for r in 0..rows
            invariant
                rows == board@.len(),
                rows > 0 ==> cols == board@[0]@.len(),
                forall|i: int| 0 <= i < r ==> (#[trigger] board@[i])@.len() == cols,
        {
            if board[r].len() != cols {
                assert(grid_of(board)[r as int].len() != grid_of(board)[0].len());
                return None;
            }
        }
        let buffer = dead_rows(rows, cols);
        let game = ConwayGol { board, buffer };
        assert(rectangular(game@));
        assert(same_shape(game.scratch(), game@));
        Some(game)
    }

    /// The current board, row by row.
    #[inline]
    pub fn board(&self) -> (board: &Vec<Vec<bool>>)
        ensures
            grid_of(*board) == self@,
            rectangular(self@),
    {
        proof {
            use_type_invariant(self);
        }
        &self.board
    }

    /// The scratch board, row by row.
    #[inline]
    pub fn buffer(&self) -> (buffer: &Vec<Vec<bool>>)
        ensures
            grid_of(*buffer) == self.scratch(),
            same_shape(self.scratch(), self@),
    {
        proof {
            use_type_invariant(self);
        }
        &self.buffer
    }

    /// Progresses the board to its next state: every cell of the new board
    /// follows from the old board alone. The new board is written into the
    /// scratch board, and then the two change places, so the old board is
    /// the scratch board afterwards.
    pub fn tick(&mut self)
        ensures
            final(self)@ == next_board(old(self)@),
            final(self).scratch() == old(self)@,
            same_shape(final(self)@, old(self)@),
    {
        proof {
            use_type_invariant(&*self);
        }
        // both boards leave the game while the scratch board is written
        let mut taken = ConwayGol { board: Vec::new(), buffer: Vec::new() };
        std::mem::swap(self, &mut taken);
        let ConwayGol { board, mut buffer } = taken;
        let ghost now = grid_of(board);
        let rows: usize = board.len();
        for row in 0..rows
            invariant
                now == grid_of(board),
                rows == now.len(),
                rectangular(now),
                same_shape(grid_of(buffer), now),
                forall|r: int, c: int|
                    0 <= r < row && 0 <= c < now[r].len() ==> #[trigger] grid_of(buffer)[r][c]
                        == next_cell(now, r, c),
        {
            let cols: usize = board[row].len();
            for col in 0..cols
                invariant
                    now == grid_of(board),
                    rows == now.len(),
                    row < rows,
                    cols == now[row as int].len(),
                    rectangular(now),
                    same_shape(grid_of(buffer), now),
                    forall|r: int, c: int|
                        0 <= r < row && 0 <= c < now[r].len() ==> #[trigger] grid_of(buffer)[r][c]
                            == next_cell(now, r, c),
                    forall|c: int|
                        0 <= c < col ==> #[trigger] grid_of(buffer)[row as int][c] == next_cell(
                            now,
                            row as int,
                            c,
                        ),
            {
                let nb_ct: usize = live_around(&board, row, col);
                let alive = if board[row][col] {
                    nb_ct == 2 || nb_ct == 3
                } else {
                    nb_ct == 3
                };
                let ghost before = grid_of(buffer);
                assert(before[row as int].len() == cols);
                buffer[row][col] = alive;
                proof {
                    let after = grid_of(buffer);
                    assert(after[row as int] =~= before[row as int].update(col as int, alive));
                    assert forall|r: int| 0 <= r < rows && r != row implies #[trigger] after[r]
                        == before[r] by {}
                }
            }
        }
        proof {
            let next = next_board(now);
            assert forall|r: int| 0 <= r < rows implies #[trigger] grid_of(buffer)[r]
                == next[r] by {
                assert(grid_of(buffer)[r] =~= next[r]);
            }
            assert(grid_of(buffer) =~= next);
        }
        *self = ConwayGol { board: buffer, buffer: board };
    }

    /// Counts the live neighbors a row, col pair has.
    pub fn count_neighbors(&self, row: usize, col: usize) -> (ct: usize)
        requires
            row < self.rows(),
            col < self.cols(),
        ensures
            ct == live_neighbors(self@, row as int, col as int),
    {
        proof {
            use_type_invariant(self);
        }
        live_around(&self.board, row, col)
    }
}

/// Counts the living cells of `board` around the cell at `row`, `col`. A
/// neighbouring position beyond the board's far edges holds no cell, and so
/// adds nothing.
fn live_around(board: &Vec<Vec<bool>>, row: usize, col: usize) -> (ct: usize)
    requires
        row < board@.len(),
        col < board@[row as int]@.len(),
    ensures
        ct == live_neighbors(grid_of(*board), row as int, col as int),
{
    let ghost cells = grid_of(*board);
    let ghost all = neighbors(row as int, col as int);
    let ghost mut seen: int = 0;
    proof {
        // a vector's length fits a `usize`, so the position below and to the
        // right of the cell can be written down
        assert(board@.len() == board.len());
        assert(board@[row as int]@.len() == board[row as int].len());
        lemma_neighbors_len(row as int, col as int);
        assert(all.take(0).len() == 0);
        assert(all.skip(0) =~= all);
    }
    let mut ct: usize = 0;
    let mut it = GridIter::new(row, col);
    loop
        invariant
            cells == grid_of(*board),
            0 <= seen <= all.len() <= 8,
            it@ == all.skip(seen),
            ct == count_alive(cells, all.take(seen)),
            ct <= seen,
        ensures
            ct == count_alive(cells, all),
        decreases all.len() - seen,
    {
        match it.next() {
            None => {
                assert(all.take(seen) =~= all);
                break ;
            },
            Some(nbr) => {
                proof {
                    lemma_count_alive_step(cells, all, seen);
                    assert(all.skip(seen).skip(1) =~= all.skip(seen + 1));
                    seen = seen + 1;
                }
                if nbr.row < board.len() && nbr.col < board[nbr.row].len()
                    && board[nbr.row][nbr.col] {
                    ct += 1;
                }
            },
        }
    }
    proof {
        lemma_count_alive_neighbors(cells, row as int, col as int);
    }
    ct
}

} // verus!
