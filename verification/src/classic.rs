use vstd::prelude::*;
use crate::cell::Cell;
use crate::board::{
    at, board_count, board_of, grid_neighbors, in_grid, is_square, lemma_board_count_bound, mined,
    neighbor_cells,
    number_cells, numbered, set_at, set_cell,
};
use crate::flood::{flooded, law_flood_reveals_start, law_flood_spares_mines, reveal_region};
use crate::mines::{blank_grid, lemma_free_in_blank, mine_added_only, place_mines};
use crate::random::thread_rng;

verus! {

const DEFAULT_GRID_SIZE: usize = 10;

/// The single-player game: a board and whether a mine went off.
pub struct Minesweeper {
    pub grid_size: usize,
    pub grid: Vec<Vec<Cell>>,
    pub game_over: bool,
}

/// What the player can do.
#[derive(Clone, Copy, Debug)]
pub enum Message {
    Reveal(usize, usize),
}

/// A fresh board: `n` by `n`, every square hidden and unflagged, `mines`
/// mines, and every other square numbered 0 so far.
pub open spec fn fresh_board(b: Seq<Seq<Cell>>, n: usize, mines: usize) -> bool {
    &&& is_square(b, n as int)
    &&& board_count(b, mined()) == mines
    &&& forall|i: int, j: int|
        0 <= i < n && 0 <= j < n ==> {
            &&& !(#[trigger] b[i][j]).is_revealed
            &&& !b[i][j].is_flaged
            &&& b[i][j].number == 0
        }
}

/// Lays `mine_count` mines at random on a fresh `grid_size` by `grid_size`
/// board.
pub fn generate_grid(grid_size: usize, mine_count: usize) -> (grid: Vec<Vec<Cell>>)
    requires
        mine_count <= grid_size * grid_size,
    ensures
        fresh_board(board_of(&grid), grid_size, mine_count),
{
    let mut rng = thread_rng();
    let mut grid = blank_grid(grid_size);
    let ghost b0 = board_of(&grid);
    proof {
        lemma_free_in_blank(grid_size, (grid_size, grid_size));
        lemma_board_count_bound(b0, mined(), grid_size as int);
    }
    place_mines(&mut grid, grid_size, (grid_size, grid_size), mine_count, &mut rng);
    proof {
        let b = board_of(&grid);
        assert forall|i: int, j: int| 0 <= i < grid_size && 0 <= j < grid_size implies {
            &&& !(#[trigger] b[i][j]).is_revealed
            &&& !b[i][j].is_flaged
            &&& b[i][j].number == 0
        } by {
            let p = (i as usize, j as usize);
            assert(at(b, p) == b[i][j]);
            assert(in_grid(grid_size as int, p));
            assert(mine_added_only(b0, b, (grid_size, grid_size), p));
        }
    }
    grid
}

impl Minesweeper {
    /// The board as rows of squares.
    pub open spec fn board(&self) -> Seq<Seq<Cell>> {
        board_of(&self.grid)
    }

    /// A square grid of side `grid_size`, small enough for the `i32`
    /// neighbour arithmetic and for its square count to fit a `usize`.
    pub open spec fn wf(&self) -> bool {
        &&& is_square(self.board(), self.grid_size as int)
        &&& self.grid_size <= i32::MAX
        &&& self.grid_size * self.grid_size <= usize::MAX
    }

    /// Carries out what the player asked for.
    pub fn update(&mut self, message: Message)
        requires
            old(self).wf(),
            match message {
                Message::Reveal(row, col) => row < old(self).grid_size && col < old(
                    self,
                ).grid_size,
            },
        ensures
            match message {
                Message::Reveal(row, col) => reveal_outcome(*old(self), *final(self), row, col),
            },
    {
        match message {
            Message::Reveal(row, col) => {
                self.flood_fill(row, col);
            },
        }
    }

    /// Reveals `(row, col)`: nothing happens on a revealed square, a mine ends
    /// the game, any other square reveals the region a flood from it reaches.
    pub fn flood_fill(&mut self, row: usize, col: usize)
        requires
            old(self).wf(),
            row < old(self).grid_size,
            col < old(self).grid_size,
        ensures
            reveal_outcome(*old(self), *final(self), row, col),
    {
        let ghost b0 = self.board();
        assert(b0[row as int] == self.grid@[row as int]@);
        if self.grid[row][col].is_revealed {
            return;
        }
        // if it's a mine, game over

        if self.grid[row][col].is_mine {
            let x = self.grid[row][col];
            set_cell(
                &mut self.grid,
                (row, col),
                Cell {
                    is_revealed: true,
                    is_mine: x.is_mine,
                    is_flaged: x.is_flaged,
                    number: x.number,
                },
            );
            self.game_over = true;
            return;
        }
        let _cleared = reveal_region(&mut self.grid, self.grid_size, row, col);
    }

    /// Writes into every square without a mine the number of mines that touch it.
    pub fn compute_cell_numbers(&mut self)
        requires
            old(self).wf(),
        ensures
            final(self).grid_size == old(self).grid_size,
            final(self).game_over == old(self).game_over,
            final(self).board() == numbered(old(self).board(), old(self).grid_size),
    {
        number_cells(&mut self.grid, self.grid_size);
    }

    /// The positions that touch `(row, col)`, in row-major order.
    pub fn neighbors(&self, row: usize, col: usize) -> (result: Vec<(usize, usize)>)
        requires
            self.grid_size <= i32::MAX,
            row < i32::MAX,
            col < i32::MAX,
        ensures
            result@ == neighbor_cells(self.grid_size, row, col),
    {
        grid_neighbors(self.grid_size, row, col)
    }
}

/// What revealing `(row, col)` does to the single-player game `a`, giving `b`.
pub open spec fn reveal_outcome(a: Minesweeper, b: Minesweeper, row: usize, col: usize) -> bool {
    let b0 = a.board();
    let x = at(b0, (row, col));
    &&& b.grid_size == a.grid_size
    &&& if x.is_revealed {
        b == a
    } else if x.is_mine {
        &&& b.board() == set_at(
            b0,
            (row, col),
            Cell { is_revealed: true, is_mine: true, is_flaged: x.is_flaged, number: x.number },
        )
        &&& b.game_over
    } else {
        &&& b.board() == flooded(b0, a.grid_size, (row, col))
        &&& b.game_over == a.game_over
    }
}

/// Revealing a hidden square shows it; the game ends when it holds a mine and
/// is otherwise left as over or not as it was; no mine moves, no flag or
/// number changes, nothing revealed is hidden again, and no other square
/// with a mine is shown.
pub proof fn law_classic_reveal(a: Minesweeper, b: Minesweeper, row: usize, col: usize)
    requires
        a.wf(),
        reveal_outcome(a, b, row, col),
        row < a.grid_size,
        col < a.grid_size,
        !at(a.board(), (row, col)).is_revealed,
    ensures
        at(b.board(), (row, col)).is_revealed,
        b.game_over == (a.game_over || at(a.board(), (row, col)).is_mine),
        forall|q: (usize, usize)|
            #![trigger at(b.board(), q)]
            in_grid(a.grid_size as int, q) ==> {
                &&& at(b.board(), q).is_mine == at(a.board(), q).is_mine
                &&& at(b.board(), q).is_flaged == at(a.board(), q).is_flaged
                &&& at(b.board(), q).number == at(a.board(), q).number
                &&& at(a.board(), q).is_revealed ==> at(b.board(), q).is_revealed
                &&& (at(b.board(), q).is_revealed && !at(a.board(), q).is_revealed && q != (
                    row,
                    col,
                )) ==> !at(a.board(), q).is_mine
            },
{
    let b0 = a.board();
    let n = a.grid_size;
    let p = (row, col);
    if at(b0, p).is_mine {
        assert forall|q: (usize, usize)| in_grid(n as int, q) implies {
            &&& #[trigger] at(b.board(), q).is_mine == at(b0, q).is_mine
            &&& at(b.board(), q).is_flaged == at(b0, q).is_flaged
            &&& at(b.board(), q).number == at(b0, q).number
            &&& at(b0, q).is_revealed ==> at(b.board(), q).is_revealed
            &&& (at(b.board(), q).is_revealed && !at(b0, q).is_revealed && q != p) ==> !at(
                b0,
                q,
            ).is_mine
        } by {
            assert(b0[q.0 as int].len() == n);
        }
    } else {
        law_flood_reveals_start(b0, n, p);
        law_flood_spares_mines(b0, n, p);
        assert forall|q: (usize, usize)| in_grid(n as int, q) implies {
            &&& #[trigger] at(b.board(), q).is_mine == at(b0, q).is_mine
            &&& at(b.board(), q).is_flaged == at(b0, q).is_flaged
            &&& at(b.board(), q).number == at(b0, q).number
            &&& at(b0, q).is_revealed ==> at(b.board(), q).is_revealed
            &&& (at(b.board(), q).is_revealed && !at(b0, q).is_revealed && q != p) ==> !at(
                b0,
                q,
            ).is_mine
        } by {
            assert(flooded(b0, n, p)[q.0 as int][q.1 as int] == at(b.board(), q));
        }
    }
}

impl Default for Minesweeper {
    /// A 10 by 10 board with 10 mines laid at random and every other square
    /// numbered.
    fn default() -> (game: Self)
        ensures
            game.wf(),
            game.grid_size == 10,
            !game.game_over,
            is_square(game.board(), 10),
            board_count(game.board(), mined()) == 10,
            game.board() == numbered(game.board(), 10),
            forall|i: int, j: int|
                0 <= i < 10 && 0 <= j < 10 ==> {
                    &&& !(#[trigger] game.board()[i][j]).is_revealed
                    &&& !game.board()[i][j].is_flaged
                    &&& game.board()[i][j].is_mine ==> game.board()[i][j].number == 0
                },
    {
        let mut grid = Self {
            grid_size: DEFAULT_GRID_SIZE,
            grid: generate_grid(DEFAULT_GRID_SIZE, DEFAULT_GRID_SIZE),
            game_over: false,
        };
        let ghost b0 = grid.board();
        grid.compute_cell_numbers();
        proof {
            let b = grid.board();
            assert(is_square(b, 10)) by {
                assert forall|i: int| 0 <= i < 10 implies #[trigger] b[i].len() == 10 by {
                    assert(b0[i].len() == 10);
                }
            }
            assert forall|i: int, j: int| 0 <= i < 10 && 0 <= j < 10 implies (#[trigger] b[i][j]).is_mine
                == b0[i][j].is_mine by {}
            crate::board::lemma_board_count_agree(b, b0, mined());
            crate::board::lemma_numbered_idempotent(b0, 10);
        }
        grid
    }
}

} // verus!
