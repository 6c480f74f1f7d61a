use vstd::prelude::*;
use crate::cell::Cell;
use crate::board::{
    at, board_count, board_of, collect_free_squares, flagged, free_squares, grid_neighbors, hidden,
    in_grid, is_square, lemma_board_count_agree, lemma_board_count_bound, lemma_board_count_set,
    mined, neighbor_cells, number_cells, numbered, safe_revealed,
    set_at, set_cell,
};
use crate::flood::{
    flooded, law_flood_clears_safe_squares, law_flood_reveals_start, law_flood_spares_mines,
    reveal_region,
};
use crate::random::thread_rng;
use crate::mines::{blank_board, blank_grid, mine_added_only, place_mines};

verus! {

const DEFAULT_GRID_SIZE: usize = 15;

const DEFAULT_MINE_COUNT: usize = DEFAULT_GRID_SIZE * 2;

/// The state of one game: the board and its counters.
#[derive(Clone, Debug)]
pub struct MinesweeperGame {
    pub grid_size: usize,
    pub grid: Vec<Vec<Cell>>,
    pub squares_cleared: usize,
    pub mine_count: usize,
    pub flags: usize,
    pub game_over: bool,
    pub game_won: bool,
    pub running: bool,
    pub seconds: u32,
}

/// A square turned face up.
pub open spec fn shown(x: Cell) -> Cell {
    Cell { is_revealed: true, is_mine: x.is_mine, is_flaged: x.is_flaged, number: x.number }
}

impl MinesweeperGame {
    /// The board as rows of squares.
    pub open spec fn board(&self) -> Seq<Seq<Cell>> {
        board_of(&self.grid)
    }

    /// A well-formed game: a square grid of side `grid_size` (small enough for
    /// the `i32` neighbour arithmetic and for its square count to fit a
    /// `usize`), and no more cleared plus hidden squares than the board has.
    pub open spec fn wf(&self) -> bool {
        &&& is_square(self.board(), self.grid_size as int)
        &&& self.grid_size <= i32::MAX
        &&& self.grid_size * self.grid_size <= usize::MAX
        &&& self.squares_cleared + board_count(self.board(), hidden()) <= self.grid_size
            * self.grid_size
    }

    /// `squares_cleared` is the number of revealed squares without a mine.
    pub open spec fn cleared_matches(&self) -> bool {
        self.squares_cleared == board_count(self.board(), safe_revealed())
    }

    /// `flags` is the number of flagged squares, and no more than `mine_count`.
    pub open spec fn flags_match(&self) -> bool {
        &&& self.flags == board_count(self.board(), flagged())
        &&& self.flags <= self.mine_count
    }

    /// The counters that only the caller changes are the same in both games.
    pub open spec fn same_settings(&self, other: &Self) -> bool {
        &&& self.grid_size == other.grid_size
        &&& self.mine_count == other.mine_count
        &&& self.flags == other.flags
        &&& self.running == other.running
        &&& self.seconds == other.seconds
    }

    /// Sets `game_won` once the cleared count reaches the number of mine-free
    /// squares of a default board (15 by 15 with 30 mines: 195).
    pub fn check_game_won(&mut self)
        ensures
            won_checked(*old(self), *final(self)),
    {
        let num_clear_squares = (DEFAULT_GRID_SIZE * DEFAULT_GRID_SIZE) - DEFAULT_MINE_COUNT;
        if self.squares_cleared == num_clear_squares {
            self.game_won = true;
        }
    }

    /// The positions that touch `(row, col)`, in row-major order.
    pub fn neighbors(&self, row: usize, col: usize) -> (result: Vec<(usize, usize)>)
        requires
            self.grid_size <= i32::MAX,
            row < i32::MAX,
            col < i32::MAX,
        ensures
            result@ == neighbor_cells(self.grid_size, row, col),
    {
        grid_neighbors(self.grid_size, row, col)
    }

    /// Writes into every square without a mine the number of mines that touch it.
    pub fn compute_cell_numbers(&mut self)
        requires
            old(self).wf(),
        ensures
            numbers_computed(*old(self), *final(self)),
    {
        let ghost b0 = self.board();
        number_cells(&mut self.grid, self.grid_size);
        proof {
            lemma_board_count_agree(self.board(), b0, hidden());
            lemma_board_count_agree(self.board(), b0, safe_revealed());
            lemma_board_count_agree(self.board(), b0, flagged());
        }
    }

    /// Reveals the square `(row, col)`. Nothing happens once the game is over
    /// or won, or on a square already revealed or flagged. A mine ends the
    /// game; any other square reveals the region a flood from it reaches, and
    /// the newly revealed squares are added to `squares_cleared`.
    pub fn flood_fill(&mut self, row: usize, col: usize)
        requires
            old(self).wf(),
            old(self).game_over || old(self).game_won || (row < old(self).grid_size && col
                < old(self).grid_size),
        ensures
            square_revealed(*old(self), *final(self), row, col),
    {
        let ghost b0 = self.board();
        let ghost n = self.grid_size;
        if self.game_over || self.game_won {
            return;
        }
        assert(b0[row as int] == self.grid@[row as int]@);
        if self.grid[row][col].is_revealed || self.grid[row][col].is_flaged {
            return;
        }
        // if it's a mine, game over

        if self.grid[row][col].is_mine {
            let x = self.grid[row][col];
            let revealed = Cell {
                is_revealed: true,
                is_mine: x.is_mine,
                is_flaged: x.is_flaged,
                number: x.number,
            };
            set_cell(&mut self.grid, (row, col), revealed);
            self.game_over = true;
            proof {
                lemma_board_count_set(b0, (row, col), revealed, hidden());
                lemma_board_count_set(b0, (row, col), revealed, safe_revealed());
                lemma_board_count_set(b0, (row, col), revealed, flagged());
                let b = self.board();
                assert(is_square(b, n as int)) by {
                    assert forall|i: int| 0 <= i < n implies #[trigger] b[i].len() == n by {
                        assert(b0[i].len() == n);
                    }
                }
            }
            return;
        }
        proof {
            lemma_board_count_bound(b0, hidden(), n as int);
        }
        let cleared = reveal_region(&mut self.grid, self.grid_size, row, col);
        self.squares_cleared = self.squares_cleared + cleared;
        proof {
            law_flood_clears_safe_squares(b0, n, (row, col));
            law_flood_spares_mines(b0, n, (row, col));
            let fl = self.board();
            assert forall|i: int, j: int| 0 <= i < fl.len() && 0 <= j < fl[i].len() implies flagged()(
                #[trigger] fl[i][j],
            ) == flagged()(b0[i][j]) by {}
            lemma_board_count_agree(fl, b0, flagged());
            let b = self.board();
            assert(is_square(b, n as int)) by {
                assert forall|i: int| 0 <= i < n implies #[trigger] b[i].len() == n by {
                    assert(b == flooded(b0, n, (row, col)));
                }
            }
        }
    }

    /// Places `mine_count` new mines at random on squares without a mine,
    /// never on `(selected_row, selected_col)`.
    pub fn generate_bombs(&mut self, selected_row: usize, selected_col: usize)
        requires
            old(self).wf(),
            old(self).mine_count <= free_squares(
                old(self).board(),
                old(self).grid_size,
                (selected_row, selected_col),
            ).len(),
        ensures
            bombs_placed(*old(self), *final(self), selected_row, selected_col),
    {
        let ghost b0 = self.board();
        let mut rng = thread_rng();
        place_mines(
            &mut self.grid,
            self.grid_size,
            (selected_row, selected_col),
            self.mine_count,
            &mut rng,
        );
        proof {
            let b1 = self.board();
            let n = self.grid_size;
            assert forall|i: int, j: int| 0 <= i < b1.len() && 0 <= j < b1[i].len() implies hidden()(
                #[trigger] b1[i][j],
            ) == hidden()(b0[i][j]) by {
                let p = (i as usize, j as usize);
                assert(at(b1, p) == b1[i][j]);
                assert(in_grid(n as int, p));
            }
            lemma_board_count_agree(b1, b0, hidden());
            assert forall|i: int, j: int| 0 <= i < b1.len() && 0 <= j < b1[i].len() implies flagged()(
                #[trigger] b1[i][j],
            ) == flagged()(b0[i][j]) by {
                let p = (i as usize, j as usize);
                assert(at(b1, p) == b1[i][j]);
                assert(in_grid(n as int, p));
            }
            lemma_board_count_agree(b1, b0, flagged());
            if forall|p: (usize, usize)| in_grid(n as int, p) ==> !#[trigger] at(b0, p).is_revealed {
                assert forall|i: int, j: int| 0 <= i < b1.len() && 0 <= j < b1[i].len() implies !safe_revealed()(
                    #[trigger] b1[i][j],
                ) && !safe_revealed()(b0[i][j]) by {
                    let p = (i as usize, j as usize);
                    assert(at(b1, p) == b1[i][j]);
                    assert(at(b0, p) == b0[i][j]);
                    assert(in_grid(n as int, p));
                }
                assert forall|i: int, j: int| 0 <= i < n && 0 <= j < n implies !safe_revealed()(
                    #[trigger] b0[i][j],
                ) by {
                    let p = (i as usize, j as usize);
                    assert(at(b0, p) == b0[i][j]);
                    assert(in_grid(n as int, p));
                }
                lemma_board_count_bound(b1, safe_revealed(), n as int);
                lemma_board_count_bound(b0, safe_revealed(), n as int);
                assert(board_count(b1, safe_revealed()) == 0);
                assert(board_count(b0, safe_revealed()) == 0);
            }
        }
    }

    /// A fresh game on a `grid_size` by `grid_size` board of blank squares,
    /// with `mine_count` mines still to place.
    pub fn new(grid_size: usize, mine_count: usize) -> (game: Self)
        requires
            grid_size <= i32::MAX,
            grid_size * grid_size <= usize::MAX,
        ensures
            fresh_game(game, grid_size, mine_count),
    {
        let grid = blank_grid(grid_size);
        let game = MinesweeperGame {
            grid_size,
            grid,
            squares_cleared: 0,
            mine_count,
            flags: 0,
            game_over: false,
            game_won: false,
            running: false,
            seconds: 0,
        };
        proof {
            let b = game.board();
            let n = grid_size as int;
            lemma_board_count_bound(b, hidden(), n);
            lemma_board_count_bound(b, safe_revealed(), n);
            lemma_board_count_bound(b, flagged(), n);
            assert forall|r: int, c: int| 0 <= r < n && 0 <= c < n implies hidden()(
                #[trigger] b[r][c],
            ) by {}
        }
        game
    }

    /// How many squares could take a new mine when `(row, col)` is the first
    /// square chosen: those without a mine, other than `(row, col)`.
    pub fn free_square_count(&self, row: usize, col: usize) -> (count: usize)
        requires
            self.wf(),
        ensures
            count == free_squares(self.board(), self.grid_size, (row, col)).len(),
    {
        let free = collect_free_squares(&self.grid, self.grid_size, (row, col));
        free.len()
    }
}

/// What `check_game_won` does to `a`, giving `b`.
pub open spec fn won_checked(a: MinesweeperGame, b: MinesweeperGame) -> bool {
    &&& b.game_won == (a.game_won || a.squares_cleared == 195)
    &&& b.grid == a.grid
    &&& b.squares_cleared == a.squares_cleared
    &&& b.game_over == a.game_over
    &&& b.same_settings(&a)
}

/// What `compute_cell_numbers` does to the well-formed game `a`, giving `b`.
pub open spec fn numbers_computed(a: MinesweeperGame, b: MinesweeperGame) -> bool {
    &&& b.wf()
    &&& b.board() == numbered(a.board(), a.grid_size)
    &&& b.squares_cleared == a.squares_cleared
    &&& b.game_over == a.game_over
    &&& b.game_won == a.game_won
    &&& b.same_settings(&a)
    &&& a.cleared_matches() ==> b.cleared_matches()
    &&& a.flags_match() ==> b.flags_match()
}

/// What `flood_fill(row, col)` does to the well-formed game `a`, giving `b`.
pub open spec fn square_revealed(a: MinesweeperGame, b: MinesweeperGame, row: usize, col: usize) -> bool {
    let b0 = a.board();
    let start = (row, col);
    &&& b.wf()
    &&& b.same_settings(&a)
    &&& b.game_won == a.game_won
    &&& a.cleared_matches() ==> b.cleared_matches()
    &&& a.flags_match() ==> b.flags_match()
    &&& if a.game_over || a.game_won || at(b0, start).is_revealed || at(b0, start).is_flaged {
        b == a
    } else if at(b0, start).is_mine {
        &&& b.board() == set_at(b0, start, shown(at(b0, start)))
        &&& b.game_over
        &&& b.squares_cleared == a.squares_cleared
    } else {
        &&& b.board() == flooded(b0, a.grid_size, start)
        &&& !b.game_over
        &&& b.squares_cleared == a.squares_cleared + board_count(b0, hidden()) - board_count(
            b.board(),
            hidden(),
        )
    }
}

/// What `generate_bombs(row, col)` may do to the well-formed game `a`, giving
/// `b`: `a.mine_count` more mines, on squares that had none, never on
/// `(row, col)`, and nothing else changed.
pub open spec fn bombs_placed(a: MinesweeperGame, b: MinesweeperGame, row: usize, col: usize) -> bool {
    &&& b.wf()
    &&& b.same_settings(&a)
    &&& b.squares_cleared == a.squares_cleared
    &&& b.game_over == a.game_over
    &&& b.game_won == a.game_won
    &&& (a.cleared_matches() && forall|p: (usize, usize)|
        in_grid(a.grid_size as int, p) ==> !#[trigger] at(a.board(), p).is_revealed)
        ==> b.cleared_matches()
    &&& a.flags_match() ==> b.flags_match()
    &&& is_square(b.board(), a.grid_size as int)
    &&& board_count(b.board(), mined()) == board_count(a.board(), mined()) + a.mine_count
    &&& forall|p: (usize, usize)|
        #![trigger at(b.board(), p)]
        in_grid(a.grid_size as int, p) ==> mine_added_only(a.board(), b.board(), (row, col), p)
}

/// A game that has not started: an `n` by `n` board of blank squares,
/// `mines` mines to place, every counter at zero and every status off.
pub open spec fn fresh_game(g: MinesweeperGame, n: usize, mines: usize) -> bool {
    &&& g.wf()
    &&& g.grid_size == n
    &&& g.board() == blank_board(n as int)
    &&& g.squares_cleared == 0
    &&& g.mine_count == mines
    &&& g.flags == 0
    &&& !g.game_over
    &&& !g.game_won
    &&& !g.running
    &&& g.seconds == 0
    &&& g.cleared_matches()
    &&& g.flags_match()
}

/// The game `b` is `a` with the board laid out for play: mines placed away
/// from `(row, col)`, the board numbered, and the clock running.
pub open spec fn laid_out(a: MinesweeperGame, b: MinesweeperGame, row: usize, col: usize) -> bool {
    exists|g: MinesweeperGame, h: MinesweeperGame|
        #![trigger bombs_placed(a, g, row, col), numbers_computed(g, h)]
        bombs_placed(a, g, row, col) && numbers_computed(g, h) && b == (MinesweeperGame {
            running: true,
            ..h
        })
}

/// Lays the board out on the first click of a game: mines away from
/// `(row, col)`, numbers, and the clock started.
pub fn lay_out(game: &mut MinesweeperGame, row: usize, col: usize)
    requires
        old(game).wf(),
        old(game).mine_count <= free_squares(old(game).board(), old(game).grid_size, (row, col)).len(),
    ensures
        laid_out(*old(game), *final(game), row, col),
        final(game).wf(),
        final(game).grid_size == old(game).grid_size,
        final(game).game_over == old(game).game_over,
        final(game).game_won == old(game).game_won,
        old(game).flags_match() ==> final(game).flags_match(),
{
    let ghost a = *game;
    game.generate_bombs(row, col);
    let ghost g = *game;
    game.compute_cell_numbers();
    let ghost h = *game;
    game.running = true;
    assert(bombs_placed(a, g, row, col) && numbers_computed(g, h));
    assert(*game == (MinesweeperGame { running: true, ..h }));
}

/// The first click is never on a mine: laying the board out puts no mine
/// under the square clicked, and leaves every square hidden that was hidden.
pub proof fn law_first_click_safe(a: MinesweeperGame, b: MinesweeperGame, row: usize, col: usize)
    requires
        a.wf(),
        laid_out(a, b, row, col),
        row < a.grid_size,
        col < a.grid_size,
        !at(a.board(), (row, col)).is_mine,
    ensures
        !at(b.board(), (row, col)).is_mine,
        b.wf(),
        b.running,
        b.grid_size == a.grid_size,
        forall|p: (usize, usize)|
            in_grid(a.grid_size as int, p) ==> (#[trigger] at(b.board(), p)).is_revealed == at(
                a.board(),
                p,
            ).is_revealed,
{
    let (g, h) = choose|g: MinesweeperGame, h: MinesweeperGame|
        #![trigger bombs_placed(a, g, row, col), numbers_computed(g, h)]
        bombs_placed(a, g, row, col) && numbers_computed(g, h) && b == (MinesweeperGame {
            running: true,
            ..h
        });
    let p = (row, col);
    assert(at(g.board(), p) == at(g.board(), p));
    assert(mine_added_only(a.board(), g.board(), p, p));
    assert(b.board() == h.board());
    assert forall|q: (usize, usize)| in_grid(a.grid_size as int, q) implies (#[trigger] at(
        b.board(),
        q,
    )).is_revealed == at(a.board(), q).is_revealed by {
        assert(at(g.board(), q) == at(g.board(), q));
        assert(mine_added_only(a.board(), g.board(), p, q));
    }
}

/// Revealing a hidden square without a flag in a game still in play: the
/// square is shown, the game is lost exactly when the square holds a mine,
/// it is not won by the reveal itself, no mine moves, no flag or number
/// changes, nothing revealed is hidden again, and no other square with a mine
/// is shown.
pub proof fn law_reveal_outcome(a: MinesweeperGame, b: MinesweeperGame, row: usize, col: usize)
    requires
        a.wf(),
        square_revealed(a, b, row, col),
        !a.game_over,
        !a.game_won,
        row < a.grid_size,
        col < a.grid_size,
        !at(a.board(), (row, col)).is_revealed,
        !at(a.board(), (row, col)).is_flaged,
    ensures
        b.game_over == at(a.board(), (row, col)).is_mine,
        !b.game_won,
        at(b.board(), (row, col)).is_revealed,
        forall|q: (usize, usize)|
            #![trigger at(b.board(), q)]
            in_grid(a.grid_size as int, q) ==> {
                &&& at(b.board(), q).is_mine == at(a.board(), q).is_mine
                &&& at(b.board(), q).is_flaged == at(a.board(), q).is_flaged
                &&& at(b.board(), q).number == at(a.board(), q).number
                &&& at(a.board(), q).is_revealed ==> at(b.board(), q).is_revealed
                &&& (at(b.board(), q).is_revealed && !at(a.board(), q).is_revealed && q != (
                    row,
                    col,
                )) ==> !at(a.board(), q).is_mine
            },
{
    let b0 = a.board();
    let n = a.grid_size;
    let p = (row, col);
    if at(b0, p).is_mine {
        assert forall|q: (usize, usize)| in_grid(n as int, q) implies {
            &&& #[trigger] at(b.board(), q).is_mine == at(b0, q).is_mine
            &&& at(b.board(), q).is_flaged == at(b0, q).is_flaged
            &&& at(b.board(), q).number == at(b0, q).number
            &&& at(b0, q).is_revealed ==> at(b.board(), q).is_revealed
            &&& (at(b.board(), q).is_revealed && !at(b0, q).is_revealed && q != p) ==> !at(
                b0,
                q,
            ).is_mine
        } by {
            assert(b0[q.0 as int].len() == n);
        }
    } else {
        law_flood_reveals_start(b0, n, p);
        law_flood_spares_mines(b0, n, p);
        assert forall|q: (usize, usize)| in_grid(n as int, q) implies {
            &&& #[trigger] at(b.board(), q).is_mine == at(b0, q).is_mine
            &&& at(b.board(), q).is_flaged == at(b0, q).is_flaged
            &&& at(b.board(), q).number == at(b0, q).number
            &&& at(b0, q).is_revealed ==> at(b.board(), q).is_revealed
            &&& (at(b.board(), q).is_revealed && !at(b0, q).is_revealed && q != p) ==> !at(
                b0,
                q,
            ).is_mine
        } by {
            assert(flooded(b0, n, p)[q.0 as int][q.1 as int] == at(b.board(), q));
        }
    }
}

/// Laying the board out starts the clock and touches neither the cleared
/// count nor whether the game is lost or won.
pub proof fn lemma_laid_out_keeps_status(a: MinesweeperGame, b: MinesweeperGame, row: usize, col: usize)
    requires
        laid_out(a, b, row, col),
    ensures
        b.game_won == a.game_won,
        b.game_over == a.game_over,
        b.squares_cleared == a.squares_cleared,
        b.running,
{
    let (g, h) = choose|g: MinesweeperGame, h: MinesweeperGame|
        #![trigger bombs_placed(a, g, row, col), numbers_computed(g, h)]
        bombs_placed(a, g, row, col) && numbers_computed(g, h) && b == (MinesweeperGame {
            running: true,
            ..h
        });
}

impl Default for MinesweeperGame {
    /// A 15 by 15 board of blank squares, 30 mines to place, nothing cleared.
    fn default() -> (game: Self)
        ensures
            game.wf(),
            game.grid_size == 15,
            game.board() == blank_board(15),
            game.squares_cleared == 0,
            game.mine_count == 30,
            game.flags == 0,
            !game.game_over,
            !game.game_won,
            !game.running,
            game.seconds == 0,
            game.cleared_matches(),
            game.flags_match(),
    {
        let grid = blank_grid(DEFAULT_GRID_SIZE);
        let game = MinesweeperGame {
            grid_size: DEFAULT_GRID_SIZE,
            grid: grid,
            squares_cleared: 0,
            mine_count: DEFAULT_MINE_COUNT,
            flags: 0,
            game_over: false,
            game_won: false,
            running: false,
            seconds: 0,
        };
        proof {
            let b = game.board();
            lemma_board_count_bound(b, hidden(), 15);
            lemma_board_count_bound(b, safe_revealed(), 15);
            lemma_board_count_bound(b, flagged(), 15);
            assert forall|r: int, c: int| 0 <= r < 15 && 0 <= c < 15 implies hidden()(
                #[trigger] b[r][c],
            ) by {}
        }
        game
    }
}

} // verus!
