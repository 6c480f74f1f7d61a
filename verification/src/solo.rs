use vstd::prelude::*;
use crate::cell::Cell;
use crate::board::{
    at, board_count, flagged, free_squares, in_grid, is_square, lemma_board_count_set,
    lemma_mines_among_same, lemma_neighbor_cells, neighbor_cells, numbered, same_mines, set_at,
};
use crate::game::{
    MinesweeperGame, lay_out, laid_out, lemma_laid_out_keeps_status, square_revealed, won_checked,
};

verus! {

/// What a click on `(row, col)` does to the single-player game `a`, giving
/// `b`: the first click of a game lays the board out, then the square is
/// revealed and a win is checked.
pub open spec fn clicked(a: MinesweeperGame, b: MinesweeperGame, row: usize, col: usize) -> bool {
    exists|g: MinesweeperGame, h: MinesweeperGame|
        #![trigger square_revealed(g, h, row, col)]
        (if !a.running && !a.game_over && !a.game_won {
            laid_out(a, g, row, col)
        } else {
            g == a
        }) && square_revealed(g, h, row, col) && won_checked(h, b)
}

/// A left click on `(row, col)` in the single-player game.
pub fn reveal_square(game: &mut MinesweeperGame, row: usize, col: usize)
    requires
        old(game).wf(),
        !old(game).game_over && !old(game).game_won ==> row < old(game).grid_size && col < old(
            game,
        ).grid_size,
        !old(game).running && !old(game).game_over && !old(game).game_won ==> old(game).mine_count
            <= free_squares(old(game).board(), old(game).grid_size, (row, col)).len(),
    ensures
        clicked(*old(game), *final(game), row, col),
        final(game).wf(),
        old(game).flags_match() ==> final(game).flags_match(),
        final(game).game_won == (old(game).game_won || final(game).squares_cleared == 195),
{
    if !game.running && !game.game_over && !game.game_won {
        // only generate bombs after first click
        lay_out(game, row, col);
    }
    let ghost g1 = *game;
    game.flood_fill(row, col);
    let ghost h1 = *game;
    game.check_game_won();
    assert(square_revealed(g1, h1, row, col) && won_checked(h1, *game));
}

/// A click wins the game exactly when it was won already or the cleared
/// count has reached 195, the number of squares without a mine on the
/// default board (15 by 15 with 30 mines); a click that brings the count to
/// 195 wins the game.
pub proof fn law_click_checks_win(a: MinesweeperGame, b: MinesweeperGame, row: usize, col: usize)
    requires
        clicked(a, b, row, col),
    ensures
        b.game_won == (a.game_won || b.squares_cleared == 195),
{
    let (g, h) = choose|g: MinesweeperGame, h: MinesweeperGame|
        #![trigger square_revealed(g, h, row, col)]
        (if !a.running && !a.game_over && !a.game_won {
            laid_out(a, g, row, col)
        } else {
            g == a
        }) && square_revealed(g, h, row, col) && won_checked(h, b);
    if !a.running && !a.game_over && !a.game_won {
        lemma_laid_out_keeps_status(a, g, row, col);
    }
}

/// What a right click on `(row, col)` does to the single-player game `a`,
/// giving `b`: once the game is over or won nothing changes; a hidden square
/// without a flag gets one unless every mine already has a flag; a flag is
/// taken off again; a revealed square stays as it is.
pub open spec fn flag_toggled(a: MinesweeperGame, b: MinesweeperGame, row: usize, col: usize) -> bool {
    let p = (row, col);
    let x = at(a.board(), p);
    if a.game_over || a.game_won {
        b == a
    } else if !x.is_flaged && !x.is_revealed {
        if a.flags == a.mine_count {
            b == a
        } else {
            b == (MinesweeperGame {
                grid: b.grid,
                flags: (a.flags + 1) as usize,
                ..a
            }) && b.board() == set_at(
                a.board(),
                p,
                Cell { is_flaged: true, ..x },
            )
        }
    } else if x.is_flaged {
        b == (MinesweeperGame {
            grid: b.grid,
            flags: (a.flags - 1) as usize,
            ..a
        }) && b.board() == set_at(
            a.board(),
            p,
            Cell { is_flaged: false, ..x },
        )
    } else {
        b == a
    }
}

/// `b` differs from `a` at most in the flag of the square `(row, col)` and in
/// the flag counter: every square keeps whether it is revealed, whether it
/// holds a mine and its number, every other square stays as it was, and a
/// board whose numbers are those numbering gives keeps that property.
pub open spec fn only_flag_changed(a: MinesweeperGame, b: MinesweeperGame, row: usize, col: usize) -> bool {
    let n = a.grid_size;
    &&& b.grid_size == n
    &&& is_square(b.board(), n as int)
    &&& forall|p: (usize, usize)|
        #![trigger at(b.board(), p)]
        in_grid(n as int, p) ==> {
            &&& at(b.board(), p).is_revealed == at(a.board(), p).is_revealed
            &&& at(b.board(), p).is_mine == at(a.board(), p).is_mine
            &&& at(b.board(), p).number == at(a.board(), p).number
            &&& p != (row, col) ==> at(b.board(), p) == at(a.board(), p)
        }
    &&& a.board() == numbered(a.board(), n) ==> b.board() == numbered(b.board(), n)
    &&& b.squares_cleared == a.squares_cleared
    &&& b.mine_count == a.mine_count
    &&& b.game_over == a.game_over
    &&& b.game_won == a.game_won
    &&& b.running == a.running
    &&& b.seconds == a.seconds
}

/// A right click changes nothing but the flag of the square clicked (and the
/// flag counter): no square is revealed or hidden, no mine moves, no number
/// changes, and the numbers stay those that numbering the board gives.
pub proof fn law_flag_touches_only_flag(a: MinesweeperGame, b: MinesweeperGame, row: usize, col: usize)
    requires
        a.wf(),
        !a.game_over && !a.game_won ==> row < a.grid_size && col < a.grid_size,
        flag_toggled(a, b, row, col),
    ensures
        only_flag_changed(a, b, row, col),
{
    let p = (row, col);
    let x = at(a.board(), p);
    let n = a.grid_size;
    if b.board() != a.board() {
        let y = at(b.board(), p);
        assert(b.board() == set_at(a.board(), p, y));
        lemma_flag_keeps_board(a.board(), n, p, y);
    }
}

/// Setting the square `p` to `y`, which agrees with it on everything but its
/// flag, keeps the board square, every other square, and a numbering that
/// matches the mines.
proof fn lemma_flag_keeps_board(b: Seq<Seq<Cell>>, n: usize, p: (usize, usize), y: Cell)
    requires
        is_square(b, n as int),
        in_grid(n as int, p),
        y.is_revealed == at(b, p).is_revealed,
        y.is_mine == at(b, p).is_mine,
        y.number == at(b, p).number,
    ensures
        is_square(set_at(b, p, y), n as int),
        forall|q: (usize, usize)|
            #![trigger at(set_at(b, p, y), q)]
            in_grid(n as int, q) ==> {
                &&& at(set_at(b, p, y), q).is_revealed == at(b, q).is_revealed
                &&& at(set_at(b, p, y), q).is_mine == at(b, q).is_mine
                &&& at(set_at(b, p, y), q).number == at(b, q).number
                &&& q != p ==> at(set_at(b, p, y), q) == at(b, q)
            },
        b == numbered(b, n) ==> set_at(b, p, y) == numbered(set_at(b, p, y), n),
{
    let c = set_at(b, p, y);
    assert(is_square(c, n as int)) by {
        assert forall|i: int| 0 <= i < n implies #[trigger] c[i].len() == n by {
            assert(b[i].len() == n);
        }
    }
    assert forall|q: (usize, usize)| in_grid(n as int, q) implies {
        &&& #[trigger] at(c, q).is_revealed == at(b, q).is_revealed
        &&& at(c, q).is_mine == at(b, q).is_mine
        &&& at(c, q).number == at(b, q).number
        &&& q != p ==> at(c, q) == at(b, q)
    } by {
        assert(b[q.0 as int].len() == n);
    }
    if b == numbered(b, n) {
        assert(same_mines(c, b, n)) by {
            assert forall|i: int, j: int| 0 <= i < n && 0 <= j < n implies #[trigger] c[i][j].is_mine
                == b[i][j].is_mine by {
                let q = (i as usize, j as usize);
                assert(at(c, q).is_mine == at(b, q).is_mine);
            }
        }
        assert forall|i: int, j: int| 0 <= i < n && 0 <= j < n implies #[trigger] numbered(c, n)[i][j]
            == c[i][j] by {
            let (r, k) = (i as usize, j as usize);
            let q = (r, k);
            assert(at(c, q).number == at(b, q).number);
            assert(at(c, q).is_mine == at(b, q).is_mine);
            lemma_neighbor_cells(n, r, k);
            assert forall|m: int| 0 <= m < neighbor_cells(n, r, k).len() implies in_grid(
                n as int,
                #[trigger] neighbor_cells(n, r, k)[m],
            ) by {
                assert(neighbor_cells(n, r, k).contains(neighbor_cells(n, r, k)[m]));
            }
            lemma_mines_among_same(c, b, n, neighbor_cells(n, r, k));
            assert(b[i][j] == numbered(b, n)[i][j]);
        }
        assert(numbered(c, n) =~~= c);
    }
}

/// The flag counter can follow a right click on `(row, col)`: it is above 0
/// when the square carries a flag, and below its limit when a flag may go on.
/// A game whose counter matches its flags always meets this.
pub open spec fn flag_counter_fits(a: MinesweeperGame, row: usize, col: usize) -> bool {
    let x = at(a.board(), (row, col));
    &&& x.is_flaged ==> a.flags > 0
    &&& (!x.is_flaged && !x.is_revealed && a.flags != a.mine_count) ==> a.flags < usize::MAX
}

/// A game whose flag counter matches its flags meets `flag_counter_fits` on
/// every square of the board.
pub proof fn lemma_flags_match_fits(a: MinesweeperGame, row: usize, col: usize)
    requires
        a.wf(),
        a.flags_match(),
        row < a.grid_size,
        col < a.grid_size,
    ensures
        flag_counter_fits(a, row, col),
{
    let p = (row, col);
    let x = at(a.board(), p);
    if x.is_flaged {
        lemma_board_count_set(a.board(), p, Cell { is_flaged: false, ..x }, flagged());
    }
}

/// A right click on `(row, col)` in the single-player game.
pub fn toggle_flag(game: &mut MinesweeperGame, row: usize, col: usize)
    requires
        old(game).wf(),
        !old(game).game_over && !old(game).game_won ==> row < old(game).grid_size && col < old(
            game,
        ).grid_size && flag_counter_fits(*old(game), row, col),
    ensures
        flag_toggled(*old(game), *final(game), row, col),
        final(game).wf(),
        old(game).flags_match() ==> final(game).flags_match(),
        final(game).cleared_matches() == old(game).cleared_matches(),
        only_flag_changed(*old(game), *final(game), row, col),
{
    if game.game_over || game.game_won {
        return;
    }
    let ghost b0 = game.board();
    let ghost p = (row, col);
    assert(b0[row as int] == game.grid@[row as int]@);
    let x = game.grid[row][col];
    if !x.is_flaged && !x.is_revealed {
        // don't allow more flags than mines
        if game.flags == game.mine_count {
            return;
        }
        let y = Cell { is_flaged: true, ..x };
        crate::board::set_cell(&mut game.grid, (row, col), y);
        proof {
            lemma_board_count_set(b0, p, y, flagged());
        }
        game.flags = game.flags + 1;
        proof {
            lemma_same_shape(b0, p, y, game.grid_size);
            lemma_flag_keeps_board(b0, game.grid_size, p, y);
        }
    } else if x.is_flaged {
        let y = Cell { is_flaged: false, ..x };
        crate::board::set_cell(&mut game.grid, (row, col), y);
        proof {
            lemma_board_count_set(b0, p, y, flagged());
        }
        game.flags = game.flags - 1;
        proof {
            lemma_same_shape(b0, p, y, game.grid_size);
            lemma_flag_keeps_board(b0, game.grid_size, p, y);
        }
    }
}

/// Changing a flag leaves the shape of the board and its hidden and cleared
/// counts as they were.
proof fn lemma_same_shape(b: Seq<Seq<Cell>>, p: (usize, usize), y: Cell, n: usize)
    requires
        is_square(b, n as int),
        in_grid(n as int, p),
        y.is_revealed == at(b, p).is_revealed,
        y.is_mine == at(b, p).is_mine,
    ensures
        is_square(set_at(b, p, y), n as int),
        board_count(set_at(b, p, y), crate::board::hidden()) == board_count(b, crate::board::hidden()),
        board_count(set_at(b, p, y), crate::board::safe_revealed()) == board_count(
            b,
            crate::board::safe_revealed(),
        ),
{
    let b1 = set_at(b, p, y);
    assert(is_square(b1, n as int)) by {
        assert forall|i: int| 0 <= i < n implies #[trigger] b1[i].len() == n by {
            assert(b[i].len() == n);
        }
    }
    lemma_board_count_set(b, p, y, crate::board::hidden());
    lemma_board_count_set(b, p, y, crate::board::safe_revealed());
}

/// One second of the single-player clock.
pub fn tick(game: &mut MinesweeperGame)
    requires
        old(game).seconds < u32::MAX,
    ensures
        *final(game) == (MinesweeperGame { seconds: (old(game).seconds + 1) as u32, ..*old(game) }),
{
    game.seconds = game.seconds + 1;
}

} // verus!
