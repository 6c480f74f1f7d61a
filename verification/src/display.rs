use vstd::prelude::*;
use crate::cell::Cell;
use crate::game::MinesweeperGame;
use crate::remote::RemoteGame;

verus! {

/// What a square shows.
#[derive(Clone, Copy, Debug, PartialEq, Eq, Structural)]
pub enum Face {
    Blank,
    Number(u8),
    Mine,
    Flag,
}

/// The face of a square: a revealed square shows its mine or its number
/// (nothing for 0); a hidden one shows a flag when `flag_shown`, else nothing.
pub fn cell_face(cell: Cell, flag_shown: bool) -> (face: Face)
    ensures
        face == if cell.is_revealed {
            if cell.is_mine {
                Face::Mine
            } else if cell.number > 0 {
                Face::Number(cell.number)
            } else {
                Face::Blank
            }
        } else if flag_shown {
            Face::Flag
        } else {
            Face::Blank
        },
{
    if cell.is_revealed {
        if !cell.is_mine && cell.number > 0 {
            Face::Number(cell.number)
        } else if cell.is_mine {
            Face::Mine
        } else {
            Face::Blank
        }
    } else if flag_shown {
        Face::Flag
    } else {
        Face::Blank
    }
}

/// The headline over a board.
#[derive(Clone, Copy, Debug, PartialEq, Eq, Structural)]
pub enum Headline {
    Playing,
    GameOver,
    GameWon,
}

/// The headline of the single-player game: lost, won, or still playing.
pub fn solo_headline(game: &MinesweeperGame) -> (h: Headline)
    ensures
        h == if game.game_over {
            Headline::GameOver
        } else if game.game_won {
            Headline::GameWon
        } else {
            Headline::Playing
        },
{
    if game.game_over {
        Headline::GameOver
    } else if game.game_won {
        Headline::GameWon
    } else {
        Headline::Playing
    }
}

/// The headline of a two-player game on one client: once the game is over,
/// won when this client's player is the winner and lost otherwise.
pub fn duel_headline(view: &RemoteGame) -> (h: Headline)
    ensures
        h == if view.game.game_over {
            if view.winner == view.role {
                Headline::GameWon
            } else {
                Headline::GameOver
            }
        } else {
            Headline::Playing
        },
{
    if view.game.game_over {
        if view.winner == view.role {
            Headline::GameWon
        } else {
            Headline::GameOver
        }
    } else {
        Headline::Playing
    }
}

/// The line telling a player of a two-player game what to do.
#[derive(Clone, Copy, Debug, PartialEq, Eq, Structural)]
pub enum TurnBanner {
    YourTurn,
    Waiting,
    Nothing,
}

/// Your turn while the game is open and it is this client's turn; waiting
/// while the game is open and nobody's turn yet; otherwise nothing.
pub fn turn_banner(view: &RemoteGame) -> (b: TurnBanner)
    ensures
        b == if !view.game.game_over && !view.game.game_won && view.turn == view.role {
            TurnBanner::YourTurn
        } else if view.turn == 0 && !view.game.game_over && !view.game.game_won {
            TurnBanner::Waiting
        } else {
            TurnBanner::Nothing
        },
{
    if !view.game.game_over && !view.game.game_won && view.turn == view.role {
        TurnBanner::YourTurn
    } else if view.turn == 0 && !view.game.game_over && !view.game.game_won {
        TurnBanner::Waiting
    } else {
        TurnBanner::Nothing
    }
}

/// Whose clock a two-player client shows above the board and whose below:
/// this client's player sits at the bottom. Player two sees player one on
/// top; any other role sees player two on top.
pub fn clock_order(view: &RemoteGame) -> (order: (usize, usize))
    ensures
        order == if view.role == 2 {
            (1usize, 2usize)
        } else {
            (2usize, 1usize)
        },
{
    if view.role == 2 {
        (1, 2)
    } else {
        (2, 1)
    }
}

/// Seconds as minutes and seconds.
pub fn minutes_seconds(seconds: u32) -> (ms: (u32, u32))
    ensures
        ms.0 == seconds / 60,
        ms.1 == seconds % 60,
        ms.0 * 60 + ms.1 == seconds,
        ms.1 < 60,
{
    (seconds / 60, seconds % 60)
}

/// Milliseconds on a clock as whole minutes and the whole seconds after them.
pub fn clock_reading(millis: u128) -> (ms: (u128, u128))
    ensures
        ms.0 == millis / 60_000,
        ms.1 == (millis % 60_000) / 1000,
        ms.1 < 60,
{
    (millis / 60_000, (millis % 60_000) / 1000)
}

/// Mines not yet covered by a flag in the single-player game.
pub fn solo_bombs_remaining(game: &MinesweeperGame) -> (n: usize)
    requires
        game.flags <= game.mine_count,
    ensures
        n == game.mine_count - game.flags,
{
    game.mine_count - game.flags
}

/// The single-player clock runs from the first click until the game ends.
pub fn solo_clock_runs(game: &MinesweeperGame) -> (b: bool)
    ensures
        b == (game.running && !game.game_over && !game.game_won),
{
    game.running && !game.game_over && !game.game_won
}

/// The clocks of a two-player game run once both players have made their
/// first move, until the game is over.
pub fn duel_clock_runs(view: &RemoteGame) -> (b: bool)
    ensures
        b == (view.game.running && !view.game.game_over && !view.player_one.first_move
            && !view.player_two.first_move),
{
    view.game.running && !view.game.game_over && !view.player_one.first_move
        && !view.player_two.first_move
}

} // verus!
