use vstd::prelude::*;
use crate::game::MinesweeperGame;

verus! {

/// The messages exchanged between the players' clients and the server.
#[derive(Clone, Debug)]
pub enum WsMsg {
    // receive from client
    NewMove { row: usize, col: usize, game_id: String, user_id: String },
    Close,
    // receive from server
    GameOver { winner: usize },
    NewConnection { game_id: String, user_id: String, role: usize },
    GameState {
        game: MinesweeperGame,
        player_one_name: String,
        player_two_name: String,
        turn: usize,
    },
}

} // verus!
