use vstd::prelude::*;
use crate::board::{at, free_squares, in_grid, is_square};
use crate::duel::{Player, default_player};
use crate::game::{MinesweeperGame, fresh_game};
use crate::remote::{RemoteGame, remote_flag_toggled, state_applied, tick_reports, ticked};
use crate::solo::{clicked, flag_counter_fits, flag_toggled, reveal_square, tick, toggle_flag};

verus! {

/// The screen a client shows, with the game it holds.
pub enum Screen {
    MainMenu,
    Loading,
    SinglePlayer(MinesweeperGame),
    Multiplayer(RemoteGame),
}

/// What the player did, the clock did, or the server said.
pub enum Input {
    MainMenu,
    SinglePlayer,
    Multiplayer,
    Reveal(usize, usize),
    Flag(usize, usize),
    NewGame,
    Tick,
    /// The server placed this client in a game.
    Joined { game_id: String, role: usize },
    /// The server sent the state of the game.
    State {
        game: MinesweeperGame,
        player_one: Player,
        player_two: Player,
        turn: usize,
        winner: usize,
    },
}

/// What the client has to do beyond showing the new screen.
#[derive(PartialEq, Eq)]
pub enum Effect {
    Nothing,
    /// Open a connection to the server for a new two-player game.
    Connect,
    /// Wait a moment, then ask for a new two-player game.
    ReconnectLater,
    /// Send a move request.
    SendMove { row: usize, col: usize, game_id: String, elapsed_ms: u128 },
    /// Report that this client's clock ran out.
    SendTimeout { game_id: String },
}

/// The inputs a screen can take without failing: moves on the board of a
/// well-formed game, a clock that can still count, flags that fit the board,
/// and a time of arrival no earlier than the last one.
pub open spec fn input_fits(screen: Screen, input: Input, now: Option<u128>) -> bool {
    match screen {
        Screen::SinglePlayer(g) => match input {
            Input::Reveal(row, col) => {
                &&& g.wf()
                &&& !g.game_over && !g.game_won ==> row < g.grid_size && col < g.grid_size
                &&& !g.running && !g.game_over && !g.game_won ==> g.mine_count <= free_squares(
                    g.board(),
                    g.grid_size,
                    (row, col),
                ).len()
            },
            Input::Flag(row, col) => {
                &&& g.wf()
                &&& !g.game_over && !g.game_won ==> row < g.grid_size && col < g.grid_size
                    && flag_counter_fits(g, row, col)
            },
            Input::Tick => g.seconds < u32::MAX,
            _ => true,
        },
        Screen::Multiplayer(r) => match input {
            Input::Reveal(row, col) => {
                &&& is_square(r.game.board(), r.game.grid_size as int)
                &&& r.flags.wf()
                &&& !r.flags@.contains((row, col)) && r.turn == r.role ==> row < r.game.grid_size
                    && col < r.game.grid_size && (now matches Some(t) ==> t >= r.received_ts)
            },
            Input::Flag(row, col) => {
                &&& r.flags_on_board()
                &&& is_square(r.game.board(), r.game.grid_size as int)
                &&& !r.game.game_over && !r.game.game_won ==> row < r.game.grid_size && col
                    < r.game.grid_size
            },
            Input::State { game, .. } => {
                &&& r.flags.wf()
                &&& is_square(game.board(), game.grid_size as int)
                &&& forall|q: (usize, usize)|
                    #[trigger] r.flags@.contains(q) ==> in_grid(game.grid_size as int, q)
            },
            _ => true,
        },
        _ => true,
    }
}

/// A screen whose game can take the next input: a well-formed single-player
/// game whose flag counter matches its flags, or a two-player view on a square
/// board with its flags on the board.
pub open spec fn screen_valid(s: Screen) -> bool {
    match s {
        Screen::SinglePlayer(g) => g.wf() && g.flags_match(),
        Screen::Multiplayer(r) => r.flags_on_board() && is_square(
            r.game.board(),
            r.game.grid_size as int,
        ),
        _ => true,
    }
}

/// A fresh single-player game as the menu and "new game" make it: the
/// default game, a 15 by 15 board of blank squares with 30 mines to place,
/// every counter at zero and every status off.
pub open spec fn fresh_solo(g: MinesweeperGame) -> bool {
    fresh_game(g, 15, 30)
}

/// A fresh two-player view as the menu and the loading screen make it: an
/// empty game, no flags, player one to move, no role, game id or winner yet,
/// no state received, and both players as `Player::default` makes them.
pub open spec fn fresh_remote(r: RemoteGame) -> bool {
    &&& fresh_game(r.game, 0, 0)
    &&& r.flags_fit()
    &&& r.flags@ == Set::<(usize, usize)>::empty()
    &&& r.turn == 1
    &&& r.role == 0
    &&& r.game_id@ == Seq::<char>::empty()
    &&& r.winner == 0
    &&& r.received_ts == 0
    &&& default_player(r.player_one)
    &&& default_player(r.player_two)
}

/// What the main menu and the loading screen do with `input`: the menu
/// opens a game of either kind, the loading screen only a two-player one.
pub open spec fn menu_step(loading: bool, input: Input, after: Screen, effect: Effect) -> bool {
    match input {
        Input::SinglePlayer if !loading => after matches Screen::SinglePlayer(g) && fresh_solo(g)
            && effect == Effect::Nothing,
        Input::Multiplayer => after matches Screen::Multiplayer(r) && fresh_remote(r) && effect
            == Effect::Connect,
        _ => (if loading {
            after is Loading
        } else {
            after is MainMenu
        }) && effect == Effect::Nothing,
    }
}

/// What the single-player screen does with `input`.
pub open spec fn solo_step(a: MinesweeperGame, input: Input, after: Screen, effect: Effect) -> bool {
    &&& effect == Effect::Nothing
    &&& after matches Screen::SinglePlayer(b)
    &&& match input {
        Input::Reveal(row, col) => clicked(a, b, row, col),
        Input::Flag(row, col) => flag_toggled(a, b, row, col),
        Input::Tick => b == (MinesweeperGame { seconds: (a.seconds + 1) as u32, ..a }),
        Input::NewGame => fresh_solo(b),
        _ => b == a,
    }
}

/// What the two-player screen does with `input`, given the time `now` and
/// whether the connection is open.
pub open spec fn duel_step(
    a: RemoteGame,
    input: Input,
    now: Option<u128>,
    connected: bool,
    after: Screen,
    effect: Effect,
) -> bool {
    match input {
        Input::NewGame => after is Loading && effect == Effect::ReconnectLater,
        _ => after matches Screen::Multiplayer(b) && match input {
            Input::Tick => ticked(a, b) && effect == if tick_reports(a) && connected {
                    Effect::SendTimeout { game_id: a.game_id }
                } else {
                    Effect::Nothing
                },
            Input::Joined { game_id, role } => b == (RemoteGame { game_id, role, ..a }) && effect
                == Effect::Nothing,
            Input::State { game, player_one, player_two, turn, winner } => state_applied(
                a,
                b,
                game,
                player_one,
                player_two,
                turn,
                winner,
                now,
            ) && effect == Effect::Nothing,
            Input::Reveal(row, col) => b == a && effect == if connected && now.is_some()
                && !a.flags@.contains((row, col)) && a.turn == a.role && !at(
                a.game.board(),
                (row, col),
            ).is_revealed {
                Effect::SendMove {
                    row,
                    col,
                    game_id: a.game_id,
                    elapsed_ms: (now.unwrap() - a.received_ts) as u128,
                }
            } else {
                Effect::Nothing
            },
            Input::Flag(row, col) => remote_flag_toggled(a, b, row, col) && effect
                == Effect::Nothing,
            _ => b == a && effect == Effect::Nothing,
        },
    }
}

/// One step of the client. `now` is the time in milliseconds when known,
/// `connected` whether the connection to the server is open. "Main menu"
/// returns to the menu from every screen.
pub fn step(screen: &mut Screen, input: Input, now: Option<u128>, connected: bool) -> (effect:
    Effect)
    requires
        input_fits(*old(screen), input, now),
    ensures
        screen_valid(*old(screen)) ==> screen_valid(*final(screen)),
        if input is MainMenu {
            *final(screen) is MainMenu && effect == Effect::Nothing
        } else {
            match *old(screen) {
                Screen::MainMenu => menu_step(false, input, *final(screen), effect),
                Screen::Loading => menu_step(true, input, *final(screen), effect),
                Screen::SinglePlayer(a) => solo_step(a, input, *final(screen), effect),
                Screen::Multiplayer(a) => duel_step(a, input, now, connected, *final(screen), effect),
            }
        },
{
    if let Input::MainMenu = input {
        *screen = Screen::MainMenu;
        return Effect::Nothing;
    }
    match screen {
        Screen::MainMenu => menu_input(screen, false, input),
        Screen::Loading => menu_input(screen, true, input),
        Screen::SinglePlayer(game) => {
            solo_input(game, input);
            Effect::Nothing
        },
        Screen::Multiplayer(state) => {
            if let Input::NewGame = input {
                *screen = Screen::Loading;
                Effect::ReconnectLater
            } else {
                duel_input(state, input, now, connected)
            }
        },
    }
}

fn menu_input(screen: &mut Screen, loading: bool, input: Input) -> (effect: Effect)
    requires
        if loading {
            *old(screen) is Loading
        } else {
            *old(screen) is MainMenu
        },
    ensures
        menu_step(loading, input, *final(screen), effect),
        screen_valid(*final(screen)),
{
    match input {
        Input::SinglePlayer => {
            if !loading {
                *screen = Screen::SinglePlayer(MinesweeperGame::default());
            }
            Effect::Nothing
        },
        Input::Multiplayer => {
            *screen = Screen::Multiplayer(RemoteGame::new());
            Effect::Connect
        },
        _ => Effect::Nothing,
    }
}

fn solo_input(game: &mut MinesweeperGame, input: Input)
    requires
        input_fits(Screen::SinglePlayer(*old(game)), input, None),
    ensures
        solo_step(*old(game), input, Screen::SinglePlayer(*final(game)), Effect::Nothing),
        old(game).wf() && old(game).flags_match() ==> final(game).wf() && final(game).flags_match(),
{
    match input {
        Input::Reveal(row, col) => {
            reveal_square(game, row, col);
        },
        Input::Flag(row, col) => {
            toggle_flag(game, row, col);
        },
        Input::NewGame => {
            *game = MinesweeperGame::default();
        },
        Input::Tick => {
            tick(game);
        },
        _ => {},
    }
}

fn duel_input(state: &mut RemoteGame, input: Input, now: Option<u128>, connected: bool) -> (effect:
    Effect)
    requires
        input_fits(Screen::Multiplayer(*old(state)), input, now),
        !(input is NewGame),
    ensures
        duel_step(*old(state), input, now, connected, Screen::Multiplayer(*final(state)), effect),
        screen_valid(Screen::Multiplayer(*old(state))) ==> screen_valid(
            Screen::Multiplayer(*final(state)),
        ),
{
    match input {
        Input::Tick => {
            let report = state.tick();
            let effect = if report && connected {
                Effect::SendTimeout { game_id: state.game_id.clone() }
            } else {
                Effect::Nothing
            };
            effect
        },
        Input::Joined { game_id, role } => {
            state.game_id = game_id;
            state.role = role;
            Effect::Nothing
        },
        Input::State { game, player_one, player_two, turn, winner } => {
            state.apply_state(game, player_one, player_two, turn, winner, now);
            Effect::Nothing
        },
        Input::Reveal(row, col) => {
            if !connected {
                return Effect::Nothing;
            }
            match now {
                Some(t) => match state.request_move(row, col, t) {
                    Some(elapsed_ms) => Effect::SendMove {
                        row,
                        col,
                        game_id: state.game_id.clone(),
                        elapsed_ms,
                    },
                    None => Effect::Nothing,
                },
                None => Effect::Nothing,
            }
        },
        Input::Flag(row, col) => {
            state.toggle_flag(row, col);
            Effect::Nothing
        },
        _ => Effect::Nothing,
    }
}

} // verus!
