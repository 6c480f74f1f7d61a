use minesweeper::client::{step, Effect, Input, Screen};
use minesweeper::duel::Player;
use minesweeper::game::MinesweeperGame;

fn solo_game(s: &Screen) -> &MinesweeperGame {
    match s {
        Screen::SinglePlayer(g) => g,
        _ => panic!("not a single-player screen"),
    }
}

#[test]
fn menu_opens_single_player() {
    let mut s = Screen::MainMenu;
    assert!(step(&mut s, Input::Tick, None, false) == Effect::Nothing);
    assert!(matches!(s, Screen::MainMenu));
    assert!(step(&mut s, Input::SinglePlayer, None, false) == Effect::Nothing);
    assert_eq!(solo_game(&s).grid_size, 15);
    step(&mut s, Input::Reveal(3, 3), None, false);
    assert!(solo_game(&s).running);
    assert!(solo_game(&s).grid[3][3].is_revealed);
    step(&mut s, Input::Tick, None, false);
    assert_eq!(solo_game(&s).seconds, 1);
    step(&mut s, Input::NewGame, None, false);
    assert!(!solo_game(&s).running);
    assert_eq!(solo_game(&s).seconds, 0);
    step(&mut s, Input::MainMenu, None, false);
    assert!(matches!(s, Screen::MainMenu));
}

#[test]
fn menu_opens_two_player_game() {
    let mut s = Screen::MainMenu;
    assert!(step(&mut s, Input::Multiplayer, None, false) == Effect::Connect);
    assert!(step(&mut s, Input::Joined { game_id: String::from("g1"), role: 2 }, None, true) == Effect::Nothing);
    let mut game = MinesweeperGame::new(4, 1);
    game.grid[0][0].is_mine = true;
    game.compute_cell_numbers();
    game.running = true;
    let p = Player { name: String::new(), connected: true, time_remaining: 900, first_move: false };
    step(
        &mut s,
        Input::State { game, player_one: p.clone(), player_two: p, turn: 2, winner: 0 },
        Some(10_000),
        true,
    );
    // our turn: a move goes out with the time since the state arrived
    let e = step(&mut s, Input::Reveal(2, 2), Some(12_500), true);
    assert!(
        e == Effect::SendMove { row: 2, col: 2, game_id: String::from("g1"), elapsed_ms: 2_500 }
    );
    // nothing goes out without a connection
    assert!(step(&mut s, Input::Reveal(2, 2), Some(12_500), false) == Effect::Nothing);
    // less than a second left on our clock: report it
    assert!(step(&mut s, Input::Tick, None, true) == Effect::SendTimeout { game_id: String::from("g1") });
    assert!(step(&mut s, Input::NewGame, None, true) == Effect::ReconnectLater);
    assert!(matches!(s, Screen::Loading));
    assert!(step(&mut s, Input::SinglePlayer, None, true) == Effect::Nothing);
    assert!(matches!(s, Screen::Loading));
    assert!(step(&mut s, Input::Multiplayer, None, true) == Effect::Connect);
    assert!(matches!(s, Screen::Multiplayer(_)));
}

#[test]
fn new_game_is_the_default_game() {
    let mut s = Screen::MainMenu;
    step(&mut s, Input::SinglePlayer, None, false);
    step(&mut s, Input::Reveal(7, 7), None, false);
    step(&mut s, Input::Tick, None, false);
    step(&mut s, Input::Flag(0, 0), None, false);
    step(&mut s, Input::NewGame, None, false);
    let g = solo_game(&s);
    assert_eq!(g.grid_size, 15);
    assert_eq!(g.mine_count, 30);
    assert_eq!(g.seconds, 0);
    assert_eq!(g.flags, 0);
    assert_eq!(g.squares_cleared, 0);
    assert!(!g.game_over && !g.game_won && !g.running);
    assert!(g.grid.iter().flatten().all(|c| !c.is_revealed && !c.is_mine && !c.is_flaged && c.number == 0));
}

#[test]
fn fresh_two_player_view_after_new_game() {
    let mut s = Screen::MainMenu;
    step(&mut s, Input::Multiplayer, None, false);
    step(&mut s, Input::Joined { game_id: String::from("x"), role: 1 }, None, true);
    step(&mut s, Input::NewGame, None, true);
    step(&mut s, Input::Multiplayer, None, true);
    match &s {
        Screen::Multiplayer(r) => {
            assert!(r.game_id.is_empty());
            assert_eq!(r.role, 0);
            assert_eq!(r.turn, 1);
            assert_eq!(r.winner, 0);
            assert_eq!(r.received_ts, 0);
            assert_eq!(r.game.grid_size, 0);
            assert_eq!(r.flags.len(), 0);
            assert_eq!(r.player_one.time_remaining, 0);
            assert!(!r.player_two.connected);
        }
        _ => panic!("not a two-player screen"),
    }
}
