use minesweeper::cell::Cell;
use minesweeper::display::{
    cell_face, clock_reading, duel_clock_runs, duel_headline, minutes_seconds, solo_bombs_remaining,
    solo_clock_runs, solo_headline, turn_banner, Face, Headline, TurnBanner,
};
use minesweeper::duel::Player;
use minesweeper::game::MinesweeperGame;
use minesweeper::remote::{FlagSet, RemoteGame};

fn joined_view(role: usize) -> RemoteGame {
    let mut v = RemoteGame::new();
    v.role = role;
    let mut game = MinesweeperGame::new(4, 2);
    game.grid[0][0].is_mine = true;
    game.grid[3][3].is_mine = true;
    game.compute_cell_numbers();
    game.running = true;
    let p = Player { name: String::from("p"), connected: true, time_remaining: 60_000, first_move: true };
    v.apply_state(game, p.clone(), p, 1, 0, Some(1_000));
    v
}

#[test]
fn flag_set_operations() {
    let mut f = FlagSet::new();
    assert_eq!(f.len(), 0);
    f.insert((1, 2));
    f.insert((3, 4));
    assert!(f.contains((1, 2)));
    assert!(!f.contains((2, 1)));
    assert_eq!(f.len(), 2);
    f.remove((1, 2));
    assert!(!f.contains((1, 2)));
    assert_eq!(f.len(), 1);
    f.remove((9, 9));
    assert_eq!(f.len(), 1);
}

#[test]
fn remote_view_starts_empty() {
    let v = RemoteGame::new();
    assert_eq!(v.turn, 1);
    assert_eq!(v.role, 0);
    assert_eq!(v.game.grid_size, 0);
    assert_eq!(v.flags.len(), 0);
    assert!(v.game_id.is_empty());
}

#[test]
fn remote_flags_toggle_up_to_mine_count() {
    let mut v = joined_view(1);
    v.toggle_flag(1, 1);
    v.toggle_flag(2, 2);
    assert_eq!(v.flags.len(), 2);
    assert_eq!(v.bombs_remaining(), 0);
    v.toggle_flag(1, 2);
    assert!(!v.flags.contains((1, 2)));
    v.toggle_flag(1, 1);
    assert!(!v.flags.contains((1, 1)));
    assert_eq!(v.bombs_remaining(), 1);
}

#[test]
fn remote_no_flag_on_revealed_square() {
    let mut v = joined_view(1);
    v.game.grid[2][1].is_revealed = true;
    v.toggle_flag(2, 1);
    assert_eq!(v.flags.len(), 0);
}

#[test]
fn remote_new_state_drops_flags_on_revealed_squares() {
    let mut v = joined_view(1);
    v.toggle_flag(1, 1);
    v.toggle_flag(2, 2);
    let mut game = v.game.clone();
    game.grid[1][1].is_revealed = true;
    let p = v.player_one.clone();
    v.apply_state(game, p.clone(), p, 2, 0, None);
    assert!(!v.flags.contains((1, 1)));
    assert!(v.flags.contains((2, 2)));
    assert_eq!(v.turn, 2);
    assert_eq!(v.received_ts, 1_000);
}

#[test]
fn remote_move_request() {
    let v = joined_view(1);
    assert_eq!(v.request_move(2, 2, 4_500), Some(3_500));
    let w = joined_view(2);
    assert_eq!(w.request_move(2, 2, 4_500), None);
}

#[test]
fn remote_no_move_on_flag_or_revealed_square() {
    let mut v = joined_view(1);
    v.toggle_flag(2, 2);
    assert_eq!(v.request_move(2, 2, 2_000), None);
    v.game.grid[1][2].is_revealed = true;
    assert_eq!(v.request_move(1, 2, 2_000), None);
}

#[test]
fn remote_tick_runs_mover_clock() {
    let mut v = joined_view(1);
    assert!(!v.tick());
    assert_eq!(v.player_one.time_remaining, 59_000);
    assert_eq!(v.player_two.time_remaining, 60_000);
    v.player_one.time_remaining = 999;
    assert!(v.tick());
    assert_eq!(v.player_one.time_remaining, 999);
    let mut w = joined_view(2);
    w.player_one.time_remaining = 500;
    assert!(!w.tick());
    w.turn = 0;
    assert!(!w.tick());
}

#[test]
fn faces() {
    let mut c = Cell::default();
    assert_eq!(cell_face(c, false), Face::Blank);
    assert_eq!(cell_face(c, true), Face::Flag);
    c.is_revealed = true;
    assert_eq!(cell_face(c, true), Face::Blank);
    c.number = 3;
    assert_eq!(cell_face(c, false), Face::Number(3));
    c.is_mine = true;
    assert_eq!(cell_face(c, false), Face::Mine);
}

#[test]
fn headlines_and_banners() {
    let mut g = MinesweeperGame::default();
    assert_eq!(solo_headline(&g), Headline::Playing);
    g.game_won = true;
    assert_eq!(solo_headline(&g), Headline::GameWon);
    g.game_over = true;
    assert_eq!(solo_headline(&g), Headline::GameOver);

    let mut v = joined_view(1);
    assert_eq!(turn_banner(&v), TurnBanner::YourTurn);
    assert_eq!(duel_headline(&v), Headline::Playing);
    v.turn = 0;
    assert_eq!(turn_banner(&v), TurnBanner::Waiting);
    v.turn = 2;
    assert_eq!(turn_banner(&v), TurnBanner::Nothing);
    v.game.game_over = true;
    v.winner = 1;
    assert_eq!(duel_headline(&v), Headline::GameWon);
    v.winner = 2;
    assert_eq!(duel_headline(&v), Headline::GameOver);
}

#[test]
fn clocks() {
    assert_eq!(minutes_seconds(0), (0, 0));
    assert_eq!(minutes_seconds(125), (2, 5));
    assert_eq!(clock_reading(60_000), (1, 0));
    assert_eq!(clock_reading(59_999), (0, 59));
    assert_eq!(clock_reading(61_500), (1, 1));
    let mut g = MinesweeperGame::default();
    assert_eq!(solo_bombs_remaining(&g), 30);
    g.flags = 4;
    assert_eq!(solo_bombs_remaining(&g), 26);
    assert!(!solo_clock_runs(&g));
    g.running = true;
    assert!(solo_clock_runs(&g));
    let mut v = joined_view(1);
    assert!(!duel_clock_runs(&v));
    v.player_one.first_move = false;
    v.player_two.first_move = false;
    assert!(duel_clock_runs(&v));
}

#[test]
fn clock_order_puts_own_player_at_the_bottom() {
    let mut v = RemoteGame::new();
    v.role = 2;
    assert_eq!(minesweeper::display::clock_order(&v), (1, 2));
    v.role = 1;
    assert_eq!(minesweeper::display::clock_order(&v), (2, 1));
}
