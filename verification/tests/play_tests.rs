use minesweeper::classic::{generate_grid, Message, Minesweeper};
use minesweeper::duel::{Game, Lobby, Player, START_TIME_MS};
use minesweeper::game::MinesweeperGame;
use minesweeper::solo::{reveal_square, tick, toggle_flag};

fn mines_in(grid: &[Vec<minesweeper::cell::Cell>]) -> usize {
    grid.iter().flatten().filter(|c| c.is_mine).count()
}

#[test]
fn generate_grid_lays_requested_mines() {
    let grid = generate_grid(6, 10);
    assert_eq!(grid.len(), 6);
    assert!(grid.iter().all(|r| r.len() == 6));
    assert_eq!(mines_in(&grid), 10);
    assert!(grid.iter().flatten().all(|c| !c.is_revealed && c.number == 0));
}

#[test]
fn generate_grid_full_board() {
    let grid = generate_grid(3, 9);
    assert_eq!(mines_in(&grid), 9);
}

#[test]
fn classic_default_board_is_numbered() {
    let g = Minesweeper::default();
    assert_eq!(g.grid_size, 10);
    assert!(!g.game_over);
    assert_eq!(mines_in(&g.grid), 10);
    for r in 0..10 {
        for c in 0..10 {
            if !g.grid[r][c].is_mine {
                let n = g
                    .neighbors(r, c)
                    .iter()
                    .filter(|(a, b)| g.grid[*a][*b].is_mine)
                    .count();
                assert_eq!(g.grid[r][c].number as usize, n);
            }
        }
    }
}

fn classic_with_mines(n: usize, at: &[(usize, usize)]) -> Minesweeper {
    let mut grid = generate_grid(n, 0);
    for &(r, c) in at {
        grid[r][c].is_mine = true;
    }
    let mut g = Minesweeper { grid_size: n, grid, game_over: false };
    g.compute_cell_numbers();
    g
}

#[test]
fn classic_reveal_floods() {
    let mut g = classic_with_mines(4, &[(0, 0)]);
    g.update(Message::Reveal(3, 3));
    let shown = g.grid.iter().flatten().filter(|c| c.is_revealed).count();
    assert_eq!(shown, 15);
    assert!(!g.game_over);
}

#[test]
fn classic_mine_ends_game_but_play_goes_on() {
    let mut g = classic_with_mines(4, &[(0, 0)]);
    g.flood_fill(0, 0);
    assert!(g.game_over);
    assert!(g.grid[0][0].is_revealed);
    // the single-player board of this game keeps revealing after a loss
    g.flood_fill(3, 3);
    assert!(g.grid[3][3].is_revealed);
}

#[test]
fn solo_first_click_lays_out_board() {
    for _ in 0..10 {
        let mut g = MinesweeperGame::default();
        reveal_square(&mut g, 4, 9);
        assert!(g.running);
        assert!(!g.grid[4][9].is_mine);
        assert!(g.grid[4][9].is_revealed);
        assert!(!g.game_over);
        assert_eq!(mines_in(&g.grid), 30);
        let safe_shown = g
            .grid
            .iter()
            .flatten()
            .filter(|c| c.is_revealed && !c.is_mine)
            .count();
        assert_eq!(g.squares_cleared, safe_shown);
    }
}

#[test]
fn solo_click_on_mine_loses() {
    let mut g = MinesweeperGame::default();
    reveal_square(&mut g, 0, 0);
    let (r, c) = (0..15)
        .flat_map(|r| (0..15).map(move |c| (r, c)))
        .find(|&(r, c)| g.grid[r][c].is_mine)
        .unwrap();
    reveal_square(&mut g, r, c);
    assert!(g.game_over);
    assert!(!g.game_won);
}

#[test]
fn solo_flags_toggle_and_stop_at_mine_count() {
    let mut g = MinesweeperGame::new(3, 2);
    toggle_flag(&mut g, 0, 0);
    assert!(g.grid[0][0].is_flaged);
    assert_eq!(g.flags, 1);
    toggle_flag(&mut g, 0, 1);
    assert_eq!(g.flags, 2);
    // no more flags than mines
    toggle_flag(&mut g, 0, 2);
    assert!(!g.grid[0][2].is_flaged);
    assert_eq!(g.flags, 2);
    // taking one off
    toggle_flag(&mut g, 0, 0);
    assert!(!g.grid[0][0].is_flaged);
    assert_eq!(g.flags, 1);
}

#[test]
fn solo_no_flag_on_revealed_square_or_after_game_over() {
    let mut g = MinesweeperGame::new(3, 2);
    g.grid[1][1].is_revealed = true;
    toggle_flag(&mut g, 1, 1);
    assert!(!g.grid[1][1].is_flaged);
    assert_eq!(g.flags, 0);
    g.game_over = true;
    toggle_flag(&mut g, 0, 0);
    assert!(!g.grid[0][0].is_flaged);
}

#[test]
fn solo_tick_counts_seconds() {
    let mut g = MinesweeperGame::default();
    tick(&mut g);
    tick(&mut g);
    assert_eq!(g.seconds, 2);
}

#[test]
fn duel_new_game_awaits_second_player() {
    let g = Game::new();
    assert_eq!(g.minesweeper.grid_size, 20);
    assert_eq!(g.minesweeper.mine_count, 40);
    assert!(g.player_one.connected && !g.player_two.connected);
    assert_eq!(g.player_one.time_remaining, START_TIME_MS);
    assert_eq!(g.player_two.time_remaining, 60_000);
    assert!(g.player_one.first_move && g.player_two.first_move);
    assert_eq!(g.turn, 0);
}

#[test]
fn duel_join_gives_player_one_the_move() {
    let mut g = Game::new();
    g.join();
    assert!(g.player_two.connected);
    assert_eq!(g.turn, 1);
}

#[test]
fn duel_moves_before_join_are_ignored() {
    let mut g = Game::new();
    assert_eq!(g.make_move(1, 3, 3, 0), None);
    assert!(!g.minesweeper.running);
}

/// A joined two-player game on a laid-out 20 by 20 board with mines in the
/// corners (0, 0) and (0, 2).
fn fixed_duel() -> Game {
    let mut g = Game::new();
    g.join();
    g.minesweeper.grid[0][0].is_mine = true;
    g.minesweeper.grid[0][2].is_mine = true;
    g.minesweeper.mine_count = 2;
    g.minesweeper.compute_cell_numbers();
    g.minesweeper.running = true;
    g
}

#[test]
fn duel_first_move_lays_out_board_and_passes_turn() {
    let mut g = Game::new();
    g.join();
    let res = g.make_move(1, 10, 10, 5_000);
    assert!(g.minesweeper.running);
    assert!(!g.minesweeper.grid[10][10].is_mine);
    assert!(g.minesweeper.grid[10][10].is_revealed);
    assert_eq!(mines_in(&g.minesweeper.grid), 40);
    if g.minesweeper.game_won {
        assert_eq!(res, Some(1));
    } else {
        assert_eq!(res, Some(0));
        assert_eq!(g.turn, 2);
        // not player one's turn any more
        assert_eq!(g.make_move(1, 0, 0, 0), None);
    }
    // the first move is free
    assert_eq!(g.player_one.time_remaining, 60_000);
    assert!(!g.player_one.first_move);
}

#[test]
fn duel_clock_is_charged_from_second_move() {
    let mut g = fixed_duel();
    assert_eq!(g.make_move(1, 0, 1, 9_000), Some(0));
    assert_eq!(g.player_one.time_remaining, 60_000);
    assert_eq!(g.turn, 2);
    assert_eq!(g.make_move(2, 1, 0, 7_000), Some(0));
    assert_eq!(g.player_two.time_remaining, 60_000);
    assert_eq!(g.turn, 1);
    assert_eq!(g.make_move(1, 1, 1, 1_500), Some(0));
    assert_eq!(g.player_one.time_remaining, 58_500);
    assert_eq!(g.turn, 2);
    assert_eq!(g.make_move(2, 1, 2, 2_000), Some(0));
    assert_eq!(g.player_two.time_remaining, 58_000);
}

#[test]
fn duel_clock_running_out_loses() {
    let mut g = fixed_duel();
    g.make_move(1, 0, 1, 0);
    g.make_move(2, 1, 0, 0);
    let res = g.make_move(1, 1, 1, 60_000);
    assert_eq!(res, Some(2));
    assert!(g.minesweeper.game_over);
    assert_eq!(g.player_one.time_remaining, 0);
    // the square was not played
    assert!(!g.minesweeper.grid[1][1].is_revealed);
}

#[test]
fn duel_mine_hands_win_to_other_player() {
    let mut g = fixed_duel();
    assert_eq!(g.make_move(1, 0, 1, 0), Some(0));
    assert_eq!(g.make_move(2, 0, 2, 100), Some(1));
    assert!(g.minesweeper.game_over);
    assert_eq!(g.turn, 2);
    // nothing moves after the end
    assert_eq!(g.make_move(2, 5, 5, 0), None);
}

#[test]
fn duel_move_out_of_turn_is_ignored() {
    let mut g = fixed_duel();
    assert_eq!(g.make_move(2, 5, 5, 0), None);
    assert!(!g.minesweeper.grid[5][5].is_revealed);
}

#[test]
fn duel_timeout_ends_game() {
    let mut g = Game::new();
    g.join();
    assert_eq!(g.timeout(1), 2);
    assert!(g.minesweeper.game_over);
    assert_eq!(g.player_one.time_remaining, 0);
    let mut g = Game::new();
    assert_eq!(g.timeout(2), 1);
    assert_eq!(g.player_two.time_remaining, 0);
}

#[test]
fn duel_leaving_an_open_game_hands_over_the_win() {
    let mut g = Game::new();
    g.join();
    assert_eq!(g.leave(2), (Some(1), false));
    assert!(!g.player_two.connected);
    assert_eq!(g.leave(1), (Some(2), true));
}

#[test]
fn duel_leaving_a_finished_game_announces_nothing() {
    let mut g = Game::new();
    g.join();
    g.minesweeper.game_over = true;
    assert_eq!(g.leave(1), (None, false));
}

#[test]
fn default_player() {
    let p = Player::default();
    assert!(p.name.is_empty());
    assert!(!p.connected && !p.first_move);
    assert_eq!(p.time_remaining, 0);
}

#[test]
fn lobby_pairs_players() {
    let mut l = Lobby::new();
    assert_eq!(l.join_waiting(), None);
    assert_eq!(l.open_game(String::from("a")), 0);
    assert_eq!(l.game_waiting, "a");
    assert_eq!(l.join_waiting(), Some(String::from("a")));
    assert!(l.game_waiting.is_empty());
    assert_eq!(l.games[0].1.turn, 1);
    assert!(l.games[0].1.player_two.connected);
    // the next player opens a new game
    assert_eq!(l.join_waiting(), None);
    assert_eq!(l.open_game(String::from("b")), 1);
    assert_eq!(l.find(&String::from("b")), Some(1));
    assert_eq!(l.find(&String::from("c")), None);
    l.close(0);
    assert_eq!(l.find(&String::from("b")), Some(0));
    assert_eq!(l.join_waiting(), Some(String::from("b")));
}

#[test]
fn lobby_waiting_game_that_is_gone() {
    let mut l = Lobby::new();
    l.open_game(String::from("a"));
    l.close(0);
    assert_eq!(l.join_waiting(), None);
    assert_eq!(l.game_waiting, "a");
}

#[test]
fn solo_flag_count_matches_flagged_squares() {
    let mut g = MinesweeperGame::default();
    reveal_square(&mut g, 7, 7);
    let mut toggled = 0;
    for r in 0..15 {
        for c in 0..15 {
            if toggled < 40 {
                toggle_flag(&mut g, r, c);
                toggled += 1;
            }
        }
    }
    let flagged = g.grid.iter().flatten().filter(|c| c.is_flaged).count();
    assert_eq!(g.flags, flagged);
    assert!(g.flags <= g.mine_count);
}

#[test]
fn duel_clock_running_out_ends_game_before_the_board() {
    let mut g = fixed_duel();
    g.make_move(1, 0, 1, 0);
    g.make_move(2, 1, 0, 0);
    // the square lies off the board, but the clock runs out first
    assert_eq!(g.make_move(1, 100, 100, 60_000), Some(2));
    assert!(g.minesweeper.game_over);
    assert_eq!(g.player_one.time_remaining, 0);
    assert_eq!(g.turn, 1);
}

#[test]
fn solo_flag_counter_only_needs_room() {
    // a counter that does not match the flags still works where it can
    let mut g = MinesweeperGame::new(3, 5);
    g.flags = 3;
    toggle_flag(&mut g, 1, 1);
    assert!(g.grid[1][1].is_flaged);
    assert_eq!(g.flags, 4);
}
