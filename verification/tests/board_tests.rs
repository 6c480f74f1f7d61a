use minesweeper::cell::Cell;
use minesweeper::game::MinesweeperGame;

fn mines(game: &MinesweeperGame) -> usize {
    game.grid.iter().flatten().filter(|c| c.is_mine).count()
}

fn revealed(game: &MinesweeperGame) -> usize {
    game.grid.iter().flatten().filter(|c| c.is_revealed).count()
}

/// A game on an `n` by `n` board with mines at `at`, numbered.
fn game_with_mines(n: usize, at: &[(usize, usize)]) -> MinesweeperGame {
    let mut game = MinesweeperGame::new(n, at.len());
    for &(r, c) in at {
        game.grid[r][c].is_mine = true;
    }
    game.compute_cell_numbers();
    game
}

#[test]
fn default_cell_is_blank() {
    let c = Cell::default();
    assert!(!c.is_revealed && !c.is_mine && !c.is_flaged);
    assert_eq!(c.number, 0);
}

#[test]
fn default_game_is_fifteen_square_with_thirty_mines_to_place() {
    let g = MinesweeperGame::default();
    assert_eq!(g.grid_size, 15);
    assert_eq!(g.grid.len(), 15);
    assert!(g.grid.iter().all(|row| row.len() == 15));
    assert_eq!(g.mine_count, 30);
    assert_eq!(g.squares_cleared, 0);
    assert_eq!(g.flags, 0);
    assert!(!g.game_over && !g.game_won && !g.running);
    assert_eq!(g.seconds, 0);
    assert_eq!(mines(&g), 0);
    assert_eq!(revealed(&g), 0);
}

#[test]
fn new_game_has_requested_size() {
    let g = MinesweeperGame::new(20, 40);
    assert_eq!(g.grid_size, 20);
    assert_eq!(g.grid.len(), 20);
    assert_eq!(g.mine_count, 40);
    assert_eq!(mines(&g), 0);
}

#[test]
fn neighbors_of_corner() {
    let g = MinesweeperGame::default();
    assert_eq!(g.neighbors(0, 0), vec![(0, 1), (1, 0), (1, 1)]);
    assert_eq!(g.neighbors(14, 14), vec![(13, 13), (13, 14), (14, 13)]);
}

#[test]
fn neighbors_of_inner_square_in_row_major_order() {
    let g = MinesweeperGame::default();
    assert_eq!(
        g.neighbors(5, 7),
        vec![(4, 6), (4, 7), (4, 8), (5, 6), (5, 8), (6, 6), (6, 7), (6, 8)]
    );
}

#[test]
fn neighbors_of_edge() {
    let g = MinesweeperGame::default();
    assert_eq!(g.neighbors(0, 5), vec![(0, 4), (0, 6), (1, 4), (1, 5), (1, 6)]);
}

#[test]
fn neighbors_on_empty_board() {
    let g = MinesweeperGame::new(0, 0);
    assert!(g.neighbors(0, 0).is_empty());
}

#[test]
fn numbers_count_touching_mines() {
    let g = game_with_mines(4, &[(0, 0), (0, 1), (2, 2)]);
    assert_eq!(g.grid[1][0].number, 2);
    assert_eq!(g.grid[1][1].number, 3);
    assert_eq!(g.grid[1][2].number, 2);
    assert_eq!(g.grid[3][3].number, 1);
    assert_eq!(g.grid[3][0].number, 0);
    assert_eq!(g.grid[0][2].number, 1);
    // mines keep their number
    assert_eq!(g.grid[0][0].number, 0);
}

#[test]
fn numbering_twice_changes_nothing() {
    let mut g = game_with_mines(5, &[(1, 1), (3, 4), (4, 0)]);
    let before: Vec<Vec<u8>> = g.grid.iter().map(|r| r.iter().map(|c| c.number).collect()).collect();
    g.compute_cell_numbers();
    let after: Vec<Vec<u8>> = g.grid.iter().map(|r| r.iter().map(|c| c.number).collect()).collect();
    assert_eq!(before, after);
}

#[test]
fn eight_mines_around_a_square() {
    let ring = [(0, 0), (0, 1), (0, 2), (1, 0), (1, 2), (2, 0), (2, 1), (2, 2)];
    let g = game_with_mines(3, &ring);
    assert_eq!(g.grid[1][1].number, 8);
}

#[test]
fn flood_fill_reveals_open_region() {
    // mine in the corner: the flood from the far corner reveals every other square
    let mut g = game_with_mines(4, &[(0, 0)]);
    g.flood_fill(3, 3);
    assert_eq!(g.squares_cleared, 15);
    assert_eq!(revealed(&g), 15);
    assert!(!g.grid[0][0].is_revealed);
    assert!(!g.game_over);
}

#[test]
fn flood_fill_stops_at_numbers() {
    // a wall of mines in column 2 splits the board
    let mut g = game_with_mines(5, &[(0, 2), (1, 2), (2, 2), (3, 2), (4, 2)]);
    g.flood_fill(2, 0);
    // columns 0 and 1 are revealed, the numbered column 1 stops the flood
    for r in 0..5 {
        assert!(g.grid[r][0].is_revealed);
        assert!(g.grid[r][1].is_revealed);
        assert!(!g.grid[r][3].is_revealed);
        assert!(!g.grid[r][4].is_revealed);
    }
    assert_eq!(g.squares_cleared, 10);
}

#[test]
fn flood_fill_on_number_reveals_one_square() {
    let mut g = game_with_mines(4, &[(0, 0)]);
    g.flood_fill(1, 1);
    assert_eq!(revealed(&g), 1);
    assert_eq!(g.squares_cleared, 1);
}

#[test]
fn flood_fill_on_mine_ends_game() {
    let mut g = game_with_mines(4, &[(2, 2)]);
    g.flood_fill(2, 2);
    assert!(g.game_over);
    assert!(g.grid[2][2].is_revealed);
    assert_eq!(g.squares_cleared, 0);
    assert_eq!(revealed(&g), 1);
}

#[test]
fn flood_fill_ignores_flagged_square() {
    let mut g = game_with_mines(4, &[(0, 0)]);
    g.grid[3][3].is_flaged = true;
    g.flood_fill(3, 3);
    assert_eq!(revealed(&g), 0);
}

#[test]
fn flood_reveals_flagged_squares_it_reaches() {
    let mut g = game_with_mines(4, &[(0, 0)]);
    g.grid[2][2].is_flaged = true;
    g.flood_fill(3, 3);
    assert!(g.grid[2][2].is_revealed);
    assert!(g.grid[2][2].is_flaged);
}

#[test]
fn flood_fill_after_game_over_does_nothing() {
    let mut g = game_with_mines(4, &[(0, 0)]);
    g.game_over = true;
    g.flood_fill(3, 3);
    assert_eq!(revealed(&g), 0);
    // off the board too, once the game is over
    g.flood_fill(100, 100);
    assert_eq!(revealed(&g), 0);
}

#[test]
fn flood_fill_twice_is_flood_fill_once() {
    let mut g = game_with_mines(6, &[(0, 5), (5, 0)]);
    g.flood_fill(3, 3);
    let cleared = g.squares_cleared;
    let shown = revealed(&g);
    g.flood_fill(3, 3);
    assert_eq!(g.squares_cleared, cleared);
    assert_eq!(revealed(&g), shown);
}

#[test]
fn check_game_won_at_195() {
    let mut g = MinesweeperGame::default();
    g.squares_cleared = 194;
    g.check_game_won();
    assert!(!g.game_won);
    g.squares_cleared = 195;
    g.check_game_won();
    assert!(g.game_won);
}

#[test]
fn check_game_won_uses_default_board_count() {
    // the count compared against is that of the default board, whatever the size
    let mut g = MinesweeperGame::new(4, 1);
    g.squares_cleared = 15;
    g.check_game_won();
    assert!(!g.game_won);
}

#[test]
fn generate_bombs_places_mine_count_mines_away_from_click() {
    for _ in 0..20 {
        let mut g = MinesweeperGame::default();
        assert_eq!(g.free_square_count(7, 7), 224);
        g.generate_bombs(7, 7);
        assert_eq!(mines(&g), 30);
        assert!(!g.grid[7][7].is_mine);
        assert_eq!(revealed(&g), 0);
    }
}

#[test]
fn generate_bombs_can_fill_every_free_square() {
    let mut g = MinesweeperGame::new(3, 8);
    g.generate_bombs(1, 1);
    assert_eq!(mines(&g), 8);
    assert!(!g.grid[1][1].is_mine);
}

#[test]
fn generate_bombs_adds_to_existing_mines() {
    let mut g = MinesweeperGame::new(4, 3);
    g.grid[0][0].is_mine = true;
    assert_eq!(g.free_square_count(0, 0), 15);
    assert_eq!(g.free_square_count(1, 1), 14);
    g.generate_bombs(1, 1);
    assert_eq!(mines(&g), 4);
    assert!(g.grid[0][0].is_mine);
}

#[test]
fn drawn_mine_lands_on_the_drawn_square() {
    let mut grid = MinesweeperGame::new(3, 0).grid;
    let mut free = vec![(0, 1), (2, 2), (1, 0)];
    minesweeper::mines::place_drawn_mine(&mut grid, &mut free, 1);
    assert_eq!(free, vec![(0, 1), (1, 0)]);
    assert!(grid[2][2].is_mine);
    assert_eq!(grid.iter().flatten().filter(|c| c.is_mine).count(), 1);
}
