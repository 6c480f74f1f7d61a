use vstd::prelude::*;
use crate::board::free_squares;
use crate::game::{
    MinesweeperGame, fresh_game, lay_out, laid_out, lemma_laid_out_keeps_status, square_revealed,
    won_checked,
};

verus! {

/// Milliseconds on each player's clock when a game opens.
pub const START_TIME_MS: u128 = 60_000;

/// Side of the board of a two-player game.
pub const DUEL_GRID_SIZE: usize = 20;

/// Mines of a two-player game.
pub const DUEL_MINE_COUNT: usize = 40;

/// One side of a two-player game.
#[derive(Clone, Debug)]
pub struct Player {
    pub name: String,
    pub connected: bool,
    /// Milliseconds left on the player's clock.
    pub time_remaining: u128,
    /// The player has not moved yet; the clock only runs from the second move.
    pub first_move: bool,
}

/// A player as `Player::default` makes one: no name, not connected, no
/// time, and the first move already behind.
pub open spec fn default_player(p: Player) -> bool {
    &&& p.name@ == Seq::<char>::empty()
    &&& !p.connected
    &&& p.time_remaining == 0
    &&& !p.first_move
}

impl Default for Player {
    fn default() -> (p: Self)
        ensures
            default_player(p),
    {
        Player { name: String::new(), connected: false, time_remaining: 0, first_move: false }
    }
}

/// A two-player game as the server keeps it. `turn` is 0 while the second
/// player is awaited, then 1 or 2: whose move it is.
pub struct Game {
    pub minesweeper: MinesweeperGame,
    pub player_one: Player,
    pub player_two: Player,
    pub turn: usize,
}

/// A player as a game opens: on the clock with the full time, before the
/// first move, connected or not.
pub open spec fn fresh_player(p: Player, connected: bool) -> bool {
    &&& p.name@ == Seq::<char>::empty()
    &&& p.connected == connected
    &&& p.time_remaining == START_TIME_MS
    &&& p.first_move
}

/// What one move of the player whose number is `me` (the other is `other`)
/// does to the board `g0` and the player `p0`, giving `g1`, `p1` and the winner
/// to announce (0: nobody yet). Unless `laid` holds, the board is laid out
/// first. From its second move on, the player's clock is charged
/// `elapsed` milliseconds; a clock that reaches 0 ends the game and the other
/// player wins. Otherwise the square is revealed: a mine makes the other
/// player the winner, and `check_game_won` firing (195 squares cleared, the
/// count of the default 15 by 15 board, whatever the size of this board)
/// makes the mover the winner.
pub open spec fn turn_taken(
    g0: MinesweeperGame,
    p0: Player,
    g1: MinesweeperGame,
    p1: Player,
    row: usize,
    col: usize,
    elapsed: u128,
    laid: bool,
    me: usize,
    other: usize,
    res: usize,
) -> bool {
    exists|g: MinesweeperGame|
        #![trigger prepared(g0, g, row, col, laid)]
        prepared(g0, g, row, col, laid) && if !p0.first_move && p0.time_remaining - elapsed == 0 {
            &&& g1 == (MinesweeperGame { game_over: true, ..g })
            &&& p1 == (Player { time_remaining: 0, ..p0 })
            &&& res == other
        } else {
            let p = Player {
                time_remaining: if p0.first_move {
                    p0.time_remaining
                } else {
                    (p0.time_remaining - elapsed) as u128
                },
                first_move: false,
                ..p0
            };
            &&& p1 == p
            &&& exists|h: MinesweeperGame|
                #![trigger square_revealed(g, h, row, col)]
                square_revealed(g, h, row, col) && if h.game_over {
                    g1 == h && res == other
                } else {
                    won_checked(h, g1) && res == if g1.game_won {
                        me
                    } else {
                        0
                    }
                }
        }
}

/// The board `g` a move plays on: `g0` laid out first unless `laid` holds.
pub open spec fn prepared(g0: MinesweeperGame, g: MinesweeperGame, row: usize, col: usize, laid: bool) -> bool {
    if !laid {
        laid_out(g0, g, row, col)
    } else {
        g == g0
    }
}

/// A move never puts time back on the mover's clock, and the mover has made
/// a move afterwards unless the clock ran out.
pub proof fn law_clock_never_rises(
    g0: MinesweeperGame,
    p0: Player,
    g1: MinesweeperGame,
    p1: Player,
    row: usize,
    col: usize,
    elapsed: u128,
    laid: bool,
    me: usize,
    other: usize,
    res: usize,
)
    requires
        turn_taken(g0, p0, g1, p1, row, col, elapsed, laid, me, other, res),
        !p0.first_move ==> elapsed <= p0.time_remaining,
    ensures
        p1.time_remaining <= p0.time_remaining,
        p1.time_remaining == 0 || !p1.first_move,
        p1.name == p0.name,
        p1.connected == p0.connected,
{
}

/// `a` is running: neither won nor lost, and both players connected.
pub open spec fn live(a: Game) -> bool {
    !a.minesweeper.game_won && !a.minesweeper.game_over && a.player_one.connected
        && a.player_two.connected
}

/// What a move request of player `role` on `(row, col)`, `elapsed`
/// milliseconds after the last state was sent, does to `a`, giving `b` and
/// the winner to announce with the new state (`None`: nothing is sent).
/// Only the player whose turn it is may move, and only in a live game.
pub open spec fn move_made(
    a: Game,
    b: Game,
    role: usize,
    row: usize,
    col: usize,
    elapsed: u128,
    res: Option<usize>,
) -> bool {
    if live(a) && a.turn == 1 && role == 1 {
        exists|w: usize|
            #![trigger turn_taken(a.minesweeper, a.player_one, b.minesweeper, b.player_one, row, col, elapsed, a.minesweeper.running, 1, 2, w)]
            turn_taken(
                a.minesweeper,
                a.player_one,
                b.minesweeper,
                b.player_one,
                row,
                col,
                elapsed,
                a.minesweeper.running,
                1,
                2,
                w,
            ) && b.player_two == a.player_two && res == Some(w) && b.turn == if w == 0 {
                2usize
            } else {
                1usize
            }
    } else if live(a) && a.turn == 2 && role == 2 {
        exists|w: usize|
            #![trigger turn_taken(a.minesweeper, a.player_two, b.minesweeper, b.player_two, row, col, elapsed, true, 2, 1, w)]
            turn_taken(
                a.minesweeper,
                a.player_two,
                b.minesweeper,
                b.player_two,
                row,
                col,
                elapsed,
                true,
                2,
                1,
                w,
            ) && b.player_one == a.player_one && res == Some(w) && b.turn == if w == 0 {
                1usize
            } else {
                2usize
            }
    } else {
        b == a && res == None::<usize>
    }
}

/// Only the player whose turn it is can change a live game; any other
/// request, and any request once the game is decided or a player is gone,
/// leaves the game as it is and sends nothing.
pub proof fn law_out_of_turn_ignored(
    a: Game,
    b: Game,
    role: usize,
    row: usize,
    col: usize,
    elapsed: u128,
    res: Option<usize>,
)
    requires
        move_made(a, b, role, row, col, elapsed, res),
        !live(a) || a.turn != role || (role != 1 && role != 2),
    ensures
        b == a,
        res == None::<usize>,
{
}

/// A move that decides nothing hands the turn to the other player; a move
/// that names a winner ends the game (lost or won) and keeps the turn.
pub proof fn law_turns_alternate(
    a: Game,
    b: Game,
    role: usize,
    row: usize,
    col: usize,
    elapsed: u128,
    res: Option<usize>,
)
    requires
        move_made(a, b, role, row, col, elapsed, res),
        res.is_some(),
    ensures
        a.turn == role,
        role == 1 || role == 2,
        res == Some(0usize) ==> b.turn == 3 - role,
        res != Some(0usize) ==> b.turn == role && (b.minesweeper.game_over
            || b.minesweeper.game_won),
        res == Some(role) ==> b.minesweeper.game_won,
{
    if live(a) && a.turn == 1 && role == 1 {
        let w = choose|w: usize|
            #![trigger turn_taken(a.minesweeper, a.player_one, b.minesweeper, b.player_one, row, col, elapsed, a.minesweeper.running, 1, 2, w)]
            turn_taken(
                a.minesweeper,
                a.player_one,
                b.minesweeper,
                b.player_one,
                row,
                col,
                elapsed,
                a.minesweeper.running,
                1,
                2,
                w,
            ) && b.player_two == a.player_two && res == Some(w) && b.turn == if w == 0 {
                2usize
            } else {
                1usize
            };
        lemma_winner_decides(
            a.minesweeper,
            a.player_one,
            b.minesweeper,
            b.player_one,
            row,
            col,
            elapsed,
            a.minesweeper.running,
            1,
            2,
            w,
        );
    } else if live(a) && a.turn == 2 && role == 2 {
        let w = choose|w: usize|
            #![trigger turn_taken(a.minesweeper, a.player_two, b.minesweeper, b.player_two, row, col, elapsed, true, 2, 1, w)]
            turn_taken(
                a.minesweeper,
                a.player_two,
                b.minesweeper,
                b.player_two,
                row,
                col,
                elapsed,
                true,
                2,
                1,
                w,
            ) && b.player_one == a.player_one && res == Some(w) && b.turn == if w == 0 {
                1usize
            } else {
                2usize
            };
        lemma_winner_decides(
            a.minesweeper,
            a.player_two,
            b.minesweeper,
            b.player_two,
            row,
            col,
            elapsed,
            true,
            2,
            1,
            w,
        );
    }
}

/// The winner sent with a move names the game's outcome: the mover when the
/// move won the game (195 squares cleared, with no mine hit), the other player
/// (never 0, never the mover) when the game ended lost, and nobody (0) while
/// the game goes on.
pub open spec fn winner_named(b: Game, role: usize, res: Option<usize>) -> bool {
    res matches Some(w) ==> {
        &&& w == role <==> b.minesweeper.game_won && !b.minesweeper.game_over
        &&& b.minesweeper.game_over <==> w != 0 && w != role
        &&& b.minesweeper.game_won == (!b.minesweeper.game_over && b.minesweeper.squares_cleared
            == 195)
    }
}

/// A move that wins the game names the mover as the winner, a move that ends
/// it lost names the other player, and one that decides nothing names
/// nobody; the game is won exactly when 195 squares are cleared without a
/// mine hit.
pub proof fn law_move_names_winner(
    a: Game,
    b: Game,
    role: usize,
    row: usize,
    col: usize,
    elapsed: u128,
    res: Option<usize>,
)
    requires
        move_made(a, b, role, row, col, elapsed, res),
    ensures
        winner_named(b, role, res),
        res matches Some(w) ==> (b.minesweeper.game_won && !b.minesweeper.game_over ==> w == role),
{
    if live(a) && a.turn == 1 && role == 1 {
        let w = choose|w: usize|
            #![trigger turn_taken(a.minesweeper, a.player_one, b.minesweeper, b.player_one, row, col, elapsed, a.minesweeper.running, 1, 2, w)]
            turn_taken(
                a.minesweeper,
                a.player_one,
                b.minesweeper,
                b.player_one,
                row,
                col,
                elapsed,
                a.minesweeper.running,
                1,
                2,
                w,
            ) && b.player_two == a.player_two && res == Some(w) && b.turn == if w == 0 {
                2usize
            } else {
                1usize
            };
        lemma_winner_decides(
            a.minesweeper,
            a.player_one,
            b.minesweeper,
            b.player_one,
            row,
            col,
            elapsed,
            a.minesweeper.running,
            1,
            2,
            w,
        );
    } else if live(a) && a.turn == 2 && role == 2 {
        let w = choose|w: usize|
            #![trigger turn_taken(a.minesweeper, a.player_two, b.minesweeper, b.player_two, row, col, elapsed, true, 2, 1, w)]
            turn_taken(
                a.minesweeper,
                a.player_two,
                b.minesweeper,
                b.player_two,
                row,
                col,
                elapsed,
                true,
                2,
                1,
                w,
            ) && b.player_one == a.player_one && res == Some(w) && b.turn == if w == 0 {
                1usize
            } else {
                2usize
            };
        lemma_winner_decides(
            a.minesweeper,
            a.player_two,
            b.minesweeper,
            b.player_two,
            row,
            col,
            elapsed,
            true,
            2,
            1,
            w,
        );
    }
}

proof fn lemma_winner_decides(
    g0: MinesweeperGame,
    p0: Player,
    g1: MinesweeperGame,
    p1: Player,
    row: usize,
    col: usize,
    elapsed: u128,
    laid: bool,
    me: usize,
    other: usize,
    res: usize,
)
    requires
        turn_taken(g0, p0, g1, p1, row, col, elapsed, laid, me, other, res),
        me != 0,
        other != 0,
        me != other,
        !g0.game_won,
    ensures
        res == 0 || res == me || res == other,
        res != 0 ==> g1.game_over || g1.game_won,
        res == me ==> g1.game_won,
        res == me <==> g1.game_won && !g1.game_over,
        res == other <==> g1.game_over,
        g1.game_won == (!g1.game_over && g1.squares_cleared == 195),
{
    let g = choose|g: MinesweeperGame|
        #![trigger prepared(g0, g, row, col, laid)]
        prepared(g0, g, row, col, laid) && if !p0.first_move && p0.time_remaining - elapsed == 0 {
            &&& g1 == (MinesweeperGame { game_over: true, ..g })
            &&& p1 == (Player { time_remaining: 0, ..p0 })
            &&& res == other
        } else {
            let p = Player {
                time_remaining: if p0.first_move {
                    p0.time_remaining
                } else {
                    (p0.time_remaining - elapsed) as u128
                },
                first_move: false,
                ..p0
            };
            &&& p1 == p
            &&& exists|h: MinesweeperGame|
                #![trigger square_revealed(g, h, row, col)]
                square_revealed(g, h, row, col) && if h.game_over {
                    g1 == h && res == other
                } else {
                    won_checked(h, g1) && res == if g1.game_won {
                        me
                    } else {
                        0
                    }
                }
        };
    if !laid {
        lemma_laid_out_keeps_status(g0, g, row, col);
    }
}

/// The inputs on which a move can be carried out: from the mover's second
/// move on, no more elapsed time than is on the mover's clock; a square on the
/// board whenever the move gets as far as the board (that is, unless the
/// clock runs out); and room for the mines on a first move.
pub open spec fn move_allowed(a: Game, role: usize, row: usize, col: usize, elapsed: u128) -> bool {
    let mover = if role == 1 {
        a.player_one
    } else {
        a.player_two
    };
    (live(a) && a.turn == role && (role == 1 || role == 2)) ==> {
        &&& (mover.first_move || elapsed < mover.time_remaining) ==> row < a.minesweeper.grid_size
            && col < a.minesweeper.grid_size
        &&& !mover.first_move ==> elapsed <= mover.time_remaining
        &&& (role == 1 && !a.minesweeper.running) ==> a.minesweeper.mine_count <= free_squares(
            a.minesweeper.board(),
            a.minesweeper.grid_size,
            (row, col),
        ).len()
    }
}

/// One move of the player whose number is `me`.
fn take_turn(
    ms: &mut MinesweeperGame,
    player: &mut Player,
    row: usize,
    col: usize,
    elapsed: u128,
    laid: bool,
    me: usize,
    other: usize,
) -> (res: usize)
    requires
        old(ms).wf(),
        (old(player).first_move || elapsed < old(player).time_remaining) ==> row < old(
            ms,
        ).grid_size && col < old(ms).grid_size,
        !old(ms).game_over,
        !old(ms).game_won,
        !laid ==> !old(ms).running && old(ms).mine_count <= free_squares(
            old(ms).board(),
            old(ms).grid_size,
            (row, col),
        ).len(),
        !old(player).first_move ==> elapsed <= old(player).time_remaining,
        me != 0,
        other != 0,
        me != other,
    ensures
        res == 0 || res == me || res == other,
        res == me <==> final(ms).game_won && !final(ms).game_over,
        res == other <==> final(ms).game_over,
        final(ms).game_won == (!final(ms).game_over && final(ms).squares_cleared == 195),
        turn_taken(
            *old(ms),
            *old(player),
            *final(ms),
            *final(player),
            row,
            col,
            elapsed,
            laid,
            me,
            other,
            res,
        ),
        final(ms).wf(),
{
    let ghost g0 = *ms;
    if !laid {
        // only generate bombs after first click
        lay_out(ms, row, col);
    }
    let ghost g = *ms;
    let ghost p0 = *player;
    assert(prepared(g0, g, row, col, laid));
    if !player.first_move {
        // subtract elapsed time from player time
        player.time_remaining = player.time_remaining - elapsed;
        // check if timeout
        if player.time_remaining == 0 {
            ms.game_over = true;
            assert(*ms == (MinesweeperGame { game_over: true, ..g }));
            assert(*player == (Player { time_remaining: 0, ..p0 }));
            return other;
        }
    }
    ms.flood_fill(row, col);
    player.first_move = false;
    let ghost h = *ms;
    assert(square_revealed(g, h, row, col));
    assert(*player == (Player {
        time_remaining: if p0.first_move {
            p0.time_remaining
        } else {
            (p0.time_remaining - elapsed) as u128
        },
        first_move: false,
        ..p0
    }));
    if ms.game_over {
        return other;
    }
    ms.check_game_won();
    if ms.game_won {
        return me;
    }
    0
}

impl Game {
    /// The game a first player opens: a 20 by 20 board with 40 mines to place,
    /// player one connected, both clocks full, and the second player awaited.
    pub fn new() -> (game: Self)
        ensures
            fresh_game(game.minesweeper, DUEL_GRID_SIZE, DUEL_MINE_COUNT),
            fresh_player(game.player_one, true),
            fresh_player(game.player_two, false),
            game.turn == 0,
    {
        let minesweeper = MinesweeperGame::new(DUEL_GRID_SIZE, DUEL_MINE_COUNT);
        let mut player_one = Player::default();
        player_one.connected = true;
        player_one.time_remaining = START_TIME_MS;
        player_one.first_move = true;
        let mut player_two = Player::default();
        player_two.time_remaining = START_TIME_MS;
        player_two.first_move = true;
        Game { minesweeper, player_one, player_two, turn: 0 }
    }

    /// The second player joins: connected, and player one is to move.
    pub fn join(&mut self)
        ensures
            *final(self) == (Game {
                player_two: Player { connected: true, ..old(self).player_two },
                turn: 1,
                ..*old(self)
            }),
    {
        self.player_two.connected = true;
        self.turn = 1;
    }

    /// The clock of player `role` ran out: the game is over, that clock reads
    /// 0, and the other player is the winner returned.
    pub fn timeout(&mut self, role: usize) -> (winner: usize)
        ensures
            *final(self) == if role == 1 {
                Game {
                    minesweeper: MinesweeperGame { game_over: true, ..old(self).minesweeper },
                    player_one: Player { time_remaining: 0, ..old(self).player_one },
                    ..*old(self)
                }
            } else {
                Game {
                    minesweeper: MinesweeperGame { game_over: true, ..old(self).minesweeper },
                    player_two: Player { time_remaining: 0, ..old(self).player_two },
                    ..*old(self)
                }
            },
            winner == if role == 1 {
                2usize
            } else {
                1usize
            },
    {
        self.minesweeper.game_over = true;
        if role == 1 {
            self.player_one.time_remaining = 0;
            2
        } else {
            self.player_two.time_remaining = 0;
            1
        }
    }

    /// A move request of player `role` on `(row, col)`, `elapsed_ms`
    /// milliseconds after the player received the last state. Returns the
    /// winner to announce with the new state (0: nobody yet), or `None` when
    /// the request is ignored.
    pub fn make_move(&mut self, role: usize, row: usize, col: usize, elapsed_ms: u128) -> (res:
        Option<usize>)
        requires
            old(self).minesweeper.wf(),
            move_allowed(*old(self), role, row, col, elapsed_ms),
        ensures
            move_made(*old(self), *final(self), role, row, col, elapsed_ms, res),
            final(self).minesweeper.wf(),
            winner_named(*final(self), role, res),
    {
        let ghost a = *self;
        if !self.minesweeper.game_won && !self.minesweeper.game_over && self.player_one.connected
            && self.player_two.connected {
            // make move
            if self.turn == 1 && role == 1 {
                let laid = self.minesweeper.running;
                let w = take_turn(
                    &mut self.minesweeper,
                    &mut self.player_one,
                    row,
                    col,
                    elapsed_ms,
                    laid,
                    1,
                    2,
                );
                if w == 0 {
                    self.turn = self.turn + 1;
                }
                assert(turn_taken(a.minesweeper, a.player_one, self.minesweeper, self.player_one, row, col, elapsed_ms, a.minesweeper.running, 1, 2, w));
                assert(self.player_two == a.player_two);
                return Some(w);
            } else if self.turn == 2 && role == 2 {
                let w = take_turn(
                    &mut self.minesweeper,
                    &mut self.player_two,
                    row,
                    col,
                    elapsed_ms,
                    true,
                    2,
                    1,
                );
                if w == 0 {
                    self.turn = self.turn - 1;
                }
                assert(turn_taken(a.minesweeper, a.player_two, self.minesweeper, self.player_two, row, col, elapsed_ms, true, 2, 1, w));
                assert(self.player_one == a.player_one);
                return Some(w);
            }
        }
        None
    }

    /// Player `role` left. Returns the winner to announce when the game was
    /// still undecided (the player who stayed), and whether nobody is left.
    pub fn leave(&mut self, role: usize) -> (res: (Option<usize>, bool))
        ensures
            final(self).minesweeper == old(self).minesweeper,
            final(self).turn == old(self).turn,
            final(self).player_one == if role == 1 {
                Player { connected: false, ..old(self).player_one }
            } else {
                old(self).player_one
            },
            final(self).player_two == if role == 2 {
                Player { connected: false, ..old(self).player_two }
            } else {
                old(self).player_two
            },
            res.0 == if (role == 1 || role == 2) && !old(self).minesweeper.game_won
                && !old(self).minesweeper.game_over {
                Some((3 - role) as usize)
            } else {
                None
            },
            res.1 == (!final(self).player_one.connected && !final(self).player_two.connected),
    {
        let mut winner: Option<usize> = None;
        if role == 1 {
            self.player_one.connected = false;
            // only send game over if game is not over
            if !self.minesweeper.game_won && !self.minesweeper.game_over {
                winner = Some(2);
            }
        } else if role == 2 {
            self.player_two.connected = false;
            if !self.minesweeper.game_won && !self.minesweeper.game_over {
                winner = Some(1);
            }
        }
        (winner, !self.player_one.connected && !self.player_two.connected)
    }
}

/// The games the server runs, each under its id, and the id of the game
/// that waits for a second player (empty when none does).
pub struct Lobby {
    pub games: Vec<(String, Game)>,
    pub game_waiting: String,
}

/// Position of the first game listed under `id`, if any.
pub open spec fn first_with_id(games: Seq<(String, Game)>, id: Seq<char>, res: Option<usize>) -> bool {
    match res {
        Some(i) => i < games.len() && games[i as int].0@ == id && forall|j: int|
            0 <= j < i ==> (#[trigger] games[j]).0@ != id,
        None => forall|j: int| 0 <= j < games.len() ==> (#[trigger] games[j]).0@ != id,
    }
}

/// The games are paired the way the lobby hands them out: no two share an
/// id; a game has nobody's turn (0) exactly when it is the one waiting for a
/// second player; and a waiting game has no second player.
pub open spec fn paired(games: Seq<(String, Game)>, waiting: Seq<char>) -> bool {
    &&& forall|i: int, j: int|
        0 <= i < j < games.len() ==> (#[trigger] games[i]).0@ != (#[trigger] games[j]).0@
    &&& forall|i: int|
        0 <= i < games.len() ==> ((#[trigger] games[i]).1.turn == 0 <==> (waiting.len() > 0
            && games[i].0@ == waiting))
    &&& forall|i: int|
        0 <= i < games.len() && (#[trigger] games[i]).1.turn == 0 ==> !games[i].1.player_two.connected
}

/// No listed game waits for a second player.
pub open spec fn none_waiting(games: Seq<(String, Game)>) -> bool {
    forall|i: int| 0 <= i < games.len() ==> (#[trigger] games[i]).1.turn != 0
}

/// What the server does to a listed game between lobby calls (a move, a
/// timeout, a player leaving) keeps the pairing, as long as it neither
/// starts nor ends the wait for a second player and does not connect one to
/// a waiting game.
pub proof fn law_pairing_survives_play(
    games: Seq<(String, Game)>,
    waiting: Seq<char>,
    i: int,
    g: Game,
)
    requires
        paired(games, waiting),
        0 <= i < games.len(),
        (g.turn == 0) == (games[i].1.turn == 0),
        g.turn == 0 ==> !g.player_two.connected,
    ensures
        paired(games.update(i, (games[i].0, g)), waiting),
{
    let u = games.update(i, (games[i].0, g));
    assert forall|a: int, b: int| 0 <= a < b < u.len() implies (#[trigger] u[a]).0@ != (
    #[trigger] u[b]).0@ by {
        assert(u[a].0 == games[a].0 && u[b].0 == games[b].0);
    }
    assert forall|a: int| 0 <= a < u.len() implies ((#[trigger] u[a]).1.turn == 0 <==> (
    waiting.len() > 0 && u[a].0@ == waiting)) by {
        assert(games[a] == games[a]);
    }
    assert forall|a: int| 0 <= a < u.len() && (#[trigger] u[a]).1.turn == 0 implies !u[a].1.player_two.connected by {
        assert(games[a] == games[a]);
    }
}

/// A move, a timeout or a departure never starts or ends the wait for a
/// second player, and never connects one: a game with nobody's turn keeps it
/// and keeps its second seat empty.
pub proof fn law_play_keeps_waiting(
    a: Game,
    b: Game,
    role: usize,
    row: usize,
    col: usize,
    elapsed: u128,
    res: Option<usize>,
)
    requires
        move_made(a, b, role, row, col, elapsed, res),
    ensures
        (b.turn == 0) == (a.turn == 0),
        a.turn == 0 ==> b.player_two == a.player_two,
{
}

/// A game as it is once its second player has joined: player two connected
/// and player one to move.
pub open spec fn joined_game(g: Game) -> Game {
    Game { player_two: Player { connected: true, ..g.player_two }, turn: 1, ..g }
}

/// The lobby `(games, waiting)` becomes `(games2, waiting2)` by a player
/// joining the waiting game `id`, which is listed.
pub open spec fn join_granted(
    games: Seq<(String, Game)>,
    waiting: Seq<char>,
    games2: Seq<(String, Game)>,
    waiting2: Seq<char>,
    id: Seq<char>,
) -> bool {
    &&& id == waiting
    &&& id.len() > 0
    &&& waiting2 == Seq::<char>::empty()
    &&& exists|i: usize|
        #![trigger games[i as int]]
        first_with_id(games, id, Some(i)) && games2 == games.update(
            i as int,
            (games[i as int].0, joined_game(games[i as int].1)),
        )
}

/// No listed game is the waiting one: the next player has to open a game.
pub open spec fn nothing_to_join(games: Seq<(String, Game)>, waiting: Seq<char>) -> bool {
    waiting.len() == 0 || first_with_id(games, waiting, None)
}

/// The lobby `(games, waiting)` becomes `(games2, waiting2)` by opening a
/// new game under `id` at the end of the list; it is the waiting game.
pub open spec fn game_opened(
    games: Seq<(String, Game)>,
    games2: Seq<(String, Game)>,
    waiting2: Seq<char>,
    id: Seq<char>,
) -> bool {
    &&& games2.len() == games.len() + 1
    &&& forall|j: int| 0 <= j < games.len() ==> #[trigger] games2[j] == games[j]
    &&& games2.last().0@ == id
    &&& fresh_game(games2.last().1.minesweeper, DUEL_GRID_SIZE, DUEL_MINE_COUNT)
    &&& fresh_player(games2.last().1.player_one, true)
    &&& fresh_player(games2.last().1.player_two, false)
    &&& games2.last().1.turn == 0
    &&& waiting2 == id
}

/// One step of the server's lobby from `a` to `b`. With `grant` =
/// `Some((id, role))` a player connected and was given game `id` in `role`:
/// as player two of the waiting game, or, when nothing waits, as player one
/// of a new game under an id not yet listed. With `None` a game was closed,
/// or a listed game was played on (a move, a timeout, a departure) in a way
/// that neither starts nor ends its wait for a second player.
pub open spec fn lobby_step(
    a: (Seq<(String, Game)>, Seq<char>),
    b: (Seq<(String, Game)>, Seq<char>),
    grant: Option<(Seq<char>, usize)>,
) -> bool {
    match grant {
        Some((id, role)) => (role == 2 && join_granted(a.0, a.1, b.0, b.1, id)) || (role == 1
            && nothing_to_join(a.0, a.1) && id.len() > 0 && (forall|j: int|
            0 <= j < a.0.len() ==> (#[trigger] a.0[j]).0@ != id) && game_opened(a.0, b.0, b.1, id)),
        None => (exists|i: int|
            0 <= i < a.0.len() && b.0 == a.0.remove(i) && b.1 == a.1) || (exists|i: int, g: Game|
            0 <= i < a.0.len() && b.0 == a.0.update(i, (a.0[i].0, g)) && b.1 == a.1 && (g.turn
                == 0) == (a.0[i].1.turn == 0) && (g.turn == 0 ==> !g.player_two.connected)),
    }
}

/// A run of the lobby: `states` from the empty lobby, each step as
/// `lobby_step` allows with the grant `grants[k]`.
pub open spec fn lobby_run(
    states: Seq<(Seq<(String, Game)>, Seq<char>)>,
    grants: Seq<Option<(Seq<char>, usize)>>,
) -> bool {
    &&& states.len() == grants.len() + 1
    &&& states[0].0.len() == 0
    &&& states[0].1.len() == 0
    &&& forall|k: int|
        #![trigger grants[k]]
        0 <= k < grants.len() ==> lobby_step(states[k], states[k + 1], grants[k])
}

proof fn lemma_step_keeps_paired(
    a: (Seq<(String, Game)>, Seq<char>),
    b: (Seq<(String, Game)>, Seq<char>),
    grant: Option<(Seq<char>, usize)>,
)
    requires
        paired(a.0, a.1),
        lobby_step(a, b, grant),
    ensures
        paired(b.0, b.1),
{
    match grant {
        Some((id, role)) => {
            if role == 2 && join_granted(a.0, a.1, b.0, b.1, id) {
                let i = choose|i: usize|
                    #![trigger a.0[i as int]]
                    first_with_id(a.0, id, Some(i)) && b.0 == a.0.update(
                        i as int,
                        (a.0[i as int].0, joined_game(a.0[i as int].1)),
                    );
                assert forall|x: int, y: int| 0 <= x < y < b.0.len() implies (#[trigger] b.0[x]).0@
                    != (#[trigger] b.0[y]).0@ by {
                    assert(b.0[x].0 == a.0[x].0 && b.0[y].0 == a.0[y].0);
                }
                assert forall|x: int| 0 <= x < b.0.len() implies ((#[trigger] b.0[x]).1.turn == 0
                    <==> (b.1.len() > 0 && b.0[x].0@ == b.1)) by {
                    if x != i {
                        assert(b.0[x] == a.0[x]);
                        assert(a.0[x].0@ != a.0[i as int].0@);
                    }
                }
                assert forall|x: int| 0 <= x < b.0.len() && (#[trigger] b.0[x]).1.turn
                    == 0 implies !b.0[x].1.player_two.connected by {
                    if x != i {
                        assert(b.0[x] == a.0[x]);
                    }
                }
            } else {
                assert(a.0.len() + 1 == b.0.len());
                assert forall|x: int| 0 <= x < a.0.len() implies (#[trigger] a.0[x]).1.turn != 0 by {
                    if a.1.len() > 0 {
                        assert(a.0[x].0@ != a.1);
                    }
                }
                let last = b.0.len() - 1;
                assert(b.0[last] == b.0.last());
                assert forall|x: int, y: int| 0 <= x < y < b.0.len() implies (#[trigger] b.0[x]).0@
                    != (#[trigger] b.0[y]).0@ by {
                    assert(b.0[x] == a.0[x]);
                    if y < a.0.len() {
                        assert(b.0[y] == a.0[y]);
                    }
                }
                assert forall|x: int| 0 <= x < b.0.len() implies ((#[trigger] b.0[x]).1.turn == 0
                    <==> (b.1.len() > 0 && b.0[x].0@ == b.1)) by {
                    if x < a.0.len() {
                        assert(b.0[x] == a.0[x]);
                    }
                }
                assert forall|x: int| 0 <= x < b.0.len() && (#[trigger] b.0[x]).1.turn
                    == 0 implies !b.0[x].1.player_two.connected by {
                    if x < a.0.len() {
                        assert(b.0[x] == a.0[x]);
                    }
                }
            }
        },
        None => {
            if exists|i: int| 0 <= i < a.0.len() && b.0 == a.0.remove(i) && b.1 == a.1 {
                let i = choose|i: int| 0 <= i < a.0.len() && b.0 == a.0.remove(i) && b.1 == a.1;
                assert forall|x: int, y: int| 0 <= x < y < b.0.len() implies (#[trigger] b.0[x]).0@
                    != (#[trigger] b.0[y]).0@ by {
                    let xx = if x < i { x } else { x + 1 };
                    let yy = if y < i { y } else { y + 1 };
                    assert(b.0[x] == a.0[xx] && b.0[y] == a.0[yy]);
                }
                assert forall|x: int| 0 <= x < b.0.len() implies ((#[trigger] b.0[x]).1.turn == 0
                    <==> (b.1.len() > 0 && b.0[x].0@ == b.1)) by {
                    let xx = if x < i { x } else { x + 1 };
                    assert(b.0[x] == a.0[xx]);
                }
                assert forall|x: int| 0 <= x < b.0.len() && (#[trigger] b.0[x]).1.turn
                    == 0 implies !b.0[x].1.player_two.connected by {
                    let xx = if x < i { x } else { x + 1 };
                    assert(b.0[x] == a.0[xx]);
                }
            } else {
                let (i, g) = choose|i: int, g: Game|
                    0 <= i < a.0.len() && b.0 == a.0.update(i, (a.0[i].0, g)) && b.1 == a.1 && (
                    g.turn == 0) == (a.0[i].1.turn == 0) && (g.turn == 0
                        ==> !g.player_two.connected);
                law_pairing_survives_play(a.0, a.1, i, g);
            }
        },
    }
}

/// In every run of the server's lobby, every state is paired: ids are
/// distinct, exactly the waiting game has nobody's turn, and it has no second
/// player.
pub proof fn law_runs_stay_paired(
    states: Seq<(Seq<(String, Game)>, Seq<char>)>,
    grants: Seq<Option<(Seq<char>, usize)>>,
)
    requires
        lobby_run(states, grants),
    ensures
        forall|k: int| 0 <= k < states.len() ==> paired(#[trigger] states[k].0, states[k].1),
{
    lemma_run_paired_upto(states, grants, states.len() - 1);
}

proof fn lemma_run_paired_upto(
    states: Seq<(Seq<(String, Game)>, Seq<char>)>,
    grants: Seq<Option<(Seq<char>, usize)>>,
    n: int,
)
    requires
        lobby_run(states, grants),
        0 <= n < states.len(),
    ensures
        forall|k: int| 0 <= k <= n ==> paired(#[trigger] states[k].0, states[k].1),
    decreases n,
{
    if n > 0 {
        lemma_run_paired_upto(states, grants, n - 1);
        assert(lobby_step(states[n - 1], states[n], grants[n - 1]));
        lemma_step_keeps_paired(states[n - 1], states[n], grants[n - 1]);
    }
}

/// After a player joins game `id` as player two, no other player joins it as
/// player two before a game is opened again under the id `id`: each game
/// has one creator and at most one joiner.
pub proof fn law_one_joiner_per_game(
    states: Seq<(Seq<(String, Game)>, Seq<char>)>,
    grants: Seq<Option<(Seq<char>, usize)>>,
    id: Seq<char>,
    k: int,
    m: int,
)
    requires
        lobby_run(states, grants),
        0 <= k < m < grants.len(),
        grants[k] == Some((id, 2usize)),
        grants[m] == Some((id, 2usize)),
    ensures
        exists|l: int| k < l < m && grants[l] == Some((id, 1usize)),
{
    if !exists|l: int| k < l < m && grants[l] == Some((id, 1usize)) {
        lemma_not_waiting_for(states, grants, id, k, m);
        assert(lobby_step(states[m], states[m + 1], grants[m]));
    }
}

proof fn lemma_not_waiting_for(
    states: Seq<(Seq<(String, Game)>, Seq<char>)>,
    grants: Seq<Option<(Seq<char>, usize)>>,
    id: Seq<char>,
    k: int,
    l: int,
)
    requires
        lobby_run(states, grants),
        0 <= k < l <= grants.len(),
        grants[k] == Some((id, 2usize)),
        forall|j: int| k < j < l ==> grants[j] != Some((id, 1usize)),
    ensures
        states[l].1 != id,
    decreases l - k,
{
    if l == k + 1 {
        assert(lobby_step(states[k], states[k + 1], grants[k]));
    } else {
        lemma_not_waiting_for(states, grants, id, k, l - 1);
        assert(lobby_step(states[l - 1], states[l], grants[l - 1]));
    }
}

/// In every run, the waiting id is empty or the id of the game opened most
/// recently: some earlier step opened it, and no game was opened since.
pub proof fn law_waiting_is_latest(
    states: Seq<(Seq<(String, Game)>, Seq<char>)>,
    grants: Seq<Option<(Seq<char>, usize)>>,
    k: int,
)
    requires
        lobby_run(states, grants),
        0 <= k < states.len(),
        states[k].1.len() > 0,
    ensures
        exists|j: int|
            0 <= j < k && grants[j] == Some((states[k].1, 1usize)) && forall|l: int|
                j < l < k ==> !(#[trigger] grants[l] matches Some((_, 1usize))),
    decreases k,
{
    if k > 0 {
        assert(lobby_step(states[k - 1], states[k], grants[k - 1]));
        match grants[k - 1] {
            Some((id, role)) => {
                if role == 1 {
                    assert(grants[k - 1] == Some((states[k].1, 1usize)));
                }
            },
            None => {
                law_waiting_is_latest(states, grants, k - 1);
                let j = choose|j: int|
                    0 <= j < k - 1 && grants[j] == Some((states[k - 1].1, 1usize)) && forall|l: int|
                        j < l < k - 1 ==> !(#[trigger] grants[l] matches Some((_, 1usize)));
                assert forall|l: int| j < l < k implies !(#[trigger] grants[l] matches Some(
                    (_, 1usize),
                )) by {
                    if l == k - 1 {
                    }
                }
            },
        }
    }
}

impl Lobby {
    /// No games yet.
    pub fn new() -> (l: Self)
        ensures
            l.games@.len() == 0,
            l.game_waiting@ == Seq::<char>::empty(),
    {
        Lobby { games: Vec::new(), game_waiting: String::new() }
    }

    /// Where the game with `id` is listed.
    pub fn find(&self, id: &String) -> (res: Option<usize>)
        ensures
            first_with_id(self.games@, id@, res),
    {
        let mut i: usize = 0;
        while i < self.games.len()
            invariant
                i <= self.games@.len(),
                forall|j: int| 0 <= j < i ==> (#[trigger] self.games@[j]).0@ != id@,
            decreases self.games@.len() - i,
        {
            if self.games[i].0 == *id {
                return Some(i);
            }
            i = i + 1;
        }
        None
    }

    /// A player arrives: when a game waits for a second player, the player
    /// joins it as player two and its id is returned; nothing waits any more.
    /// Otherwise nothing changes and the result is `None`.
    pub fn join_waiting(&mut self) -> (res: Option<String>)
        ensures
            paired(old(self).games@, old(self).game_waiting@) ==> paired(
                final(self).games@,
                final(self).game_waiting@,
            ),
            paired(old(self).games@, old(self).game_waiting@) && res is None ==> none_waiting(
                final(self).games@,
            ),
            res matches Some(id) ==> join_granted(
                old(self).games@,
                old(self).game_waiting@,
                final(self).games@,
                final(self).game_waiting@,
                id@,
            ),
            res is None ==> nothing_to_join(old(self).games@, old(self).game_waiting@),
            match res {
                Some(id) => {
                    &&& id@ == old(self).game_waiting@
                    &&& id@.len() > 0
                    &&& final(self).game_waiting@ == Seq::<char>::empty()
                    &&& final(self).games@.len() == old(self).games@.len()
                    &&& exists|i: usize|
                        #![trigger old(self).games@[i as int]]
                        first_with_id(old(self).games@, id@, Some(i)) && final(self).games@
                            == old(self).games@.update(
                            i as int,
                            (
                                old(self).games@[i as int].0,
                                Game {
                                    player_two: Player {
                                        connected: true,
                                        ..old(self).games@[i as int].1.player_two
                                    },
                                    turn: 1,
                                    ..old(self).games@[i as int].1
                                },
                            ),
                        )
                },
                None => {
                    &&& *final(self) == *old(self)
                    &&& (old(self).game_waiting@.len() == 0 || first_with_id(
                        old(self).games@,
                        old(self).game_waiting@,
                        None,
                    ))
                },
            },
    {
        if !self.game_waiting.as_str().is_empty() {
            // join game
            let waiting_game_id = self.game_waiting.clone();
            if let Some(i) = self.find(&waiting_game_id) {
                let ghost before = self.games@;
                self.games[i].1.join();
                self.game_waiting = String::new();
                assert(self.games@ == before.update(
                    i as int,
                    (
                        before[i as int].0,
                        Game {
                            player_two: Player { connected: true, ..before[i as int].1.player_two },
                            turn: 1,
                            ..before[i as int].1
                        },
                    ),
                ));
                assert(first_with_id(old(self).games@, waiting_game_id@, Some(i)));
                assert(waiting_game_id@ == old(self).game_waiting@);
                assert(waiting_game_id@.len() > 0);
                assert(old(self).games@[i as int] == before[i as int]);
                return Some(waiting_game_id);
            }
        }
        None
    }

    /// Opens a new game under `id`; it waits for a second player. Returns
    /// where it is listed.
    pub fn open_game(&mut self, id: String) -> (pos: usize)
        ensures
            pos == old(self).games@.len(),
            final(self).games@.len() == old(self).games@.len() + 1,
            forall|j: int| 0 <= j < old(self).games@.len() ==> final(self).games@[j] == old(self).games@[j],
            final(self).games@[pos as int].0 == id,
            fresh_game(final(self).games@[pos as int].1.minesweeper, DUEL_GRID_SIZE, DUEL_MINE_COUNT),
            fresh_player(final(self).games@[pos as int].1.player_one, true),
            fresh_player(final(self).games@[pos as int].1.player_two, false),
            final(self).games@[pos as int].1.turn == 0,
            final(self).game_waiting == id,
            game_opened(old(self).games@, final(self).games@, final(self).game_waiting@, id@),
            (paired(old(self).games@, old(self).game_waiting@) && none_waiting(old(self).games@)
                && id@.len() > 0 && forall|j: int|
                0 <= j < old(self).games@.len() ==> (#[trigger] old(self).games@[j]).0@ != id@)
                ==> paired(final(self).games@, final(self).game_waiting@),
    {
        let pos = self.games.len();
        self.game_waiting = id.clone();
        self.games.push((id, Game::new()));
        pos
    }

    /// Drops the game listed at `i`.
    pub fn close(&mut self, i: usize)
        requires
            i < old(self).games@.len(),
        ensures
            final(self).games@ == old(self).games@.remove(i as int),
            final(self).game_waiting == old(self).game_waiting,
            paired(old(self).games@, old(self).game_waiting@) ==> paired(
                final(self).games@,
                final(self).game_waiting@,
            ),
    {
        self.games.remove(i);
    }
}

} // verus!
