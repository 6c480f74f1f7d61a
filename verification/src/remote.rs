use vstd::prelude::*;
use crate::board::{at, in_grid, is_square};
use crate::game::{MinesweeperGame, fresh_game};
use crate::duel::{Player, default_player};

verus! {

/// The squares a player of a two-player game has flagged on their own
/// screen, each listed once.
pub struct FlagSet {
    cells: Vec<(usize, usize)>,
}

impl View for FlagSet {
    type V = Set<(usize, usize)>;

    closed spec fn view(&self) -> Set<(usize, usize)> {
        self.cells@.to_set()
    }
}

/// The square `q` of `game` is not revealed.
pub open spec fn still_hidden(game: MinesweeperGame, q: (usize, usize)) -> bool {
    !at(game.board(), q).is_revealed
}

impl FlagSet {
    /// No square is listed twice.
    pub closed spec fn wf(&self) -> bool {
        self.cells@.no_duplicates()
    }

    /// No flags.
    pub fn new() -> (s: Self)
        ensures
            s.wf(),
            s@ == Set::<(usize, usize)>::empty(),
    {
        let s = FlagSet { cells: Vec::new() };
        assert(s@ =~= Set::<(usize, usize)>::empty());
        s
    }

    /// The number of flags.
    pub fn len(&self) -> (n: usize)
        requires
            self.wf(),
        ensures
            n == self@.len(),
    {
        proof {
            self.cells@.unique_seq_to_set();
        }
        self.cells.len()
    }

    /// Whether `p` carries a flag.
    pub fn contains(&self, p: (usize, usize)) -> (b: bool)
        ensures
            b == self@.contains(p),
    {
        let mut i: usize = 0;
        while i < self.cells.len()
            invariant
                i <= self.cells@.len(),
                forall|k: int| 0 <= k < i ==> self.cells@[k] != p,
            decreases self.cells@.len() - i,
        {
            let q = self.cells[i];
            if q.0 == p.0 && q.1 == p.1 {
                assert(self.cells@.contains(p));
                return true;
            }
            i = i + 1;
        }
        false
    }

    /// Puts a flag on `p`.
    pub fn insert(&mut self, p: (usize, usize))
        requires
            old(self).wf(),
            !old(self)@.contains(p),
        ensures
            final(self).wf(),
            final(self)@ == old(self)@.insert(p),
    {
        let ghost s0 = self.cells@;
        self.cells.push(p);
        proof {
            assert(self.cells@ == s0.push(p));
            assert(self.cells@.to_set() =~= s0.to_set().insert(p)) by {
                assert forall|q: (usize, usize)| self.cells@.contains(q) <==> s0.to_set().insert(
                    p,
                ).contains(q) by {
                    if self.cells@.contains(q) && q != p {
                        let k = choose|k: int| 0 <= k < self.cells@.len() && self.cells@[k] == q;
                        assert(s0[k] == q);
                    }
                    if s0.contains(q) {
                        let k = choose|k: int| 0 <= k < s0.len() && s0[k] == q;
                        assert(self.cells@[k] == q);
                    }
                    if q == p {
                        assert(self.cells@[s0.len() as int] == p);
                    }
                }
            }
        }
    }

    /// Takes the flag off `p`.
    pub fn remove(&mut self, p: (usize, usize))
        requires
            old(self).wf(),
        ensures
            final(self).wf(),
            final(self)@ == old(self)@.remove(p),
    {
        let ghost s0 = self.cells@;
        let mut i: usize = 0;
        while i < self.cells.len()
            invariant
                self.cells@ == s0,
                s0 == old(self).cells@,
                s0.no_duplicates(),
                i <= s0.len(),
                forall|k: int| 0 <= k < i ==> s0[k] != p,
            decreases s0.len() - i,
        {
            let q = self.cells[i];
            if q.0 == p.0 && q.1 == p.1 {
                self.cells.remove(i);
                proof {
                    let s1 = self.cells@;
                    assert(s1 == s0.remove(i as int));
                    assert forall|a: int, b: int| 0 <= a < b < s1.len() implies s1[a] != s1[b] by {
                        let aa = if a < i { a } else { a + 1 };
                        let bb = if b < i { b } else { b + 1 };
                        assert(s1[a] == s0[aa] && s1[b] == s0[bb]);
                    }
                    assert(s1.to_set() =~= s0.to_set().remove(p)) by {
                        assert forall|x: (usize, usize)| s1.contains(x) <==> s0.to_set().remove(
                            p,
                        ).contains(x) by {
                            if s1.contains(x) {
                                let k = choose|k: int| 0 <= k < s1.len() && s1[k] == x;
                                let kk = if k < i { k } else { k + 1 };
                                assert(s0[kk] == x);
                                assert(kk != i);
                            }
                            if s0.contains(x) && x != p {
                                let k = choose|k: int| 0 <= k < s0.len() && s0[k] == x;
                                assert(k != i);
                                if k < i {
                                    assert(s1[k] == x);
                                } else {
                                    assert(s1[k - 1] == x);
                                }
                            }
                        }
                    }
                }
                assert(self@ == old(self)@.remove(p));
                return;
            }
            i = i + 1;
        }
        assert(self.cells@.to_set() =~= s0.to_set().remove(p));
    }

    /// Keeps the flags on squares that `game` still shows hidden.
    pub fn retain_hidden(&mut self, game: &MinesweeperGame)
        requires
            old(self).wf(),
            is_square(game.board(), game.grid_size as int),
            forall|q: (usize, usize)| old(self)@.contains(q) ==> in_grid(game.grid_size as int, q),
        ensures
            final(self).wf(),
            forall|q: (usize, usize)|
                #[trigger] final(self)@.contains(q) <==> old(self)@.contains(q) && !at(
                    game.board(),
                    q,
                ).is_revealed,
    {
        let ghost s0 = self.cells@;
        let mut kept: Vec<(usize, usize)> = Vec::new();
        let mut i: usize = 0;
        while i < self.cells.len()
            invariant
                self.cells@ == s0,
                s0 == old(self).cells@,
                s0.no_duplicates(),
                is_square(game.board(), game.grid_size as int),
                forall|q: (usize, usize)| s0.contains(q) ==> in_grid(game.grid_size as int, q),
                i <= s0.len(),
                kept@.no_duplicates(),
                forall|x: (usize, usize)| kept@.contains(x) <==> (exists|k: int|
                    0 <= k < i && s0[k] == x && still_hidden(*game, x)),
            decreases s0.len() - i,
        {
            let (r, c) = self.cells[i];
            proof {
                assert(s0.contains(s0[i as int]));
                assert(game.board()[r as int] == game.grid@[r as int]@);
                assert(still_hidden(*game, s0[i as int]) == !game.grid@[r as int]@[c as int].is_revealed);
            }
            let ghost before = kept@;
            if !game.grid[r][c].is_revealed {
                kept.push((r, c));
                proof {
                    assert(kept@ == before.push((r, c)));
                    assert forall|a: int, b: int| 0 <= a < b < kept@.len() implies kept@[a]
                        != kept@[b] by {
                        if b == before.len() {
                            assert(kept@[a] == before[a]);
                            assert(before.contains(before[a]));
                            let k = choose|k: int| 0 <= k < i && s0[k] == before[a] && still_hidden(*game, 
                                before[a],
                            );
                            assert(k != i);
                        }
                    }
                }
            }
            proof {
                assert forall|x: (usize, usize)| kept@.contains(x) <==> (exists|k: int|
                    0 <= k < i + 1 && s0[k] == x && still_hidden(*game, x)) by {
                    if kept@.contains(x) {
                        let j = choose|j: int| 0 <= j < kept@.len() && kept@[j] == x;
                        if j < before.len() {
                            assert(before[j] == x);
                            assert(before.contains(x));
                        } else {
                            assert(s0[i as int] == x);
                        }
                    }
                    if exists|k: int| 0 <= k < i + 1 && s0[k] == x && still_hidden(*game, x) {
                        let k = choose|k: int| 0 <= k < i + 1 && s0[k] == x && still_hidden(*game, x);
                        if k < i {
                            assert(before.contains(x));
                            let j = choose|j: int| 0 <= j < before.len() && before[j] == x;
                            assert(kept@[j] == x);
                        } else {
                            assert(x == s0[i as int]);
                            assert(still_hidden(*game, s0[i as int]));
                            assert(kept@ == before.push((r, c)));
                            assert(kept@[kept@.len() - 1] == x);
                        }
                    }
                }
            }
            i = i + 1;
        }
        self.cells = kept;
        proof {
            assert forall|x: (usize, usize)| #[trigger] self@.contains(x) <==> s0.to_set().contains(x)
                && still_hidden(*game, x) by {
                if s0.contains(x) {
                    let k = choose|k: int| 0 <= k < s0.len() && s0[k] == x;
                    assert(exists|k: int| 0 <= k < i && s0[k] == x);
                }
            }
        }
    }
}

/// A two-player game as one player's client sees it.
pub struct RemoteGame {
    pub game: MinesweeperGame,
    pub flags: FlagSet,
    pub turn: usize,
    /// 1 or 2: which player this client is (0 until the server says).
    pub role: usize,
    pub game_id: String,
    pub winner: usize,
    pub player_one: Player,
    pub player_two: Player,
    /// When the last game state arrived, in milliseconds.
    pub received_ts: u128,
}

/// A tick asks to report a timeout: less than a second is left on the clock
/// of the player to move, and that player is this client's.
pub open spec fn tick_reports(a: RemoteGame) -> bool {
    &&& a.turn == a.role
    &&& (a.turn == 1 && a.player_one.time_remaining < 1000) || (a.turn == 2
        && a.player_two.time_remaining < 1000)
}

/// What a tick does to the view `a`, giving `b`: the clock of the player to
/// move loses a second when it has one; nothing else changes.
pub open spec fn ticked(a: RemoteGame, b: RemoteGame) -> bool {
    &&& if a.turn == 1 && a.player_one.time_remaining >= 1000 {
        b.player_one == (Player {
            time_remaining: (a.player_one.time_remaining - 1000) as u128,
            ..a.player_one
        }) && b.player_two == a.player_two
    } else if a.turn == 2 && a.player_two.time_remaining >= 1000 {
        b.player_two == (Player {
            time_remaining: (a.player_two.time_remaining - 1000) as u128,
            ..a.player_two
        }) && b.player_one == a.player_one
    } else {
        b.player_one == a.player_one && b.player_two == a.player_two
    }
    &&& b.game == a.game
    &&& b.flags == a.flags
    &&& b.turn == a.turn
    &&& b.role == a.role
    &&& b.game_id == a.game_id
    &&& b.winner == a.winner
    &&& b.received_ts == a.received_ts
}

/// What a right click on `(row, col)` does to the view `a`, giving `b`:
/// nothing once the game is over or won or on a revealed square; otherwise
/// a flag comes off, or goes on unless every mine already has one.
pub open spec fn remote_flag_toggled(a: RemoteGame, b: RemoteGame, row: usize, col: usize) -> bool {
    &&& b.flags_on_board()
    &&& a.flags_fit() ==> b.flags_fit()
    &&& b.game == a.game
    &&& b.turn == a.turn
    &&& b.role == a.role
    &&& b.winner == a.winner
    &&& b.player_one == a.player_one
    &&& b.player_two == a.player_two
    &&& b.received_ts == a.received_ts
    &&& b.game_id == a.game_id
    &&& b.flags@ == if a.game.game_over || a.game.game_won || at(
        a.game.board(),
        (row, col),
    ).is_revealed {
        a.flags@
    } else if a.flags@.contains((row, col)) {
        a.flags@.remove((row, col))
    } else if a.flags@.len() == a.game.mine_count {
        a.flags@
    } else {
        a.flags@.insert((row, col))
    }
}

/// What a new state from the server does to the view `a`, giving `b`: the
/// game, the players, whose turn it is and the winner so far are taken over,
/// the arrival time `now` is kept when known, and flags on squares now
/// revealed are dropped.
pub open spec fn state_applied(
    a: RemoteGame,
    b: RemoteGame,
    game: MinesweeperGame,
    player_one: Player,
    player_two: Player,
    turn: usize,
    winner: usize,
    now: Option<u128>,
) -> bool {
    &&& b.game == game
    &&& b.player_one == player_one
    &&& b.player_two == player_two
    &&& b.turn == turn
    &&& b.winner == winner
    &&& b.received_ts == match now {
        Some(t) => t,
        None => a.received_ts,
    }
    &&& b.role == a.role
    &&& b.game_id == a.game_id
    &&& b.flags.wf()
    &&& forall|q: (usize, usize)|
        #[trigger] b.flags@.contains(q) <==> a.flags@.contains(q) && !at(game.board(), q).is_revealed
}

/// The clocks of `b` are those of `a` after one second: for each player, the
/// clock loses exactly 1000 milliseconds when it is that player's turn and
/// the clock holds at least that much, and is unchanged otherwise; names and
/// everything else about the players stay.
pub open spec fn clock_ticked(a: RemoteGame, b: RemoteGame) -> bool {
    &&& b.player_one.time_remaining == if a.turn == 1 && a.player_one.time_remaining >= 1000 {
        a.player_one.time_remaining - 1000
    } else {
        a.player_one.time_remaining as int
    }
    &&& b.player_two.time_remaining == if a.turn == 2 && a.player_two.time_remaining >= 1000 {
        a.player_two.time_remaining - 1000
    } else {
        a.player_two.time_remaining as int
    }
    &&& b.player_one.name == a.player_one.name
    &&& b.player_two.name == a.player_two.name
    &&& b.player_one.first_move == a.player_one.first_move
    &&& b.player_two.first_move == a.player_two.first_move
    &&& b.player_one.connected == a.player_one.connected
    &&& b.player_two.connected == a.player_two.connected
    &&& b.turn == a.turn
    &&& b.winner == a.winner
}

/// A tick takes one second off the clock of the player to move, whichever
/// player that is, when that clock holds at least a second, and leaves the
/// other clock alone.
pub proof fn law_tick_takes_a_second(a: RemoteGame, b: RemoteGame)
    requires
        ticked(a, b),
    ensures
        clock_ticked(a, b),
        a.turn == 1 && a.player_one.time_remaining >= 1000 ==> b.player_one.time_remaining
            == a.player_one.time_remaining - 1000 && b.player_two == a.player_two,
        a.turn == 2 && a.player_two.time_remaining >= 1000 ==> b.player_two.time_remaining
            == a.player_two.time_remaining - 1000 && b.player_one == a.player_one,
{
}

/// Applying a state from the server takes over what the server sent: the
/// board, both players, whose turn it is and the winner it announced.
pub proof fn law_state_taken_over(
    a: RemoteGame,
    b: RemoteGame,
    game: MinesweeperGame,
    player_one: Player,
    player_two: Player,
    turn: usize,
    winner: usize,
    now: Option<u128>,
)
    requires
        state_applied(a, b, game, player_one, player_two, turn, winner, now),
    ensures
        b.game == game,
        b.player_one == player_one,
        b.player_two == player_two,
        b.turn == turn,
        b.winner == winner,
        b.role == a.role,
{
}

impl RemoteGame {
    /// Every flag lies on the board.
    pub open spec fn flags_on_board(&self) -> bool {
        &&& self.flags.wf()
        &&& forall|q: (usize, usize)|
            #[trigger] self.flags@.contains(q) ==> in_grid(self.game.grid_size as int, q)
    }

    /// Every flag lies on the board, and there are no more flags than mines.
    pub open spec fn flags_fit(&self) -> bool {
        &&& self.flags_on_board()
        &&& self.flags@.len() <= self.game.mine_count
    }

    /// The view of a client that is waiting for the server: an empty board,
    /// player one to move, nothing known yet.
    pub fn new() -> (r: Self)
        ensures
            fresh_game(r.game, 0, 0),
            default_player(r.player_one),
            default_player(r.player_two),
            r.flags_fit(),
            r.flags@ == Set::<(usize, usize)>::empty(),
            r.turn == 1,
            r.role == 0,
            r.game_id@ == Seq::<char>::empty(),
            r.winner == 0,
            r.received_ts == 0,
    {
        let r = RemoteGame {
            game: MinesweeperGame::new(0, 0),
            flags: FlagSet::new(),
            turn: 1,
            role: 0,
            game_id: String::new(),
            winner: 0,
            player_one: Player::default(),
            player_two: Player::default(),
            received_ts: 0,
        };
        r
    }

    /// One second of the clocks: the player whose turn it is loses a second;
    /// when less than a second is left and it is this client's turn, the
    /// result asks to report the timeout.
    pub fn tick(&mut self) -> (report: bool)
        ensures
            ticked(*old(self), *final(self)),
            report == tick_reports(*old(self)),
            clock_ticked(*old(self), *final(self)),
    {
        if self.turn == 1 {
            if self.player_one.time_remaining >= 1_000 {
                self.player_one.time_remaining = self.player_one.time_remaining - 1_000;
                false
            } else {
                self.turn == self.role
            }
        } else if self.turn == 2 {
            if self.player_two.time_remaining >= 1_000 {
                self.player_two.time_remaining = self.player_two.time_remaining - 1_000;
                false
            } else {
                self.turn == self.role
            }
        } else {
            false
        }
    }

    /// A right click on `(row, col)`: nothing once the game is over or won or
    /// on a revealed square; otherwise a flag comes off, or goes on unless
    /// every mine already has one.
    pub fn toggle_flag(&mut self, row: usize, col: usize)
        requires
            old(self).flags_on_board(),
            is_square(old(self).game.board(), old(self).game.grid_size as int),
            !old(self).game.game_over && !old(self).game.game_won ==> row < old(self).game.grid_size
                && col < old(self).game.grid_size,
        ensures
            remote_flag_toggled(*old(self), *final(self), row, col),
    {
        if self.game.game_over || self.game.game_won {
            return;
        }
        assert(self.game.board()[row as int] == self.game.grid@[row as int]@);
        if self.game.grid[row][col].is_revealed {
            return;
        }
        // if already flagged, remove flag

        if self.flags.contains((row, col)) {
            self.flags.remove((row, col));
            proof {
                assert(old(self).flags@.finite());
            }
        } else {
            // don't allow more flags than mines
            if self.flags.len() == self.game.mine_count {
                return;
            }
            self.flags.insert((row, col));
            proof {
                assert(old(self).flags@.finite());
            }
        }
    }

    /// A left click on `(row, col)`: the move to send, as the milliseconds
    /// since the last state arrived (`now` is the time of the click), unless
    /// the square is flagged, it is not this client's turn, or the square is
    /// revealed already.
    pub fn request_move(&self, row: usize, col: usize, now: u128) -> (elapsed: Option<u128>)
        requires
            is_square(self.game.board(), self.game.grid_size as int),
            !self.flags@.contains((row, col)) && self.turn == self.role ==> row
                < self.game.grid_size && col < self.game.grid_size && now >= self.received_ts,
        ensures
            elapsed == if self.flags@.contains((row, col)) || self.turn != self.role || at(
                self.game.board(),
                (row, col),
            ).is_revealed {
                None
            } else {
                Some((now - self.received_ts) as u128)
            },
    {
        // return if flagged
        if self.flags.contains((row, col)) {
            return None;
        }
        // return if not your turn
        if self.turn != self.role {
            return None;
        }
        // return if already revealed
        assert(self.game.board()[row as int] == self.game.grid@[row as int]@);
        if self.game.grid[row][col].is_revealed {
            return None;
        }
        Some(now - self.received_ts)
    }

    /// A new state from the server: the game, the players, whose turn it is
    /// and the winner so far are taken over, the arrival time `now` is kept
    /// when known, and flags on squares now revealed are dropped.
    pub fn apply_state(
        &mut self,
        game: MinesweeperGame,
        player_one: Player,
        player_two: Player,
        turn: usize,
        winner: usize,
        now: Option<u128>,
    )
        requires
            old(self).flags.wf(),
            is_square(game.board(), game.grid_size as int),
            forall|q: (usize, usize)|
                #[trigger] old(self).flags@.contains(q) ==> in_grid(game.grid_size as int, q),
        ensures
            state_applied(*old(self), *final(self), game, player_one, player_two, turn, winner, now),
            final(self).game == game,
            final(self).player_one == player_one,
            final(self).player_two == player_two,
            final(self).turn == turn,
            final(self).winner == winner,
            final(self).role == old(self).role,
            now is Some ==> final(self).received_ts == now->0,
            now is None ==> final(self).received_ts == old(self).received_ts,
    {
        // save received_ts
        if let Some(ts) = now {
            self.received_ts = ts;
        }
        self.winner = winner;
        self.player_one = player_one;
        self.player_two = player_two;
        self.turn = turn;
        // if cell is revealed, remove flag
        self.flags.retain_hidden(&game);
        self.game = game;
    }

    /// Mines not yet covered by a flag.
    pub fn bombs_remaining(&self) -> (n: usize)
        requires
            self.flags_fit(),
        ensures
            n == self.game.mine_count - self.flags@.len(),
    {
        self.game.mine_count - self.flags.len()
    }
}

} // verus!
