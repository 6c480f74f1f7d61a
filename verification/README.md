# minesweeper

The game rules of a Minesweeper with a single-player mode and a two-player
mode played over a server, verified with Verus.

- `src/cell.rs`, `src/board.rs`: squares, the board model (rows of squares),
  neighbours, counting, numbering.
- `src/flood.rs`: the flood reveal and its laws.
- `src/mines.rs`, `src/random.rs`: random mine placement (the only outside
  calls, into `rand`).
- `src/game.rs`: `MinesweeperGame` and its moves.
- `src/classic.rs`: the small single-player board.
- `src/solo.rs`, `src/display.rs`: what the single-player client does on a
  click, a right click and a tick, and what it shows.
- `src/duel.rs`, `src/remote.rs`: the two-player game as the server and as a
  client keep it.
- `src/client.rs`: the client's screens and what each input does to them.
- `src/message.rs`: the message type of the shared protocol.
- `app/`: the websocket server around `duel`.
