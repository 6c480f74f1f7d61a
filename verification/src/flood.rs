use vstd::prelude::*;
use std::collections::VecDeque;
use crate::cell::Cell;
use crate::board::{
    at, board_count, board_of, grid_neighbors, hidden, in_grid, is_square, lemma_board_count_bound,
    lemma_board_count_set, lemma_board_count_trade, lemma_neighbor_cells, neighbor_cells, one_if,
    safe_revealed, set_cell,
};

verus! {

/// A walk that a flood reveal can take from `start` on board `b`: it starts at
/// `start`, stays on hidden squares without mines, and only steps on from a
/// square whose number is 0 to one of its neighbours.
pub open spec fn is_flood_path(
    b: Seq<Seq<Cell>>,
    n: usize,
    start: (usize, usize),
    path: Seq<(usize, usize)>,
) -> bool {
    &&& path.len() >= 1
    &&& path[0] == start
    &&& forall|i: int|
        0 <= i < path.len() ==> {
            &&& in_grid(n as int, #[trigger] path[i])
            &&& !at(b, path[i]).is_mine
            &&& !at(b, path[i]).is_revealed
        }
    &&& forall|i: int|
        0 <= i < path.len() - 1 ==> {
            &&& at(b, #[trigger] path[i]).number == 0
            &&& neighbor_cells(n, path[i].0, path[i].1).contains(path[i + 1])
        }
}

/// The square `q` is revealed by a flood reveal started at `start`.
pub open spec fn in_flood(b: Seq<Seq<Cell>>, n: usize, start: (usize, usize), q: (usize, usize)) -> bool {
    exists|path: Seq<(usize, usize)>| #[trigger] is_flood_path(b, n, start, path) && path.last() == q
}

/// The board after a flood reveal from `start`: every square the flood
/// reaches is revealed, nothing else changes.
pub open spec fn flooded(b: Seq<Seq<Cell>>, n: usize, start: (usize, usize)) -> Seq<Seq<Cell>> {
    Seq::new(
        b.len(),
        |i: int|
            Seq::new(
                b[i].len(),
                |j: int|
                    Cell {
                        is_revealed: b[i][j].is_revealed || in_flood(
                            b,
                            n,
                            start,
                            (i as usize, j as usize),
                        ),
                        is_mine: b[i][j].is_mine,
                        is_flaged: b[i][j].is_flaged,
                        number: b[i][j].number,
                    },
            ),
    )
}

spec fn newly(b0: Seq<Seq<Cell>>, b: Seq<Seq<Cell>>, p: (usize, usize)) -> bool {
    !at(b0, p).is_revealed && at(b, p).is_revealed
}

/// Every square revealed since `b0` that has number 0 has each hidden,
/// mine-free neighbour either revealed already or waiting in `queue`.
spec fn flood_closed(
    b0: Seq<Seq<Cell>>,
    b: Seq<Seq<Cell>>,
    n: usize,
    queue: Seq<(usize, usize)>,
) -> bool {
    forall|p: (usize, usize), k: int|
        in_grid(n as int, p) && newly(b0, b, p) && at(b0, p).number == 0 && 0 <= k
            < neighbor_cells(n, p.0, p.1).len() ==> {
            let x = #[trigger] neighbor_cells(n, p.0, p.1)[k];
            (!at(b0, x).is_mine && !at(b0, x).is_revealed) ==> (at(b, x).is_revealed
                || queue.contains(x))
        }
}

/// `b` differs from `b0` only in squares revealed by the flood from `start`.
spec fn reveal_only(b0: Seq<Seq<Cell>>, b: Seq<Seq<Cell>>, n: usize, start: (usize, usize)) -> bool {
    forall|p: (usize, usize)|
        #![trigger at(b, p)]
        in_grid(n as int, p) ==> {
            &&& at(b, p).is_mine == at(b0, p).is_mine
            &&& at(b, p).is_flaged == at(b0, p).is_flaged
            &&& at(b, p).number == at(b0, p).number
            &&& at(b0, p).is_revealed ==> at(b, p).is_revealed
            &&& newly(b0, b, p) ==> in_flood(b0, n, start, p)
        }
}

proof fn lemma_flood_path_revealed(
    b0: Seq<Seq<Cell>>,
    b: Seq<Seq<Cell>>,
    n: usize,
    start: (usize, usize),
    path: Seq<(usize, usize)>,
)
    requires
        is_flood_path(b0, n, start, path),
        at(b, start).is_revealed,
        flood_closed(b0, b, n, Seq::empty()),
    ensures
        at(b, path.last()).is_revealed,
    decreases path.len(),
{
    if path.len() > 1 {
        let d = path.drop_last();
        assert(is_flood_path(b0, n, start, d)) by {
            assert forall|i: int| 0 <= i < d.len() implies {
                &&& in_grid(n as int, #[trigger] d[i])
                &&& !at(b0, d[i]).is_mine
                &&& !at(b0, d[i]).is_revealed
            } by {
                assert(d[i] == path[i]);
            }
            assert forall|i: int| 0 <= i < d.len() - 1 implies {
                &&& at(b0, #[trigger] d[i]).number == 0
                &&& neighbor_cells(n, d[i].0, d[i].1).contains(d[i + 1])
            } by {
                assert(d[i] == path[i]);
                assert(d[i + 1] == path[i + 1]);
            }
        }
        lemma_flood_path_revealed(b0, b, n, start, d);
        let p = path[path.len() - 2];
        let x = path.last();
        assert(d.last() == p);
        assert(in_grid(n as int, path[path.len() - 2]));
        assert(at(b0, path[path.len() - 2]).number == 0);
        assert(neighbor_cells(n, p.0, p.1).contains(x));
        let k = choose|k: int|
            0 <= k < neighbor_cells(n, p.0, p.1).len() && neighbor_cells(n, p.0, p.1)[k] == x;
        assert(in_grid(n as int, path[path.len() - 1]));
    }
}

/// Reveals, breadth first, the hidden mine-free region reached from
/// `(row, col)` through squares numbered 0; returns how many squares it
/// revealed.
pub fn reveal_region(grid: &mut Vec<Vec<Cell>>, n: usize, row: usize, col: usize) -> (cleared:
    usize)
    requires
        is_square(board_of(old(grid)), n as int),
        n <= i32::MAX,
        n * n <= usize::MAX,
        row < n,
        col < n,
        !at(board_of(old(grid)), (row, col)).is_mine,
        !at(board_of(old(grid)), (row, col)).is_revealed,
    ensures
        board_of(final(grid)) == flooded(board_of(old(grid)), n, (row, col)),
        cleared + board_count(board_of(final(grid)), hidden()) == board_count(
            board_of(old(grid)),
            hidden(),
        ),
{
    let ghost b0 = board_of(grid);
    let ghost start = (row, col);
    proof {
        lemma_board_count_bound(b0, hidden(), n as int);
        let path = seq![start];
        assert(is_flood_path(b0, n, start, path));
    }
    let mut cleared: usize = 0;
    let mut queue: VecDeque<(usize, usize)> = VecDeque::new();
    queue.push_back((row, col));
    while queue.len() > 0
        invariant
            is_square(b0, n as int),
            is_square(board_of(grid), n as int),
            n <= i32::MAX,
            n * n <= usize::MAX,
            in_grid(n as int, start),
            board_count(b0, hidden()) <= n * n,
            reveal_only(b0, board_of(grid), n, start),
            flood_closed(b0, board_of(grid), n, queue@),
            forall|k: int|
                0 <= k < queue@.len() ==> in_grid(n as int, #[trigger] queue@[k]) && in_flood(
                    b0,
                    n,
                    start,
                    queue@[k],
                ),
            at(board_of(grid), start).is_revealed || queue@.contains(start),
            cleared + board_count(board_of(grid), hidden()) == board_count(b0, hidden()),
        decreases 9 * board_count(board_of(grid), hidden()) + queue@.len(),
    {
        let ghost b = board_of(grid);
        let ghost q = queue@;
        let (r, c) = queue.pop_front().unwrap();
        let ghost p = (r, c);
        assert(q[0] == p);
        assert(in_grid(n as int, q[0]));
        assert(b[r as int] == grid@[r as int]@);
        assert forall|x: (usize, usize)| q.contains(x) implies x == p || queue@.contains(x) by {
            let k = choose|k: int| 0 <= k < q.len() && q[k] == x;
            if k > 0 {
                assert(queue@[k - 1] == x);
            }
        }
        if grid[r][c].is_revealed {
            continue;
        }
        // reveal square

        let x = grid[r][c];
        let revealed = Cell {
            is_revealed: true,
            is_mine: x.is_mine,
            is_flaged: x.is_flaged,
            number: x.number,
        };
        set_cell(grid, (r, c), revealed);
        proof {
            lemma_board_count_set(b, p, revealed, hidden());
            assert(at(b, p) == x);
        }
        cleared = cleared + 1;
        let ghost b1 = board_of(grid);
        assert(b1[r as int] == grid@[r as int]@);
        assert(at(b1, p).is_revealed);
        assert(in_flood(b0, n, start, q[0]));
        assert(newly(b0, b1, p));
        assert forall|pp: (usize, usize)| in_grid(n as int, pp) && pp != p implies #[trigger] at(
            b1,
            pp,
        ) == at(b, pp) by {
            if pp.0 == p.0 {
                assert(pp.1 != p.1);
            }
        }
        assert(reveal_only(b0, b1, n, start)) by {
            assert forall|pp: (usize, usize)| #![trigger at(b1, pp)] in_grid(n as int, pp) implies {
                &&& at(b1, pp).is_mine == at(b0, pp).is_mine
                &&& at(b1, pp).is_flaged == at(b0, pp).is_flaged
                &&& at(b1, pp).number == at(b0, pp).number
                &&& at(b0, pp).is_revealed ==> at(b1, pp).is_revealed
                &&& newly(b0, b1, pp) ==> in_flood(b0, n, start, pp)
            } by {
                assert(at(b, pp) == at(b, pp));
                if pp != p {
                    assert(at(b1, pp) == at(b, pp));
                }
            }
        }
        // if cell is a 0, push all neighbors to queue

        if grid[r][c].number == 0 {
            let nbrs = grid_neighbors(n, r, c);
            proof {
                lemma_neighbor_cells(n, r, c);
            }
            let ghost q1 = queue@;
            let ghost path = choose|path: Seq<(usize, usize)>|
                #[trigger] is_flood_path(b0, n, start, path) && path.last() == p;
            let mut j: usize = 0;
            while j < nbrs.len()
                invariant
                    b1 == board_of(grid),
                    is_square(b1, n as int),
                    n <= i32::MAX,
                    in_grid(n as int, p),
                    p == (r, c),
                    nbrs@ == neighbor_cells(n, r, c),
                    nbrs@.len() <= 8,
                    forall|y: (usize, usize)| #[trigger]
                        nbrs@.contains(y) ==> in_grid(n as int, y),
                    is_flood_path(b0, n, start, path),
                    path.last() == p,
                    at(b0, p).number == 0,
                    reveal_only(b0, b1, n, start),
                    j <= nbrs@.len(),
                    queue@.len() <= q1.len() + j,
                    forall|y: (usize, usize)| q1.contains(y) ==> #[trigger] queue@.contains(y),
                    forall|k: int|
                        0 <= k < queue@.len() ==> in_grid(n as int, #[trigger] queue@[k])
                            && in_flood(b0, n, start, queue@[k]),
                    forall|k: int|
                        0 <= k < j ==> {
                            let y = #[trigger] nbrs@[k];
                            (!at(b0, y).is_mine && !at(b0, y).is_revealed) ==> (at(
                                b1,
                                y,
                            ).is_revealed || queue@.contains(y))
                        },
                decreases nbrs@.len() - j,
            {
                let (nr, nc) = nbrs[j];
                let ghost y = (nr, nc);
                assert(nbrs@.contains(nbrs@[j as int]));
                assert(in_grid(n as int, y));
                assert(b1[nr as int] == grid@[nr as int]@);
                assert(at(b1, y) == grid@[nr as int]@[nc as int]);
                let ghost before_push = queue@;
                if !grid[nr][nc].is_revealed && !grid[nr][nc].is_mine {
                    queue.push_back((nr, nc));
                    proof {
                        let path2 = path.push(y);
                        assert(at(b1, y) == at(b1, y));
                        assert(!at(b0, y).is_revealed);
                        assert(neighbor_cells(n, p.0, p.1)[j as int] == y);
                        assert(neighbor_cells(n, p.0, p.1).contains(y));
                        assert(is_flood_path(b0, n, start, path2)) by {
                            assert forall|i: int| 0 <= i < path2.len() - 1 implies {
                                &&& at(b0, #[trigger] path2[i]).number == 0
                                &&& neighbor_cells(n, path2[i].0, path2[i].1).contains(
                                    path2[i + 1],
                                )
                            } by {
                                if i < path.len() - 1 {
                                    assert(path2[i] == path[i]);
                                    assert(path2[i + 1] == path[i + 1]);
                                } else {
                                    assert(path[path.len() - 1] == p);
                                    assert(path2[i] == p);
                                    assert(path2[i + 1] == y);
                                }
                            }
                            assert forall|i: int| 0 <= i < path2.len() implies {
                                &&& in_grid(n as int, #[trigger] path2[i])
                                &&& !at(b0, path2[i]).is_mine
                                &&& !at(b0, path2[i]).is_revealed
                            } by {
                                if i < path.len() {
                                    assert(path2[i] == path[i]);
                                }
                            }
                        }
                        assert(path2.last() == y);
                        assert(queue@[before_push.len() as int] == y);
                        assert forall|z: (usize, usize)| #[trigger]
                            before_push.contains(z) implies queue@.contains(z) by {
                            let k = choose|k: int| 0 <= k < before_push.len() && before_push[k] == z;
                            assert(queue@[k] == z);
                        }
                        assert(queue@.contains(y));
                        assert forall|z: (usize, usize)| #[trigger]
                            q1.contains(z) implies queue@.contains(z) by {
                            assert(before_push.contains(z));
                            let k = choose|k: int| 0 <= k < before_push.len() && before_push[k] == z;
                            assert(queue@[k] == z);
                        }
                    }
                }
                j = j + 1;
            }
            proof {
                assert forall|pp: (usize, usize), k: int|
                    in_grid(n as int, pp) && newly(b0, b1, pp) && at(b0, pp).number == 0 && 0 <= k
                        < neighbor_cells(n, pp.0, pp.1).len() implies {
                    let y = #[trigger] neighbor_cells(n, pp.0, pp.1)[k];
                    (!at(b0, y).is_mine && !at(b0, y).is_revealed) ==> (at(b1, y).is_revealed
                        || queue@.contains(y))
                } by {
                    let y = neighbor_cells(n, pp.0, pp.1)[k];
                    if pp == p {
                        assert(nbrs@[k] == y);
                    } else {
                        assert(at(b1, pp) == at(b, pp));
                        assert(newly(b0, b, pp));
                        if !at(b0, y).is_mine && !at(b0, y).is_revealed && !at(b1, y).is_revealed {
                            lemma_neighbor_cells(n, pp.0, pp.1);
                            assert(neighbor_cells(n, pp.0, pp.1).contains(y));
                            assert(y != p);
                            assert(at(b1, y) == at(b, y));
                            assert(q.contains(y));
                            assert(q1.contains(y));
                        }
                    }
                }
            }
        } else {
            proof {
                assert forall|pp: (usize, usize), k: int|
                    in_grid(n as int, pp) && newly(b0, b1, pp) && at(b0, pp).number == 0 && 0 <= k
                        < neighbor_cells(n, pp.0, pp.1).len() implies {
                    let y = #[trigger] neighbor_cells(n, pp.0, pp.1)[k];
                    (!at(b0, y).is_mine && !at(b0, y).is_revealed) ==> (at(b1, y).is_revealed
                        || queue@.contains(y))
                } by {
                    let y = neighbor_cells(n, pp.0, pp.1)[k];
                    if pp != p {
                        assert(at(b1, pp) == at(b, pp));
                        assert(newly(b0, b, pp));
                        if !at(b0, y).is_mine && !at(b0, y).is_revealed && !at(b1, y).is_revealed {
                            lemma_neighbor_cells(n, pp.0, pp.1);
                            assert(neighbor_cells(n, pp.0, pp.1).contains(y));
                            assert(y != p);
                            assert(at(b1, y) == at(b, y));
                            assert(q.contains(y));
                        }
                    }
                }
            }
        }
    }
    proof {
        let b = board_of(grid);
        assert(queue@ =~= Seq::<(usize, usize)>::empty());
        assert(!queue@.contains(start));
        assert(at(b, start).is_revealed);
        let fl = flooded(b0, n, start);
        assert forall|i: int, j: int| 0 <= i < n && 0 <= j < n implies #[trigger] b[i][j]
            == fl[i][j] by {
            let pp = (i as usize, j as usize);
            assert(at(b, pp) == b[i][j]);
            assert(at(b0, pp) == b0[i][j]);
            assert(in_grid(n as int, pp));
            if !b0[i][j].is_revealed && in_flood(b0, n, start, pp) {
                let path = choose|path: Seq<(usize, usize)>|
                    #[trigger] is_flood_path(b0, n, start, path) && path.last() == pp;
                lemma_flood_path_revealed(b0, b, n, start, path);
            }
        }
        assert(b =~~= fl);
    }
    cleared
}

/// A flood reveal started on a hidden square without a mine reveals that
/// square, so starting it there again changes nothing.
pub proof fn law_flood_reveals_start(b: Seq<Seq<Cell>>, n: usize, start: (usize, usize))
    requires
        is_square(b, n as int),
        in_grid(n as int, start),
        !at(b, start).is_mine,
        !at(b, start).is_revealed,
    ensures
        at(flooded(b, n, start), start).is_revealed,
{
    let path = seq![start];
    assert(is_flood_path(b, n, start, path));
}

/// A flood reveal never reveals a mine, and never touches a mine, a flag or a
/// number.
pub proof fn law_flood_spares_mines(b: Seq<Seq<Cell>>, n: usize, start: (usize, usize))
    requires
        is_square(b, n as int),
    ensures
        is_square(flooded(b, n, start), n as int),
        forall|i: int, j: int|
            0 <= i < n && 0 <= j < n ==> {
                let (x, y) = (b[i][j], #[trigger] flooded(b, n, start)[i][j]);
                &&& y.is_mine == x.is_mine
                &&& y.is_flaged == x.is_flaged
                &&& y.number == x.number
                &&& x.is_revealed ==> y.is_revealed
                &&& (y.is_revealed && !x.is_revealed) ==> !x.is_mine
            },
{
    let fl = flooded(b, n, start);
    assert(is_square(fl, n as int)) by {
        assert forall|i: int| 0 <= i < n implies #[trigger] fl[i].len() == n by {}
    }
    assert forall|i: int, j: int| 0 <= i < n && 0 <= j < n implies {
        let (x, y) = (b[i][j], #[trigger] fl[i][j]);
        (y.is_revealed && !x.is_revealed) ==> !x.is_mine
    } by {
        let q = (i as usize, j as usize);
        if fl[i][j].is_revealed && !b[i][j].is_revealed {
            let path = choose|path: Seq<(usize, usize)>|
                #[trigger] is_flood_path(b, n, start, path) && path.last() == q;
            assert(path[path.len() - 1] == q);
            assert(at(b, q) == b[i][j]);
        }
    }
}

/// The region a flood reveals is closed: every square it reveals whose
/// number is 0 has each hidden, mine-free neighbour revealed as well.
pub proof fn law_flood_closed(
    b: Seq<Seq<Cell>>,
    n: usize,
    start: (usize, usize),
    p: (usize, usize),
    q: (usize, usize),
)
    requires
        is_square(b, n as int),
        in_grid(n as int, p),
        at(flooded(b, n, start), p).is_revealed,
        !at(b, p).is_revealed,
        at(b, p).number == 0,
        neighbor_cells(n, p.0, p.1).contains(q),
        !at(b, q).is_mine,
    ensures
        at(flooded(b, n, start), q).is_revealed,
{
    lemma_neighbor_cells(n, p.0, p.1);
    let path = choose|path: Seq<(usize, usize)>|
        #[trigger] is_flood_path(b, n, start, path) && path.last() == p;
    assert(in_flood(b, n, start, p));
    if !at(b, q).is_revealed {
        let path2 = path.push(q);
        assert(is_flood_path(b, n, start, path2)) by {
            assert forall|i: int| 0 <= i < path2.len() implies {
                &&& in_grid(n as int, #[trigger] path2[i])
                &&& !at(b, path2[i]).is_mine
                &&& !at(b, path2[i]).is_revealed
            } by {
                if i < path.len() {
                    assert(path2[i] == path[i]);
                }
            }
            assert forall|i: int| 0 <= i < path2.len() - 1 implies {
                &&& at(b, #[trigger] path2[i]).number == 0
                &&& neighbor_cells(n, path2[i].0, path2[i].1).contains(path2[i + 1])
            } by {
                if i < path.len() - 1 {
                    assert(path2[i] == path[i]);
                    assert(path2[i + 1] == path[i + 1]);
                } else {
                    assert(path[path.len() - 1] == p);
                    assert(path2[i] == p);
                }
            }
        }
        assert(path2.last() == q);
        assert(in_flood(b, n, start, q));
    }
}

/// The squares a flood reveal adds are all mine-free: the count of revealed
/// mine-free squares grows by exactly as much as the count of hidden squares
/// shrinks.
pub proof fn law_flood_clears_safe_squares(b: Seq<Seq<Cell>>, n: usize, start: (usize, usize))
    requires
        is_square(b, n as int),
    ensures
        board_count(flooded(b, n, start), safe_revealed()) - board_count(b, safe_revealed())
            == board_count(b, hidden()) - board_count(flooded(b, n, start), hidden()),
{
    law_flood_spares_mines(b, n, start);
    let fl = flooded(b, n, start);
    assert forall|i: int, j: int| 0 <= i < fl.len() && 0 <= j < fl[i].len() implies one_if(
        safe_revealed()(#[trigger] fl[i][j]),
    ) - one_if(safe_revealed()(b[i][j])) == one_if(hidden()(b[i][j])) - one_if(
        hidden()(fl[i][j]),
    ) by {}
    lemma_board_count_trade(fl, b, safe_revealed(), hidden());
}

} // verus!
