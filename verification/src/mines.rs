use vstd::prelude::*;
use rand::rngs::ThreadRng;
use crate::cell::{Cell, blank_cell};
use crate::board::{
    at, board_count, board_of, collect_free_squares, free_in_row, free_in_rows, free_squares,
    in_grid, is_square, lemma_board_count_set, lemma_free_squares, mined, set_at, set_cell,
};
use crate::random::random_below;

verus! {

/// An `n` by `n` board of blank squares.
pub open spec fn blank_board(n: int) -> Seq<Seq<Cell>> {
    Seq::new(n as nat, |i: int| Seq::new(n as nat, |j: int| blank_cell()))
}

/// A fresh `n` by `n` grid of blank squares.
pub fn blank_grid(n: usize) -> (grid: Vec<Vec<Cell>>)
    ensures
        board_of(&grid) == blank_board(n as int),
{
    let mut grid: Vec<Vec<Cell>> = Vec::new();
    let mut i: usize = 0;
    while i < n
        invariant
            i <= n,
            grid@.len() == i,
            forall|r: int| 0 <= r < i ==> #[trigger] grid@[r]@ == blank_board(n as int)[r],
        decreases n - i,
    {
        let mut row: Vec<Cell> = Vec::new();
        let mut j: usize = 0;
        while j < n
            invariant
                j <= n,
                row@ == Seq::new(j as nat, |k: int| blank_cell()),
            decreases n - j,
        {
            row.push(Cell::default());
            j = j + 1;
            assert(row@ =~= Seq::new(j as nat, |k: int| blank_cell()));
        }
        assert(row@ =~= blank_board(n as int)[i as int]);
        grid.push(row);
        i = i + 1;
    }
    assert(board_of(&grid) =~~= blank_board(n as int));
    grid
}

/// How `place_mines` may leave square `p`: only a mine may be added, and
/// never on `sel`.
pub open spec fn mine_added_only(
    b0: Seq<Seq<Cell>>,
    b: Seq<Seq<Cell>>,
    sel: (usize, usize),
    p: (usize, usize),
) -> bool {
    let (x, y) = (at(b0, p), at(b, p));
    &&& y.is_revealed == x.is_revealed
    &&& y.is_flaged == x.is_flaged
    &&& y.number == x.number
    &&& x.is_mine ==> y.is_mine
    &&& p == sel ==> y.is_mine == x.is_mine
}

/// Puts a mine on the `k`-th square of the list `free` and takes that
/// square off the list.
pub fn place_drawn_mine(grid: &mut Vec<Vec<Cell>>, free: &mut Vec<(usize, usize)>, k: usize)
    requires
        k < old(free)@.len(),
        old(free)@[k as int].0 < old(grid)@.len(),
        old(free)@[k as int].1 < old(grid)@[old(free)@[k as int].0 as int]@.len(),
    ensures
        final(free)@ == old(free)@.remove(k as int),
        board_of(final(grid)) == set_at(
            board_of(old(grid)),
            old(free)@[k as int],
            Cell { is_mine: true, ..at(board_of(old(grid)), old(free)@[k as int]) },
        ),
{
    let (row, col) = free.remove(k);
    let x = grid[row][col];
    let mined_cell = Cell {
        is_revealed: x.is_revealed,
        is_mine: true,
        is_flaged: x.is_flaged,
        number: x.number,
    };
    set_cell(grid, (row, col), mined_cell);
}

/// Places `count` new mines, each on a square drawn at random from those that
/// have no mine yet and are not `sel`.
pub fn place_mines(
    grid: &mut Vec<Vec<Cell>>,
    n: usize,
    sel: (usize, usize),
    count: usize,
    rng: &mut ThreadRng,
)
    requires
        is_square(board_of(old(grid)), n as int),
        count <= free_squares(board_of(old(grid)), n, sel).len(),
    ensures
        is_square(board_of(final(grid)), n as int),
        board_count(board_of(final(grid)), mined()) == board_count(board_of(old(grid)), mined())
            + count,
        forall|p: (usize, usize)|
            #![trigger at(board_of(final(grid)), p)]
            in_grid(n as int, p) ==> mine_added_only(
                board_of(old(grid)),
                board_of(final(grid)),
                sel,
                p,
            ),
{
    let ghost b0 = board_of(grid);
    let mut free = collect_free_squares(grid, n, sel);
    proof {
        lemma_free_squares(b0, n, sel);
    }
    let mut mines_placed: usize = 0;
    while mines_placed < count
        invariant
            is_square(b0, n as int),
            is_square(board_of(grid), n as int),
            mines_placed <= count,
            count - mines_placed <= free@.len(),
            forall|k: int|
                0 <= k < free@.len() ==> {
                    let p = #[trigger] free@[k];
                    &&& in_grid(n as int, p)
                    &&& !at(board_of(grid), p).is_mine
                    &&& p != sel
                },
            forall|k: int, l: int|
                0 <= k < l < free@.len() ==> #[trigger] free@[k] != #[trigger] free@[l],
            board_count(board_of(grid), mined()) == board_count(b0, mined()) + mines_placed,
            forall|p: (usize, usize)|
                #![trigger at(board_of(grid), p)]
                in_grid(n as int, p) ==> mine_added_only(b0, board_of(grid), sel, p),
        decreases count - mines_placed,
    {
        let ghost b = board_of(grid);
        let ghost f = free@;
        let k = random_below(rng, free.len());
        let ghost p = f[k as int];
        let ghost mined_cell = Cell { is_mine: true, ..at(b, p) };
        place_drawn_mine(grid, &mut free, k);
        mines_placed = mines_placed + 1;
        proof {
            let b1 = board_of(grid);
            lemma_board_count_set(b, p, mined_cell, mined());
            assert forall|q: (usize, usize)| in_grid(n as int, q) && q != p implies #[trigger] at(
                b1,
                q,
            ) == at(b, q) by {
                if q.0 == p.0 {
                    assert(q.1 != p.1);
                }
            }
            assert(is_square(b1, n as int)) by {
                assert forall|i: int| 0 <= i < n implies #[trigger] b1[i].len() == n by {
                    assert(b[i].len() == n);
                }
            }
            assert forall|j: int| 0 <= j < free@.len() implies {
                let q = #[trigger] free@[j];
                &&& in_grid(n as int, q)
                &&& !at(b1, q).is_mine
                &&& q != sel
            } by {
                let jj = if j < k {
                    j
                } else {
                    j + 1
                };
                assert(free@[j] == f[jj]);
                assert(f[jj] != f[k as int]);
                assert(at(b1, f[jj]) == at(b, f[jj]));
            }
            assert forall|j: int, l: int| 0 <= j < l < free@.len() implies #[trigger] free@[j]
                != #[trigger] free@[l] by {
                let jj = if j < k {
                    j
                } else {
                    j + 1
                };
                let ll = if l < k {
                    l
                } else {
                    l + 1
                };
                assert(free@[j] == f[jj] && free@[l] == f[ll]);
            }
            assert forall|q: (usize, usize)| #![trigger at(b1, q)] in_grid(n as int, q) implies mine_added_only(
                b0,
                b1,
                sel,
                q,
            ) by {
                assert(at(b, q) == at(b, q));
                assert(at(b, p) == at(b, p));
            }
        }
    }
}

proof fn lemma_free_in_blank_row(n: usize, sel: (usize, usize), r: usize, c: nat)
    requires
        r < n,
        c <= n,
        sel.0 >= n,
    ensures
        free_in_row(blank_board(n as int), sel, r, c).len() == c,
    decreases c,
{
    if c > 0 {
        lemma_free_in_blank_row(n, sel, r, (c - 1) as nat);
    }
}

proof fn lemma_free_in_blank_rows(n: usize, sel: (usize, usize), r: nat)
    requires
        r <= n,
        sel.0 >= n,
    ensures
        free_in_rows(blank_board(n as int), n, sel, r).len() == r * n,
    decreases r,
{
    if r > 0 {
        lemma_free_in_blank_rows(n, sel, (r - 1) as nat);
        lemma_free_in_blank_row(n, sel, (r - 1) as usize, n as nat);
        assert(free_in_rows(blank_board(n as int), n, sel, r) == free_in_rows(
            blank_board(n as int),
            n,
            sel,
            (r - 1) as nat,
        ) + free_in_row(blank_board(n as int), sel, (r - 1) as usize, n as nat));
        let rm: int = r - 1;
        assert(free_in_rows(blank_board(n as int), n, sel, (r - 1) as nat).len() == rm * n);
        assert(free_in_row(blank_board(n as int), sel, (r - 1) as usize, n as nat).len() == n);
        assert(rm * n + n == r * n) by (nonlinear_arith)
            requires
                rm == r - 1,
        ;
    } else {
        assert(r * n == 0) by (nonlinear_arith)
            requires
                r == 0,
        ;
    }
}

/// On a blank board every square can take a mine when `sel` lies off the board.
pub proof fn lemma_free_in_blank(n: usize, sel: (usize, usize))
    requires
        sel.0 >= n,
    ensures
        free_squares(blank_board(n as int), n, sel).len() == n * n,
{
    lemma_free_in_blank_rows(n, sel, n as nat);
}

} // verus!
