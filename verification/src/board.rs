use vstd::prelude::*;
use crate::cell::Cell;

verus! {

/// The contents of a grid as a sequence of rows.
pub open spec fn board_of(grid: &Vec<Vec<Cell>>) -> Seq<Seq<Cell>> {
    grid@.map_values(|row: Vec<Cell>| row@)
}

/// The board has `n` rows of `n` squares each.
pub open spec fn is_square(b: Seq<Seq<Cell>>, n: int) -> bool {
    &&& b.len() == n
    &&& forall|i: int| 0 <= i < n ==> #[trigger] b[i].len() == n
}

pub open spec fn in_grid(n: int, p: (usize, usize)) -> bool {
    p.0 < n && p.1 < n
}

/// The square at position `p` (row, column).
pub open spec fn at(b: Seq<Seq<Cell>>, p: (usize, usize)) -> Cell {
    b[p.0 as int][p.1 as int]
}

/// The board with the square at `p` replaced by `c`.
pub open spec fn set_at(b: Seq<Seq<Cell>>, p: (usize, usize), c: Cell) -> Seq<Seq<Cell>> {
    b.update(p.0 as int, b[p.0 as int].update(p.1 as int, c))
}

/// The `k`-th of the nine offsets (-1..=1) x (-1..=1), rows first.
pub open spec fn offset(k: int) -> (int, int) {
    (k / 3 - 1, k % 3 - 1)
}

/// The neighbours of `(r, c)` on an `n` by `n` board that the first `k` of the
/// nine offsets produce: the centre itself and squares off the board are skipped.
pub open spec fn neighbors_upto(n: usize, r: usize, c: usize, k: nat) -> Seq<(usize, usize)>
    decreases k,
{
    if k == 0 {
        Seq::empty()
    } else {
        let prev = neighbors_upto(n, r, c, (k - 1) as nat);
        let (dr, dc) = offset(k - 1);
        let (nr, nc) = (r + dr, c + dc);
        if (dr != 0 || dc != 0) && 0 <= nr < n && 0 <= nc < n {
            prev.push((nr as usize, nc as usize))
        } else {
            prev
        }
    }
}

/// The neighbours of `(r, c)` on an `n` by `n` board, in row-major order.
pub open spec fn neighbor_cells(n: usize, r: usize, c: usize) -> Seq<(usize, usize)> {
    neighbors_upto(n, r, c, 9)
}

/// Two positions touch: distinct, and at most one apart in each direction.
pub open spec fn adjacent(p: (usize, usize), q: (usize, usize)) -> bool {
    &&& p != q
    &&& p.0 <= q.0 + 1 && q.0 <= p.0 + 1
    &&& p.1 <= q.1 + 1 && q.1 <= p.1 + 1
}

/// Row-major order on positions.
pub open spec fn before(p: (usize, usize), q: (usize, usize)) -> bool {
    p.0 < q.0 || (p.0 == q.0 && p.1 < q.1)
}

spec fn window_index(r: usize, c: usize, q: (usize, usize)) -> int {
    (q.0 - r + 1) * 3 + (q.1 - c + 1)
}

proof fn lemma_neighbors_upto(n: usize, r: usize, c: usize, k: nat)
    requires
        k <= 9,
    ensures
        neighbors_upto(n, r, c, k).len() <= k,
        k >= 5 ==> neighbors_upto(n, r, c, k).len() < k,
        forall|i: int|
            0 <= i < neighbors_upto(n, r, c, k).len() ==> {
                let q = #[trigger] neighbors_upto(n, r, c, k)[i];
                &&& in_grid(n as int, q)
                &&& adjacent((r, c), q)
                &&& 0 <= window_index(r, c, q) < k
            },
        forall|i: int, j: int|
            0 <= i < j < neighbors_upto(n, r, c, k).len() ==> window_index(
                r,
                c,
                #[trigger] neighbors_upto(n, r, c, k)[i],
            ) < window_index(r, c, #[trigger] neighbors_upto(n, r, c, k)[j]),
        forall|q: (usize, usize)|
            in_grid(n as int, q) && adjacent((r, c), q) && window_index(r, c, q) < k
                ==> #[trigger] neighbors_upto(n, r, c, k).contains(q),
    decreases k,
{
    if k > 0 {
        lemma_neighbors_upto(n, r, c, (k - 1) as nat);
        let prev = neighbors_upto(n, r, c, (k - 1) as nat);
        let cur = neighbors_upto(n, r, c, k);
        let (dr, dc) = offset(k - 1);
        if k == 5 {
            assert(offset(4) == (0int, 0int));
        }
        if (dr != 0 || dc != 0) && 0 <= r + dr < n && 0 <= c + dc < n {
            let q = ((r + dr) as usize, (c + dc) as usize);
            assert(cur == prev.push(q));
            assert(window_index(r, c, q) == k - 1);
            assert forall|x: (usize, usize)|
                in_grid(n as int, x) && adjacent((r, c), x) && window_index(r, c, x) < k
                    implies #[trigger] cur.contains(x) by {
                if window_index(r, c, x) < k - 1 {
                    assert(prev.contains(x));
                    let i = choose|i: int| 0 <= i < prev.len() && prev[i] == x;
                    assert(cur[i] == x);
                } else {
                    assert(cur[prev.len() as int] == x);
                }
            }
        } else {
            assert(cur == prev);
            assert forall|x: (usize, usize)|
                in_grid(n as int, x) && adjacent((r, c), x) && window_index(r, c, x) < k
                    implies #[trigger] cur.contains(x) by {
                if window_index(r, c, x) == k - 1 {
                    assert(offset(k - 1) == (x.0 - r, x.1 - c));
                }
            }
        }
    }
}

/// What the neighbour list holds: exactly the squares on the board that touch
/// `(r, c)`, each once, in row-major order, and at most eight of them.
pub proof fn lemma_neighbor_cells(n: usize, r: usize, c: usize)
    ensures
        neighbor_cells(n, r, c).len() <= 8,
        forall|q: (usize, usize)|
            #[trigger] neighbor_cells(n, r, c).contains(q) <==> (in_grid(n as int, q) && adjacent(
                (r, c),
                q,
            )),
        forall|i: int, j: int|
            0 <= i < j < neighbor_cells(n, r, c).len() ==> before(
                #[trigger] neighbor_cells(n, r, c)[i],
                #[trigger] neighbor_cells(n, r, c)[j],
            ),
{
    lemma_neighbors_upto(n, r, c, 9);
    let s = neighbor_cells(n, r, c);
    assert forall|q: (usize, usize)| #[trigger] s.contains(q) implies (in_grid(n as int, q)
        && adjacent((r, c), q)) by {
        let i = choose|i: int| 0 <= i < s.len() && s[i] == q;
        assert(in_grid(n as int, s[i]));
    }
}

/// The positions on an `n` by `n` board that touch `(row, col)`, in row-major
/// order. The arithmetic is done in `i32`, so the sizes must fit there.
pub fn grid_neighbors(n: usize, row: usize, col: usize) -> (result: Vec<(usize, usize)>)
    requires
        n <= i32::MAX,
        row < i32::MAX,
        col < i32::MAX,
    ensures
        result@ == neighbor_cells(n, row, col),
{
    let mut result: Vec<(usize, usize)> = Vec::with_capacity(8);
    let mut row_diff: i32 = -1;
    while row_diff <= 1
        invariant
            -1 <= row_diff <= 2,
            n <= i32::MAX,
            row < i32::MAX,
            col < i32::MAX,
            result@ == neighbors_upto(n, row, col, ((row_diff + 1) * 3) as nat),
        decreases 2 - row_diff,
    {
        let mut col_diff: i32 = -1;
        while col_diff <= 1
            invariant
                -1 <= row_diff <= 1,
                -1 <= col_diff <= 2,
                n <= i32::MAX,
                row < i32::MAX,
                col < i32::MAX,
                result@ == neighbors_upto(n, row, col, ((row_diff + 1) * 3 + col_diff + 1) as nat),
            decreases 2 - col_diff,
        {
            let ghost k: int = (row_diff + 1) * 3 + col_diff + 1;
            assert(offset(k) == (row_diff as int, col_diff as int));
            if row_diff == 0 && col_diff == 0 {
                col_diff = col_diff + 1;
                continue;
            }
            let new_row: i32 = row as i32 + row_diff;
            let new_col: i32 = col as i32 + col_diff;
            if new_row >= 0 && new_row < n as i32 && new_col >= 0 && new_col < n as i32 {
                result.push((new_row as usize, new_col as usize));
            }
            col_diff = col_diff + 1;
        }
        row_diff = row_diff + 1;
    }
    result
}

/// Number of squares of a row for which `f` holds.
pub open spec fn row_count(row: Seq<Cell>, f: spec_fn(Cell) -> bool) -> nat
    decreases row.len(),
{
    if row.len() == 0 {
        0
    } else {
        row_count(row.drop_last(), f) + if f(row.last()) {
            1nat
        } else {
            0nat
        }
    }
}

/// Number of squares of a board for which `f` holds.
pub open spec fn board_count(b: Seq<Seq<Cell>>, f: spec_fn(Cell) -> bool) -> nat
    decreases b.len(),
{
    if b.len() == 0 {
        0
    } else {
        board_count(b.drop_last(), f) + row_count(b.last(), f)
    }
}

/// Squares not yet revealed.
pub open spec fn hidden() -> spec_fn(Cell) -> bool {
    |x: Cell| !x.is_revealed
}

/// Squares carrying a flag.
pub open spec fn flagged() -> spec_fn(Cell) -> bool {
    |x: Cell| x.is_flaged
}

/// Squares holding a mine.
pub open spec fn mined() -> spec_fn(Cell) -> bool {
    |x: Cell| x.is_mine
}

pub open spec fn one_if(b: bool) -> int {
    if b {
        1
    } else {
        0
    }
}

pub proof fn lemma_row_count_update(row: Seq<Cell>, j: int, x: Cell, f: spec_fn(Cell) -> bool)
    requires
        0 <= j < row.len(),
    ensures
        row_count(row.update(j, x), f) + one_if(f(row[j])) == row_count(row, f) + one_if(f(x)),
    decreases row.len(),
{
    let u = row.update(j, x);
    if j == row.len() - 1 {
        assert(u.drop_last() =~= row.drop_last());
    } else {
        assert(u.drop_last() =~= row.drop_last().update(j, x));
        lemma_row_count_update(row.drop_last(), j, x, f);
    }
}

pub proof fn lemma_board_count_update(
    b: Seq<Seq<Cell>>,
    i: int,
    row: Seq<Cell>,
    f: spec_fn(Cell) -> bool,
)
    requires
        0 <= i < b.len(),
    ensures
        board_count(b.update(i, row), f) + row_count(b[i], f) == board_count(b, f) + row_count(
            row,
            f,
        ),
    decreases b.len(),
{
    let u = b.update(i, row);
    if i == b.len() - 1 {
        assert(u.drop_last() =~= b.drop_last());
    } else {
        assert(u.drop_last() =~= b.drop_last().update(i, row));
        lemma_board_count_update(b.drop_last(), i, row, f);
    }
}

/// Replacing one square changes a count by at most that square.
pub proof fn lemma_board_count_set(
    b: Seq<Seq<Cell>>,
    p: (usize, usize),
    x: Cell,
    f: spec_fn(Cell) -> bool,
)
    requires
        p.0 < b.len(),
        p.1 < b[p.0 as int].len(),
    ensures
        board_count(set_at(b, p, x), f) + one_if(f(at(b, p))) == board_count(b, f) + one_if(
            f(x),
        ),
{
    lemma_row_count_update(b[p.0 as int], p.1 as int, x, f);
    lemma_board_count_update(b, p.0 as int, b[p.0 as int].update(p.1 as int, x), f);
}

pub proof fn lemma_row_count_bound(row: Seq<Cell>, f: spec_fn(Cell) -> bool)
    ensures
        row_count(row, f) <= row.len(),
        (forall|j: int| 0 <= j < row.len() ==> f(#[trigger] row[j])) ==> row_count(row, f)
            == row.len(),
        (forall|j: int| 0 <= j < row.len() ==> !f(#[trigger] row[j])) ==> row_count(row, f)
            == 0,
    decreases row.len(),
{
    if row.len() > 0 {
        lemma_row_count_bound(row.drop_last(), f);
        if forall|j: int| 0 <= j < row.len() ==> !f(#[trigger] row[j]) {
            assert(!f(row[row.len() - 1]));
            assert forall|j: int| 0 <= j < row.drop_last().len() implies !f(
                #[trigger] row.drop_last()[j],
            ) by {
                assert(row.drop_last()[j] == row[j]);
            }
        }
        if forall|j: int| 0 <= j < row.len() ==> f(#[trigger] row[j]) {
            assert(f(row[row.len() - 1]));
            assert forall|j: int| 0 <= j < row.drop_last().len() implies f(
                #[trigger] row.drop_last()[j],
            ) by {
                assert(row.drop_last()[j] == row[j]);
            }
        }
    }
}

pub proof fn lemma_board_count_bound(b: Seq<Seq<Cell>>, f: spec_fn(Cell) -> bool, n: int)
    requires
        0 <= n,
        forall|i: int| 0 <= i < b.len() ==> #[trigger] b[i].len() == n,
    ensures
        board_count(b, f) <= b.len() * n,
        (forall|i: int, j: int| 0 <= i < b.len() && 0 <= j < n ==> f(#[trigger] b[i][j]))
            ==> board_count(b, f) == b.len() * n,
        (forall|i: int, j: int| 0 <= i < b.len() && 0 <= j < n ==> !f(#[trigger] b[i][j]))
            ==> board_count(b, f) == 0,
    decreases b.len(),
{
    if b.len() > 0 {
        let d = b.drop_last();
        assert forall|i: int| 0 <= i < d.len() implies #[trigger] d[i].len() == n by {
            assert(d[i] == b[i]);
        }
        lemma_board_count_bound(d, f, n);
        lemma_row_count_bound(b.last(), f);
        assert(b.len() * n == d.len() * n + n) by (nonlinear_arith)
            requires
                d.len() == b.len() - 1,
        ;
        if forall|i: int, j: int| 0 <= i < b.len() && 0 <= j < n ==> f(#[trigger] b[i][j]) {
            assert forall|i: int, j: int| 0 <= i < d.len() && 0 <= j < n implies f(
                #[trigger] d[i][j],
            ) by {
                assert(d[i] == b[i]);
            }
            assert forall|j: int| 0 <= j < b.last().len() implies f(#[trigger] b.last()[j]) by {
                assert(b.last() == b[b.len() - 1]);
            }
        }
        if forall|i: int, j: int| 0 <= i < b.len() && 0 <= j < n ==> !f(#[trigger] b[i][j]) {
            assert forall|i: int, j: int| 0 <= i < d.len() && 0 <= j < n implies !f(
                #[trigger] d[i][j],
            ) by {
                assert(d[i] == b[i]);
            }
            assert forall|j: int| 0 <= j < b.last().len() implies !f(#[trigger] b.last()[j]) by {
                assert(b.last() == b[b.len() - 1]);
            }
        }
    }
}

/// Writes `x` into the square at `p`.
pub fn set_cell(grid: &mut Vec<Vec<Cell>>, p: (usize, usize), x: Cell)
    requires
        p.0 < old(grid)@.len(),
        p.1 < old(grid)@[p.0 as int]@.len(),
    ensures
        board_of(final(grid)) == set_at(board_of(old(grid)), p, x),
{
    grid[p.0][p.1] = x;
    proof {
        assert(board_of(grid) =~= set_at(board_of(old(grid)), p, x));
    }
}

/// Number of the listed positions that hold a mine.
pub open spec fn mines_among(b: Seq<Seq<Cell>>, cells: Seq<(usize, usize)>) -> nat
    decreases cells.len(),
{
    if cells.len() == 0 {
        0
    } else {
        mines_among(b, cells.drop_last()) + one_if(at(b, cells.last()).is_mine) as nat
    }
}

/// Number of mines that touch `(r, c)` on an `n` by `n` board.
pub open spec fn mine_neighbors(b: Seq<Seq<Cell>>, n: usize, r: usize, c: usize) -> nat {
    mines_among(b, neighbor_cells(n, r, c))
}

/// The square at `(r, c)` once numbered: a mine is left alone, any other square
/// gets the number of mines that touch it.
pub open spec fn numbered_cell(b: Seq<Seq<Cell>>, n: usize, r: usize, c: usize) -> Cell {
    let x = b[r as int][c as int];
    if x.is_mine {
        x
    } else {
        Cell {
            is_revealed: x.is_revealed,
            is_mine: x.is_mine,
            is_flaged: x.is_flaged,
            number: mine_neighbors(b, n, r, c) as u8,
        }
    }
}

/// The board with every square numbered.
pub open spec fn numbered(b: Seq<Seq<Cell>>, n: usize) -> Seq<Seq<Cell>> {
    Seq::new(
        b.len(),
        |i: int| Seq::new(b[i].len(), |j: int| numbered_cell(b, n, i as usize, j as usize)),
    )
}

/// Two boards of the same shape that agree on where the mines are.
pub open spec fn same_mines(a: Seq<Seq<Cell>>, b: Seq<Seq<Cell>>, n: usize) -> bool {
    &&& is_square(a, n as int)
    &&& is_square(b, n as int)
    &&& forall|i: int, j: int| 0 <= i < n && 0 <= j < n ==> #[trigger] a[i][j].is_mine == b[i][j].is_mine
}

pub proof fn lemma_mines_among_same(
    a: Seq<Seq<Cell>>,
    b: Seq<Seq<Cell>>,
    n: usize,
    cells: Seq<(usize, usize)>,
)
    requires
        same_mines(a, b, n),
        forall|k: int| 0 <= k < cells.len() ==> in_grid(n as int, #[trigger] cells[k]),
    ensures
        mines_among(a, cells) == mines_among(b, cells),
    decreases cells.len(),
{
    if cells.len() > 0 {
        let d = cells.drop_last();
        assert forall|k: int| 0 <= k < d.len() implies in_grid(n as int, #[trigger] d[k]) by {
            assert(d[k] == cells[k]);
        }
        lemma_mines_among_same(a, b, n, d);
        let q = cells.last();
        assert(in_grid(n as int, cells[cells.len() - 1]));
        assert(a[q.0 as int][q.1 as int].is_mine == b[q.0 as int][q.1 as int].is_mine);
    }
}

/// Counts the mines at the listed positions.
fn count_mines(grid: &Vec<Vec<Cell>>, n: usize, cells: &Vec<(usize, usize)>) -> (count: usize)
    requires
        is_square(board_of(grid), n as int),
        cells@.len() <= 8,
        forall|k: int| 0 <= k < cells@.len() ==> in_grid(n as int, #[trigger] cells@[k]),
    ensures
        count == mines_among(board_of(grid), cells@),
        count <= 8,
{
    let ghost b = board_of(grid);
    let mut count: usize = 0;
    let mut k: usize = 0;
    while k < cells.len()
        invariant
            b == board_of(grid),
            is_square(b, n as int),
            cells@.len() <= 8,
            forall|k: int| 0 <= k < cells@.len() ==> in_grid(n as int, #[trigger] cells@[k]),
            k <= cells@.len(),
            count == mines_among(b, cells@.take(k as int)),
            count <= k,
        decreases cells@.len() - k,
    {
        let (r, c) = cells[k];
        assert(in_grid(n as int, cells@[k as int]));
        assert(b[r as int] == grid@[r as int]@);
        assert(cells@.take(k + 1).drop_last() =~= cells@.take(k as int));
        if grid[r][c].is_mine {
            count = count + 1;
        }
        k = k + 1;
    }
    assert(cells@.take(k as int) =~= cells@);
    count
}

/// Gives every square that is not a mine the number of mines that touch it.
pub fn number_cells(grid: &mut Vec<Vec<Cell>>, n: usize)
    requires
        is_square(board_of(old(grid)), n as int),
        n <= i32::MAX,
    ensures
        board_of(final(grid)) == numbered(board_of(old(grid)), n),
{
    let ghost b0 = board_of(grid);
    let mut row: usize = 0;
    while row < n
        invariant
            0 <= row <= n,
            n <= i32::MAX,
            is_square(b0, n as int),
            same_mines(board_of(grid), b0, n),
            forall|i: int, j: int|
                0 <= i < n && 0 <= j < n ==> #[trigger] board_of(grid)[i][j] == if i < row {
                    numbered(b0, n)[i][j]
                } else {
                    b0[i][j]
                },
        decreases n - row,
    {
        let mut col: usize = 0;
        while col < n
            invariant
                0 <= row < n,
                0 <= col <= n,
                n <= i32::MAX,
                is_square(b0, n as int),
                same_mines(board_of(grid), b0, n),
                forall|i: int, j: int|
                    0 <= i < n && 0 <= j < n ==> #[trigger] board_of(grid)[i][j] == if i < row
                        || (i == row && j < col) {
                        numbered(b0, n)[i][j]
                    } else {
                        b0[i][j]
                    },
            decreases n - col,
        {
            let ghost b = board_of(grid);
            assert(b[row as int][col as int] == grid@[row as int]@[col as int]);
            if grid[row][col].is_mine {
                col = col + 1;
                continue;
            }
            let nbrs = grid_neighbors(n, row, col);
            proof {
                lemma_neighbor_cells(n, row, col);
                assert forall|k: int| 0 <= k < nbrs@.len() implies in_grid(
                    n as int,
                    #[trigger] nbrs@[k],
                ) by {
                    assert(nbrs@.contains(nbrs@[k]));
                }
                lemma_mines_among_same(b, b0, n, nbrs@);
            }
            let mine_count = count_mines(grid, n, &nbrs);
            let x = grid[row][col];
            set_cell(
                grid,
                (row, col),
                Cell {
                    is_revealed: x.is_revealed,
                    is_mine: x.is_mine,
                    is_flaged: x.is_flaged,
                    number: mine_count as u8,
                },
            );
            col = col + 1;
        }
        row = row + 1;
    }
    proof {
        assert(board_of(grid) =~~= numbered(b0, n));
    }
}

/// Two boards of the same shape on which `f` holds of the same squares have
/// the same count.
pub proof fn lemma_board_count_agree(a: Seq<Seq<Cell>>, b: Seq<Seq<Cell>>, f: spec_fn(Cell) -> bool)
    requires
        a.len() == b.len(),
        forall|i: int| 0 <= i < a.len() ==> #[trigger] a[i].len() == b[i].len(),
        forall|i: int, j: int|
            0 <= i < a.len() && 0 <= j < a[i].len() ==> f(#[trigger] a[i][j]) == f(b[i][j]),
    ensures
        board_count(a, f) == board_count(b, f),
    decreases a.len(),
{
    if a.len() > 0 {
        let (da, db) = (a.drop_last(), b.drop_last());
        assert forall|i: int| 0 <= i < da.len() implies #[trigger] da[i].len() == db[i].len() by {
            assert(da[i] == a[i] && db[i] == b[i]);
        }
        assert forall|i: int, j: int| 0 <= i < da.len() && 0 <= j < da[i].len() implies f(
            #[trigger] da[i][j],
        ) == f(db[i][j]) by {
            assert(da[i] == a[i] && db[i] == b[i]);
        }
        lemma_board_count_agree(da, db, f);
        lemma_row_count_agree(a.last(), b.last(), f);
    }
}

proof fn lemma_row_count_agree(a: Seq<Cell>, b: Seq<Cell>, f: spec_fn(Cell) -> bool)
    requires
        a.len() == b.len(),
        forall|j: int| 0 <= j < a.len() ==> f(#[trigger] a[j]) == f(b[j]),
    ensures
        row_count(a, f) == row_count(b, f),
    decreases a.len(),
{
    if a.len() > 0 {
        let (da, db) = (a.drop_last(), b.drop_last());
        assert forall|j: int| 0 <= j < da.len() implies f(#[trigger] da[j]) == f(db[j]) by {
            assert(da[j] == a[j] && db[j] == b[j]);
        }
        lemma_row_count_agree(da, db, f);
        assert(f(a[a.len() - 1]) == f(b[b.len() - 1]));
    }
}

/// A square where a new mine may go: on the board, free of mines, and not
/// the square `sel` that was just chosen.
pub open spec fn can_hold_mine(b: Seq<Seq<Cell>>, sel: (usize, usize), p: (usize, usize)) -> bool {
    !at(b, p).is_mine && p != sel
}

/// The squares of the first `c` columns of row `r` that can hold a new mine,
/// left to right.
pub open spec fn free_in_row(b: Seq<Seq<Cell>>, sel: (usize, usize), r: usize, c: nat) -> Seq<
    (usize, usize),
>
    decreases c,
{
    if c == 0 {
        Seq::empty()
    } else {
        let prev = free_in_row(b, sel, r, (c - 1) as nat);
        let p = (r, (c - 1) as usize);
        if can_hold_mine(b, sel, p) {
            prev.push(p)
        } else {
            prev
        }
    }
}

/// The squares of the first `r` rows of an `n` by `n` board that can hold a
/// new mine, in row-major order.
pub open spec fn free_in_rows(b: Seq<Seq<Cell>>, n: usize, sel: (usize, usize), r: nat) -> Seq<
    (usize, usize),
>
    decreases r,
{
    if r == 0 {
        Seq::empty()
    } else {
        free_in_rows(b, n, sel, (r - 1) as nat) + free_in_row(b, sel, (r - 1) as usize, n as nat)
    }
}

/// All squares of an `n` by `n` board that can hold a new mine, in row-major order.
pub open spec fn free_squares(b: Seq<Seq<Cell>>, n: usize, sel: (usize, usize)) -> Seq<
    (usize, usize),
> {
    free_in_rows(b, n, sel, n as nat)
}

/// Lists, in row-major order, the squares of an `n` by `n` board without a
/// mine other than `sel`.
pub fn collect_free_squares(grid: &Vec<Vec<Cell>>, n: usize, sel: (usize, usize)) -> (free: Vec<
    (usize, usize),
>)
    requires
        is_square(board_of(grid), n as int),
    ensures
        free@ == free_squares(board_of(grid), n, sel),
{
    let ghost b = board_of(grid);
    let mut free: Vec<(usize, usize)> = Vec::new();
    let mut row: usize = 0;
    while row < n
        invariant
            b == board_of(grid),
            is_square(b, n as int),
            row <= n,
            free@ == free_in_rows(b, n, sel, row as nat),
        decreases n - row,
    {
        let ghost before = free@;
        let mut col: usize = 0;
        while col < n
            invariant
                b == board_of(grid),
                is_square(b, n as int),
                row < n,
                col <= n,
                free@ == before + free_in_row(b, sel, row, col as nat),
            decreases n - col,
        {
            assert(b[row as int] == grid@[row as int]@);
            if !grid[row][col].is_mine && !(row == sel.0 && col == sel.1) {
                free.push((row, col));
            }
            col = col + 1;
        }
        row = row + 1;
    }
    free
}

proof fn lemma_free_in_row(b: Seq<Seq<Cell>>, sel: (usize, usize), r: usize, c: nat)
    requires
        c <= usize::MAX + 1,
    ensures
        forall|k: int|
            0 <= k < free_in_row(b, sel, r, c).len() ==> {
                let p = #[trigger] free_in_row(b, sel, r, c)[k];
                &&& p.0 == r
                &&& p.1 < c
                &&& can_hold_mine(b, sel, p)
            },
        forall|k: int, l: int|
            0 <= k < l < free_in_row(b, sel, r, c).len() ==> (#[trigger] free_in_row(
                b,
                sel,
                r,
                c,
            )[k]).1 < (#[trigger] free_in_row(b, sel, r, c)[l]).1,
    decreases c,
{
    if c > 0 {
        lemma_free_in_row(b, sel, r, (c - 1) as nat);
        let prev = free_in_row(b, sel, r, (c - 1) as nat);
        let s = free_in_row(b, sel, r, c);
        let p = (r, (c - 1) as usize);
        if can_hold_mine(b, sel, p) {
            assert(s == prev.push(p));
            assert forall|k: int| 0 <= k < s.len() implies {
                let q = #[trigger] s[k];
                &&& q.0 == r
                &&& q.1 < c
                &&& can_hold_mine(b, sel, q)
            } by {
                if k < prev.len() {
                    assert(s[k] == prev[k]);
                }
            }
            assert forall|k: int, l: int| 0 <= k < l < s.len() implies (#[trigger] s[k]).1 < (
            #[trigger] s[l]).1 by {
                assert(s[k] == prev[k]);
                if l < prev.len() {
                    assert(s[l] == prev[l]);
                }
            }
        } else {
            assert(s == prev);
        }
    }
}

/// The free squares lie on the board, can hold a mine, and are listed once each.
pub proof fn lemma_free_squares(b: Seq<Seq<Cell>>, n: usize, sel: (usize, usize))
    ensures
        forall|k: int|
            0 <= k < free_squares(b, n, sel).len() ==> {
                let p = #[trigger] free_squares(b, n, sel)[k];
                &&& in_grid(n as int, p)
                &&& can_hold_mine(b, sel, p)
            },
        forall|k: int, l: int|
            0 <= k < l < free_squares(b, n, sel).len() ==> before(
                #[trigger] free_squares(b, n, sel)[k],
                #[trigger] free_squares(b, n, sel)[l],
            ),
{
    lemma_free_in_rows(b, n, sel, n as nat);
}

proof fn lemma_free_in_rows(b: Seq<Seq<Cell>>, n: usize, sel: (usize, usize), r: nat)
    requires
        r <= n,
    ensures
        forall|k: int|
            0 <= k < free_in_rows(b, n, sel, r).len() ==> {
                let p = #[trigger] free_in_rows(b, n, sel, r)[k];
                &&& p.0 < r
                &&& in_grid(n as int, p)
                &&& can_hold_mine(b, sel, p)
            },
        forall|k: int, l: int|
            0 <= k < l < free_in_rows(b, n, sel, r).len() ==> before(
                #[trigger] free_in_rows(b, n, sel, r)[k],
                #[trigger] free_in_rows(b, n, sel, r)[l],
            ),
    decreases r,
{
    if r > 0 {
        lemma_free_in_rows(b, n, sel, (r - 1) as nat);
        lemma_free_in_row(b, sel, (r - 1) as usize, n as nat);
        let a = free_in_rows(b, n, sel, (r - 1) as nat);
        let c = free_in_row(b, sel, (r - 1) as usize, n as nat);
        let s = free_in_rows(b, n, sel, r);
        assert(s == a + c);
        assert forall|k: int| 0 <= k < s.len() implies {
            let p = #[trigger] s[k];
            &&& p.0 < r
            &&& in_grid(n as int, p)
            &&& can_hold_mine(b, sel, p)
        } by {
            if k < a.len() {
                assert(s[k] == a[k]);
            } else {
                assert(s[k] == c[k - a.len()]);
            }
        }
        assert forall|k: int, l: int| 0 <= k < l < s.len() implies before(
            #[trigger] s[k],
            #[trigger] s[l],
        ) by {
            if l < a.len() {
                assert(s[k] == a[k] && s[l] == a[l]);
            } else if k < a.len() {
                assert(s[k] == a[k] && s[l] == c[l - a.len()]);
            } else {
                assert(s[k] == c[k - a.len()] && s[l] == c[l - a.len()]);
            }
        }
    }
}

/// Numbering a board that is already numbered changes nothing: the numbers
/// depend on the mines alone, and numbering leaves the mines where they are.
pub proof fn lemma_numbered_idempotent(b: Seq<Seq<Cell>>, n: usize)
    requires
        is_square(b, n as int),
    ensures
        numbered(numbered(b, n), n) == numbered(b, n),
        is_square(numbered(b, n), n as int),
{
    let m = numbered(b, n);
    assert(is_square(m, n as int)) by {
        assert forall|i: int| 0 <= i < n implies #[trigger] m[i].len() == n by {}
    }
    assert(same_mines(m, b, n)) by {
        assert forall|i: int, j: int| 0 <= i < n && 0 <= j < n implies #[trigger] m[i][j].is_mine
            == b[i][j].is_mine by {}
    }
    assert forall|i: int, j: int| 0 <= i < n && 0 <= j < n implies #[trigger] numbered(m, n)[i][j]
        == m[i][j] by {
        let (r, c) = (i as usize, j as usize);
        lemma_neighbor_cells(n, r, c);
        assert forall|k: int| 0 <= k < neighbor_cells(n, r, c).len() implies in_grid(
            n as int,
            #[trigger] neighbor_cells(n, r, c)[k],
        ) by {
            assert(neighbor_cells(n, r, c).contains(neighbor_cells(n, r, c)[k]));
        }
        lemma_mines_among_same(m, b, n, neighbor_cells(n, r, c));
    }
    assert(numbered(m, n) =~~= m);
}

/// Squares revealed that hold no mine.
pub open spec fn safe_revealed() -> spec_fn(Cell) -> bool {
    |x: Cell| x.is_revealed && !x.is_mine
}

proof fn lemma_row_count_trade(
    a: Seq<Cell>,
    b: Seq<Cell>,
    f: spec_fn(Cell) -> bool,
    g: spec_fn(Cell) -> bool,
)
    requires
        a.len() == b.len(),
        forall|j: int|
            0 <= j < a.len() ==> one_if(f(#[trigger] a[j])) - one_if(f(b[j])) == one_if(g(b[j]))
                - one_if(g(a[j])),
    ensures
        row_count(a, f) - row_count(b, f) == row_count(b, g) - row_count(a, g),
    decreases a.len(),
{
    if a.len() > 0 {
        let (da, db) = (a.drop_last(), b.drop_last());
        assert forall|j: int| 0 <= j < da.len() implies one_if(f(#[trigger] da[j])) - one_if(
            f(db[j]),
        ) == one_if(g(db[j])) - one_if(g(da[j])) by {
            assert(da[j] == a[j] && db[j] == b[j]);
        }
        lemma_row_count_trade(da, db, f, g);
        assert(one_if(f(a[a.len() - 1])) - one_if(f(b[b.len() - 1])) == one_if(g(b[b.len() - 1]))
            - one_if(g(a[a.len() - 1])));
    }
}

/// When every square gains under `f` exactly what it loses under `g`, the
/// whole board does too.
pub proof fn lemma_board_count_trade(
    a: Seq<Seq<Cell>>,
    b: Seq<Seq<Cell>>,
    f: spec_fn(Cell) -> bool,
    g: spec_fn(Cell) -> bool,
)
    requires
        a.len() == b.len(),
        forall|i: int| 0 <= i < a.len() ==> #[trigger] a[i].len() == b[i].len(),
        forall|i: int, j: int|
            0 <= i < a.len() && 0 <= j < a[i].len() ==> one_if(f(#[trigger] a[i][j])) - one_if(
                f(b[i][j]),
            ) == one_if(g(b[i][j])) - one_if(g(a[i][j])),
    ensures
        board_count(a, f) - board_count(b, f) == board_count(b, g) - board_count(a, g),
    decreases a.len(),
{
    if a.len() > 0 {
        let (da, db) = (a.drop_last(), b.drop_last());
        assert forall|i: int| 0 <= i < da.len() implies #[trigger] da[i].len() == db[i].len() by {
            assert(da[i] == a[i] && db[i] == b[i]);
        }
        assert forall|i: int, j: int| 0 <= i < da.len() && 0 <= j < da[i].len() implies one_if(
            f(#[trigger] da[i][j]),
        ) - one_if(f(db[i][j])) == one_if(g(db[i][j])) - one_if(g(da[i][j])) by {
            assert(da[i] == a[i] && db[i] == b[i]);
        }
        lemma_board_count_trade(da, db, f, g);
        let (la, lb) = (a.last(), b.last());
        assert(la == a[a.len() - 1] && lb == b[b.len() - 1]);
        assert forall|j: int| 0 <= j < la.len() implies one_if(f(#[trigger] la[j])) - one_if(
            f(lb[j]),
        ) == one_if(g(lb[j])) - one_if(g(la[j])) by {}
        lemma_row_count_trade(la, lb, f, g);
    }
}

} // verus!
