//! The playfield: a fixed grid of cells, collision testing, line
//! clearing and the gravity cascade.

use vstd::prelude::*;
use vstd::arithmetic::div_mod::lemma_fundamental_div_mod_converse;
use crate::piece::{Color, Tetromino};

verus! {

/// One grid slot: empty, or filled by a locked piece's cell.
#[derive(Clone, Copy, Debug, PartialEq, Eq, Structural)]
pub enum Cell {
    Empty,
    Occupied(Color),
}

/// Whether a cell is filled.
pub open spec fn is_occupied(c: Cell) -> bool {
    c is Occupied
}

/// The linear index of grid position `(x, y)` in a row-major grid of
/// width `w`.
pub open spec fn lin(w: int, x: int, y: int) -> int {
    x + y * w
}

/// Row-major linear indices are injective on the grid: `(x, y)` can be
/// recovered from `x + y * w` by division and remainder.
pub proof fn lemma_lin_bounds(w: int, h: int, x: int, y: int)
    requires
        1 <= w,
        0 <= x < w,
        0 <= y < h,
    ensures
        0 <= lin(w, x, y) < w * h,
        0 <= y * w <= lin(w, x, y),
        lin(w, x, y) % w == x,
        lin(w, x, y) / w == y,
{
    assert(0 <= x + y * w && x + y * w < w * h && 0 <= y * w) by (nonlinear_arith)
        requires
            1 <= w,
            0 <= x < w,
            0 <= y < h,
    ;
    lemma_fundamental_div_mod_converse(x + y * w, w, y, x);
}

/// The whole grid is small: at most `16384 * 16384` cells.
pub proof fn lemma_grid_size(w: int, h: int)
    requires
        1 <= w <= 16384,
        1 <= h <= 16384,
    ensures
        w * h <= 16384 * 16384,
{
    assert(w * h <= 16384 * 16384) by (nonlinear_arith)
        requires
            1 <= w <= 16384,
            1 <= h <= 16384,
    ;
}

/// Row `y` of a grid of width `w` is full: every cell in it is
/// occupied.  A grid of width 0 has no full rows.
pub open spec fn row_full(s: Seq<Cell>, w: int, y: int) -> bool {
    1 <= w && forall|x: int| 0 <= x < w ==> is_occupied(#[trigger] s[lin(w, x, y)])
}

/// Some row of the grid is full.
pub open spec fn has_full_row(s: Seq<Cell>, w: int, h: int) -> bool {
    exists|y: int| 0 <= y < h && #[trigger] row_full(s, w, y)
}

/// The grid with every full row's cells set to empty.
pub open spec fn clear_full_spec(s: Seq<Cell>, w: int) -> Seq<Cell> {
    Seq::new(s.len(), |n: int| if row_full(s, w, n / w) { Cell::Empty } else { s[n] })
}

/// Column `x` of the grid, read top to bottom.
pub open spec fn col_seq(s: Seq<Cell>, w: int, h: int, x: int) -> Seq<Cell> {
    Seq::new(h as nat, |y: int| s[lin(w, x, y)])
}

/// The occupied cells of a column, in top-to-bottom order.
pub open spec fn occ_cells(c: Seq<Cell>) -> Seq<Cell>
    decreases c.len(),
{
    if c.len() == 0 {
        Seq::empty()
    } else if is_occupied(c.last()) {
        occ_cells(c.drop_last()).push(c.last())
    } else {
        occ_cells(c.drop_last())
    }
}

/// A column after gravity: its occupied cells keep their order but
/// sink into a contiguous run ending at the bottom; everything above
/// is empty.
pub open spec fn compact_col(c: Seq<Cell>) -> Seq<Cell> {
    let k = occ_cells(c);
    Seq::new(
        c.len(),
        |y: int| if y < c.len() - k.len() {
            Cell::Empty
        } else {
            k[y - (c.len() - k.len())]
        },
    )
}

/// The grid with every column compacted.
pub open spec fn compact_spec(s: Seq<Cell>, w: int, h: int) -> Seq<Cell> {
    Seq::new(s.len(), |n: int| compact_col(col_seq(s, w, h, n % w))[n / w])
}

/// One scan-clear-cascade pass: empty the full rows, then let every
/// column settle.
pub open spec fn clear_pass(s: Seq<Cell>, w: int, h: int) -> Seq<Cell> {
    compact_spec(clear_full_spec(s, w), w, h)
}

/// Number of occupied cells in the first `x` columns.
pub open spec fn cols_occ(s: Seq<Cell>, w: int, h: int, x: int) -> nat
    decreases x,
{
    if x <= 0 {
        0
    } else {
        cols_occ(s, w, h, x - 1) + occ_cells(col_seq(s, w, h, x - 1)).len()
    }
}

/// Number of occupied cells on the grid, column by column.
pub open spec fn occ_count(s: Seq<Cell>, w: int, h: int) -> nat {
    cols_occ(s, w, h, w)
}

/// There are never more occupied cells in a column than cells.
pub proof fn lemma_occ_cells_len(c: Seq<Cell>)
    ensures
        occ_cells(c).len() <= c.len(),
    decreases c.len(),
{
    if c.len() > 0 {
        lemma_occ_cells_len(c.drop_last());
    }
}

/// Every cell `occ_cells` keeps is occupied.
pub proof fn lemma_occ_cells_occupied(c: Seq<Cell>)
    ensures
        forall|k: int| 0 <= k < occ_cells(c).len() ==> is_occupied(#[trigger] occ_cells(c)[k]),
    decreases c.len(),
{
    if c.len() > 0 {
        lemma_occ_cells_occupied(c.drop_last());
        assert forall|k: int|
            0 <= k < occ_cells(c).len() implies is_occupied(#[trigger] occ_cells(c)[k]) by {
            if is_occupied(c.last()) {
                if k < occ_cells(c.drop_last()).len() {
                    assert(occ_cells(c)[k] == occ_cells(c.drop_last())[k]);
                } else {
                    assert(occ_cells(c)[k] == c.last());
                }
            }
        }
    }
}

/// A fully occupied column is its own run of occupied cells.
pub proof fn lemma_occ_cells_all_occupied(c: Seq<Cell>)
    requires
        forall|y: int| 0 <= y < c.len() ==> is_occupied(#[trigger] c[y]),
    ensures
        occ_cells(c) =~= c,
    decreases c.len(),
{
    if c.len() > 0 {
        lemma_occ_cells_all_occupied(c.drop_last());
    }
}

/// Empty cells in front of a column segment do not change its
/// occupied run.
pub proof fn lemma_occ_cells_empty_prefix(e: Seq<Cell>, k: Seq<Cell>)
    requires
        forall|y: int| 0 <= y < e.len() ==> !is_occupied(#[trigger] e[y]),
    ensures
        occ_cells(e + k) =~= occ_cells(k),
    decreases k.len(),
{
    if k.len() == 0 {
        assert(e + k =~= e);
        lemma_occ_cells_all_empty(e);
    } else {
        assert((e + k).drop_last() =~= e + k.drop_last());
        assert((e + k).last() == k.last());
        lemma_occ_cells_empty_prefix(e, k.drop_last());
    }
}

/// A column of empty cells has no occupied run.
pub proof fn lemma_occ_cells_all_empty(c: Seq<Cell>)
    requires
        forall|y: int| 0 <= y < c.len() ==> !is_occupied(#[trigger] c[y]),
    ensures
        occ_cells(c) =~= Seq::<Cell>::empty(),
    decreases c.len(),
{
    if c.len() > 0 {
        lemma_occ_cells_all_empty(c.drop_last());
    }
}

/// Compacting a column keeps exactly its occupied cells.
pub proof fn lemma_compact_col_occ(c: Seq<Cell>)
    ensures
        occ_cells(compact_col(c)) =~= occ_cells(c),
        compact_col(c).len() == c.len(),
{
    lemma_occ_cells_len(c);
    lemma_occ_cells_occupied(c);
    let k = occ_cells(c);
    let e = Seq::new((c.len() - k.len()) as nat, |y: int| Cell::Empty);
    assert(compact_col(c) =~= e + k);
    lemma_occ_cells_empty_prefix(e, k);
    lemma_occ_cells_all_occupied(k);
}

/// Compacting a column twice is the same as compacting it once.
pub proof fn lemma_compact_col_idempotent(c: Seq<Cell>)
    ensures
        compact_col(compact_col(c)) =~= compact_col(c),
{
    lemma_compact_col_occ(c);
}

/// Every linear index on the grid decomposes into a column and a row.
pub proof fn lemma_lin_div_bounds(n: int, w: int, h: int)
    requires
        1 <= w,
        0 <= n < w * h,
    ensures
        0 <= n % w < w,
        0 <= n / w < h,
        lin(w, n % w, n / w) == n,
{
    vstd::arithmetic::div_mod::lemma_fundamental_div_mod(n, w);
    vstd::arithmetic::div_mod::lemma_mod_bound(n, w);
    vstd::arithmetic::div_mod::lemma_div_pos_is_pos(n, w);
    if n / w >= h {
        vstd::arithmetic::mul::lemma_mul_inequality(h, n / w, w);
        assert(w * h <= w * (n / w)) by (nonlinear_arith)
            requires
                h <= n / w,
                1 <= w,
        ;
    }
    assert(w * (n / w) == (n / w) * w) by (nonlinear_arith);
}

/// Fewer cells are occupied in `c2` than in `c1` if occupancy in `c2`
/// implies occupancy in `c1` cell by cell.
pub proof fn lemma_occ_cells_dominated(c1: Seq<Cell>, c2: Seq<Cell>)
    requires
        c1.len() == c2.len(),
        forall|y: int| 0 <= y < c2.len() && is_occupied(#[trigger] c2[y]) ==> is_occupied(c1[y]),
    ensures
        occ_cells(c2).len() <= occ_cells(c1).len(),
    decreases c1.len(),
{
    if c1.len() > 0 {
        lemma_occ_cells_dominated(c1.drop_last(), c2.drop_last());
    }
}

/// Strict version: some cell is occupied in `c1` but no longer in
/// `c2`.
pub proof fn lemma_occ_cells_dominated_strict(c1: Seq<Cell>, c2: Seq<Cell>, y0: int)
    requires
        c1.len() == c2.len(),
        forall|y: int| 0 <= y < c2.len() && is_occupied(#[trigger] c2[y]) ==> is_occupied(c1[y]),
        0 <= y0 < c1.len(),
        is_occupied(c1[y0]),
        !is_occupied(c2[y0]),
    ensures
        occ_cells(c2).len() < occ_cells(c1).len(),
    decreases c1.len(),
{
    if y0 == c1.len() - 1 {
        lemma_occ_cells_dominated(c1.drop_last(), c2.drop_last());
    } else {
        lemma_occ_cells_dominated_strict(c1.drop_last(), c2.drop_last(), y0);
    }
}

/// Column sums agree when every column holds equally many occupied
/// cells.
pub proof fn lemma_cols_occ_equal(s1: Seq<Cell>, s2: Seq<Cell>, w: int, h: int, x: int)
    requires
        forall|x2: int|
            0 <= x2 < x ==> occ_cells(#[trigger] col_seq(s2, w, h, x2)).len() == occ_cells(
                col_seq(s1, w, h, x2),
            ).len(),
    ensures
        cols_occ(s2, w, h, x) == cols_occ(s1, w, h, x),
    decreases x,
{
    if x > 0 {
        lemma_cols_occ_equal(s1, s2, w, h, x - 1);
    }
}

/// Column sums drop strictly when every column strictly loses
/// occupied cells.
pub proof fn lemma_cols_occ_all_strict(s1: Seq<Cell>, s2: Seq<Cell>, w: int, h: int, x: int)
    requires
        1 <= x,
        forall|x2: int|
            0 <= x2 < x ==> occ_cells(#[trigger] col_seq(s2, w, h, x2)).len() < occ_cells(
                col_seq(s1, w, h, x2),
            ).len(),
    ensures
        cols_occ(s2, w, h, x) < cols_occ(s1, w, h, x),
    decreases x,
{
    if x > 1 {
        lemma_cols_occ_all_strict(s1, s2, w, h, x - 1);
    } else {
        assert(cols_occ(s1, w, h, 0) == 0);
        assert(cols_occ(s2, w, h, 0) == 0);
    }
}

/// Emptying the full rows of a grid that has one strictly reduces the
/// number of occupied cells.
pub proof fn lemma_clear_full_decreases(s: Seq<Cell>, w: int, h: int)
    requires
        1 <= w,
        1 <= h,
        s.len() == w * h,
        has_full_row(s, w, h),
    ensures
        occ_count(clear_full_spec(s, w), w, h) < occ_count(s, w, h),
{
    let s2 = clear_full_spec(s, w);
    let y0 = choose|y: int| 0 <= y < h && #[trigger] row_full(s, w, y);
    assert forall|x: int|
        0 <= x < w implies occ_cells(#[trigger] col_seq(s2, w, h, x)).len() < occ_cells(
        col_seq(s, w, h, x),
    ).len() by {
        let c1 = col_seq(s, w, h, x);
        let c2 = col_seq(s2, w, h, x);
        assert forall|y: int|
            0 <= y < c2.len() && is_occupied(#[trigger] c2[y]) implies is_occupied(c1[y]) by {
            lemma_lin_bounds(w, h, x, y);
        }
        assert(is_occupied(c1[y0])) by {
            lemma_lin_bounds(w, h, x, y0);
        }
        assert(!is_occupied(c2[y0])) by {
            lemma_lin_bounds(w, h, x, y0);
        }
        lemma_occ_cells_dominated_strict(c1, c2, y0);
    }
    lemma_cols_occ_all_strict(s, s2, w, h, w);
}

/// A compacted grid's column is the compaction of the original
/// column.
pub proof fn lemma_col_compact(s: Seq<Cell>, w: int, h: int, x: int)
    requires
        1 <= w,
        0 <= h,
        s.len() == w * h,
        0 <= x < w,
    ensures
        col_seq(compact_spec(s, w, h), w, h, x) =~= compact_col(col_seq(s, w, h, x)),
{
    let cp = compact_spec(s, w, h);
    assert forall|y: int|
        0 <= y < h implies col_seq(cp, w, h, x)[y] == compact_col(col_seq(s, w, h, x))[y] by {
        lemma_lin_bounds(w, h, x, y);
        let n = lin(w, x, y);
        lemma_lin_div_bounds(n, w, h);
        assert(cp[n] == compact_col(col_seq(s, w, h, n % w))[n / w]);
    }
}

/// Compacting the columns moves cells but neither creates nor
/// destroys any.
pub proof fn lemma_compact_preserves_occ_count(s: Seq<Cell>, w: int, h: int)
    requires
        1 <= w,
        0 <= h,
        s.len() == w * h,
    ensures
        occ_count(compact_spec(s, w, h), w, h) == occ_count(s, w, h),
{
    let cp = compact_spec(s, w, h);
    assert forall|x: int|
        0 <= x < w implies occ_cells(#[trigger] col_seq(cp, w, h, x)).len() == occ_cells(
        col_seq(s, w, h, x),
    ).len() by {
        lemma_col_compact(s, w, h, x);
        lemma_compact_col_occ(col_seq(s, w, h, x));
    }
    lemma_cols_occ_equal(s, cp, w, h, w);
}

/// One pass over a grid with a full row strictly reduces the number
/// of occupied cells.
pub proof fn lemma_pass_decreases(s: Seq<Cell>, w: int, h: int)
    requires
        1 <= w,
        1 <= h,
        s.len() == w * h,
        has_full_row(s, w, h),
    ensures
        occ_count(clear_pass(s, w, h), w, h) < occ_count(s, w, h),
        clear_pass(s, w, h).len() == w * h,
{
    lemma_clear_full_decreases(s, w, h);
    lemma_compact_preserves_occ_count(clear_full_spec(s, w), w, h);
}

/// Scan-clear-cascade until a pass finds no full row.  The pass that
/// produced the argument found one (or is the first); the recursion
/// stops as soon as the grid has no full row left.
pub open spec fn clear_aux(s: Seq<Cell>, w: int, h: int) -> Seq<Cell>
    decreases occ_count(s, w, h),
        when 1 <= w && 1 <= h && s.len() == w * h
{
    if has_full_row(s, w, h) {
        proof {
            lemma_pass_decreases(s, w, h);
        }
        clear_aux(clear_pass(s, w, h), w, h)
    } else {
        s
    }
}

/// The full line-clear operation: repeat the scan-clear-cascade pass
/// until no row is full.  Even when no row is full at the start the
/// single pass still runs, so the result is always settled.
pub open spec fn clear_spec(s: Seq<Cell>, w: int, h: int) -> Seq<Cell> {
    clear_aux(clear_pass(s, w, h), w, h)
}

/// Compacting an already compacted grid changes nothing.
pub proof fn lemma_compact_spec_idempotent(s: Seq<Cell>, w: int, h: int)
    requires
        1 <= w,
        0 <= h,
        s.len() == w * h,
    ensures
        compact_spec(compact_spec(s, w, h), w, h) =~= compact_spec(s, w, h),
{
    let cp = compact_spec(s, w, h);
    assert forall|n: int| 0 <= n < cp.len() implies compact_spec(cp, w, h)[n] == cp[n] by {
        lemma_lin_div_bounds(n, w, h);
        let x = n % w;
        let y = n / w;
        lemma_col_compact(s, w, h, x);
        lemma_compact_col_idempotent(col_seq(s, w, h, x));
        assert(compact_spec(cp, w, h)[n] == compact_col(col_seq(cp, w, h, x))[y]);
    }
}

/// On a grid with no full row, emptying the full rows is the
/// identity.
pub proof fn lemma_clear_full_id(s: Seq<Cell>, w: int, h: int)
    requires
        1 <= w,
        0 <= h,
        s.len() == w * h,
        !has_full_row(s, w, h),
    ensures
        clear_full_spec(s, w) =~= s,
{
    assert forall|n: int| 0 <= n < s.len() implies clear_full_spec(s, w)[n] == s[n] by {
        lemma_lin_div_bounds(n, w, h);
        assert(!row_full(s, w, n / w));
    }
}

/// Whatever grid the clearing recursion returns has no full row.
pub proof fn lemma_clear_aux_no_full(s: Seq<Cell>, w: int, h: int)
    requires
        1 <= w,
        1 <= h,
        s.len() == w * h,
    ensures
        !has_full_row(clear_aux(s, w, h), w, h),
        clear_aux(s, w, h).len() == w * h,
    decreases occ_count(s, w, h),
{
    if has_full_row(s, w, h) {
        lemma_pass_decreases(s, w, h);
        lemma_clear_aux_no_full(clear_pass(s, w, h), w, h);
    }
}

/// The clearing recursion maps compacted grids to compacted grids.
pub proof fn lemma_clear_aux_keeps_compact(s: Seq<Cell>, w: int, h: int)
    requires
        1 <= w,
        1 <= h,
        s.len() == w * h,
        s =~= compact_spec(s, w, h),
    ensures
        clear_aux(s, w, h) =~= compact_spec(clear_aux(s, w, h), w, h),
    decreases occ_count(s, w, h),
{
    if has_full_row(s, w, h) {
        lemma_pass_decreases(s, w, h);
        lemma_compact_spec_idempotent(clear_full_spec(s, w), w, h);
        lemma_clear_aux_keeps_compact(clear_pass(s, w, h), w, h);
    }
}

/// What `clear_spec` returns: a grid of the same size, with no full
/// row, fully settled under gravity.
pub proof fn lemma_clear_spec_props(s: Seq<Cell>, w: int, h: int)
    requires
        1 <= w,
        1 <= h,
        s.len() == w * h,
    ensures
        clear_spec(s, w, h).len() == w * h,
        !has_full_row(clear_spec(s, w, h), w, h),
        clear_spec(s, w, h) =~= compact_spec(clear_spec(s, w, h), w, h),
{
    lemma_compact_spec_idempotent(clear_full_spec(s, w), w, h);
    lemma_clear_aux_no_full(clear_pass(s, w, h), w, h);
    lemma_clear_aux_keeps_compact(clear_pass(s, w, h), w, h);
}

/// Clearing lines is idempotent: a second `clear_lines` with no
/// intervening lock leaves the board exactly as the first left it.
pub proof fn lemma_clear_idempotent(s: Seq<Cell>, w: int, h: int)
    requires
        1 <= w,
        1 <= h,
        s.len() == w * h,
    ensures
        clear_spec(clear_spec(s, w, h), w, h) == clear_spec(s, w, h),
{
    let r = clear_spec(s, w, h);
    lemma_clear_spec_props(s, w, h);
    lemma_clear_full_id(r, w, h);
    assert(clear_full_spec(r, w) =~= r);
    assert(clear_pass(r, w, h) =~= r);
    assert(clear_spec(r, w, h) == clear_aux(r, w, h));
}

/// In a compacted grid, no empty cell sits directly above an occupied
/// one: each column's occupied cells form a contiguous run ending at
/// the bottom row.
pub proof fn lemma_compact_image_settled(s: Seq<Cell>, w: int, h: int)
    requires
        1 <= w,
        0 <= h,
        s.len() == w * h,
    ensures
        forall|x: int, y: int|
            0 <= x < w && 0 <= y < h - 1 && is_occupied(
                #[trigger] compact_spec(s, w, h)[lin(w, x, y)],
            ) ==> is_occupied(compact_spec(s, w, h)[lin(w, x, y + 1)]),
{
    let cp = compact_spec(s, w, h);
    assert forall|x: int, y: int|
        0 <= x < w && 0 <= y < h - 1 && is_occupied(
            #[trigger] cp[lin(w, x, y)],
        ) implies is_occupied(cp[lin(w, x, y + 1)]) by {
        let c = col_seq(s, w, h, x);
        lemma_col_compact(s, w, h, x);
        lemma_occ_cells_len(c);
        lemma_occ_cells_occupied(c);
        lemma_lin_bounds(w, h, x, y);
        lemma_lin_bounds(w, h, x, y + 1);
        assert(cp[lin(w, x, y)] == compact_col(c)[y]);
        assert(cp[lin(w, x, y + 1)] == compact_col(c)[y + 1]);
    }
}

/// After `clear_lines`, every column's occupied cells form a
/// contiguous run ending at the bottom row (or the column is empty):
/// no gap remains directly above an occupied cell.
pub proof fn lemma_clear_settles(s: Seq<Cell>, w: int, h: int)
    requires
        1 <= w,
        1 <= h,
        s.len() == w * h,
    ensures
        forall|x: int, y: int|
            0 <= x < w && 0 <= y < h - 1 && is_occupied(
                #[trigger] clear_spec(s, w, h)[lin(w, x, y)],
            ) ==> is_occupied(clear_spec(s, w, h)[lin(w, x, y + 1)]),
{
    let r = clear_spec(s, w, h);
    lemma_clear_spec_props(s, w, h);
    lemma_compact_image_settled(r, w, h);
    assert forall|x: int, y: int|
        0 <= x < w && 0 <= y < h - 1 && is_occupied(
            #[trigger] r[lin(w, x, y)],
        ) implies is_occupied(r[lin(w, x, y + 1)]) by {
        lemma_lin_bounds(w, h, x, y);
        lemma_lin_bounds(w, h, x, y + 1);
        assert(r[lin(w, x, y)] == compact_spec(r, w, h)[lin(w, x, y)]);
        assert(r[lin(w, x, y + 1)] == compact_spec(r, w, h)[lin(w, x, y + 1)]);
    }
}

/// The fixed-size playfield.  `cells` is a row-major grid: position
/// `(x, y)` lives at linear index `x + y * width`, with `y` growing
/// downwards.
pub struct Board {
    pub width: u32,
    pub height: u32,
    pub cells: Vec<Cell>,
}

impl Board {
    /// Well-formedness: both dimensions are positive and small enough
    /// that every linear index fits comfortably in the machine integer
    /// types, and the cell array covers the grid exactly.
    pub open spec fn wf(self) -> bool {
        &&& 1 <= self.width <= 16384
        &&& 1 <= self.height <= 16384
        &&& self.cells@.len() == self.width * self.height
    }

    /// The cell at `(x, y)`, as a spec value.
    pub open spec fn cell_at(self, x: int, y: int) -> Cell {
        self.cells@[lin(self.width as int, x, y)]
    }

    /// The `i`-th absolute cell of a piece, x coordinate.
    pub open spec fn abs_x(t: Tetromino, i: int) -> int {
        t.rel(i).x + t.position.x
    }

    /// The `i`-th absolute cell of a piece, y coordinate.
    pub open spec fn abs_y(t: Tetromino, i: int) -> int {
        t.rel(i).y + t.position.y
    }

    /// Some absolute cell of the piece lies left of column 0, right of
    /// the last column, or below the last row.  Cells above the top
    /// (negative y) are allowed: pieces may spawn or rotate there.
    pub open spec fn piece_out_of_bounds(self, t: Tetromino) -> bool {
        exists|i: int|
            0 <= i < 4 && {
                ||| Self::abs_x(t, i) < 0
                ||| Self::abs_x(t, i) >= self.width
                ||| Self::abs_y(t, i) >= self.height
            }
    }

    /// Some absolute cell of the piece, lying on the grid, coincides
    /// with an occupied cell.
    pub open spec fn piece_hits_stack(self, t: Tetromino) -> bool {
        exists|i: int|
            0 <= i < 4
                && 0 <= Self::abs_x(t, i) < self.width
                && 0 <= Self::abs_y(t, i) < self.height
                && is_occupied(self.cell_at(Self::abs_x(t, i), Self::abs_y(t, i)))
    }

    /// The collision predicate: the piece leaves the field at the
    /// sides or the bottom, or overlaps the locked stack.
    pub open spec fn collides(self, t: Tetromino) -> bool {
        self.piece_out_of_bounds(t) || self.piece_hits_stack(t)
    }

    /// Whether the piece, rotated 90 degrees in place and shifted
    /// `dx` columns, would collide.  Stated over the pre-rotation
    /// piece so that a rotation attempt can be specified without
    /// naming the intermediate piece value.
    pub open spec fn collides_rotated(self, t: Tetromino, dx: int) -> bool {
        exists|i: int|
            #![trigger t.rot_rel_x(i)]
            0 <= i < 4 && {
                let ax = t.rot_rel_x(i) + t.position.x + dx;
                let ay = t.rot_rel_y(i) + t.position.y;
                ||| ax < 0
                ||| ax >= self.width
                ||| ay >= self.height
                ||| (0 <= ay && ay < self.height && 0 <= ax < self.width && is_occupied(
                    self.cell_at(ax, ay),
                ))
            }
    }

    /// For a piece that really is the rotated-and-shifted one, the
    /// two collision views agree.
    pub proof fn lemma_collides_rotated(self, pre: Tetromino, rt: Tetromino, dx: int)
        requires
            Tetromino::rotated_shifted(pre, rt, dx),
        ensures
            self.collides(rt) == self.collides_rotated(pre, dx),
    {
        assert forall|i: int| 0 <= i < 4 implies Self::abs_x(rt, i) == pre.rot_rel_x(i)
            + pre.position.x + dx && Self::abs_y(rt, i) == pre.rot_rel_y(i) + pre.position.y by {
            assert(rt.rel(i).x == pre.rot_rel_x(i));
        }
        if self.collides(rt) {
            if self.piece_out_of_bounds(rt) {
                let i = choose|i: int|
                    0 <= i < 4 && {
                        ||| Self::abs_x(rt, i) < 0
                        ||| Self::abs_x(rt, i) >= self.width
                        ||| Self::abs_y(rt, i) >= self.height
                    };
                assert(0 <= i < 4 && {
                    let ax = pre.rot_rel_x(i) + pre.position.x + dx;
                    let ay = pre.rot_rel_y(i) + pre.position.y;
                    ax < 0 || ax >= self.width || ay >= self.height || (0 <= ay && ay
                        < self.height && 0 <= ax < self.width && is_occupied(
                        self.cell_at(ax, ay),
                    ))
                });
            } else {
                let i = choose|i: int|
                    0 <= i < 4 && 0 <= Self::abs_x(rt, i) < self.width && 0 <= Self::abs_y(rt, i)
                        < self.height && is_occupied(
                        self.cell_at(Self::abs_x(rt, i), Self::abs_y(rt, i)),
                    );
                assert(0 <= i < 4 && {
                    let ax = pre.rot_rel_x(i) + pre.position.x + dx;
                    let ay = pre.rot_rel_y(i) + pre.position.y;
                    ax < 0 || ax >= self.width || ay >= self.height || (0 <= ay && ay
                        < self.height && 0 <= ax < self.width && is_occupied(
                        self.cell_at(ax, ay),
                    ))
                });
            }
        }
        if self.collides_rotated(pre, dx) {
            let i = choose|i: int|
                #![trigger pre.rot_rel_x(i)]
                0 <= i < 4 && {
                    let ax = pre.rot_rel_x(i) + pre.position.x + dx;
                    let ay = pre.rot_rel_y(i) + pre.position.y;
                    ||| ax < 0
                    ||| ax >= self.width
                    ||| ay >= self.height
                    ||| (0 <= ay && ay < self.height && 0 <= ax < self.width && is_occupied(
                        self.cell_at(ax, ay),
                    ))
                };
            let ax = Self::abs_x(rt, i);
            let ay = Self::abs_y(rt, i);
            if ax < 0 || ax >= self.width || ay >= self.height {
                assert(self.piece_out_of_bounds(rt));
            } else {
                assert(self.piece_hits_stack(rt));
            }
        }
    }

    /// The outcome of a rotation attempt with the simplified wall
    /// kick: the rotated shape is tried at the anchor, then shifted
    /// one column right, then one column left of the original anchor;
    /// if all three collide, the piece is left exactly as it was.
    pub open spec fn kick_rel(self, pre: Tetromino, post: Tetromino) -> bool {
        if !self.collides_rotated(pre, 0) {
            Tetromino::rotated_shifted(pre, post, 0)
        } else if !self.collides_rotated(pre, 1) {
            Tetromino::rotated_shifted(pre, post, 1)
        } else if !self.collides_rotated(pre, -1) {
            Tetromino::rotated_shifted(pre, post, -1)
        } else {
            post == pre
        }
    }

    /// A piece that does not collide lies entirely within the side
    /// and bottom walls.
    pub proof fn lemma_noncolliding_in_field(self, t: Tetromino)
        requires
            !self.collides(t),
        ensures
            self.piece_in_field(t),
    {
        assert forall|i: int|
            0 <= i < 4 implies 0 <= (#[trigger] Self::abs_x(t, i)) < self.width && Self::abs_y(
            t,
            i,
        ) < self.height by {
            assert(!self.piece_out_of_bounds(t));
        }
    }

    /// A well-formed piece whose anchor lies at least four rows below
    /// the field must collide: its cells reach at most four rows
    /// above the anchor.
    pub proof fn lemma_below_field_collides(self, t: Tetromino)
        requires
            t.wf(),
            t.position.y >= self.height + 4,
        ensures
            self.collides(t),
    {
        assert(-4 <= 2 * t.rel(0).y - (t.pivot_sum - t.pivot_diff));
        assert(Self::abs_y(t, 0) >= self.height);
    }

    /// A well-formed piece inside the walls has its anchor within a
    /// small margin of the field: each relative cell is at most four
    /// columns and rows away from the anchor.
    pub proof fn lemma_in_field_anchor_bounds(self, t: Tetromino)
        requires
            t.wf(),
            self.piece_in_field(t),
        ensures
            -6 <= t.position.x <= self.width + 4,
            t.position.y <= self.height + 4,
    {
        assert(0 <= Self::abs_x(t, 0) < self.width && Self::abs_y(t, 0) < self.height);
        assert(-4 <= 2 * t.rel(0).x - (t.pivot_sum + t.pivot_diff) <= 4);
        assert(-4 <= 2 * t.rel(0).y - (t.pivot_sum - t.pivot_diff) <= 4);
    }

    /// A fresh, fully empty board.
    pub fn new(width: u32, height: u32) -> (r: Board)
        requires
            1 <= width <= 16384,
            1 <= height <= 16384,
        ensures
            r.wf(),
            r.width == width,
            r.height == height,
            forall|i: int| 0 <= i < r.cells@.len() ==> r.cells@[i] == Cell::Empty,
    {
        proof {
            assert(width * height <= 16384 * 16384) by (nonlinear_arith)
                requires
                    width <= 16384,
                    height <= 16384,
            ;
        }
        let n: usize = (width as usize) * (height as usize);
        let mut v: Vec<Cell> = Vec::new();
        let mut i: usize = 0;
        while i < n
            invariant
                i <= n,
                v@.len() == i,
                forall|j: int| 0 <= j < i ==> v@[j] == Cell::Empty,
            decreases n - i,
        {
            v.push(Cell::Empty);
            i = i + 1;
        }
        Board { width, height, cells: v }
    }

    /// Read one cell.
    pub fn cell(&self, x: u32, y: u32) -> (r: Cell)
        requires
            self.wf(),
            x < self.width,
            y < self.height,
        ensures
            r == self.cell_at(x as int, y as int),
    {
        proof {
            lemma_lin_bounds(self.width as int, self.height as int, x as int, y as int);
            lemma_grid_size(self.width as int, self.height as int);
        }
        self.cells[(x as usize) + (y as usize) * (self.width as usize)]
    }

    /// Every absolute cell of the piece lies within the side and
    /// bottom walls.  Cells may still stick out above the top edge.
    pub open spec fn piece_in_field(self, t: Tetromino) -> bool {
        forall|i: int|
            #![trigger Self::abs_x(t, i)]
            0 <= i < 4 ==> {
                &&& 0 <= Self::abs_x(t, i) < self.width
                &&& Self::abs_y(t, i) < self.height
            }
    }

    /// Linear index `n` is covered by one of the piece's on-grid cells.
    pub open spec fn covers(t: Tetromino, w: int, n: int) -> bool {
        exists|i: int|
            0 <= i < 4 && 0 <= Self::abs_y(t, i) && lin(w, Self::abs_x(t, i), Self::abs_y(t, i))
                == n
    }

    /// The grid after locking `t`: every cell the piece covers becomes
    /// occupied with the piece's colour, everything else is untouched.
    /// Piece cells above the top edge are discarded.
    pub open spec fn lock_spec(self, t: Tetromino) -> Seq<Cell> {
        Seq::new(
            self.cells@.len(),
            |n: int|
                if Self::covers(t, self.width as int, n) {
                    Cell::Occupied(t.color)
                } else {
                    self.cells@[n]
                },
        )
    }

    /// Merge the piece's cells into the grid as permanently occupied.
    ///
    /// The caller has already rejected positions that leave the field
    /// at the sides or the bottom (a lock always follows a collision
    /// test), so only cells above the top edge can be off-grid; those
    /// are dropped, an explicit choice for stacks that reach the top.
    pub fn lock(&mut self, piece: &Tetromino)
        requires
            old(self).wf(),
            old(self).piece_in_field(*piece),
        ensures
            final(self).wf(),
            final(self).width == old(self).width,
            final(self).height == old(self).height,
            final(self).cells@ == old(self).lock_spec(*piece),
    {
        let ghost orig = *old(self);
        let w = self.width as i64;
        let px = piece.position.x as i64;
        let py = piece.position.y as i64;
        let mut i: usize = 0;
        while i < 4
            invariant
                i <= 4,
                self.wf(),
                self.width == orig.width,
                self.height == orig.height,
                orig.wf(),
                orig.piece_in_field(*piece),
                self.cells@.len() == orig.cells@.len(),
                w == orig.width as int,
                px == piece.position.x as int,
                py == piece.position.y as int,
                forall|n: int|
                    #![trigger self.cells@[n]]
                    0 <= n < orig.cells@.len() ==> self.cells@[n] == (if Self::covers_upto(
                        *piece,
                        w as int,
                        i as int,
                        n,
                    ) {
                        Cell::Occupied(piece.color)
                    } else {
                        orig.cells@[n]
                    }),
            decreases 4 - i,
        {
            let ax = piece.points[i].x as i64 + px;
            let ay = piece.points[i].y as i64 + py;
            proof {
                assert(Self::abs_x(*piece, i as int) == ax as int);
                assert(Self::abs_y(*piece, i as int) == ay as int);
            }
            if ay >= 0 {
                proof {
                    lemma_lin_bounds(w as int, self.height as int, ax as int, ay as int);
                    lemma_grid_size(w as int, self.height as int);
                }
                let index = (ax + ay * w) as usize;
                self.cells.set(index, Cell::Occupied(piece.color));
            }
            proof {
                assert forall|n: int|
                    0 <= n < orig.cells@.len() implies self.cells@[n] == (if Self::covers_upto(
                        *piece,
                        w as int,
                        i + 1,
                        n,
                    ) {
                        Cell::Occupied(piece.color)
                    } else {
                        orig.cells@[n]
                    }) by {
                    if Self::covers_upto(*piece, w as int, i + 1, n) {
                        if !Self::covers_upto(*piece, w as int, i as int, n) {
                            assert(0 <= Self::abs_y(*piece, i as int) && lin(
                                w as int,
                                Self::abs_x(*piece, i as int),
                                Self::abs_y(*piece, i as int),
                            ) == n);
                        }
                    }
                }
            }
            i = i + 1;
        }
        proof {
            assert forall|n: int| 0 <= n < orig.cells@.len() implies Self::covers_upto(
                *piece,
                w as int,
                4,
                n,
            ) == Self::covers(*piece, w as int, n) by {
            }
            assert(self.cells@ =~= orig.lock_spec(*piece));
        }
    }

    /// Like `covers`, but only by one of the first `k` piece cells.
    pub open spec fn covers_upto(t: Tetromino, w: int, k: int, n: int) -> bool {
        exists|i: int|
            0 <= i < k && i < 4 && 0 <= Self::abs_y(t, i) && lin(
                w,
                Self::abs_x(t, i),
                Self::abs_y(t, i),
            ) == n
    }

    /// Whether row `y` is fully occupied.
    pub fn row_is_full(&self, y: u32) -> (r: bool)
        requires
            self.wf(),
            y < self.height,
        ensures
            r == row_full(self.cells@, self.width as int, y as int),
    {
        let w = self.width as usize;
        let mut x: usize = 0;
        while x < w
            invariant
                self.wf(),
                w == self.width as int,
                y < self.height,
                x <= w,
                forall|x2: int|
                    0 <= x2 < x ==> is_occupied(
                        #[trigger] self.cells@[lin(w as int, x2, y as int)],
                    ),
            decreases w - x,
        {
            proof {
                lemma_lin_bounds(w as int, self.height as int, x as int, y as int);
                lemma_grid_size(w as int, self.height as int);
            }
            let n = x + (y as usize) * w;
            match self.cells[n] {
                Cell::Empty => {
                    assert(!is_occupied(self.cells@[lin(w as int, x as int, y as int)]));
                    return false;
                },
                Cell::Occupied(_) => {},
            }
            x = x + 1;
        }
        true
    }

    /// Whether any row of the board is fully occupied.
    pub fn any_full_row(&self) -> (r: bool)
        requires
            self.wf(),
        ensures
            r == has_full_row(self.cells@, self.width as int, self.height as int),
    {
        let h = self.height;
        let mut y: u32 = 0;
        while y < h
            invariant
                self.wf(),
                h == self.height,
                y <= h,
                forall|y2: int|
                    0 <= y2 < y ==> !#[trigger] row_full(self.cells@, self.width as int, y2),
            decreases h - y,
        {
            if self.row_is_full(y) {
                assert(has_full_row(self.cells@, self.width as int, self.height as int));
                return true;
            }
            y = y + 1;
        }
        false
    }

    /// Set every cell of row `y` to empty.
    fn set_row_empty(&mut self, y: u32)
        requires
            old(self).wf(),
            y < old(self).height,
        ensures
            final(self).wf(),
            final(self).width == old(self).width,
            final(self).height == old(self).height,
            forall|n: int|
                0 <= n < old(self).cells@.len() ==> final(self).cells@[n] == (if n / (
                old(self).width as int) == y as int {
                    Cell::Empty
                } else {
                    old(self).cells@[n]
                }),
    {
        let ghost orig = *old(self);
        let w = self.width as usize;
        let mut x: usize = 0;
        while x < w
            invariant
                self.wf(),
                orig.wf(),
                self.width == orig.width,
                self.height == orig.height,
                self.cells@.len() == orig.cells@.len(),
                w == self.width as int,
                y < self.height,
                x <= w,
                forall|n: int|
                    #![trigger self.cells@[n]]
                    0 <= n < orig.cells@.len() ==> self.cells@[n] == (if n / (orig.width as int)
                        == y as int && n % (orig.width as int) < x {
                        Cell::Empty
                    } else {
                        orig.cells@[n]
                    }),
            decreases w - x,
        {
            proof {
                lemma_lin_bounds(w as int, self.height as int, x as int, y as int);
                lemma_grid_size(w as int, self.height as int);
            }
            let n = x + (y as usize) * w;
            self.cells.set(n, Cell::Empty);
            proof {
                assert forall|m: int|
                    0 <= m < orig.cells@.len() implies self.cells@[m] == (if m / (
                orig.width as int) == y as int && m % (orig.width as int) < x + 1 {
                    Cell::Empty
                } else {
                    orig.cells@[m]
                }) by {
                    lemma_lin_div_bounds(m, orig.width as int, orig.height as int);
                }
            }
            x = x + 1;
        }
        proof {
            assert forall|n: int|
                0 <= n < orig.cells@.len() implies self.cells@[n] == (if n / (orig.width as int)
                == y as int {
                Cell::Empty
            } else {
                orig.cells@[n]
            }) by {
                lemma_lin_div_bounds(n, orig.width as int, orig.height as int);
            }
        }
    }

    /// Empty every full row, leaving all other cells untouched.
    fn clear_full_rows(&mut self)
        requires
            old(self).wf(),
        ensures
            final(self).wf(),
            final(self).width == old(self).width,
            final(self).height == old(self).height,
            final(self).cells@ == clear_full_spec(old(self).cells@, old(self).width as int),
    {
        let ghost orig = *old(self);
        let h = self.height;
        let mut y: u32 = 0;
        while y < h
            invariant
                self.wf(),
                orig.wf(),
                self.width == orig.width,
                self.height == orig.height,
                self.cells@.len() == orig.cells@.len(),
                h == self.height,
                y <= h,
                forall|n: int|
                    #![trigger self.cells@[n]]
                    0 <= n < orig.cells@.len() ==> self.cells@[n] == (if n / (orig.width as int)
                        < y as int && row_full(orig.cells@, orig.width as int, n / (
                    orig.width as int)) {
                        Cell::Empty
                    } else {
                        orig.cells@[n]
                    }),
            decreases h - y,
        {
            let ghost w = orig.width as int;
            proof {
                assert forall|x2: int|
                    0 <= x2 < w implies self.cells@[lin(w, x2, y as int)] == orig.cells@[lin(
                    w,
                    x2,
                    y as int,
                )] by {
                    lemma_lin_bounds(w, orig.height as int, x2, y as int);
                }
                assert(row_full(self.cells@, w, y as int) == row_full(orig.cells@, w, y as int));
            }
            let full = self.row_is_full(y);
            if full {
                self.set_row_empty(y);
            }
            proof {
                assert forall|n: int|
                    0 <= n < orig.cells@.len() implies self.cells@[n] == (if n / w < y + 1
                        && row_full(orig.cells@, w, n / w) {
                    Cell::Empty
                } else {
                    orig.cells@[n]
                }) by {
                    lemma_lin_div_bounds(n, w, orig.height as int);
                }
            }
            y = y + 1;
        }
        proof {
            assert forall|n: int|
                0 <= n < orig.cells@.len() implies self.cells@[n] == clear_full_spec(
                orig.cells@,
                orig.width as int,
            )[n] by {
                lemma_lin_div_bounds(n, orig.width as int, orig.height as int);
            }
            assert(self.cells@ =~= clear_full_spec(orig.cells@, orig.width as int));
        }
    }

    /// Let every column settle under gravity: each occupied cell
    /// slides down through the empty cells beneath it, column by
    /// column, until it rests on the floor or on another occupied
    /// cell.
    fn compact_columns(&mut self)
        requires
            old(self).wf(),
        ensures
            final(self).wf(),
            final(self).width == old(self).width,
            final(self).height == old(self).height,
            final(self).cells@ == compact_spec(
                old(self).cells@,
                old(self).width as int,
                old(self).height as int,
            ),
    {
        let ghost orig = *old(self);
        let ghost w_i = orig.width as int;
        let ghost h_i = orig.height as int;
        let w = self.width as usize;
        let h = self.height as usize;
        let mut x: usize = 0;
        while x < w
            invariant
                self.wf(),
                orig.wf(),
                self.width == orig.width,
                self.height == orig.height,
                self.cells@.len() == orig.cells@.len(),
                w == w_i,
                h == h_i,
                w_i == orig.width as int,
                h_i == orig.height as int,
                x <= w,
                forall|n: int|
                    #![trigger self.cells@[n]]
                    0 <= n < orig.cells@.len() ==> self.cells@[n] == (if n % w_i < x {
                        compact_col(col_seq(orig.cells@, w_i, h_i, n % w_i))[n / w_i]
                    } else {
                        orig.cells@[n]
                    }),
            decreases w - x,
        {
            let ghost col = col_seq(orig.cells@, w_i, h_i, x as int);
            let ghost snapshot = self.cells@;
            let mut stack: Vec<Cell> = Vec::new();
            let mut y: usize = 0;
            while y < h
                invariant
                    self.wf(),
                    orig.wf(),
                    self.cells@ == snapshot,
                    self.cells@.len() == orig.cells@.len(),
                    w == self.width as int,
                    h == self.height as int,
                    w_i == orig.width as int,
                    h_i == orig.height as int,
                    w == w_i,
                    h == h_i,
                    x < w,
                    y <= h,
                    col == col_seq(orig.cells@, w_i, h_i, x as int),
                    forall|n: int|
                        #![trigger self.cells@[n]]
                        0 <= n < orig.cells@.len() && n % w_i >= x ==> self.cells@[n]
                            == orig.cells@[n],
                    stack@ == occ_cells(col.subrange(0, y as int)),
                decreases h - y,
            {
                proof {
                    lemma_lin_bounds(w_i, h_i, x as int, y as int);
                    lemma_grid_size(w_i, h_i);
                }
                let n = x + y * w;
                let c = self.cells[n];
                proof {
                    assert(c == col[y as int]);
                    assert(col.subrange(0, y as int + 1).drop_last() =~= col.subrange(
                        0,
                        y as int,
                    ));
                    assert(col.subrange(0, y as int + 1).last() == col[y as int]);
                }
                match c {
                    Cell::Occupied(_) => {
                        stack.push(c);
                    },
                    Cell::Empty => {},
                }
                proof {
                    assert(stack@ =~= occ_cells(col.subrange(0, y as int + 1)));
                }
                y = y + 1;
            }
            proof {
                assert(col.subrange(0, h_i) =~= col);
                assert(stack@ == occ_cells(col));
                lemma_occ_cells_len(col);
            }
            let cnt = stack.len();
            let mut y: usize = 0;
            while y < h
                invariant
                    self.wf(),
                    orig.wf(),
                    self.width == orig.width,
                    self.height == orig.height,
                    self.cells@.len() == orig.cells@.len(),
                    w == w_i,
                    h == h_i,
                    w_i == orig.width as int,
                    h_i == orig.height as int,
                    x < w,
                    y <= h,
                    col == col_seq(orig.cells@, w_i, h_i, x as int),
                    cnt == stack@.len(),
                    stack@ == occ_cells(col),
                    cnt <= h,
                    forall|n: int|
                        #![trigger self.cells@[n]]
                        0 <= n < orig.cells@.len() ==> self.cells@[n] == (if n % w_i < x {
                            compact_col(col_seq(orig.cells@, w_i, h_i, n % w_i))[n / w_i]
                        } else if n % w_i == x && n / w_i < y {
                            compact_col(col)[n / w_i]
                        } else {
                            orig.cells@[n]
                        }),
                decreases h - y,
            {
                let v = if y < h - cnt {
                    Cell::Empty
                } else {
                    stack[y - (h - cnt)]
                };
                proof {
                    lemma_lin_bounds(w_i, h_i, x as int, y as int);
                    lemma_grid_size(w_i, h_i);
                    assert(col.len() == h_i);
                    assert(v == compact_col(col)[y as int]);
                }
                let n = x + y * w;
                self.cells.set(n, v);
                proof {
                    assert forall|m: int|
                        0 <= m < orig.cells@.len() implies self.cells@[m] == (if m % w_i < x {
                        compact_col(col_seq(orig.cells@, w_i, h_i, m % w_i))[m / w_i]
                    } else if m % w_i == x && m / w_i < y + 1 {
                        compact_col(col)[m / w_i]
                    } else {
                        orig.cells@[m]
                    }) by {
                        lemma_lin_div_bounds(m, w_i, h_i);
                    }
                }
                y = y + 1;
            }
            proof {
                assert forall|n: int|
                    0 <= n < orig.cells@.len() implies self.cells@[n] == (if n % w_i < x + 1 {
                    compact_col(col_seq(orig.cells@, w_i, h_i, n % w_i))[n / w_i]
                } else {
                    orig.cells@[n]
                }) by {
                    lemma_lin_div_bounds(n, w_i, h_i);
                }
            }
            x = x + 1;
        }
        proof {
            assert forall|n: int|
                0 <= n < orig.cells@.len() implies self.cells@[n] == compact_spec(
                orig.cells@,
                w_i,
                h_i,
            )[n] by {
                lemma_lin_div_bounds(n, w_i, h_i);
            }
            assert(self.cells@ =~= compact_spec(orig.cells@, w_i, h_i));
        }
    }

    /// Clear every full row and let the stack settle, repeating the
    /// scan-clear-cascade pass until no row is full: a cascade can
    /// fill a row that must then be cleared in turn.
    pub fn clear_lines(&mut self)
        requires
            old(self).wf(),
        ensures
            final(self).wf(),
            final(self).width == old(self).width,
            final(self).height == old(self).height,
            final(self).cells@ == clear_spec(
                old(self).cells@,
                old(self).width as int,
                old(self).height as int,
            ),
    {
        let ghost orig = *old(self);
        let ghost w_i = orig.width as int;
        let ghost h_i = orig.height as int;
        self.clear_full_rows();
        self.compact_columns();
        let mut again = self.any_full_row();
        while again
            invariant
                self.wf(),
                self.width == orig.width,
                self.height == orig.height,
                orig.wf(),
                w_i == orig.width as int,
                h_i == orig.height as int,
                again == has_full_row(self.cells@, w_i, h_i),
                clear_aux(self.cells@, w_i, h_i) == clear_spec(orig.cells@, w_i, h_i),
            decreases occ_count(self.cells@, w_i, h_i),
        {
            let ghost pre = self.cells@;
            proof {
                lemma_pass_decreases(pre, w_i, h_i);
            }
            self.clear_full_rows();
            self.compact_columns();
            again = self.any_full_row();
        }
    }

    /// True exactly when the piece collides: its bounding box leaves
    /// the field at the left, right or bottom, or one of its on-grid
    /// cells overlaps an occupied cell.  Cells above the top edge are
    /// not tested against the grid and never collide by themselves.
    pub fn check_collision(&self, piece: &Tetromino) -> (r: bool)
        requires
            self.wf(),
        ensures
            r == self.collides(*piece),
    {
        let w = self.width as i64;
        let h = self.height as i64;
        let px = piece.position.x as i64;
        let py = piece.position.y as i64;
        let mut i: usize = 0;
        while i < 4
            invariant
                i <= 4,
                w == self.width as int,
                h == self.height as int,
                px == piece.position.x as int,
                py == piece.position.y as int,
                forall|j: int|
                    #![trigger Self::abs_x(*piece, j)]
                    0 <= j < i ==> {
                        &&& 0 <= Self::abs_x(*piece, j) < self.width
                        &&& Self::abs_y(*piece, j) < self.height
                    },
            decreases 4 - i,
        {
            let ax = piece.points[i].x as i64 + px;
            let ay = piece.points[i].y as i64 + py;
            proof {
                assert(Self::abs_x(*piece, i as int) == ax as int);
                assert(Self::abs_y(*piece, i as int) == ay as int);
            }
            if ax < 0 || ax >= w || ay >= h {
                assert(self.piece_out_of_bounds(*piece));
                return true;
            }
            i = i + 1;
        }
        let mut i: usize = 0;
        while i < 4
            invariant
                i <= 4,
                self.wf(),
                w == self.width as int,
                h == self.height as int,
                px == piece.position.x as int,
                py == piece.position.y as int,
                forall|j: int|
                    #![trigger Self::abs_x(*piece, j)]
                    0 <= j < 4 ==> {
                        &&& 0 <= Self::abs_x(*piece, j) < self.width
                        &&& Self::abs_y(*piece, j) < self.height
                    },
                forall|j: int|
                    0 <= j < i ==> !(0 <= Self::abs_y(*piece, j)
                        && is_occupied(self.cell_at(Self::abs_x(*piece, j), Self::abs_y(*piece, j)))),
            decreases 4 - i,
        {
            let ax = piece.points[i].x as i64 + px;
            let ay = piece.points[i].y as i64 + py;
            proof {
                assert(Self::abs_x(*piece, i as int) == ax as int);
                assert(Self::abs_y(*piece, i as int) == ay as int);
            }
            if ay >= 0 {
                proof {
                    lemma_lin_bounds(w as int, h as int, ax as int, ay as int);
                    lemma_grid_size(w as int, h as int);
                }
                let index = (ax + ay * w) as usize;
                match self.cells[index] {
                    Cell::Occupied(_) => {
                        assert(self.piece_hits_stack(*piece));
                        return true;
                    },
                    Cell::Empty => {},
                }
            }
            i = i + 1;
        }
        assert(!self.piece_out_of_bounds(*piece));
        assert(!self.piece_hits_stack(*piece));
        false
    }
}

} // verus!
