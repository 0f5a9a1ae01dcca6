//! The simulation state: a toroidal grid of cells and its transition rule.
//!
//! The mathematical model of a [`Universe`] is a [`GridView`]: the two
//! dimensions and the row-major sequence of cells. The transition rule is
//! the spec function [`step_grid`], a pure function of the grid alone, and
//! [`Universe::tick`] is proved to replace the grid by exactly that next
//! generation.

use crate::cell::Cell;
use crate::cell::cell_val;
use crate::rng::random_byte;
use vstd::arithmetic::div_mod::lemma_div_pos_is_pos;
use vstd::arithmetic::div_mod::lemma_fundamental_div_mod;
use vstd::arithmetic::div_mod::lemma_fundamental_div_mod_converse;
use vstd::arithmetic::div_mod::lemma_mod_add_multiples_vanish;
use vstd::arithmetic::div_mod::lemma_mod_pos_bound;
use vstd::arithmetic::div_mod::lemma_small_mod;
use vstd::arithmetic::mul::lemma_mul_inequality;
use vstd::arithmetic::mul::lemma_mul_is_commutative;
use vstd::prelude::*;

verus! {

/// The grid dimensions the randomized default construction uses.
pub const DEFAULT_WIDTH: u32 = 187;

/// See [`DEFAULT_WIDTH`].
pub const DEFAULT_HEIGHT: u32 = 100;

/// The mathematical model of a universe: its dimensions and the row-major
/// sequence of cells.
#[verifier::ext_equal]
pub ghost struct GridView {
    pub width: nat,
    pub height: nat,
    pub cells: Seq<Cell>,
}

/// A well-formed grid has at least one row and one column, and exactly
/// `width * height` cells.
pub open spec fn wf(v: GridView) -> bool {
    &&& v.width >= 1
    &&& v.height >= 1
    &&& v.cells.len() == v.width * v.height
}

/// The row-major position of the cell at `(row, col)`.
pub open spec fn cell_index(v: GridView, row: int, col: int) -> int {
    row * (v.width as int) + col
}

/// The 0/1 value of the neighbor reached from `(row, col)` by the offsets
/// `(dr, dc)`, with toroidal wrap-around: coordinates are taken modulo the
/// grid dimensions, so stepping off one edge re-enters at the opposite one.
pub open spec fn wrapped_neighbor(v: GridView, row: int, col: int, dr: int, dc: int) -> nat {
    let nr = (row + dr) % (v.height as int);
    let nc = (col + dc) % (v.width as int);
    cell_val(v.cells[cell_index(v, nr, nc)])
}

/// The number of live cells among the 8 Moore neighbors of `(row, col)`,
/// under wrap-around addressing. The offsets are `height - 1`, `0`, `1` by
/// row and `width - 1`, `0`, `1` by column, skipping the cell itself; on a
/// degenerate grid (one row or one column) the same cell may be reached by
/// several offsets and is then counted once per offset.
pub open spec fn live_neighbors(v: GridView, row: int, col: int) -> nat {
    wrapped_neighbor(v, row, col, v.height - 1, v.width - 1)
        + wrapped_neighbor(v, row, col, v.height - 1, 0)
        + wrapped_neighbor(v, row, col, v.height - 1, 1)
        + wrapped_neighbor(v, row, col, 0, v.width - 1)
        + wrapped_neighbor(v, row, col, 0, 1)
        + wrapped_neighbor(v, row, col, 1, v.width - 1)
        + wrapped_neighbor(v, row, col, 1, 0)
        + wrapped_neighbor(v, row, col, 1, 1)
}

/// The classic transition rule for one cell: a live cell survives with 2 or
/// 3 live neighbors, a dead cell is born with exactly 3, and every other
/// cell is dead in the next generation.
pub open spec fn next_cell(c: Cell, live: nat) -> Cell {
    match c {
        Cell::Alive => if 2 <= live && live <= 3 {
            Cell::Alive
        } else {
            Cell::Dead
        },
        Cell::Dead => if live == 3 {
            Cell::Alive
        } else {
            Cell::Dead
        },
    }
}

/// One synchronous generation: every cell of the next grid is determined by
/// the current grid alone, through its old state and its old neighbor count.
pub open spec fn step_grid(v: GridView) -> GridView {
    GridView {
        width: v.width,
        height: v.height,
        cells: Seq::new(
            v.cells.len(),
            |i: int|
                next_cell(
                    v.cells[i],
                    live_neighbors(v, i / (v.width as int), i % (v.width as int)),
                ),
        ),
    }
}

/// Every cell of the grid is dead.
pub open spec fn all_dead(v: GridView) -> bool {
    forall|i: int| 0 <= i < v.cells.len() ==> v.cells[i] is Dead
}

/// The product of two dimensions that each fit in 32 bits fits in 64 bits.
proof fn lemma_dimension_product_fits_u64(width: int, height: int)
    requires
        0 <= width < 0x1_0000_0000,
        0 <= height < 0x1_0000_0000,
    ensures
        width * height < 0x1_0000_0000_0000_0000,
{
    assert(width * height < 0x1_0000_0000_0000_0000) by (nonlinear_arith)
        requires
            0 <= width < 0x1_0000_0000,
            0 <= height < 0x1_0000_0000,
    ;
}

/// The index of an in-range coordinate pair lies within the cell sequence.
pub proof fn lemma_index_in_range(v: GridView, row: int, col: int)
    requires
        wf(v),
        0 <= row < v.height,
        0 <= col < v.width,
    ensures
        0 <= cell_index(v, row, col) < v.cells.len(),
{
    let w = v.width as int;
    let h = v.height as int;
    assert(0 <= row * w + col < h * w) by (nonlinear_arith)
        requires
            0 <= row,
            row < h,
            0 <= col,
            col < w,
            w >= 1,
    ;
    assert(h * w == w * h) by (nonlinear_arith);
}

/// The index mapping is injective: distinct in-range coordinate pairs name
/// distinct cells.
pub proof fn lemma_index_injective(v: GridView, r1: int, c1: int, r2: int, c2: int)
    requires
        wf(v),
        0 <= r1 < v.height,
        0 <= c1 < v.width,
        0 <= r2 < v.height,
        0 <= c2 < v.width,
        cell_index(v, r1, c1) == cell_index(v, r2, c2),
    ensures
        r1 == r2,
        c1 == c2,
{
    let w = v.width as int;
    lemma_fundamental_div_mod_converse(cell_index(v, r1, c1), w, r1, c1);
    lemma_fundamental_div_mod_converse(cell_index(v, r2, c2), w, r2, c2);
}

/// The index mapping covers the whole range `[0, width * height)`: every
/// position is the index of exactly one in-range coordinate pair, namely
/// `(i / width, i % width)`.
pub proof fn lemma_index_covers(v: GridView, i: int)
    requires
        wf(v),
        0 <= i < v.width * v.height,
    ensures
        ({
            let row = i / (v.width as int);
            let col = i % (v.width as int);
            &&& 0 <= row < v.height
            &&& 0 <= col < v.width
            &&& cell_index(v, row, col) == i
        }),
{
    let w = v.width as int;
    let h = v.height as int;
    lemma_fundamental_div_mod(i, w);
    lemma_mod_pos_bound(i, w);
    lemma_div_pos_is_pos(i, w);
    lemma_mul_is_commutative(i / w, w);
    if i / w >= h {
        lemma_mul_inequality(h, i / w, w);
        lemma_mul_is_commutative(h, w);
        assert(false);
    }
}

/// A neighbor count never exceeds 8: each of the 8 offsets contributes at
/// most 1.
pub proof fn lemma_neighbor_count_in_range(v: GridView, row: int, col: int)
    ensures
        live_neighbors(v, row, col) <= 8,
{
}

/// A grid with no live cell steps to a grid with no live cell: a cell is
/// born only with exactly 3 live neighbors.
pub proof fn lemma_all_dead_stays_dead(v: GridView)
    requires
        wf(v),
        all_dead(v),
    ensures
        all_dead(step_grid(v)),
{
    assert forall|i: int| 0 <= i < step_grid(v).cells.len() implies step_grid(
        v,
    ).cells[i] is Dead by {
        let w = v.width as int;
        let row = i / w;
        let col = i % w;
        lemma_div_pos_is_pos(i, w);
        lemma_mod_pos_bound(i, w);
        lemma_wrapped_neighbor_of_dead_grid(v, row, col, v.height - 1, v.width - 1);
        lemma_wrapped_neighbor_of_dead_grid(v, row, col, v.height - 1, 0);
        lemma_wrapped_neighbor_of_dead_grid(v, row, col, v.height - 1, 1);
        lemma_wrapped_neighbor_of_dead_grid(v, row, col, 0, v.width - 1);
        lemma_wrapped_neighbor_of_dead_grid(v, row, col, 0, 1);
        lemma_wrapped_neighbor_of_dead_grid(v, row, col, 1, v.width - 1);
        lemma_wrapped_neighbor_of_dead_grid(v, row, col, 1, 0);
        lemma_wrapped_neighbor_of_dead_grid(v, row, col, 1, 1);
        assert(live_neighbors(v, row, col) == 0);
    }
}

/// In an all-dead grid every wrapped neighbor value is 0.
proof fn lemma_wrapped_neighbor_of_dead_grid(v: GridView, row: int, col: int, dr: int, dc: int)
    requires
        wf(v),
        all_dead(v),
        0 <= row,
        0 <= col,
        0 <= dr,
        0 <= dc,
    ensures
        wrapped_neighbor(v, row, col, dr, dc) == 0,
{
    let w = v.width as int;
    let h = v.height as int;
    lemma_mod_pos_bound(row + dr, h);
    lemma_mod_pos_bound(col + dc, w);
    lemma_index_in_range(v, (row + dr) % h, (col + dc) % w);
}

/// The next generation, cell by cell: at every in-range coordinate pair
/// the stepped grid holds exactly the transition rule applied to the old
/// cell and its old neighbor count.
pub proof fn lemma_step_cell(v: GridView, row: int, col: int)
    requires
        wf(v),
        0 <= row < v.height,
        0 <= col < v.width,
    ensures
        step_grid(v).cells[cell_index(v, row, col)] == next_cell(
            v.cells[cell_index(v, row, col)],
            live_neighbors(v, row, col),
        ),
{
    lemma_index_in_range(v, row, col);
    lemma_fundamental_div_mod_converse(cell_index(v, row, col), v.width as int, row, col);
}

/// A cell with no live neighbors is dead after the step; in particular, an
/// isolated live cell dies.
pub proof fn lemma_isolated_cell_dies(v: GridView, row: int, col: int)
    requires
        wf(v),
        0 <= row < v.height,
        0 <= col < v.width,
        live_neighbors(v, row, col) == 0,
    ensures
        step_grid(v).cells[cell_index(v, row, col)] is Dead,
{
    lemma_step_cell(v, row, col);
}

/// The three wrap-around offsets `m - 1`, `0`, `1` move an in-range
/// coordinate one step up (to the far edge from 0), leave it in place, and
/// move it one step down (to 0 from the far edge).
proof fn lemma_wrap_offsets(m: int, x: int)
    requires
        m >= 1,
        0 <= x < m,
    ensures
        (x + (m - 1)) % m == if x == 0 {
            m - 1
        } else {
            x - 1
        },
        (x + 0) % m == x,
        (x + 1) % m == if x == m - 1 {
            0
        } else {
            x + 1
        },
{
    lemma_small_mod(x as nat, m as nat);
    if x == 0 {
        lemma_small_mod((m - 1) as nat, m as nat);
    } else {
        lemma_mod_add_multiples_vanish(x - 1, m);
        lemma_small_mod((x - 1) as nat, m as nat);
        assert(x + (m - 1) == m + (x - 1));
    }
    if x == m - 1 {
        lemma_mod_add_multiples_vanish(0, m);
        lemma_small_mod(0, m as nat);
        assert(x + 1 == m + 0);
    } else {
        lemma_small_mod((x + 1) as nat, m as nat);
    }
}

/// The grid of the given dimensions whose live cells are exactly those
/// whose coordinates satisfy `p`.
pub open spec fn pattern_grid(w: nat, h: nat, p: spec_fn(int, int) -> bool) -> GridView {
    GridView {
        width: w,
        height: h,
        cells: Seq::new(
            w * h,
            |i: int|
                if p(i / (w as int), i % (w as int)) {
                    Cell::Alive
                } else {
                    Cell::Dead
                },
        ),
    }
}

/// In a pattern grid, the cell at in-range coordinates `(r, c)` is live
/// exactly when `p(r, c)` holds.
proof fn lemma_pattern_cell_at(w: int, h: int, p: spec_fn(int, int) -> bool, r: int, c: int)
    requires
        w >= 1,
        h >= 1,
        0 <= r < h,
        0 <= c < w,
    ensures
        pattern_grid(w as nat, h as nat, p).cells[cell_index(
            pattern_grid(w as nat, h as nat, p),
            r,
            c,
        )] == (if p(r, c) {
            Cell::Alive
        } else {
            Cell::Dead
        }),
{
    let v = pattern_grid(w as nat, h as nat, p);
    lemma_index_in_range(v, r, c);
    lemma_fundamental_div_mod_converse(cell_index(v, r, c), w, r, c);
}

/// The shape of the classic block still life: a 2-by-2 square of live
/// cells with its upper-left corner at row 1, column 1.
pub open spec fn block_cell_at(r: int, c: int) -> bool {
    (r == 1 || r == 2) && (c == 1 || c == 2)
}

/// The grid that holds exactly the block and nothing else.
pub open spec fn block_grid(w: nat, h: nat) -> GridView {
    pattern_grid(w, h, |r: int, c: int| block_cell_at(r, c))
}

/// The block is stable: on any grid of at least 4 rows and 4 columns that
/// holds exactly the 2-by-2 block of live cells, one step leaves every
/// cell unchanged.
pub proof fn lemma_block_is_stable(w: int, h: int)
    requires
        w >= 4,
        h >= 4,
    ensures
        step_grid(block_grid(w as nat, h as nat)) == block_grid(w as nat, h as nat),
{
    let p = (|r: int, c: int| block_cell_at(r, c));
    let v = block_grid(w as nat, h as nat);
    assert forall|i: int| 0 <= i < v.cells.len() implies step_grid(v).cells[i] == v.cells[i] by {
        lemma_index_covers(v, i);
        let r = i / w;
        let c = i % w;
        lemma_wrap_offsets(h, r);
        lemma_wrap_offsets(w, c);
        let rm = if r == 0 { h - 1 } else { r - 1 };
        let rp = if r == h - 1 { 0 } else { r + 1 };
        let cm = if c == 0 { w - 1 } else { c - 1 };
        let cp = if c == w - 1 { 0 } else { c + 1 };
        lemma_pattern_cell_at(w, h, p, rm, cm);
        lemma_pattern_cell_at(w, h, p, rm, c);
        lemma_pattern_cell_at(w, h, p, rm, cp);
        lemma_pattern_cell_at(w, h, p, r, cm);
        lemma_pattern_cell_at(w, h, p, r, c);
        lemma_pattern_cell_at(w, h, p, r, cp);
        lemma_pattern_cell_at(w, h, p, rp, cm);
        lemma_pattern_cell_at(w, h, p, rp, c);
        lemma_pattern_cell_at(w, h, p, rp, cp);
        assert(step_grid(v).cells[i] == next_cell(v.cells[i], live_neighbors(v, r, c)));
    }
    assert(step_grid(v) =~= v);
}

/// The shape of the horizontal blinker: three live cells in a row, at row
/// 2, columns 1 through 3.
pub open spec fn blinker_h_cell_at(r: int, c: int) -> bool {
    r == 2 && (c == 1 || c == 2 || c == 3)
}

/// The shape of the vertical blinker: three live cells in a column, at
/// column 2, rows 1 through 3.
pub open spec fn blinker_v_cell_at(r: int, c: int) -> bool {
    c == 2 && (r == 1 || r == 2 || r == 3)
}

/// The grid that holds exactly the horizontal blinker.
pub open spec fn blinker_h_grid(w: nat, h: nat) -> GridView {
    pattern_grid(w, h, |r: int, c: int| blinker_h_cell_at(r, c))
}

/// The grid that holds exactly the vertical blinker.
pub open spec fn blinker_v_grid(w: nat, h: nat) -> GridView {
    pattern_grid(w, h, |r: int, c: int| blinker_v_cell_at(r, c))
}

/// The blinker oscillates with period 2: on any grid of at least 5 rows
/// and 5 columns that holds exactly the three-in-a-row pattern, one step
/// turns it into the three-in-a-column pattern and a second step restores
/// the original grid.
pub proof fn lemma_blinker_oscillates(w: int, h: int)
    requires
        w >= 5,
        h >= 5,
    ensures
        step_grid(blinker_h_grid(w as nat, h as nat)) == blinker_v_grid(w as nat, h as nat),
        step_grid(blinker_v_grid(w as nat, h as nat)) == blinker_h_grid(w as nat, h as nat),
        step_grid(step_grid(blinker_h_grid(w as nat, h as nat))) == blinker_h_grid(
            w as nat,
            h as nat,
        ),
        step_grid(step_grid(blinker_v_grid(w as nat, h as nat))) == blinker_v_grid(
            w as nat,
            h as nat,
        ),
{
    let ph = (|r: int, c: int| blinker_h_cell_at(r, c));
    let pv = (|r: int, c: int| blinker_v_cell_at(r, c));
    let vh = blinker_h_grid(w as nat, h as nat);
    let vv = blinker_v_grid(w as nat, h as nat);
    assert forall|i: int| 0 <= i < vh.cells.len() implies step_grid(vh).cells[i] == vv.cells[i] by {
        lemma_index_covers(vh, i);
        let r = i / w;
        let c = i % w;
        lemma_wrap_offsets(h, r);
        lemma_wrap_offsets(w, c);
        let rm = if r == 0 { h - 1 } else { r - 1 };
        let rp = if r == h - 1 { 0 } else { r + 1 };
        let cm = if c == 0 { w - 1 } else { c - 1 };
        let cp = if c == w - 1 { 0 } else { c + 1 };
        lemma_pattern_cell_at(w, h, ph, rm, cm);
        lemma_pattern_cell_at(w, h, ph, rm, c);
        lemma_pattern_cell_at(w, h, ph, rm, cp);
        lemma_pattern_cell_at(w, h, ph, r, cm);
        lemma_pattern_cell_at(w, h, ph, r, c);
        lemma_pattern_cell_at(w, h, ph, r, cp);
        lemma_pattern_cell_at(w, h, ph, rp, cm);
        lemma_pattern_cell_at(w, h, ph, rp, c);
        lemma_pattern_cell_at(w, h, ph, rp, cp);
        lemma_pattern_cell_at(w, h, pv, r, c);
        assert(step_grid(vh).cells[i] == next_cell(vh.cells[i], live_neighbors(vh, r, c)));
    }
    assert(step_grid(vh) =~= vv);
    assert forall|i: int| 0 <= i < vv.cells.len() implies step_grid(vv).cells[i] == vh.cells[i] by {
        lemma_index_covers(vv, i);
        let r = i / w;
        let c = i % w;
        lemma_wrap_offsets(h, r);
        lemma_wrap_offsets(w, c);
        let rm = if r == 0 { h - 1 } else { r - 1 };
        let rp = if r == h - 1 { 0 } else { r + 1 };
        let cm = if c == 0 { w - 1 } else { c - 1 };
        let cp = if c == w - 1 { 0 } else { c + 1 };
        lemma_pattern_cell_at(w, h, pv, rm, cm);
        lemma_pattern_cell_at(w, h, pv, rm, c);
        lemma_pattern_cell_at(w, h, pv, rm, cp);
        lemma_pattern_cell_at(w, h, pv, r, cm);
        lemma_pattern_cell_at(w, h, pv, r, c);
        lemma_pattern_cell_at(w, h, pv, r, cp);
        lemma_pattern_cell_at(w, h, pv, rp, cm);
        lemma_pattern_cell_at(w, h, pv, rp, c);
        lemma_pattern_cell_at(w, h, pv, rp, cp);
        lemma_pattern_cell_at(w, h, ph, r, c);
        assert(step_grid(vv).cells[i] == next_cell(vv.cells[i], live_neighbors(vv, r, c)));
    }
    assert(step_grid(vv) =~= vh);
}

/// The transition is a pure function of the grid: equal grids step to equal
/// grids, with no hidden input.
pub proof fn lemma_step_deterministic(a: GridView, b: GridView)
    requires
        a == b,
    ensures
        step_grid(a) == step_grid(b),
{
}

/// The glyph a cell renders as: the filled square for a live cell, a blank
/// for a dead one.
pub open spec fn glyph(c: Cell) -> char {
    match c {
        Cell::Alive => '\u{25FC}',
        Cell::Dead => ' ',
    }
}

/// The characters of one rendered row: one glyph per cell, then a newline.
pub open spec fn row_text(v: GridView, row: int) -> Seq<char> {
    Seq::new(v.width, |j: int| glyph(v.cells[cell_index(v, row, j)])).push('\n')
}

/// The first `nrows` rendered rows, concatenated.
pub open spec fn rows_text(v: GridView, nrows: int) -> Seq<char>
    decreases nrows,
{
    if nrows <= 0 {
        Seq::empty()
    } else {
        rows_text(v, nrows - 1) + row_text(v, nrows - 1)
    }
}

/// The full plain-text rendering of a grid: its rows from top to bottom.
pub open spec fn grid_text(v: GridView) -> Seq<char> {
    rows_text(v, v.height as int)
}

/// The construction errors: a dimension of zero, or a grid too large for
/// the address space, or a cell sequence whose length does not match the
/// dimensions.
#[derive(Clone, Copy, Debug, PartialEq, Eq, Structural)]
pub enum UniverseError {
    ZeroDimension,
    SizeOverflow,
    CellCountMismatch,
}

impl UniverseError {
    /// A short description of the error.
    pub fn message(&self) -> (s: &'static str)
        ensures
            s@ == (match *self {
                UniverseError::ZeroDimension => "width and height must both be at least 1"@,
                UniverseError::SizeOverflow => "width * height exceeds the addressable cell count"@,
                UniverseError::CellCountMismatch => "the cell sequence must hold exactly width * height cells"@,
            }),
    {
        match self {
            UniverseError::ZeroDimension => "width and height must both be at least 1",
            UniverseError::SizeOverflow => "width * height exceeds the addressable cell count",
            UniverseError::CellCountMismatch => "the cell sequence must hold exactly width * height cells",
        }
    }
}

/// The simulation state: a fixed-size toroidal grid of cells in row-major
/// order. Dimensions are set at construction and never change; `tick`
/// replaces the whole grid by the next generation.
#[derive(Debug)]
pub struct Universe {
    cells: Vec<Cell>,
    height: u32,
    width: u32,
}

impl View for Universe {
    type V = GridView;

    closed spec fn view(&self) -> GridView {
        GridView { width: self.width as nat, height: self.height as nat, cells: self.cells@ }
    }
}

/// A vector of `n` cells, each drawn independently from the randomness
/// source. Nothing is promised of the cell values.
fn random_cells(n: usize) -> (cells: Vec<Cell>)
    ensures
        cells@.len() == n,
{
    let mut cells: Vec<Cell> = Vec::new();
    let mut i: usize = 0;
    while i < n
        invariant
            i <= n,
            cells@.len() == i,
        decreases n - i,
    {
        let b = random_byte();
        cells.push(Cell::from_byte(b));
        i = i + 1;
    }
    cells
}

impl Universe {
    /// A randomized universe of the given dimensions. Construction fails
    /// exactly when a dimension is zero or the cell count does not fit in
    /// memory; otherwise the grid holds `width * height` random cells.
    pub fn new(width: u32, height: u32) -> (result: Result<Universe, UniverseError>)
        ensures
            match result {
                Ok(u) => {
                    &&& width >= 1
                    &&& height >= 1
                    &&& (width as int) * (height as int) <= usize::MAX
                    &&& wf(u@)
                    &&& u@.width == width
                    &&& u@.height == height
                },
                Err(UniverseError::ZeroDimension) => width == 0 || height == 0,
                Err(UniverseError::SizeOverflow) => {
                    &&& width >= 1
                    &&& height >= 1
                    &&& (width as int) * (height as int) > usize::MAX
                },
                Err(UniverseError::CellCountMismatch) => false,
            },
    {
        if width == 0 || height == 0 {
            return Err(UniverseError::ZeroDimension);
        }
        proof {
            lemma_dimension_product_fits_u64(width as int, height as int);
        }
        let num_cells = (width as u64) * (height as u64);
        if num_cells > (usize::MAX as u64) {
            return Err(UniverseError::SizeOverflow);
        }
        let cells = random_cells(num_cells as usize);
        Ok(Universe { width, height, cells })
    }

    /// A universe over a given cell sequence, for deterministic callers.
    /// Construction fails exactly when a dimension is zero or the sequence
    /// length differs from `width * height`; otherwise the grid holds the
    /// given cells unchanged.
    pub fn from_cells(width: u32, height: u32, cells: Vec<Cell>) -> (result: Result<
        Universe,
        UniverseError,
    >)
        ensures
            match result {
                Ok(u) => {
                    &&& width >= 1
                    &&& height >= 1
                    &&& cells@.len() == (width as int) * (height as int)
                    &&& wf(u@)
                    &&& u@.width == width
                    &&& u@.height == height
                    &&& u@.cells == cells@
                },
                Err(UniverseError::ZeroDimension) => width == 0 || height == 0,
                Err(UniverseError::CellCountMismatch) => {
                    &&& width >= 1
                    &&& height >= 1
                    &&& cells@.len() != (width as int) * (height as int)
                },
                Err(UniverseError::SizeOverflow) => false,
            },
    {
        if width == 0 || height == 0 {
            return Err(UniverseError::ZeroDimension);
        }
        proof {
            lemma_dimension_product_fits_u64(width as int, height as int);
        }
        let num_cells = (width as u64) * (height as u64);
        if (cells.len() as u64) != num_cells {
            return Err(UniverseError::CellCountMismatch);
        }
        Ok(Universe { width, height, cells })
    }

    /// The number of columns.
    pub fn width(&self) -> (w: u32)
        ensures
            w == self@.width,
    {
        self.width
    }

    /// The number of rows.
    pub fn height(&self) -> (h: u32)
        ensures
            h == self@.height,
    {
        self.height
    }

    /// The row-major position of the cell at `(row, column)`: exactly
    /// `row * width + column`.
    pub fn get_cell_idx(&self, row: u32, column: u32) -> (idx: usize)
        requires
            wf(self@),
            row < self@.height,
            column < self@.width,
        ensures
            idx == cell_index(self@, row as int, column as int),
            idx < self@.cells.len(),
    {
        proof {
            lemma_index_in_range(self@, row as int, column as int);
        }
        let n = self.cells.len();
        let idx: usize = (row as usize) * (self.width as usize) + (column as usize);
        assert(idx < n);
        idx
    }

    /// The cell at an in-range coordinate pair.
    pub fn get_cell(&self, row: u32, column: u32) -> (c: Cell)
        requires
            wf(self@),
            row < self@.height,
            column < self@.width,
        ensures
            c == self@.cells[cell_index(self@, row as int, column as int)],
    {
        let idx = self.get_cell_idx(row, column);
        self.cells[idx]
    }

    /// The 0/1 value of one wrapped neighbor of `(row, column)`.
    fn wrapped_value(&self, row: u32, column: u32, delta_row: u32, delta_col: u32) -> (v: u8)
        requires
            wf(self@),
            row < self@.height,
            column < self@.width,
            delta_row <= self@.height,
            delta_col <= self@.width,
        ensures
            v == wrapped_neighbor(
                self@,
                row as int,
                column as int,
                delta_row as int,
                delta_col as int,
            ),
            v <= 1,
    {
        let neighbor_row = (((row as u64) + (delta_row as u64)) % (self.height as u64)) as u32;
        let neighbor_col = (((column as u64) + (delta_col as u64)) % (self.width as u64)) as u32;
        let idx = self.get_cell_idx(neighbor_row, neighbor_col);
        self.cells[idx].as_count()
    }

    /// The number of live cells among the 8 wrapped Moore neighbors of
    /// `(row, column)`; always at most 8.
    pub fn count_neighbors(&self, row: u32, column: u32) -> (count: u8)
        requires
            wf(self@),
            row < self@.height,
            column < self@.width,
        ensures
            count == live_neighbors(self@, row as int, column as int),
            count <= 8,
    {
        let h = self.height;
        let w = self.width;
        let mut count: u8 = 0;
        count = count + self.wrapped_value(row, column, h - 1, w - 1);
        count = count + self.wrapped_value(row, column, h - 1, 0);
        count = count + self.wrapped_value(row, column, h - 1, 1);
        count = count + self.wrapped_value(row, column, 0, w - 1);
        count = count + self.wrapped_value(row, column, 0, 1);
        count = count + self.wrapped_value(row, column, 1, w - 1);
        count = count + self.wrapped_value(row, column, 1, 0);
        count = count + self.wrapped_value(row, column, 1, 1);
        count
    }

    /// Advance the grid by one generation: the new grid is exactly
    /// `step_grid` of the old one. Every cell's new state is computed from
    /// the old grid into a fresh buffer before the grid is replaced, so no
    /// evaluation observes a partially updated generation.
    pub fn tick(&mut self)
        requires
            wf(old(self)@),
        ensures
            final(self)@ == step_grid(old(self)@),
            wf(final(self)@),
    {
        let ghost v = self@;
        let w = self.width;
        let h = self.height;
        let mut next_gen: Vec<Cell> = Vec::new();
        let mut row: u32 = 0;
        while row < h
            invariant
                wf(v),
                self@ == v,
                w == v.width,
                h == v.height,
                row <= h,
                next_gen@.len() == (row as int) * (v.width as int),
                forall|k: int|
                    0 <= k < next_gen@.len() ==> next_gen@[k] == step_grid(v).cells[k],
            decreases h - row,
        {
            let mut col: u32 = 0;
            while col < w
                invariant
                    wf(v),
                    self@ == v,
                    w == v.width,
                    h == v.height,
                    row < h,
                    col <= w,
                    next_gen@.len() == (row as int) * (v.width as int) + (col as int),
                    forall|k: int|
                        0 <= k < next_gen@.len() ==> next_gen@[k] == step_grid(v).cells[k],
                decreases w - col,
            {
                let idx = self.get_cell_idx(row, col);
                let cell = self.cells[idx];
                let live = self.count_neighbors(row, col);
                let updated_cell = match cell {
                    Cell::Alive => if live < 2 || live > 3 {
                        Cell::Dead
                    } else {
                        cell
                    },
                    Cell::Dead => if live == 3 {
                        Cell::Alive
                    } else {
                        cell
                    },
                };
                proof {
                    lemma_index_in_range(v, row as int, col as int);
                    lemma_fundamental_div_mod_converse(
                        cell_index(v, row as int, col as int),
                        v.width as int,
                        row as int,
                        col as int,
                    );
                }
                next_gen.push(updated_cell);
                col = col + 1;
            }
            proof {
                assert((row as int + 1) * (v.width as int) == (row as int) * (v.width as int) + (
                v.width as int)) by (nonlinear_arith);
            }
            row = row + 1;
        }
        proof {
            assert((h as int) * (w as int) == (v.width * v.height) as int) by (nonlinear_arith)
                requires
                    w == v.width,
                    h == v.height,
            ;
            assert(next_gen@ =~= step_grid(v).cells);
        }
        self.cells = next_gen;
        proof {
            assert(self@ =~= step_grid(v));
        }
    }

    /// The plain-text rendering of the grid: row by row, one glyph per
    /// cell and a newline after each row.
    pub fn render_text(&self) -> (s: String)
        requires
            wf(self@),
        ensures
            s@ == grid_text(self@),
    {
        let ghost v = self@;
        let w = self.width;
        let h = self.height;
        let mut s = String::new();
        let mut row: u32 = 0;
        while row < h
            invariant
                wf(v),
                self@ == v,
                w == v.width,
                h == v.height,
                row <= h,
                s@ == rows_text(v, row as int),
            decreases h - row,
        {
            let mut col: u32 = 0;
            while col < w
                invariant
                    wf(v),
                    self@ == v,
                    w == v.width,
                    h == v.height,
                    row < h,
                    col <= w,
                    s@ == rows_text(v, row as int) + Seq::new(
                        col as nat,
                        |j: int| glyph(v.cells[cell_index(v, row as int, j)]),
                    ),
                decreases w - col,
            {
                let idx = self.get_cell_idx(row, col);
                match self.cells[idx] {
                    Cell::Alive => s.append("\u{25FC}"),
                    Cell::Dead => s.append(" "),
                }
                proof {
                    reveal_strlit("\u{25FC}");
                    reveal_strlit(" ");
                    assert(s@ =~= rows_text(v, row as int) + Seq::new(
                        (col + 1) as nat,
                        |j: int| glyph(v.cells[cell_index(v, row as int, j)]),
                    ));
                }
                col = col + 1;
            }
            s.append("\n");
            proof {
                reveal_strlit("\n");
                assert(s@ =~= rows_text(v, row as int + 1));
            }
            row = row + 1;
        }
        s
    }

    /// Replace the grid by a fresh random cell assignment of the same
    /// dimensions, as at construction time.
    pub fn reset(&mut self)
        requires
            wf(old(self)@),
        ensures
            wf(final(self)@),
            final(self)@.width == old(self)@.width,
            final(self)@.height == old(self)@.height,
            final(self)@.cells.len() == old(self)@.cells.len(),
    {
        let n = self.cells.len();
        self.cells = random_cells(n);
    }
}

impl Default for Universe {
    /// A randomized universe of the default dimensions.
    fn default() -> (u: Universe)
        ensures
            wf(u@),
            u@.width == DEFAULT_WIDTH,
            u@.height == DEFAULT_HEIGHT,
    {
        let width: u32 = DEFAULT_WIDTH;
        let height: u32 = DEFAULT_HEIGHT;
        assert((width as int) * (height as int) == 18700) by (nonlinear_arith)
            requires
                width == 187,
                height == 100,
        ;
        let cells = random_cells((width as usize) * (height as usize));
        Universe { width, height, cells }
    }
}

/// The full application state the driver holds: one universe.
#[derive(Debug)]
pub struct App {
    pub universe: Universe,
}

impl App {
    /// A fresh application state over a randomized default universe.
    pub fn new() -> (app: App)
        ensures
            wf(app.universe@),
            app.universe@.width == DEFAULT_WIDTH,
            app.universe@.height == DEFAULT_HEIGHT,
    {
        App { universe: Universe::default() }
    }
}

} // verus!
