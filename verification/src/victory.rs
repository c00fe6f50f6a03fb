//! The win detector: scans the board for an unbroken run of five (or more)
//! same-player stones, horizontally, vertically, or along either diagonal.
//!
//! The scan works on the flat row-major storage and guards every step with a
//! row-index check, so that a run never "wraps" from the end of one row into
//! the start of the next. The lemmas at the end restate the flat-index
//! conditions in plain (row, column) coordinates.

use vstd::prelude::*;

verus! {

use crate::goban::{cell_at, lemma_area_bound, lemma_flat_index, pos_in_bounds};
use crate::types::{Goban, Intersection};
use vstd::arithmetic::div_mod::{
    lemma_fundamental_div_mod,
    lemma_fundamental_div_mod_converse,
    lemma_mod_bound,
};

/// Step `j` of a rightward run from flat index `i`: the next cell exists,
/// stays on the starting row, and repeats the starting content.
pub open spec fn line_step_ok(b: Seq<Intersection>, size: int, i: int, j: int) -> bool {
    &&& 0 <= i + j < b.len()
    &&& (i + j) / size == i / size
    &&& b[i + j] == b[i]
}

/// A rightward run of five equal cells starting at flat index `i`.
pub open spec fn line_right_win_at(b: Seq<Intersection>, size: int, i: int) -> bool {
    &&& line_step_ok(b, size, i, 1)
    &&& line_step_ok(b, size, i, 2)
    &&& line_step_ok(b, size, i, 3)
    &&& line_step_ok(b, size, i, 4)
}

/// Step `j` of a downward run from flat index `i`.
pub open spec fn column_step_ok(b: Seq<Intersection>, size: int, i: int, j: int) -> bool {
    &&& 0 <= i + j * size < b.len()
    &&& b[i + j * size] == b[i]
}

/// A downward run of five equal cells starting at flat index `i`.
pub open spec fn column_down_win_at(b: Seq<Intersection>, size: int, i: int) -> bool {
    &&& column_step_ok(b, size, i, 1)
    &&& column_step_ok(b, size, i, 2)
    &&& column_step_ok(b, size, i, 3)
    &&& column_step_ok(b, size, i, 4)
}

/// Step `j` of a down-right diagonal run from flat index `i`: the next cell
/// exists, lies exactly `j` rows below the start, and repeats the content.
pub open spec fn diag_right_step_ok(b: Seq<Intersection>, size: int, i: int, j: int) -> bool {
    &&& i / size + j == (i + j * size + j) / size
    &&& 0 <= i + j * size + j < b.len()
    &&& b[i + j * size + j] == b[i]
}

/// A down-right diagonal run of five equal cells starting at flat index `i`.
pub open spec fn diag_right_win_at(b: Seq<Intersection>, size: int, i: int) -> bool {
    &&& diag_right_step_ok(b, size, i, 1)
    &&& diag_right_step_ok(b, size, i, 2)
    &&& diag_right_step_ok(b, size, i, 3)
    &&& diag_right_step_ok(b, size, i, 4)
}

/// Step `j` of a down-left diagonal run from flat index `i`.
pub open spec fn diag_left_step_ok(b: Seq<Intersection>, size: int, i: int, j: int) -> bool {
    &&& i / size + j == (i + j * size - j) / size
    &&& 0 <= i + j * size - j < b.len()
    &&& b[i + j * size - j] == b[i]
}

/// A down-left diagonal run of five equal cells starting at flat index `i`.
pub open spec fn diag_left_win_at(b: Seq<Intersection>, size: int, i: int) -> bool {
    &&& diag_left_step_ok(b, size, i, 1)
    &&& diag_left_step_ok(b, size, i, 2)
    &&& diag_left_step_ok(b, size, i, 3)
    &&& diag_left_step_ok(b, size, i, 4)
}

/// Whether the occupied cell at flat index `i` starts a winning run in any of
/// the four scanned directions.
pub open spec fn victory_at(b: Seq<Intersection>, size: int, i: int) -> bool {
    &&& b[i] != Intersection::Empty
    &&& {
        ||| line_right_win_at(b, size, i)
        ||| column_down_win_at(b, size, i)
        ||| diag_right_win_at(b, size, i)
        ||| diag_left_win_at(b, size, i)
    }
}

/// Whether the board contains a five-in-a-row for either player.
pub open spec fn board_has_victory(b: Seq<Intersection>, size: int) -> bool {
    exists|i: int| 0 <= i < b.len() && #[trigger] victory_at(b, size, i)
}

fn line_step(goban: &Goban, i: usize, j: usize) -> (r: bool)
    requires
        goban.wf(),
        i < goban.board.len(),
        1 <= j <= 4,
    ensures
        r == line_step_ok(goban.board@, goban.size as int, i as int, j as int),
{
    proof {
        lemma_area_bound(goban.size as int);
    }
    let idx = i + j;
    if idx >= goban.board.len() {
        return false;
    }
    if idx / goban.size != i / goban.size {
        return false;
    }
    goban.board[idx] == goban.board[i]
}

/// Whether the four cells right of `array_index` stay on its row and repeat
/// its content: a horizontal five starting there.
pub fn check_line_right(goban: &Goban, array_index: usize) -> (r: bool)
    requires
        goban.wf(),
        array_index < goban.board.len(),
    ensures
        r == line_right_win_at(goban.board@, goban.size as int, array_index as int),
{
    line_step(goban, array_index, 1) && line_step(goban, array_index, 2) && line_step(
        goban,
        array_index,
        3,
    ) && line_step(goban, array_index, 4)
}

fn column_step(goban: &Goban, i: usize, j: usize) -> (r: bool)
    requires
        goban.wf(),
        i < goban.board.len(),
        1 <= j <= 4,
    ensures
        r == column_step_ok(goban.board@, goban.size as int, i as int, j as int),
{
    proof {
        lemma_area_bound(goban.size as int);
    }
    let idx = i + j * goban.size;
    if idx >= goban.board.len() {
        return false;
    }
    goban.board[idx] == goban.board[i]
}

/// Whether the four cells below `array_index` repeat its content: a vertical
/// five starting there.
pub fn check_column_down(goban: &Goban, array_index: usize) -> (r: bool)
    requires
        goban.wf(),
        array_index < goban.board.len(),
    ensures
        r == column_down_win_at(goban.board@, goban.size as int, array_index as int),
{
    column_step(goban, array_index, 1) && column_step(goban, array_index, 2) && column_step(
        goban,
        array_index,
        3,
    ) && column_step(goban, array_index, 4)
}

fn diag_right_step(goban: &Goban, i: usize, j: usize) -> (r: bool)
    requires
        goban.wf(),
        i < goban.board.len(),
        1 <= j <= 4,
    ensures
        r == diag_right_step_ok(goban.board@, goban.size as int, i as int, j as int),
{
    proof {
        lemma_area_bound(goban.size as int);
    }
    let idx = i + j * goban.size + j;
    if i / goban.size + j != idx / goban.size {
        return false;
    }
    if idx >= goban.board.len() {
        return false;
    }
    goban.board[idx] == goban.board[i]
}

/// Whether the four cells diagonally down-right of `array_index` exist, drop
/// one row per step, and repeat its content.
pub fn check_diagonal_down_right(goban: &Goban, array_index: usize) -> (r: bool)
    requires
        goban.wf(),
        array_index < goban.board.len(),
    ensures
        r == diag_right_win_at(goban.board@, goban.size as int, array_index as int),
{
    diag_right_step(goban, array_index, 1) && diag_right_step(goban, array_index, 2)
        && diag_right_step(goban, array_index, 3) && diag_right_step(goban, array_index, 4)
}

fn diag_left_step(goban: &Goban, i: usize, j: usize) -> (r: bool)
    requires
        goban.wf(),
        i < goban.board.len(),
        1 <= j <= 4,
    ensures
        r == diag_left_step_ok(goban.board@, goban.size as int, i as int, j as int),
{
    proof {
        lemma_area_bound(goban.size as int);
        assert(j <= j * goban.size <= 4 * goban.size) by (nonlinear_arith)
            requires
                goban.size >= 1,
                1 <= j <= 4,
        ;
    }
    let idx = i + j * goban.size - j;
    if i / goban.size + j != idx / goban.size {
        return false;
    }
    if idx >= goban.board.len() {
        return false;
    }
    goban.board[idx] == goban.board[i]
}

/// Whether the four cells diagonally down-left of `array_index` exist, drop
/// one row per step, and repeat its content.
pub fn check_diagonal_down_left(goban: &Goban, array_index: usize) -> (r: bool)
    requires
        goban.wf(),
        array_index < goban.board.len(),
    ensures
        r == diag_left_win_at(goban.board@, goban.size as int, array_index as int),
{
    diag_left_step(goban, array_index, 1) && diag_left_step(goban, array_index, 2)
        && diag_left_step(goban, array_index, 3) && diag_left_step(goban, array_index, 4)
}

/// Scans every cell of the board as a candidate run start and reports whether
/// any occupied cell begins a five-in-a-row in one of the four directions.
pub fn check_board_victory(goban: &Goban) -> (r: bool)
    requires
        goban.wf(),
    ensures
        r == board_has_victory(goban.board@, goban.size as int),
{
    let n = goban.board.len();
    let mut i: usize = 0;
    while i < n
        invariant
            goban.wf(),
            n == goban.board.len(),
            i <= n,
            forall|t: int| 0 <= t < i ==> !#[trigger] victory_at(goban.board@, goban.size as int, t),
        decreases n - i,
    {
        let cell = goban.board[i];
        if cell != Intersection::Empty {
            if check_line_right(goban, i) || check_column_down(goban, i)
                || check_diagonal_down_right(goban, i) || check_diagonal_down_left(goban, i) {
                proof {
                    assert(victory_at(goban.board@, goban.size as int, i as int));
                }
                return true;
            }
        }
        proof {
            assert(!victory_at(goban.board@, goban.size as int, i as int));
        }
        i = i + 1;
    }
    false
}

/// A horizontal five starting at `(row, col)`: four more columns exist to the
/// right and repeat the starting cell.
pub open spec fn row_run_at(b: Seq<Intersection>, size: int, row: int, col: int) -> bool {
    &&& col + 4 < size
    &&& cell_at(b, size, row, col + 1) == cell_at(b, size, row, col)
    &&& cell_at(b, size, row, col + 2) == cell_at(b, size, row, col)
    &&& cell_at(b, size, row, col + 3) == cell_at(b, size, row, col)
    &&& cell_at(b, size, row, col + 4) == cell_at(b, size, row, col)
}

/// A vertical five starting at `(row, col)`.
pub open spec fn column_run_at(b: Seq<Intersection>, size: int, row: int, col: int) -> bool {
    &&& row + 4 < size
    &&& cell_at(b, size, row + 1, col) == cell_at(b, size, row, col)
    &&& cell_at(b, size, row + 2, col) == cell_at(b, size, row, col)
    &&& cell_at(b, size, row + 3, col) == cell_at(b, size, row, col)
    &&& cell_at(b, size, row + 4, col) == cell_at(b, size, row, col)
}

/// A down-right diagonal five starting at `(row, col)`.
pub open spec fn diag_right_run_at(b: Seq<Intersection>, size: int, row: int, col: int) -> bool {
    &&& row + 4 < size
    &&& col + 4 < size
    &&& cell_at(b, size, row + 1, col + 1) == cell_at(b, size, row, col)
    &&& cell_at(b, size, row + 2, col + 2) == cell_at(b, size, row, col)
    &&& cell_at(b, size, row + 3, col + 3) == cell_at(b, size, row, col)
    &&& cell_at(b, size, row + 4, col + 4) == cell_at(b, size, row, col)
}

/// A down-left diagonal five starting at `(row, col)`.
pub open spec fn diag_left_run_at(b: Seq<Intersection>, size: int, row: int, col: int) -> bool {
    &&& row + 4 < size
    &&& col >= 4
    &&& cell_at(b, size, row + 1, col - 1) == cell_at(b, size, row, col)
    &&& cell_at(b, size, row + 2, col - 2) == cell_at(b, size, row, col)
    &&& cell_at(b, size, row + 3, col - 3) == cell_at(b, size, row, col)
    &&& cell_at(b, size, row + 4, col - 4) == cell_at(b, size, row, col)
}

/// An occupied cell at `(row, col)` that starts a five-in-a-row in one of the
/// four scanned directions, stated in plain coordinates.
pub open spec fn run_start_at(b: Seq<Intersection>, size: int, row: int, col: int) -> bool {
    &&& pos_in_bounds(size, (row, col))
    &&& cell_at(b, size, row, col) != Intersection::Empty
    &&& {
        ||| row_run_at(b, size, row, col)
        ||| column_run_at(b, size, row, col)
        ||| diag_right_run_at(b, size, row, col)
        ||| diag_left_run_at(b, size, row, col)
    }
}

/// Whether some cell of the board starts a five-in-a-row, stated in plain
/// coordinates.
pub open spec fn has_five_in_a_row(b: Seq<Intersection>, size: int) -> bool {
    exists|row: int, col: int| #[trigger] run_start_at(b, size, row, col)
}

/// The flat index of `(row, col)` divides back to `row` when `col` is a
/// column of the grid.
proof fn lemma_row_of_flat(size: int, row: int, col: int)
    requires
        size > 0,
        0 <= row,
        0 <= col < size,
    ensures
        (row * size + col) / size == row,
{
    lemma_fundamental_div_mod_converse(row * size + col, size, row, col);
}

proof fn lemma_line_step_coords(b: Seq<Intersection>, size: int, row: int, col: int, j: int)
    requires
        b.len() == size * size,
        size >= 5,
        pos_in_bounds(size, (row, col)),
        1 <= j <= 4,
    ensures
        line_step_ok(b, size, row * size + col, j) == (col + j < size && cell_at(
            b,
            size,
            row,
            col + j,
        ) == cell_at(b, size, row, col)),
{
    let i = row * size + col;
    lemma_row_of_flat(size, row, col);
    if col + j < size {
        lemma_row_of_flat(size, row, col + j);
        lemma_flat_index(size, row, col + j);
    } else {
        assert((row + 1) * size == row * size + size) by (nonlinear_arith);
        lemma_row_of_flat(size, row + 1, col + j - size);
        assert((i + j) / size == row + 1);
    }
}

proof fn lemma_column_step_coords(b: Seq<Intersection>, size: int, row: int, col: int, j: int)
    requires
        b.len() == size * size,
        size >= 5,
        pos_in_bounds(size, (row, col)),
        1 <= j <= 4,
    ensures
        column_step_ok(b, size, row * size + col, j) == (row + j < size && cell_at(
            b,
            size,
            row + j,
            col,
        ) == cell_at(b, size, row, col)),
{
    let i = row * size + col;
    assert((row + j) * size == row * size + j * size) by (nonlinear_arith);
    if row + j < size {
        lemma_flat_index(size, row + j, col);
    } else {
        assert((row + j) * size >= size * size) by (nonlinear_arith)
            requires
                row + j >= size,
                size >= 0,
        ;
    }
}

proof fn lemma_diag_right_step_coords(b: Seq<Intersection>, size: int, row: int, col: int, j: int)
    requires
        b.len() == size * size,
        size >= 5,
        pos_in_bounds(size, (row, col)),
        1 <= j <= 4,
    ensures
        diag_right_step_ok(b, size, row * size + col, j) == (row + j < size && col + j < size
            && cell_at(b, size, row + j, col + j) == cell_at(b, size, row, col)),
{
    let i = row * size + col;
    let ni = i + j * size + j;
    lemma_row_of_flat(size, row, col);
    assert((row + j) * size == row * size + j * size) by (nonlinear_arith);
    if col + j < size {
        lemma_row_of_flat(size, row + j, col + j);
        assert(ni / size == row + j);
        if row + j < size {
            lemma_flat_index(size, row + j, col + j);
        } else {
            assert((row + j) * size >= size * size) by (nonlinear_arith)
                requires
                    row + j >= size,
                    size >= 0,
            ;
        }
    } else {
        assert((row + j + 1) * size == row * size + j * size + size) by (nonlinear_arith);
        lemma_row_of_flat(size, row + j + 1, col + j - size);
        assert(ni / size == row + j + 1);
    }
}

proof fn lemma_diag_left_step_coords(b: Seq<Intersection>, size: int, row: int, col: int, j: int)
    requires
        b.len() == size * size,
        size >= 5,
        pos_in_bounds(size, (row, col)),
        1 <= j <= 4,
    ensures
        diag_left_step_ok(b, size, row * size + col, j) == (row + j < size && col - j >= 0
            && cell_at(b, size, row + j, col - j) == cell_at(b, size, row, col)),
{
    let i = row * size + col;
    let ni = i + j * size - j;
    lemma_row_of_flat(size, row, col);
    assert((row + j) * size == row * size + j * size) by (nonlinear_arith);
    if col - j >= 0 {
        lemma_row_of_flat(size, row + j, col - j);
        assert(ni / size == row + j);
        if row + j < size {
            lemma_flat_index(size, row + j, col - j);
        } else {
            assert((row + j) * size >= size * size) by (nonlinear_arith)
                requires
                    row + j >= size,
                    size >= 0,
            ;
        }
    } else {
        assert((row + j - 1) * size == row * size + j * size - size) by (nonlinear_arith);
        lemma_row_of_flat(size, row + j - 1, col - j + size);
        assert(ni / size == row + j - 1);
    }
}

/// A rightward flat-index run equals a horizontal run in coordinates: the
/// per-step row check admits exactly the runs that stay inside one row.
pub proof fn lemma_line_right_coords(b: Seq<Intersection>, size: int, row: int, col: int)
    requires
        b.len() == size * size,
        size >= 5,
        pos_in_bounds(size, (row, col)),
    ensures
        line_right_win_at(b, size, row * size + col) == row_run_at(b, size, row, col),
{
    lemma_line_step_coords(b, size, row, col, 1);
    lemma_line_step_coords(b, size, row, col, 2);
    lemma_line_step_coords(b, size, row, col, 3);
    lemma_line_step_coords(b, size, row, col, 4);
}

/// A downward flat-index run equals a vertical run in coordinates.
pub proof fn lemma_column_down_coords(b: Seq<Intersection>, size: int, row: int, col: int)
    requires
        b.len() == size * size,
        size >= 5,
        pos_in_bounds(size, (row, col)),
    ensures
        column_down_win_at(b, size, row * size + col) == column_run_at(b, size, row, col),
{
    lemma_column_step_coords(b, size, row, col, 1);
    lemma_column_step_coords(b, size, row, col, 2);
    lemma_column_step_coords(b, size, row, col, 3);
    lemma_column_step_coords(b, size, row, col, 4);
}

/// A down-right flat-index run equals a down-right diagonal run in
/// coordinates.
pub proof fn lemma_diag_right_coords(b: Seq<Intersection>, size: int, row: int, col: int)
    requires
        b.len() == size * size,
        size >= 5,
        pos_in_bounds(size, (row, col)),
    ensures
        diag_right_win_at(b, size, row * size + col) == diag_right_run_at(b, size, row, col),
{
    lemma_diag_right_step_coords(b, size, row, col, 1);
    lemma_diag_right_step_coords(b, size, row, col, 2);
    lemma_diag_right_step_coords(b, size, row, col, 3);
    lemma_diag_right_step_coords(b, size, row, col, 4);
}

/// A down-left flat-index run equals a down-left diagonal run in coordinates.
pub proof fn lemma_diag_left_coords(b: Seq<Intersection>, size: int, row: int, col: int)
    requires
        b.len() == size * size,
        size >= 5,
        pos_in_bounds(size, (row, col)),
    ensures
        diag_left_win_at(b, size, row * size + col) == diag_left_run_at(b, size, row, col),
{
    lemma_diag_left_step_coords(b, size, row, col, 1);
    lemma_diag_left_step_coords(b, size, row, col, 2);
    lemma_diag_left_step_coords(b, size, row, col, 3);
    lemma_diag_left_step_coords(b, size, row, col, 4);
}

/// Five-in-a-row law: the flat-index scan reports a victory exactly when, in
/// plain coordinates, some occupied cell starts an unbroken run of five equal
/// cells within a row, within a column, or along a diagonal. In particular a
/// "run" that wraps across a row boundary of the flat storage is never
/// reported, and a run of only four never suffices.
pub proof fn lemma_victory_iff_five_in_a_row(b: Seq<Intersection>, size: int)
    requires
        b.len() == size * size,
        size >= 5,
    ensures
        board_has_victory(b, size) == has_five_in_a_row(b, size),
{
    if board_has_victory(b, size) {
        let i = choose|i: int| 0 <= i < b.len() && #[trigger] victory_at(b, size, i);
        let row = i / size;
        let col = i % size;
        lemma_fundamental_div_mod(i, size);
        lemma_mod_bound(i, size);
        assert(i == row * size + col);
        assert(0 <= row < size) by (nonlinear_arith)
            requires
                i == size * row + col,
                0 <= col < size,
                0 <= i < size * size,
                size > 0,
        ;
        lemma_line_right_coords(b, size, row, col);
        lemma_column_down_coords(b, size, row, col);
        lemma_diag_right_coords(b, size, row, col);
        lemma_diag_left_coords(b, size, row, col);
        assert(run_start_at(b, size, row, col));
    }
    if has_five_in_a_row(b, size) {
        let (row, col) = choose|row: int, col: int| #[trigger] run_start_at(b, size, row, col);
        lemma_flat_index(size, row, col);
        lemma_line_right_coords(b, size, row, col);
        lemma_column_down_coords(b, size, row, col);
        lemma_diag_right_coords(b, size, row, col);
        lemma_diag_left_coords(b, size, row, col);
        assert(victory_at(b, size, row * size + col));
    }
}

} // verus!
