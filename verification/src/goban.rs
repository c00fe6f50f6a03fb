//! The board component: stores intersections, validates moves, applies a move
//! including capture resolution, and reports the net change in occupancy.

use vstd::prelude::*;

verus! {

use crate::types::{Goban, GobanSize, Intersection, MoveError, Player, opponent_of};

/// Whether `(row, col)` addresses a cell of a board with the given side length.
pub open spec fn pos_in_bounds(size: int, pos: (int, int)) -> bool {
    0 <= pos.0 < size && 0 <= pos.1 < size
}

/// The cell at `(row, col)` of a flat row-major board.
pub open spec fn cell_at(b: Seq<Intersection>, size: int, row: int, col: int) -> Intersection {
    b[row * size + col]
}

/// How many cells of the board hold a stone.
pub open spec fn occupied_count(b: Seq<Intersection>) -> int
    decreases b.len(),
{
    if b.len() == 0 {
        0
    } else {
        occupied_count(b.drop_last()) + if b.last() == Intersection::Empty {
            0int
        } else {
            1int
        }
    }
}

/// A flat index built from in-bounds coordinates addresses a cell of the grid.
pub proof fn lemma_flat_index(size: int, row: int, col: int)
    requires
        0 <= row < size,
        0 <= col < size,
    ensures
        0 <= row * size,
        row * size + col < size * size,
{
    assert(0 <= row * size && row * size + col < size * size) by (nonlinear_arith)
        requires
            0 <= row < size,
            0 <= col < size,
    ;
}

/// A supported side length gives a grid of at most 361 cells.
pub proof fn lemma_area_bound(size: int)
    requires
        size == 9 || size == 14 || size == 19,
    ensures
        size * size <= 361,
{
    assert(size * size <= 361) by (nonlinear_arith)
        requires
            size == 9 || size == 14 || size == 19,
    ;
}

/// Distinct in-bounds coordinates map to distinct flat indices.
pub proof fn lemma_flat_index_injective(size: int, r1: int, c1: int, r2: int, c2: int)
    requires
        0 <= r1 < size,
        0 <= c1 < size,
        0 <= r2 < size,
        0 <= c2 < size,
        r1 * size + c1 == r2 * size + c2,
    ensures
        r1 == r2 && c1 == c2,
{
    assert(r1 == r2 && c1 == c2) by (nonlinear_arith)
        requires
            0 <= r1 < size,
            0 <= c1 < size,
            0 <= r2 < size,
            0 <= c2 < size,
            r1 * size + c1 == r2 * size + c2,
    ;
}

/// The occupancy count never leaves `[0, len]`.
pub proof fn lemma_occupied_count_bounds(b: Seq<Intersection>)
    ensures
        0 <= occupied_count(b) <= b.len(),
    decreases b.len(),
{
    if b.len() > 0 {
        lemma_occupied_count_bounds(b.drop_last());
    }
}

/// A board of empty cells has occupancy zero.
pub proof fn lemma_occupied_count_all_empty(b: Seq<Intersection>)
    requires
        forall|i: int| 0 <= i < b.len() ==> b[i] == Intersection::Empty,
    ensures
        occupied_count(b) == 0,
    decreases b.len(),
{
    if b.len() > 0 {
        lemma_occupied_count_all_empty(b.drop_last());
    }
}

/// Overwriting one cell moves the occupancy count by the difference between
/// the new and the old content.
pub proof fn lemma_occupied_count_update(b: Seq<Intersection>, i: int, v: Intersection)
    requires
        0 <= i < b.len(),
    ensures
        occupied_count(b.update(i, v)) == occupied_count(b) - (if b[i] == Intersection::Empty {
            0int
        } else {
            1int
        }) + (if v == Intersection::Empty {
            0int
        } else {
            1int
        }),
    decreases b.len(),
{
    let b2 = b.update(i, v);
    if i == b.len() - 1 {
        assert(b2.drop_last() =~= b.drop_last());
    } else {
        assert(b2.drop_last() =~= b.drop_last().update(i, v));
        lemma_occupied_count_update(b.drop_last(), i, v);
    }
}

impl Goban {
    /// The structural invariant: a supported side length, and flat storage of
    /// exactly `size * size` cells.
    pub open spec fn wf(self) -> bool {
        &&& (self.size == 9 || self.size == 14 || self.size == 19)
        &&& self.board@.len() == self.size * self.size
    }

    /// Allocates a board of the chosen size with every cell empty.
    pub fn new(size: GobanSize) -> (g: Goban)
        ensures
            g.wf(),
            g.size == size.spec_side(),
            forall|i: int| 0 <= i < g.board@.len() ==> g.board@[i] == Intersection::Empty,
    {
        let n = size.side();
        let cells = n * n;
        let mut board: Vec<Intersection> = Vec::new();
        let mut i: usize = 0;
        while i < cells
            invariant
                i <= cells,
                board@.len() == i,
                forall|j: int| 0 <= j < i ==> board@[j] == Intersection::Empty,
            decreases cells - i,
        {
            board.push(Intersection::Empty);
            i = i + 1;
        }
        Goban { size: n, board }
    }

    /// Reads the cell at `pos`, or reports that `pos` is off the board.
    pub fn get(&self, pos: (usize, usize)) -> (r: Result<Intersection, MoveError>)
        requires
            self.wf(),
        ensures
            pos_in_bounds(self.size as int, (pos.0 as int, pos.1 as int)) ==> r == Ok::<
                Intersection,
                MoveError,
            >(cell_at(self.board@, self.size as int, pos.0 as int, pos.1 as int)),
            !pos_in_bounds(self.size as int, (pos.0 as int, pos.1 as int)) ==> r == Err::<
                Intersection,
                MoveError,
            >(MoveError::OutOfBounds),
    {
        if pos.0 >= self.size || pos.1 >= self.size {
            return Err(MoveError::OutOfBounds);
        }
        proof {
            lemma_flat_index(self.size as int, pos.0 as int, pos.1 as int);
            lemma_area_bound(self.size as int);
        }
        Ok(self.board[pos.0 * self.size + pos.1])
    }

    /// Unconditionally overwrites the cell at `pos`, or reports that `pos` is
    /// off the board. This is the raw write path; it performs no occupancy
    /// check and resolves no captures.
    pub fn set(&mut self, pos: (usize, usize), value: Intersection) -> (r: Result<(), MoveError>)
        requires
            old(self).wf(),
        ensures
            final(self).wf(),
            final(self).size == old(self).size,
            pos_in_bounds(old(self).size as int, (pos.0 as int, pos.1 as int)) ==> ({
                &&& r == Ok::<(), MoveError>(())
                &&& final(self).board@ == old(self).board@.update(
                    pos.0 as int * old(self).size as int + pos.1 as int,
                    value,
                )
            }),
            !pos_in_bounds(old(self).size as int, (pos.0 as int, pos.1 as int)) ==> ({
                &&& r == Err::<(), MoveError>(MoveError::OutOfBounds)
                &&& *final(self) == *old(self)
            }),
    {
        if pos.0 >= self.size || pos.1 >= self.size {
            return Err(MoveError::OutOfBounds);
        }
        proof {
            lemma_flat_index(self.size as int, pos.0 as int, pos.1 as int);
            lemma_area_bound(self.size as int);
        }
        self.board.set(pos.0 * self.size + pos.1, value);
        Ok(())
    }

    /// Accepts a move iff it is on the board and its cell is empty; otherwise
    /// says which rule it breaks. No further restriction is applied.
    pub fn is_move_valid(&self, pos: (usize, usize)) -> (r: Result<(), MoveError>)
        requires
            self.wf(),
        ensures
            !pos_in_bounds(self.size as int, (pos.0 as int, pos.1 as int)) ==> r == Err::<
                (),
                MoveError,
            >(MoveError::OutOfBounds),
            pos_in_bounds(self.size as int, (pos.0 as int, pos.1 as int)) && cell_at(
                self.board@,
                self.size as int,
                pos.0 as int,
                pos.1 as int,
            ) != Intersection::Empty ==> r == Err::<(), MoveError>(MoveError::CellOccupied),
            pos_in_bounds(self.size as int, (pos.0 as int, pos.1 as int)) && cell_at(
                self.board@,
                self.size as int,
                pos.0 as int,
                pos.1 as int,
            ) == Intersection::Empty ==> r == Ok::<(), MoveError>(()),
    {
        if pos.0 >= self.size || pos.1 >= self.size {
            return Err(MoveError::OutOfBounds);
        }
        match self.get(pos) {
            Ok(Intersection::Empty) => Ok(()),
            Ok(_) => Err(MoveError::CellOccupied),
            Err(err) => Err(err),
        }
    }
}

/// Direction `k` of the eight compass directions, as a (row delta, col delta)
/// pair, in the order the capture scan walks them.
pub open spec fn dir_of(k: int) -> (int, int) {
    if k == 0 {
        (-1, -1)
    } else if k == 1 {
        (0, -1)
    } else if k == 2 {
        (1, -1)
    } else if k == 3 {
        (-1, 0)
    } else if k == 4 {
        (1, 0)
    } else if k == 5 {
        (-1, 1)
    } else if k == 6 {
        (0, 1)
    } else {
        (1, 1)
    }
}

/// The cell `m` steps away from `pos` along direction `d`.
pub open spec fn step_cell(pos: (int, int), d: (int, int), m: int) -> (int, int) {
    (pos.0 + d.0 * m, pos.1 + d.1 * m)
}

/// Whether the cell `m` steps from `pos` along `d` lies on the board and holds
/// `expected`, for a positive step count. This is exactly what
/// [`Goban::check_alignment`] reports.
pub open spec fn alignment_hit(
    b: Seq<Intersection>,
    size: int,
    pos: (int, int),
    d: (int, int),
    m: int,
    expected: Intersection,
) -> bool {
    &&& m >= 1
    &&& pos_in_bounds(size, step_cell(pos, d, m))
    &&& cell_at(b, size, step_cell(pos, d, m).0, step_cell(pos, d, m).1) == expected
}

/// The capture pattern along one direction: the two cells next to `pos` hold
/// the opponent, and the cell behind them holds `player`'s own stone.
pub open spec fn captures_dir(
    b: Seq<Intersection>,
    size: int,
    pos: (int, int),
    d: (int, int),
    player: Player,
) -> bool {
    &&& alignment_hit(b, size, pos, d, 1, Intersection::OccupiedBy(opponent_of(player)))
    &&& alignment_hit(b, size, pos, d, 2, Intersection::OccupiedBy(opponent_of(player)))
    &&& alignment_hit(b, size, pos, d, 3, Intersection::OccupiedBy(player))
}

/// How many of the first `k` directions show the capture pattern on board `b`.
pub open spec fn captures_upto(
    b: Seq<Intersection>,
    size: int,
    pos: (int, int),
    player: Player,
    k: int,
) -> int
    decreases k,
{
    if k <= 0 {
        0
    } else {
        captures_upto(b, size, pos, player, k - 1) + if captures_dir(
            b,
            size,
            pos,
            dir_of(k - 1),
            player,
        ) {
            1int
        } else {
            0int
        }
    }
}

/// Whether `cell` is one of the two stones removed by a capture along one of
/// the first `k` directions, judged on board `b`.
pub open spec fn cell_cleared_upto(
    b: Seq<Intersection>,
    size: int,
    pos: (int, int),
    player: Player,
    k: int,
    cell: (int, int),
) -> bool
    decreases k,
{
    if k <= 0 {
        false
    } else {
        ||| cell_cleared_upto(b, size, pos, player, k - 1, cell)
        ||| (captures_dir(b, size, pos, dir_of(k - 1), player) && (cell == step_cell(
            pos,
            dir_of(k - 1),
            1,
        ) || cell == step_cell(pos, dir_of(k - 1), 2)))
    }
}

/// The board after a successful move at `pos`: the new stone is placed, the
/// captured stones are cleared, and every other cell keeps its content.
pub open spec fn play_result_cell(
    b: Seq<Intersection>,
    size: int,
    pos: (int, int),
    player: Player,
    r: int,
    c: int,
) -> Intersection {
    if (r, c) == pos {
        Intersection::OccupiedBy(player)
    } else if cell_cleared_upto(b, size, pos, player, 8, (r, c)) {
        Intersection::Empty
    } else {
        cell_at(b, size, r, c)
    }
}

/// No compass direction is the zero vector.
proof fn lemma_dir_nonzero(k: int)
    requires
        0 <= k < 8,
    ensures
        dir_of(k).0 != 0 || dir_of(k).1 != 0,
{
}

/// Offsets taken along two distinct compass directions never land on the same
/// cell: the step multiples keep each direction's sign pattern, and the eight
/// sign patterns are pairwise distinct.
proof fn lemma_dir_offsets_distinct(i: int, k: int, mi: int, mk: int)
    requires
        0 <= i < 8,
        0 <= k < 8,
        i != k,
        1 <= mi <= 2,
        1 <= mk <= 3,
    ensures
        dir_of(i).0 * mi != dir_of(k).0 * mk || dir_of(i).1 * mi != dir_of(k).1 * mk,
{
    assert(dir_of(i).0 * mi != dir_of(k).0 * mk || dir_of(i).1 * mi != dir_of(k).1 * mk)
        by (nonlinear_arith)
        requires
            0 <= i < 8,
            0 <= k < 8,
            i != k,
            1 <= mi <= 2,
            1 <= mk <= 3,
            dir_of(i) == crate::goban::dir_of(i),
    ;
}

/// Every cell cleared by one of the first `k` directions is one of the two
/// near offsets of a direction whose capture pattern holds; the witness
/// direction and step count are returned.
proof fn lemma_cleared_characterization(
    b: Seq<Intersection>,
    size: int,
    pos: (int, int),
    player: Player,
    k: int,
    cell: (int, int),
) -> (w: (int, int))
    requires
        cell_cleared_upto(b, size, pos, player, k, cell),
    ensures
        0 <= w.0 < k,
        1 <= w.1 <= 2,
        captures_dir(b, size, pos, dir_of(w.0), player),
        cell == step_cell(pos, dir_of(w.0), w.1),
    decreases k,
{
    if cell_cleared_upto(b, size, pos, player, k - 1, cell) {
        lemma_cleared_characterization(b, size, pos, player, k - 1, cell)
    } else if cell == step_cell(pos, dir_of(k - 1), 1) {
        (k - 1, 1)
    } else {
        (k - 1, 2)
    }
}

/// While the capture scan walks the directions in order, the cells it has
/// already cleared belong to earlier directions only, so what direction `k`
/// reads on the working board equals what it would read on the board the scan
/// started from.
proof fn lemma_checks_unchanged(
    b0: Seq<Intersection>,
    b: Seq<Intersection>,
    size: int,
    pos: (int, int),
    player: Player,
    k: int,
)
    requires
        0 <= k < 8,
        forall|r: int, c: int|
            pos_in_bounds(size, (r, c)) ==> #[trigger] cell_at(b, size, r, c) == (
            if cell_cleared_upto(b0, size, pos, player, k, (r, c)) {
                Intersection::Empty
            } else {
                cell_at(b0, size, r, c)
            }),
    ensures
        forall|m: int, e: Intersection|
            1 <= m <= 3 ==> #[trigger] alignment_hit(b, size, pos, dir_of(k), m, e)
                == alignment_hit(b0, size, pos, dir_of(k), m, e),
{
    assert forall|m: int, e: Intersection|
        1 <= m <= 3 implies #[trigger] alignment_hit(b, size, pos, dir_of(k), m, e)
        == alignment_hit(b0, size, pos, dir_of(k), m, e) by {
        let t = step_cell(pos, dir_of(k), m);
        if pos_in_bounds(size, t) {
            if cell_cleared_upto(b0, size, pos, player, k, t) {
                let w = lemma_cleared_characterization(b0, size, pos, player, k, t);
                lemma_dir_offsets_distinct(w.0, k, w.1, m);
                assert(false);
            }
            assert(cell_at(b, size, t.0, t.1) == cell_at(b0, size, t.0, t.1));
        }
    }
}

/// The eight compass directions in scan order, as executable values.
fn dir_at(k: usize) -> (d: (isize, isize))
    requires
        k < 8,
    ensures
        (d.0 as int, d.1 as int) == dir_of(k as int),
        -1 <= d.0 <= 1,
        -1 <= d.1 <= 1,
{
    if k == 0 {
        (-1, -1)
    } else if k == 1 {
        (0, -1)
    } else if k == 2 {
        (1, -1)
    } else if k == 3 {
        (-1, 0)
    } else if k == 4 {
        (1, 0)
    } else if k == 5 {
        (-1, 1)
    } else if k == 6 {
        (0, 1)
    } else {
        (1, 1)
    }
}

impl Goban {
    /// Looks `multiplier` steps away from `pos` along `align` and returns that
    /// position when it lies on the board and holds `expected`; `None` for a
    /// non-positive step count, a position off the board, or other content.
    pub fn check_alignment(
        &self,
        pos: (usize, usize),
        align: (isize, isize),
        multiplier: isize,
        expected: Intersection,
    ) -> (r: Option<(usize, usize)>)
        requires
            self.wf(),
            pos.0 < self.size,
            pos.1 < self.size,
            -1 <= align.0 <= 1,
            -1 <= align.1 <= 1,
            -3 <= multiplier <= 3,
        ensures
            (r is Some) == alignment_hit(
                self.board@,
                self.size as int,
                (pos.0 as int, pos.1 as int),
                (align.0 as int, align.1 as int),
                multiplier as int,
                expected,
            ),
            r is Some ==> (r->Some_0.0 as int, r->Some_0.1 as int) == step_cell(
                (pos.0 as int, pos.1 as int),
                (align.0 as int, align.1 as int),
                multiplier as int,
            ),
    {
        proof {
            assert(-3 <= align.0 * multiplier <= 3 && -3 <= align.1 * multiplier <= 3)
                by (nonlinear_arith)
                requires
                    -1 <= align.0 <= 1,
                    -1 <= align.1 <= 1,
                    -3 <= multiplier <= 3,
            ;
        }
        let x = pos.0 as isize + align.0 * multiplier;
        let y = pos.1 as isize + align.1 * multiplier;

        if x < 0 || y < 0 || multiplier < 1 {
            return None;
        }
        let new_pos = (x as usize, y as usize);

        match self.get(new_pos) {
            Ok(value) => if value == expected {
                Some(new_pos)
            } else {
                None
            },
            Err(_) => None,
        }
    }

    /// Resolves captures for a stone of `player` about to stand at `pos`: for
    /// each of the eight directions showing the capture pattern, clears the
    /// two bracketed opponent stones. Returns how many stones were removed.
    pub fn check_capture(&mut self, pos: (usize, usize), player: Player) -> (captured: isize)
        requires
            old(self).wf(),
            pos.0 < old(self).size,
            pos.1 < old(self).size,
        ensures
            final(self).wf(),
            final(self).size == old(self).size,
            0 <= captured <= 16,
            captured == 2 * captures_upto(
                old(self).board@,
                old(self).size as int,
                (pos.0 as int, pos.1 as int),
                player,
                8,
            ),
            forall|r: int, c: int|
                pos_in_bounds(old(self).size as int, (r, c)) ==> #[trigger] cell_at(
                    final(self).board@,
                    old(self).size as int,
                    r,
                    c,
                ) == (if cell_cleared_upto(
                    old(self).board@,
                    old(self).size as int,
                    (pos.0 as int, pos.1 as int),
                    player,
                    8,
                    (r, c),
                ) {
                    Intersection::Empty
                } else {
                    cell_at(old(self).board@, old(self).size as int, r, c)
                }),
            occupied_count(final(self).board@) == occupied_count(old(self).board@) - captured,
    {
        let ghost b0 = self.board@;
        let ghost sz = self.size as int;
        let ghost posg = (pos.0 as int, pos.1 as int);

        let enemy = player.other();
        let mut captured: isize = 0;
        let mut k: usize = 0;
        while k < 8
            invariant
                self.wf(),
                self.size as int == sz,
                b0.len() == sz * sz,
                pos.0 < self.size,
                pos.1 < self.size,
                posg == (pos.0 as int, pos.1 as int),
                enemy == opponent_of(player),
                k <= 8,
                0 <= captured <= 2 * k,
                captured == 2 * captures_upto(b0, sz, posg, player, k as int),
                forall|r: int, c: int|
                    pos_in_bounds(sz, (r, c)) ==> #[trigger] cell_at(self.board@, sz, r, c) == (
                    if cell_cleared_upto(b0, sz, posg, player, k as int, (r, c)) {
                        Intersection::Empty
                    } else {
                        cell_at(b0, sz, r, c)
                    }),
                occupied_count(self.board@) == occupied_count(b0) - captured,
            decreases 8 - k,
        {
            let d = dir_at(k);
            let ghost dg = dir_of(k as int);
            proof {
                lemma_checks_unchanged(b0, self.board@, sz, posg, player, k as int);
            }
            let e1 = self.check_alignment(pos, d, 1, Intersection::OccupiedBy(enemy));
            let e2 = self.check_alignment(pos, d, 2, Intersection::OccupiedBy(enemy));
            let w3 = self.check_alignment(pos, d, 3, Intersection::OccupiedBy(player));

            if e1.is_some() && e2.is_some() && w3.is_some() {
                let ghost pre = self.board@;
                let p1 = e1.unwrap();
                let p2 = e2.unwrap();
                let ghost s1 = step_cell(posg, dg, 1);
                let ghost s2 = step_cell(posg, dg, 2);
                proof {
                    let stone = Intersection::OccupiedBy(opponent_of(player));
                    assert(alignment_hit(pre, sz, posg, dg, 1, stone));
                    assert(alignment_hit(pre, sz, posg, dg, 2, stone));
                    assert(alignment_hit(pre, sz, posg, dg, 3, Intersection::OccupiedBy(player)));
                    assert(captures_dir(b0, sz, posg, dg, player));
                    lemma_dir_nonzero(k as int);
                    assert(s1 != s2);
                    assert(pos_in_bounds(sz, s1) && pos_in_bounds(sz, s2));
                    lemma_flat_index(sz, s1.0, s1.1);
                    lemma_flat_index(sz, s2.0, s2.1);
                    if s1.0 * sz + s1.1 == s2.0 * sz + s2.1 {
                        lemma_flat_index_injective(sz, s1.0, s1.1, s2.0, s2.1);
                    }
                    assert(cell_at(pre, sz, s1.0, s1.1) == stone);
                    lemma_occupied_count_update(pre, s1.0 * sz + s1.1, Intersection::Empty);
                }
                let _ = self.set(p1, Intersection::Empty);
                proof {
                    assert(self.board@ == pre.update(s1.0 * sz + s1.1, Intersection::Empty));
                    assert(cell_at(self.board@, sz, s2.0, s2.1) == cell_at(pre, sz, s2.0, s2.1));
                    lemma_occupied_count_update(
                        self.board@,
                        s2.0 * sz + s2.1,
                        Intersection::Empty,
                    );
                }
                let _ = self.set(p2, Intersection::Empty);
                captured = captured + 2;
                proof {
                    let cur = self.board@;
                    assert(cur == pre.update(s1.0 * sz + s1.1, Intersection::Empty).update(
                        s2.0 * sz + s2.1,
                        Intersection::Empty,
                    ));
                    assert(captures_upto(b0, sz, posg, player, k as int + 1) == captures_upto(
                        b0,
                        sz,
                        posg,
                        player,
                        k as int,
                    ) + 1);
                    assert forall|r: int, c: int|
                        pos_in_bounds(sz, (r, c)) implies #[trigger] cell_at(cur, sz, r, c) == (
                        if cell_cleared_upto(b0, sz, posg, player, k as int + 1, (r, c)) {
                            Intersection::Empty
                        } else {
                            cell_at(b0, sz, r, c)
                        }) by {
                        lemma_flat_index(sz, r, c);
                        let v0 = cell_at(pre, sz, r, c);
                        assert(v0 == (if cell_cleared_upto(b0, sz, posg, player, k as int, (r, c)) {
                            Intersection::Empty
                        } else {
                            cell_at(b0, sz, r, c)
                        }));
                        if (r, c) == s1 || (r, c) == s2 {
                            assert(cell_cleared_upto(b0, sz, posg, player, k as int + 1, (r, c)));
                        } else {
                            if r * sz + c == s1.0 * sz + s1.1 {
                                lemma_flat_index_injective(sz, r, c, s1.0, s1.1);
                            }
                            if r * sz + c == s2.0 * sz + s2.1 {
                                lemma_flat_index_injective(sz, r, c, s2.0, s2.1);
                            }
                            assert(cell_at(cur, sz, r, c) == v0);
                            assert(cell_cleared_upto(b0, sz, posg, player, k as int + 1, (r, c))
                                == cell_cleared_upto(b0, sz, posg, player, k as int, (r, c)));
                        }
                    }
                }
            } else {
                proof {
                    let stone = Intersection::OccupiedBy(opponent_of(player));
                    assert(!captures_dir(b0, sz, posg, dg, player)) by {
                        if !(e1 is Some) {
                            assert(!alignment_hit(b0, sz, posg, dg, 1, stone));
                        } else if !(e2 is Some) {
                            assert(!alignment_hit(b0, sz, posg, dg, 2, stone));
                        } else {
                            assert(!alignment_hit(
                                b0,
                                sz,
                                posg,
                                dg,
                                3,
                                Intersection::OccupiedBy(player),
                            ));
                        }
                    }
                    assert(captures_upto(b0, sz, posg, player, k as int + 1) == captures_upto(
                        b0,
                        sz,
                        posg,
                        player,
                        k as int,
                    ));
                    assert forall|r: int, c: int|
                        pos_in_bounds(sz, (r, c)) implies cell_cleared_upto(
                        b0,
                        sz,
                        posg,
                        player,
                        k as int + 1,
                        (r, c),
                    ) == cell_cleared_upto(b0, sz, posg, player, k as int, (r, c)) by {
                    }
                }
            }
            k = k + 1;
        }
        captured
    }

    /// The primary move-application path: validates the move, resolves
    /// captures, places the stone, and returns the net change in the number of
    /// occupied intersections (1 minus the number of captured stones). A
    /// rejected move leaves the board completely unchanged.
    pub fn play(&mut self, player: Player, pos: (usize, usize)) -> (r: Result<isize, MoveError>)
        requires
            old(self).wf(),
        ensures
            final(self).wf(),
            final(self).size == old(self).size,
            !pos_in_bounds(old(self).size as int, (pos.0 as int, pos.1 as int)) ==> ({
                &&& r == Err::<isize, MoveError>(MoveError::OutOfBounds)
                &&& *final(self) == *old(self)
            }),
            pos_in_bounds(old(self).size as int, (pos.0 as int, pos.1 as int)) && cell_at(
                old(self).board@,
                old(self).size as int,
                pos.0 as int,
                pos.1 as int,
            ) != Intersection::Empty ==> ({
                &&& r == Err::<isize, MoveError>(MoveError::CellOccupied)
                &&& *final(self) == *old(self)
            }),
            pos_in_bounds(old(self).size as int, (pos.0 as int, pos.1 as int)) && cell_at(
                old(self).board@,
                old(self).size as int,
                pos.0 as int,
                pos.1 as int,
            ) == Intersection::Empty ==> ({
                &&& r is Ok
                &&& -15 <= r->Ok_0 <= 1
                &&& r->Ok_0 == 1 - 2 * captures_upto(
                    old(self).board@,
                    old(self).size as int,
                    (pos.0 as int, pos.1 as int),
                    player,
                    8,
                )
                &&& forall|rr: int, cc: int|
                    pos_in_bounds(old(self).size as int, (rr, cc)) ==> #[trigger] cell_at(
                        final(self).board@,
                        old(self).size as int,
                        rr,
                        cc,
                    ) == play_result_cell(
                        old(self).board@,
                        old(self).size as int,
                        (pos.0 as int, pos.1 as int),
                        player,
                        rr,
                        cc,
                    )
                &&& occupied_count(final(self).board@) == occupied_count(old(self).board@)
                    + r->Ok_0
            }),
    {
        let ghost b0 = self.board@;
        let ghost sz = self.size as int;
        let ghost posg = (pos.0 as int, pos.1 as int);

        if let Err(err) = self.is_move_valid(pos) {
            return Err(err);
        }
        let captured = self.check_capture(pos, player);
        let changed = 1 - captured;

        let ghost mid = self.board@;
        proof {
            lemma_flat_index(sz, posg.0, posg.1);
            assert(cell_at(b0, sz, posg.0, posg.1) == Intersection::Empty);
            assert(cell_at(mid, sz, posg.0, posg.1) == Intersection::Empty);
            lemma_occupied_count_update(
                mid,
                posg.0 * sz + posg.1,
                Intersection::OccupiedBy(player),
            );
        }
        let _ = self.set(pos, player_stone(player));
        proof {
            assert(self.board@ == mid.update(
                posg.0 * sz + posg.1,
                Intersection::OccupiedBy(player),
            ));
            assert forall|rr: int, cc: int|
                pos_in_bounds(sz, (rr, cc)) implies #[trigger] cell_at(self.board@, sz, rr, cc)
                == play_result_cell(b0, sz, posg, player, rr, cc) by {
                lemma_flat_index(sz, rr, cc);
                let v1 = cell_at(mid, sz, rr, cc);
                assert(v1 == (if cell_cleared_upto(b0, sz, posg, player, 8, (rr, cc)) {
                    Intersection::Empty
                } else {
                    cell_at(b0, sz, rr, cc)
                }));
                if (rr, cc) != posg {
                    if rr * sz + cc == posg.0 * sz + posg.1 {
                        lemma_flat_index_injective(sz, rr, cc, posg.0, posg.1);
                    }
                    assert(cell_at(self.board@, sz, rr, cc) == v1);
                }
            }
        }
        Ok(changed)
    }
}

/// The stone of a player, as cell content.
fn player_stone(player: Player) -> (v: Intersection)
    ensures
        v == Intersection::OccupiedBy(player),
{
    Intersection::OccupiedBy(player)
}

/// A freshly created board reads `Empty` at every valid position: the board
/// [`Goban::new`] hands out satisfies the premise, and [`Goban::get`] returns
/// exactly the cell this lemma speaks about.
pub proof fn lemma_new_board_reads_empty(b: Seq<Intersection>, size: int, row: int, col: int)
    requires
        b.len() == size * size,
        forall|i: int| 0 <= i < b.len() ==> b[i] == Intersection::Empty,
        pos_in_bounds(size, (row, col)),
    ensures
        cell_at(b, size, row, col) == Intersection::Empty,
{
    lemma_flat_index(size, row, col);
}

proof fn lemma_single_capture_profile(
    b: Seq<Intersection>,
    size: int,
    pos: (int, int),
    player: Player,
    k: int,
    j: int,
)
    requires
        0 <= k < 8,
        0 <= j <= 8,
        captures_dir(b, size, pos, dir_of(k), player),
        forall|i: int|
            0 <= i < 8 && i != k ==> !captures_dir(b, size, pos, #[trigger] dir_of(i), player),
    ensures
        captures_upto(b, size, pos, player, j) == if j > k {
            1int
        } else {
            0int
        },
        forall|cell: (int, int)|
            #[trigger] cell_cleared_upto(b, size, pos, player, j, cell) == (j > k && (cell
                == step_cell(pos, dir_of(k), 1) || cell == step_cell(pos, dir_of(k), 2))),
    decreases j,
{
    if j > 0 {
        lemma_single_capture_profile(b, size, pos, player, k, j - 1);
        if j - 1 != k {
            assert(!captures_dir(b, size, pos, dir_of(j - 1), player));
        }
        assert forall|cell: (int, int)|
            #[trigger] cell_cleared_upto(b, size, pos, player, j, cell) == (j > k && (cell
                == step_cell(pos, dir_of(k), 1) || cell == step_cell(pos, dir_of(k), 2))) by {
            let prev = cell_cleared_upto(b, size, pos, player, j - 1, cell);
        }
    }
}

/// Capture law: when the capture pattern holds along exactly one direction,
/// the scan clears exactly the two bracketed enemy stones and counts one
/// captured pair, so a successful `play` there returns the net occupancy
/// delta `1 - 2 == -1`.
pub proof fn lemma_single_capture(
    b: Seq<Intersection>,
    size: int,
    pos: (int, int),
    player: Player,
    k: int,
)
    requires
        0 <= k < 8,
        captures_dir(b, size, pos, dir_of(k), player),
        forall|i: int|
            0 <= i < 8 && i != k ==> !captures_dir(b, size, pos, #[trigger] dir_of(i), player),
    ensures
        captures_upto(b, size, pos, player, 8) == 1,
        forall|cell: (int, int)|
            #[trigger] cell_cleared_upto(b, size, pos, player, 8, cell) == (cell == step_cell(
                pos,
                dir_of(k),
                1,
            ) || cell == step_cell(pos, dir_of(k), 2)),
{
    lemma_single_capture_profile(b, size, pos, player, k, 8);
}

proof fn lemma_double_capture_profile(
    b: Seq<Intersection>,
    size: int,
    pos: (int, int),
    player: Player,
    k1: int,
    k2: int,
    j: int,
)
    requires
        0 <= k1 < 8,
        0 <= k2 < 8,
        k1 != k2,
        0 <= j <= 8,
        captures_dir(b, size, pos, dir_of(k1), player),
        captures_dir(b, size, pos, dir_of(k2), player),
        forall|i: int|
            0 <= i < 8 && i != k1 && i != k2 ==> !captures_dir(
                b,
                size,
                pos,
                #[trigger] dir_of(i),
                player,
            ),
    ensures
        captures_upto(b, size, pos, player, j) == (if j > k1 {
            1int
        } else {
            0int
        }) + (if j > k2 {
            1int
        } else {
            0int
        }),
        forall|cell: (int, int)|
            #[trigger] cell_cleared_upto(b, size, pos, player, j, cell) == ((j > k1 && (cell
                == step_cell(pos, dir_of(k1), 1) || cell == step_cell(pos, dir_of(k1), 2))) || (j
                > k2 && (cell == step_cell(pos, dir_of(k2), 1) || cell == step_cell(
                pos,
                dir_of(k2),
                2,
            )))),
    decreases j,
{
    if j > 0 {
        lemma_double_capture_profile(b, size, pos, player, k1, k2, j - 1);
        if j - 1 != k1 && j - 1 != k2 {
            assert(!captures_dir(b, size, pos, dir_of(j - 1), player));
        }
        assert forall|cell: (int, int)|
            #[trigger] cell_cleared_upto(b, size, pos, player, j, cell) == ((j > k1 && (cell
                == step_cell(pos, dir_of(k1), 1) || cell == step_cell(pos, dir_of(k1), 2))) || (j
                > k2 && (cell == step_cell(pos, dir_of(k2), 1) || cell == step_cell(
                pos,
                dir_of(k2),
                2,
            )))) by {
            let prev = cell_cleared_upto(b, size, pos, player, j - 1, cell);
        }
    }
}

/// Double-capture law: when the capture pattern holds along exactly two
/// directions, the scan clears exactly the four bracketed enemy stones and
/// counts two captured pairs, so a successful `play` there returns the net
/// occupancy delta `1 - 4 == -3`.
pub proof fn lemma_double_capture(
    b: Seq<Intersection>,
    size: int,
    pos: (int, int),
    player: Player,
    k1: int,
    k2: int,
)
    requires
        0 <= k1 < 8,
        0 <= k2 < 8,
        k1 != k2,
        captures_dir(b, size, pos, dir_of(k1), player),
        captures_dir(b, size, pos, dir_of(k2), player),
        forall|i: int|
            0 <= i < 8 && i != k1 && i != k2 ==> !captures_dir(
                b,
                size,
                pos,
                #[trigger] dir_of(i),
                player,
            ),
    ensures
        captures_upto(b, size, pos, player, 8) == 2,
        forall|cell: (int, int)|
            #[trigger] cell_cleared_upto(b, size, pos, player, 8, cell) == ((cell == step_cell(
                pos,
                dir_of(k1),
                1,
            ) || cell == step_cell(pos, dir_of(k1), 2)) || (cell == step_cell(pos, dir_of(k2), 1)
                || cell == step_cell(pos, dir_of(k2), 2))),
{
    lemma_double_capture_profile(b, size, pos, player, k1, k2, 8);
}

proof fn lemma_no_capture_profile(
    b: Seq<Intersection>,
    size: int,
    pos: (int, int),
    player: Player,
    j: int,
)
    requires
        0 <= j <= 8,
        forall|i: int| 0 <= i < 8 ==> !captures_dir(b, size, pos, #[trigger] dir_of(i), player),
    ensures
        captures_upto(b, size, pos, player, j) == 0,
        forall|cell: (int, int)| !#[trigger] cell_cleared_upto(b, size, pos, player, j, cell),
    decreases j,
{
    if j > 0 {
        lemma_no_capture_profile(b, size, pos, player, j - 1);
        assert(!captures_dir(b, size, pos, dir_of(j - 1), player));
        assert forall|cell: (int, int)|
            !#[trigger] cell_cleared_upto(b, size, pos, player, j, cell) by {
            let prev = cell_cleared_upto(b, size, pos, player, j - 1, cell);
        }
    }
}

/// No-capture law: when no direction shows the capture pattern, the scan
/// clears nothing and counts nothing, so a successful `play` changes only the
/// played cell and returns the net occupancy delta `1`.
pub proof fn lemma_no_capture(b: Seq<Intersection>, size: int, pos: (int, int), player: Player)
    requires
        forall|i: int| 0 <= i < 8 ==> !captures_dir(b, size, pos, #[trigger] dir_of(i), player),
    ensures
        captures_upto(b, size, pos, player, 8) == 0,
        forall|cell: (int, int)| !#[trigger] cell_cleared_upto(b, size, pos, player, 8, cell),
{
    lemma_no_capture_profile(b, size, pos, player, 8);
}

} // verus!
