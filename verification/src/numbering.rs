//! The numbering engine: derives per-cell clue numbers from the wall layout.
//!
//! A single left-to-right, top-to-bottom pass keeps one running counter that
//! starts at 1.  A non-wall cell starts an across run iff it sits in column 0
//! or right of a wall, and the run it starts has length at least 2; the down
//! rule is the vertical mirror.  A cell that starts a run in either direction
//! receives the counter's value and the counter advances by exactly one, even
//! when both directions start there.

use vstd::prelude::*;

use crate::{cell_is_wall, Crossword, CrosswordCell};

verus! {

/// Ephemeral per-cell classification, recomputed on demand.
#[derive(Debug, Clone, Copy, PartialEq, Eq, Structural)]
pub enum NumberedCell {
    Wall,
    Empty,
    Numbered { number: u16, is_across: bool, is_down: bool },
}

/// A read-only view of a grid, used to derive numbering without touching the
/// owning `Crossword`.
pub struct Grid<'a> {
    pub width: u8,
    pub height: u8,
    pub grid: &'a Vec<CrosswordCell>,
}

/// The grid shapes this module reasons about: a row-major cell sequence of
/// exactly `width * height` entries.  Zero-sized grids are allowed and
/// yield no numbered cells.
pub open spec fn grid_wf(cells: Seq<CrosswordCell>, w: int, h: int) -> bool {
    &&& 0 <= w <= 255
    &&& 0 <= h <= 255
    &&& cells.len() == w * h
}

/// Cell `i` starts an across run: leftmost in its row or right of a wall,
/// and not the end of a length-1 run.
pub open spec fn starts_across(cells: Seq<CrosswordCell>, w: int, i: int) -> bool {
    &&& !cell_is_wall(cells[i])
    &&& (i % w == 0 || cell_is_wall(cells[i - 1]))
    &&& !(i % w == w - 1 || cell_is_wall(cells[i + 1]))
}

/// Cell `i` starts a down run: topmost in its column or under a wall, and
/// not the end of a length-1 run.
pub open spec fn starts_down(cells: Seq<CrosswordCell>, w: int, i: int) -> bool {
    &&& !cell_is_wall(cells[i])
    &&& (i < w || cell_is_wall(cells[i - w]))
    &&& !(i + w >= cells.len() || cell_is_wall(cells[i + w]))
}

pub open spec fn is_start(cells: Seq<CrosswordCell>, w: int, i: int) -> bool {
    starts_across(cells, w, i) || starts_down(cells, w, i)
}

/// How many of the first `n` cells received a number.
pub open spec fn start_count(cells: Seq<CrosswordCell>, w: int, n: int) -> int
    decreases n,
{
    if n <= 0 {
        0
    } else {
        start_count(cells, w, n - 1) + if is_start(cells, w, n - 1) {
            1int
        } else {
            0int
        }
    }
}

/// The clue number assigned to cell `i`, meaningful when `is_start` holds.
pub open spec fn cell_number(cells: Seq<CrosswordCell>, w: int, i: int) -> u16 {
    (1 + start_count(cells, w, i)) as u16
}

/// The classification of cell `i`.
pub open spec fn spec_numbered_cell(cells: Seq<CrosswordCell>, w: int, i: int) -> NumberedCell {
    if cell_is_wall(cells[i]) {
        NumberedCell::Wall
    } else if is_start(cells, w, i) {
        NumberedCell::Numbered {
            number: cell_number(cells, w, i),
            is_across: starts_across(cells, w, i),
            is_down: starts_down(cells, w, i),
        }
    } else {
        NumberedCell::Empty
    }
}

/// The across-start numbers among the first `n` cells, in scan order.
pub open spec fn across_nums_upto(cells: Seq<CrosswordCell>, w: int, n: int) -> Seq<u16>
    decreases n,
{
    if n <= 0 {
        Seq::empty()
    } else if starts_across(cells, w, n - 1) {
        across_nums_upto(cells, w, n - 1).push(cell_number(cells, w, n - 1))
    } else {
        across_nums_upto(cells, w, n - 1)
    }
}

/// The down-start numbers among the first `n` cells, in scan order.
pub open spec fn down_nums_upto(cells: Seq<CrosswordCell>, w: int, n: int) -> Seq<u16>
    decreases n,
{
    if n <= 0 {
        Seq::empty()
    } else if starts_down(cells, w, n - 1) {
        down_nums_upto(cells, w, n - 1).push(cell_number(cells, w, n - 1))
    } else {
        down_nums_upto(cells, w, n - 1)
    }
}

pub open spec fn spec_across_nums(cells: Seq<CrosswordCell>, w: int) -> Seq<u16> {
    across_nums_upto(cells, w, cells.len() as int)
}

pub open spec fn spec_down_nums(cells: Seq<CrosswordCell>, w: int) -> Seq<u16> {
    down_nums_upto(cells, w, cells.len() as int)
}

pub proof fn lemma_start_count_le(cells: Seq<CrosswordCell>, w: int, n: int)
    requires
        n >= 0,
    ensures
        0 <= start_count(cells, w, n) <= n,
    decreases n,
{
    if n > 0 {
        lemma_start_count_le(cells, w, n - 1);
    }
}

/// Whether each of the two runs starts at `idx`.
fn cell_starts(cells: &Vec<CrosswordCell>, w: usize, idx: usize) -> (r: (bool, bool))
    requires
        1 <= w <= 255,
        cells@.len() as int % (w as int) == 0,
        idx < cells@.len(),
        cells@.len() <= 65025,
    ensures
        r.0 == starts_across(cells@, w as int, idx as int),
        r.1 == starts_down(cells@, w as int, idx as int),
{
    let n = cells.len();
    let x = idx % w;
    proof {
        assert(idx as int % w as int != 0 ==> idx as int >= 1) by (nonlinear_arith)
            requires
                1 <= w <= 255,
                idx >= 0,
        ;
        assert(idx as int % w as int != w as int - 1 ==> idx as int + 1 < n as int)
            by (nonlinear_arith)
            requires
                1 <= w <= 255,
                idx < n,
                n as int % w as int == 0,
        ;
    }
    if cells[idx].is_wall() {
        return (false, false);
    }
    let across = (x == 0 || cells[idx - 1].is_wall()) && !(x == w - 1 || cells[idx + 1].is_wall());
    let down = (idx < w || cells[idx - w].is_wall()) && !(idx + w >= n || cells[idx + w].is_wall());
    (across, down)
}

impl<'a> Grid<'a> {
    pub open spec fn wf(&self) -> bool {
        grid_wf(self.grid@, self.width as int, self.height as int)
    }

    /// The classification of every cell, row-major.
    pub fn numbered_cells(&self) -> (r: Vec<NumberedCell>)
        requires
            self.wf(),
        ensures
            r@.len() == self.grid@.len(),
            forall|i: int|
                0 <= i < r@.len() ==> r@[i] == spec_numbered_cell(
                    self.grid@,
                    self.width as int,
                    i,
                ),
    {
        let cells = self.grid;
        let w = self.width as usize;
        let n = cells.len();
        let mut out: Vec<NumberedCell> = Vec::new();
        if n == 0 {
            return out;
        }
        proof {
            lemma_grid_len_bounds(self.grid@, self.width as int, self.height as int);
        }
        let mut num: u16 = 1;
        let mut idx: usize = 0;
        while idx < n
            invariant
                1 <= w <= 255,
                n == cells@.len(),
                n % w == 0,
                n <= 65025,
                0 <= idx <= n,
                out@.len() == idx,
                num == 1 + start_count(cells@, w as int, idx as int),
                forall|i: int|
                    0 <= i < idx ==> out@[i] == spec_numbered_cell(cells@, w as int, i),
            decreases n - idx,
        {
            proof {
                lemma_start_count_le(cells@, w as int, idx as int);
            }
            let (is_across, is_down) = cell_starts(cells, w, idx);
            if cells[idx].is_wall() {
                out.push(NumberedCell::Wall);
            } else if is_across || is_down {
                out.push(NumberedCell::Numbered { number: num, is_across, is_down });
                num = num + 1;
            } else {
                out.push(NumberedCell::Empty);
            }
            idx = idx + 1;
        }
        out
    }

    /// The two ordered number sequences (across starts, down starts) that
    /// declared clue lists must match exactly.
    pub fn expected_grid_nums(&self) -> (r: (Vec<u16>, Vec<u16>))
        requires
            self.wf(),
        ensures
            r.0@ == spec_across_nums(self.grid@, self.width as int),
            r.1@ == spec_down_nums(self.grid@, self.width as int),
    {
        let cells = self.grid;
        let w = self.width as usize;
        let n = cells.len();
        let mut across: Vec<u16> = Vec::new();
        let mut down: Vec<u16> = Vec::new();
        if n == 0 {
            return (across, down);
        }
        proof {
            lemma_grid_len_bounds(self.grid@, self.width as int, self.height as int);
        }
        let mut num: u16 = 1;
        let mut idx: usize = 0;
        while idx < n
            invariant
                1 <= w <= 255,
                n == cells@.len(),
                n % w == 0,
                n <= 65025,
                0 <= idx <= n,
                num == 1 + start_count(cells@, w as int, idx as int),
                across@ == across_nums_upto(cells@, w as int, idx as int),
                down@ == down_nums_upto(cells@, w as int, idx as int),
            decreases n - idx,
        {
            proof {
                lemma_start_count_le(cells@, w as int, idx as int);
            }
            let (is_across, is_down) = cell_starts(cells, w, idx);
            if is_across {
                across.push(num);
            }
            if is_down {
                down.push(num);
            }
            if is_across || is_down {
                num = num + 1;
            }
            idx = idx + 1;
        }
        (across, down)
    }
}

proof fn lemma_grid_len_bounds(cells: Seq<CrosswordCell>, w: int, h: int)
    requires
        grid_wf(cells, w, h),
        cells.len() > 0,
    ensures
        cells.len() <= 65025,
        1 <= w <= 255,
        cells.len() as int % (w as int) == 0,
{
    assert(w >= 1 && w * h <= 65025 && (w * h) % w == 0) by (nonlinear_arith)
        requires
            0 <= w <= 255,
            0 <= h <= 255,
            w * h > 0,
    ;
}

impl Crossword {
    /// Borrow the grid as a read-only view.
    pub fn grid(&self) -> (r: Grid<'_>)
        ensures
            r.width == self.width,
            r.height == self.height,
            r.grid == &self.grid,
    {
        Grid { width: self.width, height: self.height, grid: &self.grid }
    }

    /// The across- and down-number sequences the grid topology implies.
    pub fn expected_grid_nums(&self) -> (r: (Vec<u16>, Vec<u16>))
        requires
            self.wf(),
        ensures
            r.0@ == spec_across_nums(self.grid@, self.width as int),
            r.1@ == spec_down_nums(self.grid@, self.width as int),
    {
        self.grid().expected_grid_nums()
    }
}

/// Every number recorded among the first `n` cells is at most the count of
/// starts seen so far.
proof fn lemma_nums_upto_bounded(cells: Seq<CrosswordCell>, w: int, n: int)
    requires
        0 <= n <= 0xFFFF,
    ensures
        forall|k: int|
            0 <= k < across_nums_upto(cells, w, n).len() ==> #[trigger] across_nums_upto(
                cells,
                w,
                n,
            )[k] <= start_count(cells, w, n),
        forall|k: int|
            0 <= k < down_nums_upto(cells, w, n).len() ==> #[trigger] down_nums_upto(
                cells,
                w,
                n,
            )[k] <= start_count(cells, w, n),
    decreases n,
{
    if n > 0 {
        lemma_nums_upto_bounded(cells, w, n - 1);
        lemma_start_count_le(cells, w, n - 1);
        let prev_a = across_nums_upto(cells, w, n - 1);
        let cur_a = across_nums_upto(cells, w, n);
        let prev_d = down_nums_upto(cells, w, n - 1);
        let cur_d = down_nums_upto(cells, w, n);
        assert forall|k: int| 0 <= k < cur_a.len() implies cur_a[k] <= start_count(
            cells,
            w,
            n,
        ) by {
            if starts_across(cells, w, n - 1) && k == prev_a.len() {
                assert(cur_a[k] == cell_number(cells, w, n - 1));
            } else {
                assert(cur_a[k] == prev_a[k]);
            }
        }
        assert forall|k: int| 0 <= k < cur_d.len() implies cur_d[k] <= start_count(
            cells,
            w,
            n,
        ) by {
            if starts_down(cells, w, n - 1) && k == prev_d.len() {
                assert(cur_d[k] == cell_number(cells, w, n - 1));
            } else {
                assert(cur_d[k] == prev_d[k]);
            }
        }
    }
}

/// The number sequences the numbering engine derives are strictly increasing
/// in scan order, and deterministic: they are a function of the grid alone.
pub proof fn lemma_numbering_strictly_increasing(cells: Seq<CrosswordCell>, w: int)
    requires
        cells.len() <= 0xFFFF,
    ensures
        forall|i: int, j: int|
            0 <= i < j < spec_across_nums(cells, w).len() ==> spec_across_nums(cells, w)[i]
                < spec_across_nums(cells, w)[j],
        forall|i: int, j: int|
            0 <= i < j < spec_down_nums(cells, w).len() ==> spec_down_nums(cells, w)[i]
                < spec_down_nums(cells, w)[j],
{
    lemma_nums_upto_increasing(cells, w, cells.len() as int);
}

proof fn lemma_nums_upto_increasing(cells: Seq<CrosswordCell>, w: int, n: int)
    requires
        0 <= n <= 0xFFFF,
    ensures
        forall|i: int, j: int|
            0 <= i < j < across_nums_upto(cells, w, n).len() ==> across_nums_upto(cells, w, n)[i]
                < across_nums_upto(cells, w, n)[j],
        forall|i: int, j: int|
            0 <= i < j < down_nums_upto(cells, w, n).len() ==> down_nums_upto(cells, w, n)[i]
                < down_nums_upto(cells, w, n)[j],
    decreases n,
{
    if n > 0 {
        lemma_nums_upto_increasing(cells, w, n - 1);
        lemma_nums_upto_bounded(cells, w, n - 1);
        lemma_start_count_le(cells, w, n - 1);
        let prev_a = across_nums_upto(cells, w, n - 1);
        let cur_a = across_nums_upto(cells, w, n);
        let prev_d = down_nums_upto(cells, w, n - 1);
        let cur_d = down_nums_upto(cells, w, n);
        assert forall|i: int, j: int| 0 <= i < j < cur_a.len() implies cur_a[i] < cur_a[j] by {
            if starts_across(cells, w, n - 1) && j == prev_a.len() {
                assert(cur_a[j] == cell_number(cells, w, n - 1));
                assert(cur_a[i] == prev_a[i]);
                assert(prev_a[i] <= start_count(cells, w, n - 1));
            } else {
                assert(cur_a[i] == prev_a[i] && cur_a[j] == prev_a[j]);
            }
        }
        assert forall|i: int, j: int| 0 <= i < j < cur_d.len() implies cur_d[i] < cur_d[j] by {
            if starts_down(cells, w, n - 1) && j == prev_d.len() {
                assert(cur_d[j] == cell_number(cells, w, n - 1));
                assert(cur_d[i] == prev_d[i]);
                assert(prev_d[i] <= start_count(cells, w, n - 1));
            } else {
                assert(cur_d[i] == prev_d[i] && cur_d[j] == prev_d[j]);
            }
        }
    }
}

} // verus!
