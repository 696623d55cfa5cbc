//! The grid of cells that are still unclaimed.

use vstd::prelude::*;
use rand::rngs::StdRng;
use crate::random::{choose_cell, entropy_rng};

verus! {

/// A cell of the grid, by its column and row.
pub type Cell = (i32, i32);

/// One of the four directions in which a chain can run.
#[derive(Clone, Copy, Debug, PartialEq, Eq, Structural)]
pub enum Direction {
    UP,
    DOWN,
    LEFT,
    RIGHT,
}

/// The step that `d` makes, as a change of column and of row.
pub open spec fn delta(d: Direction) -> (int, int) {
    match d {
        Direction::UP => (0, 1),
        Direction::DOWN => (0, -1),
        Direction::LEFT => (-1, 0),
        Direction::RIGHT => (1, 0),
    }
}

/// Whether `c` lies in the grid of `w` columns and `h` rows.
pub open spec fn in_bounds(w: u32, h: u32, c: Cell) -> bool {
    0 <= c.0 < w && 0 <= c.1 < h
}

/// Every cell of the grid of `w` columns and `h` rows.
pub open spec fn whole_grid(w: u32, h: u32) -> Set<Cell> {
    Set::new(|c: Cell| in_bounds(w, h, c))
}

/// The cell next to `c` in direction `d`, if the grid of `w` columns and `h`
/// rows has one there. A place whose coordinates no cell can hold has none.
pub open spec fn neighbor(w: u32, h: u32, c: Cell, d: Direction) -> Option<Cell> {
    let x = c.0 + delta(d).0;
    let y = c.1 + delta(d).1;
    if 0 <= x < w && 0 <= y < h && x <= i32::MAX && y <= i32::MAX {
        Some((x as i32, y as i32))
    } else {
        None
    }
}

/// What claiming `c` makes of the unclaimed set `s`: the set that is left,
/// and the cell that was handed out, if any.
pub open spec fn claim(s: Set<Cell>, c: Cell) -> (Set<Cell>, Option<Cell>) {
    if s.contains(c) {
        (s.remove(c), Some(c))
    } else {
        (s, None)
    }
}

/// The unclaimed cells of a grid of `w` columns and `h` rows.
pub struct Grid {
    pub available_cells: Vec<Cell>,
    pub w: u32,
    pub h: u32,
}

impl View for Grid {
    type V = Set<Cell>;

    /// The set of unclaimed cells.
    open spec fn view(&self) -> Set<Cell> {
        self.available_cells@.to_set()
    }
}

/// A sequence with `x` added at its end holds `x` and what it held before.
pub proof fn lemma_push_contains<T>(s: Seq<T>, x: T)
    ensures
        forall|c: T| s.push(x).contains(c) <==> (s.contains(c) || c == x),
{
    assert forall|c: T| s.push(x).contains(c) <==> (s.contains(c) || c == x) by {
        if s.push(x).contains(c) {
            let i = choose|i: int| 0 <= i < s.push(x).len() && s.push(x)[i] == c;
            if i < s.len() {
                assert(s[i] == c);
            }
        }
        if s.contains(c) {
            let i = choose|i: int| 0 <= i < s.len() && s[i] == c;
            assert(s.push(x)[i] == c);
        }
        if c == x {
            assert(s.push(x)[s.len() as int] == c);
        }
    }
}

/// Adding an element that a sequence without repetition does not hold
/// leaves it without repetition.
pub proof fn lemma_push_no_duplicates<T>(s: Seq<T>, x: T)
    requires
        s.no_duplicates(),
        !s.contains(x),
    ensures
        s.push(x).no_duplicates(),
{
    assert forall|i: int, j: int|
        0 <= i < s.push(x).len() && 0 <= j < s.push(x).len() && i != j implies s.push(x)[i]
        != s.push(x)[j] by {
        if i < s.len() && j < s.len() {
            assert(s[i] != s[j]);
        } else if i < s.len() {
            assert(s.contains(s[i]));
        } else {
            assert(s.contains(s[j]));
        }
    }
}

/// Taking the element at `i` out of a sequence without repetition, by
/// moving the last element into its place, leaves the other elements, each
/// once.
pub proof fn lemma_swap_remove<T>(s: Seq<T>, i: int)
    requires
        s.no_duplicates(),
        0 <= i < s.len(),
    ensures
        s.update(i, s.last()).drop_last().no_duplicates(),
        s.update(i, s.last()).drop_last().to_set() =~= s.to_set().remove(s[i]),
{
    let t = s.update(i, s.last()).drop_last();
    assert forall|a: int, b: int| 0 <= a < t.len() && 0 <= b < t.len() && a != b implies t[a]
        != t[b] by {
        let a0 = if a == i { s.len() - 1 } else { a };
        let b0 = if b == i { s.len() - 1 } else { b };
        assert(t[a] == s[a0]);
        assert(t[b] == s[b0]);
        assert(s[a0] != s[b0]);
    }
    assert forall|c: T| t.to_set().contains(c) <==> s.to_set().remove(s[i]).contains(c) by {
        if t.contains(c) {
            let k = choose|k: int| 0 <= k < t.len() && t[k] == c;
            if k == i {
                assert(s[s.len() - 1] == c);
            } else {
                assert(s[k] == c);
            }
        }
        if s.contains(c) && c != s[i] {
            let k = choose|k: int| 0 <= k < s.len() && s[k] == c;
            if k == s.len() - 1 {
                assert(t[i] == c);
            } else {
                assert(t[k] == c);
            }
        }
    }
}

/// A claim that succeeds takes the cell out of the unclaimed set, which
/// gets smaller by one; a second claim of the same cell hands out nothing
/// and leaves the set as it is.
pub proof fn lemma_claim_once(s: Set<Cell>, c: Cell)
    requires
        s.finite(),
        s.contains(c),
    ensures
        claim(s, c).1 == Some(c),
        !claim(s, c).0.contains(c),
        claim(s, c).0.len() == s.len() - 1,
        claim(claim(s, c).0, c) == (claim(s, c).0, None::<Cell>),
        claim(claim(s, c).0, c).0.len() == s.len() - 1,
{
}

/// At the two far corners of a grid the neighbours that would lie outside
/// do not exist.
pub proof fn lemma_neighbor_at_corners(w: u32, h: u32)
    requires
        1 <= w <= i32::MAX,
        1 <= h <= i32::MAX,
    ensures
        neighbor(w, h, (0, 0), Direction::LEFT).is_none(),
        neighbor(w, h, (0, 0), Direction::DOWN).is_none(),
        neighbor(w, h, ((w - 1) as i32, (h - 1) as i32), Direction::RIGHT).is_none(),
        neighbor(w, h, ((w - 1) as i32, (h - 1) as i32), Direction::UP).is_none(),
{
}

/// A cell that does not lie on the border of the grid has a neighbour in
/// each direction, one step away.
pub proof fn lemma_neighbor_inside(w: u32, h: u32, c: Cell, d: Direction)
    requires
        w <= i32::MAX,
        h <= i32::MAX,
        0 < c.0 < w - 1,
        0 < c.1 < h - 1,
    ensures
        neighbor(w, h, c, d).is_some(),
        neighbor(w, h, c, d).unwrap().0 == c.0 + delta(d).0,
        neighbor(w, h, c, d).unwrap().1 == c.1 + delta(d).1,
{
    let x = c.0 + delta(d).0;
    let y = c.1 + delta(d).1;
    assert(0 <= x < w && 0 <= y < h);
}

impl Grid {
    /// The number of unclaimed cells is the size of the set of them.
    pub proof fn lemma_remaining(&self)
        requires
            self.wf(),
        ensures
            self@.finite(),
            self@.len() == self.remaining(),
    {
        self.available_cells@.unique_seq_to_set();
        vstd::seq_lib::seq_to_set_is_finite(self.available_cells@);
    }

    /// The invariant of a grid: no cell is listed twice, and every listed
    /// cell lies within the grid.
    pub open spec fn wf(&self) -> bool {
        &&& self.w <= i32::MAX
        &&& self.h <= i32::MAX
        &&& self.available_cells@.no_duplicates()
        &&& forall|c: Cell| self@.contains(c) ==> in_bounds(self.w, self.h, c)
    }

    /// The number of unclaimed cells.
    pub open spec fn remaining(&self) -> nat {
        self.available_cells@.len()
    }

    /// A grid of `w` columns and `h` rows with every cell unclaimed.
    pub fn new(w: u32, h: u32) -> (grid: Grid)
        requires
            w <= i32::MAX,
            h <= i32::MAX,
        ensures
            grid.wf(),
            grid.w == w,
            grid.h == h,
            grid@ =~= whole_grid(w, h),
            grid.remaining() == w * h,
    {
        let mut cells: Vec<Cell> = Vec::new();
        let mut i: u32 = 0;
        while i < w
            invariant
                i <= w,
                w <= i32::MAX,
                h <= i32::MAX,
                cells@.no_duplicates(),
                cells@.len() == i * h,
                forall|c: Cell| cells@.contains(c) <==> (0 <= c.0 < i && 0 <= c.1 < h),
            decreases w - i,
        {
            let mut j: u32 = 0;
            while j < h
                invariant
                    i < w,
                    j <= h,
                    w <= i32::MAX,
                    h <= i32::MAX,
                    cells@.no_duplicates(),
                    cells@.len() == i * h + j,
                    forall|c: Cell|
                        cells@.contains(c) <==> ((0 <= c.0 < i && 0 <= c.1 < h) || (c.0 == i && 0
                            <= c.1 < j)),
                decreases h - j,
            {
                let cell: Cell = (i as i32, j as i32);
                let ghost before = cells@;
                proof {
                    lemma_push_contains(cells@, cell);
                    lemma_push_no_duplicates(cells@, cell);
                }
                cells.push(cell);
                proof {
                    assert forall|c: Cell|
                        cells@.contains(c) <==> ((0 <= c.0 < i && 0 <= c.1 < h) || (c.0 == i && 0
                            <= c.1 < j + 1)) by {
                        assert(cells@ == before.push(cell));
                        assert(before.push(cell).contains(c) <==> (before.contains(c) || c
                            == cell));
                        assert(c == cell <==> (c.0 == i && c.1 == j));
                    }
                }
                j = j + 1;
            }
            proof {
                assert((i + 1) * h == i * h + h) by (nonlinear_arith);
            }
            i = i + 1;
        }
        let grid = Grid { available_cells: cells, w, h };
        proof {
            assert forall|c: Cell| grid@.contains(c) <==> in_bounds(w, h, c) by {}
        }
        grid
    }

    /// The place of `cell` in the list of unclaimed cells.
    fn position(&self, cell: &Cell) -> (r: Option<usize>)
        ensures
            match r {
                Some(i) => i < self.available_cells@.len() && self.available_cells@[i as int]
                    == *cell,
                None => !self@.contains(*cell),
            },
    {
        let mut k: usize = 0;
        while k < self.available_cells.len()
            invariant
                k <= self.available_cells@.len(),
                forall|i: int| 0 <= i < k ==> self.available_cells@[i] != *cell,
            decreases self.available_cells@.len() - k,
        {
            let c = self.available_cells[k];
            if c.0 == cell.0 && c.1 == cell.1 {
                return Some(k);
            }
            k = k + 1;
        }
        None
    }

    /// A cell among the unclaimed ones, picked at random; the grid keeps it.
    pub fn peek_random(&self) -> (r: Option<Cell>)
        ensures
            self.remaining() == 0 ==> r.is_none(),
            self.remaining() > 0 ==> r.is_some() && self@.contains(r.unwrap()),
    {
        let mut rng = entropy_rng();
        self.peek_random_with(&mut rng)
    }

    /// A cell among the unclaimed ones, picked with the generator `rng`; the
    /// grid keeps it.
    pub fn peek_random_with(&self, rng: &mut StdRng) -> (r: Option<Cell>)
        ensures
            self.remaining() == 0 ==> r.is_none(),
            self.remaining() > 0 ==> r.is_some() && self@.contains(r.unwrap()),
    {
        choose_cell(&self.available_cells, rng)
    }

    /// Claims a cell picked with the generator `rng` among the unclaimed
    /// ones, if there is any.
    pub fn take_random(&mut self, rng: &mut StdRng) -> (r: Option<Cell>)
        requires
            old(self).wf(),
        ensures
            final(self).wf(),
            final(self).w == old(self).w,
            final(self).h == old(self).h,
            old(self).remaining() == 0 ==> r.is_none() && *final(self) == *old(self),
            old(self).remaining() > 0 ==> r.is_some() && old(self)@.contains(r.unwrap())
                && final(self)@ == old(self)@.remove(r.unwrap()) && final(self).remaining()
                == old(self).remaining() - 1,
    {
        match self.peek_random_with(rng) {
            None => None,
            Some(cell) => self.take_cell(&cell),
        }
    }

    /// Whether `cell` is claimed, that is, not among the unclaimed cells. A
    /// cell outside the grid counts as claimed.
    pub fn cell_taken(&self, cell: &Cell) -> (r: bool)
        ensures
            r == !self@.contains(*cell),
    {
        self.position(cell).is_none()
    }

    /// Claims `cell`: an unclaimed cell leaves the grid and is returned, any
    /// other cell leaves the grid as it is.
    pub fn take_cell(&mut self, cell: &Cell) -> (r: Option<Cell>)
        requires
            old(self).wf(),
        ensures
            final(self).wf(),
            final(self).w == old(self).w,
            final(self).h == old(self).h,
            (final(self)@, r) == claim(old(self)@, *cell),
            old(self)@.contains(*cell) ==> final(self).remaining() == old(self).remaining() - 1,
            !old(self)@.contains(*cell) ==> *final(self) == *old(self),
    {
        match self.position(cell) {
            None => None,
            Some(i) => {
                proof {
                    lemma_swap_remove(self.available_cells@, i as int);
                }
                let taken = self.available_cells.swap_remove(i);
                proof {
                    assert(self@ == old(self)@.remove(*cell));
                }
                Some(taken)
            },
        }
    }

    /// Whether any cell is still unclaimed.
    pub fn has_cells(&self) -> (r: bool)
        ensures
            r == (self.remaining() > 0),
            r == exists|c: Cell| self@.contains(c),
    {
        proof {
            if self.available_cells@.len() > 0 {
                assert(self@.contains(self.available_cells@[0]));
            }
        }
        self.available_cells.len() > 0
    }

    /// The cell next to `cell` in `direction`, or `None` where that place is
    /// outside the grid. Whether the cell is claimed plays no part.
    pub fn adjacent_cell_coordinates(&self, cell: &Cell, direction: &Direction) -> (r: Option<Cell>)
        ensures
            r == neighbor(self.w, self.h, *cell, *direction),
    {
        let diff: (i64, i64) = match direction {
            Direction::UP => (0, 1),
            Direction::DOWN => (0, -1),
            Direction::LEFT => (-1, 0),
            Direction::RIGHT => (1, 0),
        };
        let x: i64 = cell.0 as i64 + diff.0;
        let y: i64 = cell.1 as i64 + diff.1;
        if x < 0 || x >= self.w as i64 || y < 0 || y >= self.h as i64 || x > i32::MAX as i64 || y
            > i32::MAX as i64 {
            None
        } else {
            Some((x as i32, y as i32))
        }
    }
}

} // verus!
