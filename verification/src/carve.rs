//! Carving a grid into straight chains until no cell is left.

use vstd::prelude::*;
use rand::rngs::StdRng;
use crate::chain::{has_table_attributes, random_direction_with, Chain};
use crate::grid::{delta, in_bounds, lemma_push_contains, whole_grid, Cell, Direction, Grid};
use crate::random::random_in_range;

verus! {

/// The smallest cap that is drawn for a chain.
pub const CHAIN_MIN: i32 = 4;

/// The bound below which the cap of a chain is drawn; no chain is longer.
pub const CHAIN_MAX: i32 = 13;

/// The place `k` steps from `start` in direction `d`.
pub open spec fn offset(start: Cell, d: Direction, k: int) -> (int, int) {
    match d {
        Direction::UP => (start.0 as int, start.1 + k),
        Direction::DOWN => (start.0 as int, start.1 - k),
        Direction::LEFT => (start.0 - k, start.1 as int),
        Direction::RIGHT => (start.0 + k, start.1 as int),
    }
}

/// Whether `cells` walks from `start` in direction `d`, one step per cell.
pub open spec fn is_run(cells: Seq<Cell>, start: Cell, d: Direction) -> bool {
    forall|k: int|
        0 <= k < cells.len() ==> (#[trigger] cells[k]).0 == offset(start, d, k).0 && cells[k].1
            == offset(start, d, k).1
}

/// Whether the place `p` holds a cell of `avail`.
pub open spec fn unclaimed_at(avail: Set<Cell>, p: (int, int)) -> bool {
    exists|c: Cell| avail.contains(c) && c.0 == p.0 && c.1 == p.1
}

/// Whether `cells` is the chain that is carved out of the unclaimed cells
/// `avail` from `start` in direction `d` under the cap `cap`: it begins with
/// `start`, takes unclaimed cells step by step, and ends as soon as the next
/// place holds no unclaimed cell or, after at least one step, it has grown
/// longer than the cap.
pub open spec fn is_chain_from(
    avail: Set<Cell>,
    start: Cell,
    d: Direction,
    cap: int,
    cells: Seq<Cell>,
) -> bool {
    &&& cells.len() >= 1
    &&& is_run(cells, start, d)
    &&& forall|k: int| 0 <= k < cells.len() ==> avail.contains(#[trigger] cells[k])
    &&& cells.len() >= 3 ==> cells.len() - 1 <= cap
    &&& (cells.len() >= 2 && cells.len() > cap) || !unclaimed_at(
        avail,
        offset(start, d, cells.len() as int),
    )
}

/// Whether `cells` is a chain as carving makes them: between one cell and as
/// many as `CHAIN_MAX`, in a straight line in one direction.
pub open spec fn is_straight(cells: Seq<Cell>) -> bool {
    &&& 1 <= cells.len() <= CHAIN_MAX
    &&& exists|d: Direction| is_run(cells, cells[0], d)
}

/// Whether the chain at place `i` of `chains` is one that carving can make
/// in its turn: a chain, under a cap from `CHAIN_MIN` up to but not
/// including `CHAIN_MAX`, out of the cells of `avail` that the chains before
/// it have left.
pub open spec fn carved_in_turn(avail: Set<Cell>, chains: Seq<Chain>, i: int) -> bool {
    exists|d: Direction, cap: int|
        CHAIN_MIN <= cap < CHAIN_MAX && #[trigger] is_chain_from(
            avail.difference(all_cells(chains.take(i)).to_set()),
            chains[i].cells@[0],
            d,
            cap,
            chains[i].cells@,
        )
}

/// A chain that was carved in its turn is straight.
pub proof fn lemma_carved_is_straight(avail: Set<Cell>, chains: Seq<Chain>, i: int)
    requires
        0 <= i < chains.len(),
        carved_in_turn(avail, chains, i),
    ensures
        is_straight(chains[i].cells@),
{
    let (d, cap) = choose|d: Direction, cap: int|
        CHAIN_MIN <= cap < CHAIN_MAX && #[trigger] is_chain_from(
            avail.difference(all_cells(chains.take(i)).to_set()),
            chains[i].cells@[0],
            d,
            cap,
            chains[i].cells@,
        );
    assert(is_run(chains[i].cells@, chains[i].cells@[0], d));
}

/// The cells of all `chains`, in the order in which they were carved.
pub open spec fn all_cells(chains: Seq<Chain>) -> Seq<Cell>
    decreases chains.len(),
{
    if chains.len() == 0 {
        Seq::empty()
    } else {
        all_cells(chains.drop_last()) + chains.last().cells@
    }
}

/// A walk in one direction visits no cell twice.
pub proof fn lemma_run_no_duplicates(cells: Seq<Cell>, start: Cell, d: Direction)
    requires
        is_run(cells, start, d),
    ensures
        cells.no_duplicates(),
{
    assert forall|i: int, j: int| 0 <= i < cells.len() && 0 <= j < cells.len() && i != j implies cells[i]
        != cells[j] by {
        assert(cells[i].0 == offset(start, d, i).0 && cells[i].1 == offset(start, d, i).1);
        assert(cells[j].0 == offset(start, d, j).0 && cells[j].1 == offset(start, d, j).1);
    }
}

/// Whether each cell of `cells` lies one step in direction `d` from the cell
/// before it: one coordinate changes by one, the other stays.
pub open spec fn is_contiguous(cells: Seq<Cell>, d: Direction) -> bool {
    forall|k: int|
        0 <= k < cells.len() - 1 ==> (#[trigger] cells[k + 1]).0 == cells[k].0 + delta(d).0
            && cells[k + 1].1 == cells[k].1 + delta(d).1
}

/// A walk in a direction is contiguous in that direction.
pub proof fn lemma_run_contiguous(cells: Seq<Cell>, start: Cell, d: Direction)
    requires
        is_run(cells, start, d),
    ensures
        is_contiguous(cells, d),
{
    assert forall|k: int| 0 <= k < cells.len() - 1 implies (#[trigger] cells[k + 1]).0 == cells[k].0
        + delta(d).0 && cells[k + 1].1 == cells[k].1 + delta(d).1 by {
        assert(cells[k].0 == offset(start, d, k).0 && cells[k].1 == offset(start, d, k).1);
        assert(cells[k + 1].0 == offset(start, d, k + 1).0);
    }
}

/// Every chain that carving makes is contiguous in the direction in which
/// it was carved: from each cell to the next one coordinate changes by one,
/// the other stays.
pub proof fn lemma_carved_contiguous(avail: Set<Cell>, chains: Seq<Chain>, i: int)
    requires
        0 <= i < chains.len(),
        carved_in_turn(avail, chains, i),
    ensures
        exists|d: Direction| is_contiguous(chains[i].cells@, d),
{
    let (d, cap) = choose|d: Direction, cap: int|
        CHAIN_MIN <= cap < CHAIN_MAX && #[trigger] is_chain_from(
            avail.difference(all_cells(chains.take(i)).to_set()),
            chains[i].cells@[0],
            d,
            cap,
            chains[i].cells@,
        );
    lemma_run_contiguous(chains[i].cells@, chains[i].cells@[0], d);
}

/// The grid, the start, the direction and the cap leave one chain only.
pub proof fn lemma_chain_unique(
    avail: Set<Cell>,
    start: Cell,
    d: Direction,
    cap: int,
    a: Seq<Cell>,
    b: Seq<Cell>,
)
    requires
        is_chain_from(avail, start, d, cap, a),
        is_chain_from(avail, start, d, cap, b),
    ensures
        a == b,
{
    lemma_chain_length(avail, start, d, cap, a, b);
    lemma_chain_length(avail, start, d, cap, b, a);
    assert forall|k: int| 0 <= k < a.len() implies a[k] == b[k] by {
        assert(a[k].0 == offset(start, d, k).0 && a[k].1 == offset(start, d, k).1);
        assert(b[k].0 == offset(start, d, k).0 && b[k].1 == offset(start, d, k).1);
    }
    assert(a =~= b);
}

/// Of two chains carved from the same start, the first is no shorter.
proof fn lemma_chain_length(
    avail: Set<Cell>,
    start: Cell,
    d: Direction,
    cap: int,
    a: Seq<Cell>,
    b: Seq<Cell>,
)
    requires
        is_chain_from(avail, start, d, cap, a),
        is_chain_from(avail, start, d, cap, b),
    ensures
        a.len() >= b.len(),
{
    if a.len() < b.len() {
        let n = a.len() as int;
        let c = b[n];
        assert(avail.contains(c));
        assert(c.0 == offset(start, d, n).0 && c.1 == offset(start, d, n).1);
        assert(unclaimed_at(avail, offset(start, d, n)));
    }
}

/// Carves one chain: claims `start` and then the cells that follow it in
/// `direction`, until the next place is outside the grid or claimed, or the
/// chain has grown longer than `cap`.
pub fn carve_chain(grid: &mut Grid, start: Cell, direction: Direction, cap: i32) -> (chain: Vec<
    Cell,
>)
    requires
        old(grid).wf(),
        old(grid)@.contains(start),
    ensures
        final(grid).wf(),
        final(grid).w == old(grid).w,
        final(grid).h == old(grid).h,
        is_chain_from(old(grid)@, start, direction, cap as int, chain@),
        final(grid)@ =~= old(grid)@.difference(chain@.to_set()),
        final(grid).remaining() == old(grid).remaining() - chain@.len(),
{
    let mut chain: Vec<Cell> = Vec::new();
    let _ = grid.take_cell(&start);
    chain.push(start);
    let mut current: Cell = start;
    let mut done: bool = false;
    proof {
        lemma_push_contains(Seq::<Cell>::empty(), start);
        assert(chain@ == Seq::<Cell>::empty().push(start));
        assert forall|c: Cell| chain@.contains(c) <==> c == start by {
            assert(!Seq::<Cell>::empty().contains(c));
        }
    }
    while !done
        invariant
            grid.wf(),
            old(grid).wf(),
            grid.w == old(grid).w,
            grid.h == old(grid).h,
            chain@.len() >= 1,
            current == chain@.last(),
            is_run(chain@, start, direction),
            forall|k: int| 0 <= k < chain@.len() ==> old(grid)@.contains(#[trigger] chain@[k]),
            grid@ =~= old(grid)@.difference(chain@.to_set()),
            grid.remaining() == old(grid).remaining() - chain@.len(),
            !done && chain@.len() >= 2 ==> chain@.len() <= cap,
            chain@.len() >= 3 ==> chain@.len() - 1 <= cap,
            done ==> (chain@.len() >= 2 && chain@.len() > cap) || !unclaimed_at(
                old(grid)@,
                offset(start, direction, chain@.len() as int),
            ),
        decreases grid.remaining() + (if done { 0nat } else { 1nat }),
    {
        let ghost n = chain@.len() as int;
        let ghost before = chain@;
        proof {
            assert(chain@[n - 1].0 == offset(start, direction, n - 1).0 && chain@[n - 1].1
                == offset(start, direction, n - 1).1);
            lemma_run_no_duplicates(chain@, start, direction);
        }
        match grid.adjacent_cell_coordinates(&current, &direction) {
            None => {
                proof {
                    if unclaimed_at(old(grid)@, offset(start, direction, n)) {
                        let c = choose|c: Cell|
                            old(grid)@.contains(c) && c.0 == offset(start, direction, n).0 && c.1
                                == offset(start, direction, n).1;
                        assert(in_bounds(grid.w, grid.h, c));
                        assert(false);
                    }
                }
                done = true;
            },
            Some(next) => {
                proof {
                    assert(next.0 == offset(start, direction, n).0 && next.1 == offset(
                        start,
                        direction,
                        n,
                    ).1);
                    if chain@.contains(next) {
                        let k = choose|k: int| 0 <= k < chain@.len() && chain@[k] == next;
                        assert(chain@[k].0 == offset(start, direction, k).0 && chain@[k].1
                            == offset(start, direction, k).1);
                        assert(false);
                    }
                }
                match grid.take_cell(&next) {
                    None => {
                        proof {
                            if unclaimed_at(old(grid)@, offset(start, direction, n)) {
                                let c = choose|c: Cell|
                                    old(grid)@.contains(c) && c.0 == offset(start, direction, n).0
                                        && c.1 == offset(start, direction, n).1;
                                assert(c == next);
                                assert(false);
                            }
                        }
                        done = true;
                    },
                    Some(cell) => {
                        proof {
                            lemma_push_contains(chain@, cell);
                        }
                        chain.push(cell);
                        current = cell;
                        proof {
                            assert(chain@ == before.push(cell));
                            assert(chain@.to_set() =~= before.to_set().insert(cell));
                            assert(is_run(chain@, start, direction)) by {
                                assert forall|k: int| 0 <= k < chain@.len() implies (
                                #[trigger] chain@[k]).0 == offset(start, direction, k).0
                                    && chain@[k].1 == offset(start, direction, k).1 by {
                                    if k < n {
                                        assert(chain@[k] == before[k]);
                                    }
                                }
                            }
                        }
                        if cap < 0 || chain.len() > cap as usize {
                            done = true;
                        }
                    },
                }
            },
        }
    }
    chain
}

/// Appending a sequence to another, both without repetition and with no
/// element in common, gives a sequence without repetition.
pub proof fn lemma_concat_no_duplicates<T>(a: Seq<T>, b: Seq<T>)
    requires
        a.no_duplicates(),
        b.no_duplicates(),
        forall|x: T| !(a.contains(x) && b.contains(x)),
    ensures
        (a + b).no_duplicates(),
        forall|x: T| (a + b).contains(x) <==> (a.contains(x) || b.contains(x)),
{
    assert forall|i: int, j: int| 0 <= i < (a + b).len() && 0 <= j < (a + b).len() && i
        != j implies (a + b)[i] != (a + b)[j] by {
        if i < a.len() && j >= a.len() {
            assert(a.contains(a[i]));
            assert(b.contains(b[j - a.len()]));
        }
        if j < a.len() && i >= a.len() {
            assert(a.contains(a[j]));
            assert(b.contains(b[i - a.len()]));
        }
    }
    assert forall|x: T| (a + b).contains(x) <==> (a.contains(x) || b.contains(x)) by {
        if (a + b).contains(x) {
            let i = choose|i: int| 0 <= i < (a + b).len() && (a + b)[i] == x;
            if i < a.len() {
                assert(a[i] == x);
            } else {
                assert(b[i - a.len()] == x);
            }
        }
        if a.contains(x) {
            let i = choose|i: int| 0 <= i < a.len() && a[i] == x;
            assert((a + b)[i] == x);
        }
        if b.contains(x) {
            let i = choose|i: int| 0 <= i < b.len() && b[i] == x;
            assert((a + b)[a.len() + i] == x);
        }
    }
}

/// Carves the whole grid into chains: as long as a cell is unclaimed, draws
/// a cap, a direction and an unclaimed start with the generator `rng`, and
/// carves the chain from there. Every cell that was unclaimed lies in one chain, once.
pub fn carve(grid: &mut Grid, rng: &mut StdRng) -> (chains: Vec<Chain>)
    requires
        old(grid).wf(),
    ensures
        final(grid).wf(),
        final(grid).w == old(grid).w,
        final(grid).h == old(grid).h,
        final(grid).remaining() == 0,
        all_cells(chains@).no_duplicates(),
        all_cells(chains@).to_set() =~= old(grid)@,
        all_cells(chains@).len() == old(grid).remaining(),
        forall|i: int| 0 <= i < chains@.len() ==> is_straight((#[trigger] chains@[i]).cells@),
        forall|i: int| 0 <= i < chains@.len() ==> carved_in_turn(old(grid)@, chains@, i),
        forall|i: int| 0 <= i < chains@.len() ==> has_table_attributes(#[trigger] chains@[i]),
{
    let mut chains: Vec<Chain> = Vec::new();
    while grid.has_cells()
        invariant
            grid.wf(),
            grid.w == old(grid).w,
            grid.h == old(grid).h,
            all_cells(chains@).no_duplicates(),
            forall|c: Cell|
                old(grid)@.contains(c) <==> (grid@.contains(c) || all_cells(chains@).contains(c)),
            forall|c: Cell| !(grid@.contains(c) && all_cells(chains@).contains(c)),
            all_cells(chains@).len() + grid.remaining() == old(grid).remaining(),
            forall|i: int| 0 <= i < chains@.len() ==> is_straight((#[trigger] chains@[i]).cells@),
            forall|i: int| 0 <= i < chains@.len() ==> carved_in_turn(old(grid)@, chains@, i),
            forall|i: int| 0 <= i < chains@.len() ==> has_table_attributes(#[trigger] chains@[i]),
        decreases grid.remaining(),
    {
        let chain_len = random_in_range(CHAIN_MIN, CHAIN_MAX, rng);
        let chain_direction = random_direction_with(rng);
        match grid.peek_random_with(rng) {
            None => {},
            Some(start) => {
                if !grid.cell_taken(&start) {
                    let ghost avail = grid@;
                    let ghost earlier = chains@;
                    let cells = carve_chain(grid, start, chain_direction, chain_len);
                    let chain = Chain::from_cells_with(cells, rng);
                    proof {
                        lemma_run_no_duplicates(chain.cells@, start, chain_direction);
                        assert forall|x: Cell|
                            !(all_cells(earlier).contains(x) && chain.cells@.contains(x)) by {
                            if chain.cells@.contains(x) {
                                let k = choose|k: int|
                                    0 <= k < chain.cells@.len() && chain.cells@[k] == x;
                                assert(avail.contains(chain.cells@[k]));
                            }
                        }
                        lemma_concat_no_duplicates(all_cells(earlier), chain.cells@);
                        assert(chain.cells@[0].0 == offset(start, chain_direction, 0).0
                            && chain.cells@[0].1 == offset(start, chain_direction, 0).1);
                        assert(chain.cells@[0] == start);
                        assert(is_straight(chain.cells@));
                    }
                    chains.push(chain);
                    proof {
                        assert(chains@.take(earlier.len() as int) == earlier);
                        assert(avail =~= old(grid)@.difference(all_cells(earlier).to_set()));
                        assert(is_chain_from(
                            old(grid)@.difference(
                                all_cells(chains@.take(earlier.len() as int)).to_set(),
                            ),
                            chains@[earlier.len() as int].cells@[0],
                            chain_direction,
                            chain_len as int,
                            chains@[earlier.len() as int].cells@,
                        ));
                        assert forall|i: int| 0 <= i < chains@.len() implies carved_in_turn(
                            old(grid)@,
                            chains@,
                            i,
                        ) by {
                            if i < earlier.len() {
                                assert(carved_in_turn(old(grid)@, earlier, i));
                                assert(chains@.take(i) == earlier.take(i));
                                assert(chains@[i] == earlier[i]);
                            }
                        }
                        assert(chains@.drop_last() == earlier);
                        assert(all_cells(chains@) == all_cells(earlier) + chain.cells@);
                        assert forall|c: Cell|
                            old(grid)@.contains(c) <==> (grid@.contains(c) || all_cells(
                                chains@,
                            ).contains(c)) by {
                            if chain.cells@.contains(c) {
                                let k = choose|k: int|
                                    0 <= k < chain.cells@.len() && chain.cells@[k] == c;
                                assert(avail.contains(chain.cells@[k]));
                            }
                        }
                    }
                }
            },
        }
    }
    proof {
        assert(all_cells(chains@).to_set() =~= old(grid)@);
    }
    chains
}

/// Carves a fresh grid of `w` columns and `h` rows into chains. Every cell
/// of the grid lies in one chain, once.
pub fn carve_grid(w: u32, h: u32, rng: &mut StdRng) -> (chains: Vec<Chain>)
    requires
        w <= i32::MAX,
        h <= i32::MAX,
    ensures
        all_cells(chains@).no_duplicates(),
        all_cells(chains@).to_set() =~= whole_grid(w, h),
        all_cells(chains@).len() == w * h,
        forall|i: int| 0 <= i < chains@.len() ==> is_straight((#[trigger] chains@[i]).cells@),
        forall|i: int|
            0 <= i < chains@.len() ==> #[trigger] carved_in_turn(whole_grid(w, h), chains@, i),
        forall|i: int| 0 <= i < chains@.len() ==> has_table_attributes(#[trigger] chains@[i]),
{
    let mut grid = Grid::new(w, h);
    carve(&mut grid, rng)
}

} // verus!
