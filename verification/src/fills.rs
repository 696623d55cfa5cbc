//! What is drawn into the rectangle of a chain: lattices of points, by their
//! indices along the two axes, and meshes of triangles.

use vstd::prelude::*;
use nannou_core::geom::Rect;
use nannou_core::glam::Vec2;
use crate::geometry::{rect_subdivisions, rect_triangles};
use rand::rngs::StdRng;
use crate::random::{entropy_rng, shuffle_points};

verus! {

/// Why a fill could not be made.
#[derive(Clone, Copy, Debug, PartialEq, Eq, Structural)]
pub enum FillError {
    /// The number of levels is negative.
    InvalidLevels,
}

/// The place, in the order of a lattice whose columns hold `y + 1` points, of
/// the point `j` steps up column `i`.
pub open spec fn slot(i: int, j: int, y: int) -> int {
    i * (y + 1) + j
}

/// Whether `points` is the lattice of `x` intervals across and `y` intervals
/// up: the index pairs from `(0, 0)` to `(x, y)`, column after column, each
/// column from the bottom. With a negative `x` or `y` the lattice is empty.
pub open spec fn is_lattice(points: Seq<(i32, i32)>, x: int, y: int) -> bool {
    if x < 0 || y < 0 {
        points.len() == 0
    } else {
        &&& points.len() == (x + 1) * (y + 1)
        &&& forall|i: int, j: int|
            0 <= i <= x && 0 <= j <= y ==> (#[trigger] points[slot(i, j, y)]).0 == i
                && points[slot(i, j, y)].1 == j
    }
}

/// A point of an earlier column stands before every point of a later one.
proof fn lemma_slot_before(a: int, b: int, i: int, y: int)
    requires
        0 <= a < i,
        0 <= b <= y,
    ensures
        0 <= slot(a, b, y) < i * (y + 1),
{
    assert(a * (y + 1) + (y + 1) <= i * (y + 1)) by (nonlinear_arith)
        requires
            0 <= a < i,
            0 <= y,
    ;
    assert(0 <= a * (y + 1)) by (nonlinear_arith)
        requires
            0 <= a,
            0 <= y,
    ;
}

/// The lattice of `x_intervals` intervals across and `y_intervals` intervals
/// up, as the indices of its points along the two axes.
pub fn evenly_distributed_grid(x_intervals: i32, y_intervals: i32) -> (points: Vec<(i32, i32)>)
    ensures
        is_lattice(points@, x_intervals as int, y_intervals as int),
{
    let mut points: Vec<(i32, i32)> = Vec::new();
    if x_intervals < 0 || y_intervals < 0 {
        return points;
    }
    let x: i64 = x_intervals as i64;
    let y: i64 = y_intervals as i64;
    let mut i: i64 = 0;
    while i <= x
        invariant
            0 <= i <= x + 1,
            0 <= y <= i32::MAX,
            x <= i32::MAX,
            points@.len() == i * (y + 1),
            forall|a: int, b: int|
                0 <= a < i && 0 <= b <= y ==> (#[trigger] points@[slot(a, b, y as int)]).0 == a
                    && points@[slot(a, b, y as int)].1 == b,
        decreases x + 1 - i,
    {
        let mut j: i64 = 0;
        while j <= y
            invariant
                0 <= i <= x,
                0 <= j <= y + 1,
                0 <= y <= i32::MAX,
                x <= i32::MAX,
                points@.len() == i * (y + 1) + j,
                forall|a: int, b: int|
                    0 <= a < i && 0 <= b <= y ==> (#[trigger] points@[slot(a, b, y as int)]).0
                        == a && points@[slot(a, b, y as int)].1 == b,
                forall|b: int|
                    0 <= b < j ==> (#[trigger] points@[slot(i as int, b, y as int)]).0 == i
                        && points@[slot(i as int, b, y as int)].1 == b,
            decreases y + 1 - j,
        {
            let ghost before = points@;
            points.push((i as i32, j as i32));
            proof {
                assert forall|a: int, b: int| 0 <= a < i && 0 <= b <= y implies (
                #[trigger] points@[slot(a, b, y as int)]).0 == a && points@[slot(
                    a,
                    b,
                    y as int,
                )].1 == b by {
                    lemma_slot_before(a, b, i as int, y as int);
                    assert(points@[slot(a, b, y as int)] == before[slot(a, b, y as int)]);
                }
                assert forall|b: int| 0 <= b < j + 1 implies (#[trigger] points@[slot(
                    i as int,
                    b,
                    y as int,
                )]).0 == i && points@[slot(i as int, b, y as int)].1 == b by {
                    if b < j {
                        assert(points@[slot(i as int, b, y as int)] == before[slot(
                            i as int,
                            b,
                            y as int,
                        )]);
                    }
                }
            }
            j = j + 1;
        }
        proof {
            assert((i + 1) * (y + 1) == i * (y + 1) + (y + 1)) by (nonlinear_arith);
        }
        i = i + 1;
    }
    points
}

/// The points of the same lattice in an order drawn at random.
pub fn randomly_ordered_grid_of_points(x_intervals: i32, y_intervals: i32) -> (points: Vec<
    (i32, i32),
>)
    ensures
        exists|lattice: Seq<(i32, i32)>|
            is_lattice(lattice, x_intervals as int, y_intervals as int)
                && #[trigger] lattice.to_multiset() == points@.to_multiset() && lattice.len()
                == points@.len(),
{
    let mut rng = entropy_rng();
    randomly_ordered_grid_of_points_with(x_intervals, y_intervals, &mut rng)
}

/// The points of the same lattice in an order drawn with the generator
/// `rng`.
pub fn randomly_ordered_grid_of_points_with(
    x_intervals: i32,
    y_intervals: i32,
    rng: &mut StdRng,
) -> (points: Vec<(i32, i32)>)
    ensures
        exists|lattice: Seq<(i32, i32)>|
            is_lattice(lattice, x_intervals as int, y_intervals as int)
                && #[trigger] lattice.to_multiset() == points@.to_multiset() && lattice.len()
                == points@.len(),
{
    let mut points = evenly_distributed_grid(x_intervals, y_intervals);
    let ghost lattice = points@;
    shuffle_points(&mut points, rng);
    proof {
        vstd::seq_lib::to_multiset_len(lattice);
        vstd::seq_lib::to_multiset_len(points@);
        assert(lattice.to_multiset() == points@.to_multiset());
    }
    points
}

/// There is one lattice only of `x` intervals across and `y` intervals up.
pub proof fn lemma_lattice_unique(a: Seq<(i32, i32)>, b: Seq<(i32, i32)>, x: int, y: int)
    requires
        is_lattice(a, x, y),
        is_lattice(b, x, y),
    ensures
        a == b,
{
    if x >= 0 && y >= 0 {
        assert forall|k: int| 0 <= k < a.len() implies a[k] == b[k] by {
            let i = k / (y + 1);
            let j = k % (y + 1);
            vstd::arithmetic::div_mod::lemma_fundamental_div_mod(k, y + 1);
            vstd::arithmetic::div_mod::lemma_mod_bound(k, y + 1);
            assert(k == (y + 1) * i + j);
            assert((y + 1) * i == i * (y + 1)) by (nonlinear_arith);
            assert(0 <= i <= x) by (nonlinear_arith)
                requires
                    0 <= k < (x + 1) * (y + 1),
                    k == (y + 1) * i + j,
                    0 <= j < y + 1,
                    0 <= y,
            ;
            assert(slot(i, j, y) == k);
            assert(a[slot(i, j, y)].0 == i && a[slot(i, j, y)].1 == j);
            assert(b[slot(i, j, y)].0 == i && b[slot(i, j, y)].1 == j);
        }
    }
    assert(a =~= b);
}

/// Four to the power of `n`.
pub open spec fn pow4(n: nat) -> nat
    decreases n,
{
    if n == 0 {
        1
    } else {
        4 * pow4((n - 1) as nat)
    }
}

/// Splits each rectangle of `rects` into its four quarters, in order.
fn subdivide_all(rects: &Vec<Rect>) -> (parts: Vec<Rect>)
    ensures
        parts@.len() == 4 * rects@.len(),
{
    let mut parts: Vec<Rect> = Vec::new();
    let mut k: usize = 0;
    while k < rects.len()
        invariant
            k <= rects@.len(),
            parts@.len() == 4 * k,
        decreases rects@.len() - k,
    {
        let mut quarters = rect_subdivisions(&rects[k]);
        parts.append(&mut quarters);
        k = k + 1;
    }
    parts
}

/// The triangles that cover `rect`: the rectangle is split into quarters,
/// the quarters again, `levels` times more, and each of the rectangles that
/// this leaves is cut into two triangles, each given by its three corners.
pub fn subtriangles(rect: &Rect, levels: i32) -> (r: Result<Vec<Vec<Vec2>>, FillError>)
    ensures
        levels < 0 ==> r == Err::<Vec<Vec<Vec2>>, FillError>(FillError::InvalidLevels),
        levels >= 0 ==> r.is_ok() && r.unwrap()@.len() == 2 * pow4((levels + 1) as nat)
            && forall|i: int|
            0 <= i < r.unwrap()@.len() ==> (#[trigger] r.unwrap()@[i])@.len() == 3,
{
    if levels < 0 {
        return Err(FillError::InvalidLevels);
    }
    let mut subdivisions: Vec<Rect> = rect_subdivisions(rect);
    let mut pass: i32 = 0;
    proof {
        reveal_with_fuel(pow4, 2);
    }
    while pass < levels
        invariant
            0 <= pass <= levels,
            subdivisions@.len() == pow4((pass + 1) as nat),
        decreases levels - pass,
    {
        subdivisions = subdivide_all(&subdivisions);
        pass = pass + 1;
    }
    let mut triangles: Vec<Vec<Vec2>> = Vec::new();
    let mut k: usize = 0;
    while k < subdivisions.len()
        invariant
            k <= subdivisions@.len(),
            triangles@.len() == 2 * k,
            forall|i: int| 0 <= i < triangles@.len() ==> (#[trigger] triangles@[i])@.len() == 3,
        decreases subdivisions@.len() - k,
    {
        let mut halves = rect_triangles(&subdivisions[k]);
        triangles.append(&mut halves);
        k = k + 1;
    }
    Ok(triangles)
}

} // verus!
