//! The rectangles and points of the drawing surface, and the calls that
//! split them.
//!
//! The types are declared without their contents, and the contracts of the
//! calls are believed, not proved: they state what the source of the called
//! functions shows.

use vstd::prelude::*;
use nannou_core::geom::Rect;
use nannou_core::glam::Vec2;

verus! {

/// `nannou_core::geom::Rect`, a rectangle with its sides along the axes,
/// declared without its contents.
#[verifier::external_type_specification]
#[verifier::external_body]
#[verifier::reject_recursive_types(S)]
pub struct ExRect<S>(nannou_core::geom::Rect<S>);

/// `glam::Vec2`, a point of the plane, as `nannou_core` hands it on,
/// declared without its contents.
#[verifier::external_type_specification]
#[verifier::external_body]
pub struct ExVec2(nannou_core::glam::Vec2);

/// Calls `nannou_core::geom::Rect::subdivisions`, which halves the
/// rectangle along both axes and returns the four quarters in an array.
#[verifier::external_body]
pub(crate) fn rect_subdivisions(rect: &Rect) -> (parts: Vec<Rect>)
    ensures
        parts@.len() == 4,
{
    rect.subdivisions().to_vec()
}

/// Calls `nannou_core::geom::Rect::triangles_iter`, which yields the two
/// triangles that a diagonal cuts the rectangle into, and
/// `nannou_core::geom::Tri::vertices` on each, which yields its three
/// corners.
#[verifier::external_body]
pub(crate) fn rect_triangles(rect: &Rect) -> (triangles: Vec<Vec<Vec2>>)
    ensures
        triangles@.len() == 2,
        forall|i: int| 0 <= i < 2 ==> (#[trigger] triangles@[i])@.len() == 3,
{
    rect.triangles_iter().map(|t| t.vertices().map(|[x, y]| Vec2::new(x, y)).collect()).collect()
}

} // verus!
