//! The dense voxel array of a chunk, kept in the lattice crate's own storage.
use vstd::prelude::*;
use building_blocks::prelude::{Extent3i, PointN};
use building_blocks::storage::{Array, Array3x1, Channel, FillExtent, Get};
use crate::voxel::Voxel;

verus! {

/// `building_blocks::storage::Array`: a dense map from the lattice points of a box
/// to values. Nothing is known of a value of it but what `grid_cells` names.
#[verifier::external_type_specification]
#[verifier::external_body]
#[verifier::reject_recursive_types(N)]
#[verifier::reject_recursive_types(Chan)]
pub struct ExArray<N, Chan>(Array<N, Chan>);

/// `building_blocks::storage::Channel`: the store of one array's values.
#[verifier::external_type_specification]
#[verifier::external_body]
#[verifier::reject_recursive_types(T)]
#[verifier::reject_recursive_types(Store)]
pub struct ExChannel<T, Store>(Channel<T, Store>);

/// A lattice point, as mathematical integers.
pub type Point = (int, int, int);

/// What an array holds: the voxel at each lattice point of its extent, and nothing
/// at any other point.
pub uninterp spec fn grid_cells(grid: Array3x1<Voxel>) -> Map<Point, Voxel>;

/// The lattice point that three machine integers name.
pub open spec fn point_of(p: [i32; 3]) -> Point {
    (p[0] as int, p[1] as int, p[2] as int)
}

/// Whether `p` lies in the box that starts at `min` and has `shape` points per axis.
pub open spec fn in_box(p: Point, min: Point, shape: Point) -> bool {
    &&& min.0 <= p.0 < min.0 + shape.0
    &&& min.1 <= p.1 < min.1 + shape.1
    &&& min.2 <= p.2 < min.2 + shape.2
}

/// Whether `p` lies between the corners `lo` and `hi`, both included.
pub open spec fn in_span(p: Point, lo: Point, hi: Point) -> bool {
    &&& lo.0 <= p.0 <= hi.0
    &&& lo.1 <= p.1 <= hi.1
    &&& lo.2 <= p.2 <= hi.2
}

/// The cells of a box in which every point holds `value`.
pub open spec fn uniform_cells(min: Point, shape: Point, value: Voxel) -> Map<Point, Voxel> {
    Map::new(|p: Point| in_box(p, min, shape), |p: Point| value)
}

/// `cells` with every point between `lo` and `hi` set to `value`.
pub open spec fn span_filled(cells: Map<Point, Voxel>, lo: Point, hi: Point, value: Voxel) -> Map<Point, Voxel> {
    Map::new(
        |p: Point| cells.dom().contains(p),
        |p: Point| if in_span(p, lo, hi) { value } else { cells[p] },
    )
}

/// Calls `Array3x1::fill` on the extent `Extent3i::from_min_and_shape(min, shape)`.
/// Taken on trust: the new array holds `value` at every point of that box and has
/// no other point. The bounds keep the number of points within an `i32`, in which
/// the array counts them.
#[verifier::external_body]
pub(crate) fn array_filled(min: [i32; 3], shape: [i32; 3], value: Voxel) -> (grid: Array3x1<Voxel>)
    requires
        1 <= shape[0] <= 1024,
        1 <= shape[1] <= 1024,
        1 <= shape[2] <= 1024,
        -1024 <= min[0] <= 1024,
        -1024 <= min[1] <= 1024,
        -1024 <= min[2] <= 1024,
    ensures
        grid_cells(grid) == uniform_cells(point_of(min), point_of(shape), value),
{
    Array3x1::fill(Extent3i::from_min_and_shape(PointN(min), PointN(shape)), value)
}

/// Calls `FillExtent::fill_extent` on the extent `Extent3i::from_min_and_max(lo, hi)`.
/// Taken on trust: every point of the array between the two corners, both included,
/// takes `value`; every other point keeps its voxel, and the array covers the same
/// points as before. Where a component of `hi` is below that of `lo` the extent is
/// empty and nothing changes. Both corners are asked to lie in the array, so that
/// no sum of coordinates leaves the range of `i32`.
#[verifier::external_body]
pub(crate) fn array_fill_span(grid: &mut Array3x1<Voxel>, lo: [i32; 3], hi: [i32; 3], value: Voxel)
    requires
        grid_cells(*old(grid)).dom().contains(point_of(lo)),
        grid_cells(*old(grid)).dom().contains(point_of(hi)),
    ensures
        grid_cells(*final(grid)) == span_filled(grid_cells(*old(grid)), point_of(lo), point_of(hi), value),
{
    grid.fill_extent(&Extent3i::from_min_and_max(PointN(lo), PointN(hi)), value)
}

/// Calls `Get::get` with the lattice point `p`. Taken on trust: the result is the
/// voxel that the array holds at `p`. The point is asked to lie in the array: an
/// optimised build of the array indexes its store without a check of its own.
#[verifier::external_body]
pub(crate) fn array_get(grid: &Array3x1<Voxel>, p: [i32; 3]) -> (v: Voxel)
    requires
        grid_cells(*grid).dom().contains(point_of(p)),
    ensures
        v == grid_cells(*grid)[point_of(p)],
{
    grid.get(PointN(p))
}

} // verus!
