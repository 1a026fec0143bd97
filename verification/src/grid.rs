//! The dense two-dimensional matrix container the engine stores its score
//! and pointer matrices in. The container comes from the spindalis crate and
//! is consumed purely as an indexable numeric grid: its contents are named
//! by an uninterpreted view, and the handful of operations the engine calls
//! are trusted wrappers whose contracts state what the container's source
//! shows.

use vstd::prelude::*;

verus! {

/// Declares spindalis's `Arr2D` so that it can stand in signatures and
/// fields; the value itself is opaque to the verifier.
#[verifier::external_type_specification]
#[verifier::external_body]
#[verifier::reject_recursive_types(T)]
pub struct ExArr2D<T>(spindalis::utils::Arr2D<T>);

/// The contents of an `Arr2D<i32>`, row by row. `Arr2D` stores a flat
/// `Vec<T>` of `height * width` cells together with its two dimensions;
/// this names the sequence of its `height` rows, each `width` cells wide.
pub uninterp spec fn grid_view(g: spindalis::utils::Arr2D<i32>) -> Seq<Seq<i32>>;

/// Relies on `Arr2D::full`, which builds `vec![val; height * width]` and
/// records the two dimensions. The bound keeps the internal
/// `height * width` multiplication and the byte size of the allocation
/// inside `isize::MAX`, short of which `full` panics.
#[verifier::external_body]
pub(crate) fn grid_full(val: i32, height: usize, width: usize) -> (g: spindalis::utils::Arr2D<i32>)
    requires
        height * width <= usize::MAX / 8,
    ensures
        grid_view(g).len() == height,
        forall|r: int| 0 <= r < height ==> #[trigger] grid_view(g)[r].len() == width,
        forall|r: int, c: int|
            0 <= r < height && 0 <= c < width ==> #[trigger] grid_view(g)[r][c] == val,
{
    spindalis::utils::Arr2D::full(val, height, width)
}

/// Relies on `Arr2D`'s `Index<(usize, usize)>` impl, which returns the cell
/// at `inner[row * width + col]` and panics out of bounds.
#[verifier::external_body]
pub(crate) fn grid_get(g: &spindalis::utils::Arr2D<i32>, row: usize, col: usize) -> (v: i32)
    requires
        row < grid_view(*g).len(),
        col < grid_view(*g)[row as int].len(),
    ensures
        v == grid_view(*g)[row as int][col as int],
{
    g[(row, col)]
}

/// Relies on `Arr2D`'s `IndexMut<(usize, usize)>` impl, which hands out a
/// mutable reference to the cell at `inner[row * width + col]` and panics
/// out of bounds; writing through it changes that cell alone.
#[verifier::external_body]
pub(crate) fn grid_set(g: &mut spindalis::utils::Arr2D<i32>, row: usize, col: usize, val: i32)
    requires
        row < grid_view(*old(g)).len(),
        col < grid_view(*old(g))[row as int].len(),
    ensures
        grid_view(*final(g)) == grid_view(*old(g)).update(
            row as int,
            grid_view(*old(g))[row as int].update(col as int, val),
        ),
{
    g[(row, col)] = val;
}

/// Relies on `Arr2D`'s derived `Clone` impl, which clones the flat cell
/// vector and copies the two dimensions.
#[verifier::external_body]
pub(crate) fn grid_clone(g: &spindalis::utils::Arr2D<i32>) -> (r: spindalis::utils::Arr2D<i32>)
    ensures
        grid_view(r) == grid_view(*g),
{
    g.clone()
}

} // verus!
