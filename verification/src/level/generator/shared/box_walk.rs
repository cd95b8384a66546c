//! Bookkeeping for features that walk a box of cells in order (`x`, then `z`, then `y`)
//! and write at most one block per cell: how far the walk has come, and what the quad
//! holds at every point of it.
use super::BlockPos;
use super::quad_chunk_buffer::{QuadView, known_block};
use vstd::prelude::*;

verus! {

/// Cell `(a, b, c)` comes before cell `(i, j, k)` in a walk over `x`, then `z`, then `y`.
pub open spec fn cell_before(a: int, b: int, c: int, i: int, j: int, k: int) -> bool {
    a < i || (a == i && b < j) || (a == i && b == j && c < k)
}

/// The cell of a box at `corner` whose walk writes position `(x, y, z)`: the cell's `y`
/// is the position's plus `shift`.
pub open spec fn walk_cell_before(corner: BlockPos, shift: int, x: int, y: int, z: int, i: int, j: int, k: int) -> bool {
    cell_before(x - corner.x, z - corner.z, y - corner.y + shift, i, j, k)
}

/// A walk up to cell `(i, j, k)` has turned `base` into `q`: positions of cells already
/// walked hold `target`, all others what `base` held.
pub open spec fn walked(
    base: QuadView,
    q: QuadView,
    target: spec_fn(int, int, int) -> Option<i32>,
    corner: BlockPos,
    shift: int,
    i: int,
    j: int,
    k: int,
) -> bool {
    forall|x: int, y: int, z: int|
        #[trigger] known_block(q, x, y, z) == if walk_cell_before(corner, shift, x, y, z, i, j, k) {
            target(x, y, z)
        } else {
            known_block(base, x, y, z)
        }
}

/// `target` changes nothing outside the cells `0 <= dx < 16`, `0 <= dz < 16`,
/// `lo <= dy < 8` of the walk.
pub open spec fn target_inside(
    base: QuadView,
    target: spec_fn(int, int, int) -> Option<i32>,
    corner: BlockPos,
    shift: int,
    lo: int,
) -> bool {
    forall|x: int, y: int, z: int|
        !(0 <= x - corner.x < 16 && 0 <= z - corner.z < 16 && lo <= y - corner.y + shift < 8) ==> #[trigger] target(x, y, z)
            == known_block(base, x, y, z)
}

/// Nothing walked yet.
pub proof fn lemma_walk_start(base: QuadView, target: spec_fn(int, int, int) -> Option<i32>, corner: BlockPos, shift: int, lo: int)
    requires
        target_inside(base, target, corner, shift, lo),
    ensures
        walked(base, base, target, corner, shift, 0, 0, lo),
{
    assert forall|x: int, y: int, z: int|
        #[trigger] known_block(base, x, y, z) == if walk_cell_before(corner, shift, x, y, z, 0, 0, lo) {
            target(x, y, z)
        } else {
            known_block(base, x, y, z)
        } by {
        if walk_cell_before(corner, shift, x, y, z, 0, 0, lo) {
            assert(target(x, y, z) == known_block(base, x, y, z));
        }
    }
}

/// One more cell walked: its position now holds `target`, nothing else changed.
pub proof fn lemma_walk_step(
    base: QuadView,
    q: QuadView,
    next: QuadView,
    target: spec_fn(int, int, int) -> Option<i32>,
    corner: BlockPos,
    shift: int,
    i: int,
    j: int,
    k: int,
)
    requires
        walked(base, q, target, corner, shift, i, j, k),
        known_block(next, corner.x + i, corner.y + k - shift, corner.z + j) == target(
            corner.x + i,
            corner.y + k - shift,
            corner.z + j,
        ),
        forall|x: int, y: int, z: int|
            !(x == corner.x + i && y == corner.y + k - shift && z == corner.z + j) ==> #[trigger] known_block(next, x, y, z)
                == known_block(q, x, y, z),
    ensures
        walked(base, next, target, corner, shift, i, j, k + 1),
{
    assert forall|x: int, y: int, z: int|
        #[trigger] known_block(next, x, y, z) == if walk_cell_before(corner, shift, x, y, z, i, j, k + 1) {
            target(x, y, z)
        } else {
            known_block(base, x, y, z)
        } by {
        if !(x == corner.x + i && y == corner.y + k - shift && z == corner.z + j) {
            assert(known_block(next, x, y, z) == known_block(q, x, y, z));
        }
    }
}

/// A finished row of `y`: on to the next `z`.
pub proof fn lemma_walk_next_z(
    base: QuadView,
    q: QuadView,
    target: spec_fn(int, int, int) -> Option<i32>,
    corner: BlockPos,
    shift: int,
    lo: int,
    i: int,
    j: int,
)
    requires
        walked(base, q, target, corner, shift, i, j, 8),
        target_inside(base, target, corner, shift, lo),
    ensures
        walked(base, q, target, corner, shift, i, j + 1, lo),
{
    assert forall|x: int, y: int, z: int|
        #[trigger] known_block(q, x, y, z) == if walk_cell_before(corner, shift, x, y, z, i, j + 1, lo) {
            target(x, y, z)
        } else {
            known_block(base, x, y, z)
        } by {
        if walk_cell_before(corner, shift, x, y, z, i, j + 1, lo) != walk_cell_before(corner, shift, x, y, z, i, j, 8) {
            assert(target(x, y, z) == known_block(base, x, y, z));
        }
    }
}

/// A finished plane of `z`: on to the next `x`.
pub proof fn lemma_walk_next_x(
    base: QuadView,
    q: QuadView,
    target: spec_fn(int, int, int) -> Option<i32>,
    corner: BlockPos,
    shift: int,
    lo: int,
    i: int,
)
    requires
        walked(base, q, target, corner, shift, i, 16, lo),
        target_inside(base, target, corner, shift, lo),
    ensures
        walked(base, q, target, corner, shift, i + 1, 0, lo),
{
    assert forall|x: int, y: int, z: int|
        #[trigger] known_block(q, x, y, z) == if walk_cell_before(corner, shift, x, y, z, i + 1, 0, lo) {
            target(x, y, z)
        } else {
            known_block(base, x, y, z)
        } by {
        if walk_cell_before(corner, shift, x, y, z, i + 1, 0, lo) != walk_cell_before(corner, shift, x, y, z, i, 16, lo) {
            assert(target(x, y, z) == known_block(base, x, y, z));
        }
    }
}

/// The whole box walked: every position holds `target`.
pub proof fn lemma_walk_done(
    base: QuadView,
    q: QuadView,
    target: spec_fn(int, int, int) -> Option<i32>,
    corner: BlockPos,
    shift: int,
    lo: int,
)
    requires
        walked(base, q, target, corner, shift, 16, 0, lo),
        target_inside(base, target, corner, shift, lo),
    ensures
        forall|x: int, y: int, z: int| #[trigger] known_block(q, x, y, z) == target(x, y, z),
{
    assert forall|x: int, y: int, z: int| #[trigger] known_block(q, x, y, z) == target(x, y, z) by {
        if !walk_cell_before(corner, shift, x, y, z, 16, 0, lo) {
            assert(target(x, y, z) == known_block(base, x, y, z));
        }
    }
}

} // verus!
