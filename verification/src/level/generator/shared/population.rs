//! Assembling populated columns: each owner chunk populates its forward quad, and a
//! column takes, on top of its own terrain, every block that one of the four owners
//! reaching it changed.
use std::sync::Arc;

use super::chunk_buffer::ChunkBuffer;
use super::quad_chunk_buffer::{QuadChunkBuffer, QuadView, initial_quad, quad_column, quad_covers};
use super::{CHUNK_HEIGHT, CHUNK_WIDTH, TerrainSource, column_index, column_len, generated_column};
use vstd::prelude::*;

verus! {

/// A generator whose owners' populated quads can be looked up, and whose population
/// pass can be run on a quad.
///
/// Each answer is a function of the generator and the arguments alone: `owner_quad`,
/// `isolated_quad` and `populated` name them (placeholder bodies, as in
/// `TerrainSource`).
pub trait PopulationSource: TerrainSource {
    /// The quad `owner_population` gives for owner `(owner_x, owner_z)`.
    closed spec fn owner_quad(&self, owner_x: i32, owner_z: i32) -> QuadView {
        vstd::pervasive::arbitrary()
    }

    /// The quad `owner_population_isolated` gives for owner `(owner_x, owner_z)`.
    closed spec fn isolated_quad(&self, owner_x: i32, owner_z: i32) -> QuadView {
        vstd::pervasive::arbitrary()
    }

    /// What `run_population` makes of quad `q` for owner `(owner_x, owner_z)`.
    closed spec fn populated(&self, owner_x: i32, owner_z: i32, q: QuadView) -> QuadView {
        vstd::pervasive::arbitrary()
    }

    fn owner_population(&self, owner_x: i32, owner_z: i32) -> (r: Arc<QuadChunkBuffer>)
        ensures
            (*r)@ == self.owner_quad(owner_x, owner_z),
    ;

    fn owner_population_isolated(&self, owner_x: i32, owner_z: i32) -> (r: Arc<QuadChunkBuffer>)
        ensures
            (*r)@ == self.isolated_quad(owner_x, owner_z),
    ;

    fn run_population(&self, owner_x: i32, owner_z: i32, buffer: &mut QuadChunkBuffer)
        ensures
            final(buffer)@ == self.populated(owner_x, owner_z, old(buffer)@),
    ;
}

/// The home column of owner `(owner_x, owner_z)` before its own population: its
/// generated column with its three backward neighbours' isolated quads overlaid, in the
/// order `(-1, -1)`, `(-1, 0)`, `(0, -1)`.
pub open spec fn seeded_home<G: PopulationSource>(generator: &G, owner_x: i32, owner_z: i32) -> Seq<i32> {
    let baseline = generated_column(generator, owner_x, owner_z);
    overlay_all(
        baseline,
        seq![
            generator.isolated_quad((owner_x - 1) as i32, (owner_z - 1) as i32),
            generator.isolated_quad((owner_x - 1) as i32, owner_z),
            generator.isolated_quad(owner_x, (owner_z - 1) as i32),
        ],
        owner_x as int,
        owner_z as int,
        baseline,
    )
}

/// The quad an owner's population starts from: its initial quad with the home column
/// seeded from its backward neighbours.
pub open spec fn seeded_quad<G: PopulationSource>(generator: &G, owner_x: i32, owner_z: i32) -> QuadView {
    let q = initial_quad(generator, owner_x, owner_z);
    QuadView { columns: q.columns.update(0, seeded_home(generator, owner_x, owner_z)), ..q }
}

/// The four owners whose populations reach chunk `(x, z)`, in raster order:
/// `(x - 1, z - 1)`, `(x - 1, z)`, `(x, z - 1)`, `(x, z)`.
pub open spec fn reaching_owners<G: PopulationSource>(generator: &G, x: i32, z: i32) -> Seq<QuadView> {
    seq![
        generator.owner_quad((x - 1) as i32, (z - 1) as i32),
        generator.owner_quad((x - 1) as i32, z),
        generator.owner_quad(x, (z - 1) as i32),
        generator.owner_quad(x, z),
    ]
}

/// Chunk `(x, z)`'s column `column` after `populate`: overlaid with its four reaching
/// owners' quads, in raster order, against its generated column.
pub open spec fn populated_column<G: PopulationSource>(generator: &G, x: i32, z: i32, column: Seq<i32>) -> Seq<i32> {
    overlay_all(generated_column(generator, x, z), reaching_owners(generator, x, z), x as int, z as int, column)
}

/// The last of `quads` that covers chunk `(x, z)` and changed block `i` of its column
/// from `baseline`, and the block it put there; `None` if none did.
pub open spec fn last_change(baseline: Seq<i32>, quads: Seq<QuadView>, x: int, z: int, i: int) -> Option<i32>
    decreases quads.len(),
{
    if quads.len() == 0 {
        None
    } else if quad_covers(quads.last(), x, z) && quad_column(quads.last(), x, z)[i] != baseline[i] {
        Some(quad_column(quads.last(), x, z)[i])
    } else {
        last_change(baseline, quads.drop_last(), x, z, i)
    }
}

/// Overlaying quads in turn gives each block the block of the last quad that changed it,
/// and leaves every other block as it was.
pub proof fn lemma_overlay_all_blocks(baseline: Seq<i32>, quads: Seq<QuadView>, x: int, z: int, column: Seq<i32>)
    ensures
        overlay_all(baseline, quads, x, z, column).len() == column.len(),
        forall|i: int|
            0 <= i < column.len() ==> #[trigger] overlay_all(baseline, quads, x, z, column)[i] == match last_change(
                baseline,
                quads,
                x,
                z,
                i,
            ) {
                Some(v) => v,
                None => column[i],
            },
    decreases quads.len(),
{
    if quads.len() > 0 {
        lemma_overlay_all_blocks(baseline, quads.drop_last(), x, z, column);
    }
}

/// Population assembly: every block of chunk `(x, z)`'s populated column is the block
/// the last of its four reaching owners changed it to, or its own block where none of
/// them changed it; and assembling a second time changes nothing.
pub proof fn lemma_populate_assembly<G: PopulationSource>(generator: &G, x: i32, z: i32, column: Seq<i32>)
    ensures
        populated_column(generator, x, z, column).len() == column.len(),
        forall|i: int|
            0 <= i < column.len() ==> #[trigger] populated_column(generator, x, z, column)[i] == match last_change(
                generated_column(generator, x, z),
                reaching_owners(generator, x, z),
                x as int,
                z as int,
                i,
            ) {
                Some(v) => v,
                None => column[i],
            },
        populated_column(generator, x, z, populated_column(generator, x, z, column)) == populated_column(generator, x, z, column),
{
    let b = generated_column(generator, x, z);
    let qs = reaching_owners(generator, x, z);
    let once = populated_column(generator, x, z, column);
    lemma_overlay_all_blocks(b, qs, x as int, z as int, column);
    lemma_overlay_all_blocks(b, qs, x as int, z as int, once);
    assert(populated_column(generator, x, z, once) =~= once);
}

/// `column` with every block that `owner` changed relative to `baseline` taken from
/// `owner`.
pub open spec fn overlay(baseline: Seq<i32>, owner: Seq<i32>, column: Seq<i32>) -> Seq<i32> {
    Seq::new(column.len(), |i: int| if owner[i] != baseline[i] { owner[i] } else { column[i] })
}

/// Overlaying the same owner twice changes nothing the first overlay did not.
pub proof fn lemma_overlay_idempotent(baseline: Seq<i32>, owner: Seq<i32>, column: Seq<i32>)
    requires
        baseline.len() == column.len(),
        owner.len() == column.len(),
    ensures
        overlay(baseline, owner, overlay(baseline, owner, column)) == overlay(baseline, owner, column),
{
    assert(overlay(baseline, owner, overlay(baseline, owner, column)) =~= overlay(baseline, owner, column));
}

/// An owner's column overlaid on the baseline it was populated from is that column
/// itself: every block it changed is taken, every other block is the baseline's.
pub proof fn lemma_overlay_on_baseline(baseline: Seq<i32>, owner: Seq<i32>)
    requires
        owner.len() == baseline.len(),
    ensures
        overlay(baseline, owner, baseline) == owner,
{
    assert(overlay(baseline, owner, baseline) =~= owner);
}

/// An owner that changed nothing leaves any column as it is.
pub proof fn lemma_overlay_unchanged_owner(baseline: Seq<i32>, column: Seq<i32>)
    requires
        baseline.len() == column.len(),
    ensures
        overlay(baseline, baseline, column) == column,
{
    assert(overlay(baseline, baseline, column) =~= column);
}

/// `column` overlaid with the quad's column for chunk `(x, z)`, if the quad covers it.
pub open spec fn overlay_from(baseline: Seq<i32>, quad: QuadView, x: int, z: int, column: Seq<i32>) -> Seq<i32> {
    if quad_covers(quad, x, z) {
        overlay(baseline, quad_column(quad, x, z), column)
    } else {
        column
    }
}

/// `column` overlaid with each quad of `quads` in turn.
pub open spec fn overlay_all(baseline: Seq<i32>, quads: Seq<QuadView>, x: int, z: int, column: Seq<i32>) -> Seq<i32>
    decreases quads.len(),
{
    if quads.len() == 0 {
        column
    } else {
        overlay_from(baseline, quads.last(), x, z, overlay_all(baseline, quads.drop_last(), x, z, column))
    }
}

/// Copies `owner_buffer`'s column for chunk `(x, z)` onto `column` wherever it differs
/// from `baseline`; a no-op if the quad does not cover `(x, z)`.
pub fn overlay_owner(baseline: &ChunkBuffer, owner_buffer: &QuadChunkBuffer, x: i32, z: i32, column: &mut ChunkBuffer)
    ensures
        final(column)@ == overlay_from(baseline@, owner_buffer@, x as int, z as int, old(column)@),
{
    let owner_column = match owner_buffer.column(x, z) {
        Some(c) => c,
        None => {
            return;
        },
    };
    proof {
        baseline.lemma_len();
        owner_column.lemma_len();
        column.lemma_len();
    }
    let ghost start = column@;
    let ghost target = overlay(baseline@, owner_column@, start);
    for lx in 0..CHUNK_WIDTH
        invariant
            column@.len() == column_len(),
            baseline@.len() == column_len(),
            owner_column@.len() == column_len(),
            start.len() == column_len(),
            target == overlay(baseline@, owner_column@, start),
            forall|i: int| 0 <= i < column_index(lx as int, 0, 0) ==> column@[i] == #[trigger] target[i],
            forall|i: int| column_index(lx as int, 0, 0) <= i < column_len() ==> column@[i] == #[trigger] start[i],
    {
        for ly in 0..CHUNK_HEIGHT
            invariant
                lx < 16,
                column@.len() == column_len(),
                baseline@.len() == column_len(),
                owner_column@.len() == column_len(),
                start.len() == column_len(),
                target == overlay(baseline@, owner_column@, start),
                forall|i: int| 0 <= i < column_index(lx as int, ly as int, 0) ==> column@[i] == #[trigger] target[i],
                forall|i: int| column_index(lx as int, ly as int, 0) <= i < column_len() ==> column@[i] == #[trigger] start[i],
        {
            for lz in 0..CHUNK_WIDTH
                invariant
                    lx < 16,
                    ly < 128,
                    column@.len() == column_len(),
                    baseline@.len() == column_len(),
                    owner_column@.len() == column_len(),
                    start.len() == column_len(),
                    target == overlay(baseline@, owner_column@, start),
                    forall|i: int| 0 <= i < column_index(lx as int, ly as int, lz as int) ==> column@[i] == #[trigger] target[i],
                    forall|i: int| column_index(lx as int, ly as int, lz as int) <= i < column_len() ==> column@[i] == #[trigger] start[i],
            {
                let owner_value = owner_column.get(lx, ly, lz);
                if owner_value != baseline.get(lx, ly, lz) {
                    column.set(lx, ly, lz, owner_value);
                }
            }
        }
    }
    proof {
        assert(column@ =~= target);
    }
}

/// Assembles chunk `(x, z)`'s populated column from the four owners that can place
/// something in it (`{x - 1, x} x {z - 1, z}`), applied in raster order.
pub fn populate<G: PopulationSource>(generator: &G, x: i32, z: i32, column: &mut ChunkBuffer)
    requires
        x > i32::MIN,
        z > i32::MIN,
    ensures
        final(column)@ == populated_column(generator, x, z, old(column)@),
{
    let baseline = generator.terrain_and_caves(x, z);
    let ghost mut quads: Seq<QuadView> = Seq::empty();
    for dx in 0..2i32
        invariant
            x > i32::MIN,
            z > i32::MIN,
            quads.len() == 2 * dx,
            column@ == overlay_all((*baseline)@, quads, x as int, z as int, old(column)@),
            (*baseline)@ == generated_column(generator, x, z),
            forall|k: int| 0 <= k < quads.len() ==> #[trigger] quads[k] == generator.owner_quad((x - 1 + k / 2) as i32, (z - 1 + k % 2) as i32),
    {
        let owner_x = x - 1 + dx;
        for dz in 0..2i32
            invariant
                x > i32::MIN,
                z > i32::MIN,
                0 <= dx < 2,
                owner_x == x - 1 + dx,
                quads.len() == 2 * dx + dz,
                column@ == overlay_all((*baseline)@, quads, x as int, z as int, old(column)@),
                (*baseline)@ == generated_column(generator, x, z),
                forall|k: int| 0 <= k < quads.len() ==> #[trigger] quads[k] == generator.owner_quad((x - 1 + k / 2) as i32, (z - 1 + k % 2) as i32),
        {
            let owner_z = z - 1 + dz;
            let owner_buffer = generator.owner_population(owner_x, owner_z);
            overlay_owner(&baseline, &owner_buffer, x, z, column);
            proof {
                let q = quads.push((*owner_buffer)@);
                assert(q.drop_last() =~= quads);
                let n = quads.len() as int;
                assert(n / 2 == dx && n % 2 == dz);
                quads = q;
            }
        }
    }
    proof {
        assert(quads =~= reaching_owners(generator, x, z));
    }
}

/// The home column of owner `(owner_x, owner_z)` before its own population: its terrain
/// with its three backward neighbours' isolated populations overlaid, in the order
/// `(-1, -1)`, `(-1, 0)`, `(0, -1)`.
pub fn backward_seed<G: PopulationSource>(generator: &G, owner_x: i32, owner_z: i32) -> (r: ChunkBuffer)
    requires
        owner_x > i32::MIN,
        owner_z > i32::MIN,
    ensures
        r@ == seeded_home(generator, owner_x, owner_z),
{
    let baseline = generator.terrain_and_caves(owner_x, owner_z);
    let mut column = (*baseline).clone();
    let ghost b = (*baseline)@;

    let first = generator.owner_population_isolated(owner_x - 1, owner_z - 1);
    overlay_owner(&baseline, &first, owner_x, owner_z, &mut column);
    let second = generator.owner_population_isolated(owner_x - 1, owner_z);
    overlay_owner(&baseline, &second, owner_x, owner_z, &mut column);
    let third = generator.owner_population_isolated(owner_x, owner_z - 1);
    overlay_owner(&baseline, &third, owner_x, owner_z, &mut column);

    proof {
        let quads = seq![(*first)@, (*second)@, (*third)@];
        assert(quads.drop_last() =~= seq![(*first)@, (*second)@]);
        assert(quads.drop_last().drop_last() =~= seq![(*first)@]);
        assert(quads.drop_last().drop_last().drop_last() =~= Seq::<QuadView>::empty());
        reveal_with_fuel(overlay_all, 4);
        assert(column@ == overlay_all(b, quads, owner_x as int, owner_z as int, b));
    }
    column
}

/// Builds owner `(owner_x, owner_z)`'s population, seeding its home column from its
/// three backward neighbours' isolated contributions first.
pub fn populate_owner<G: PopulationSource>(generator: &G, owner_x: i32, owner_z: i32) -> (r: QuadChunkBuffer)
    requires
        i32::MIN < owner_x < i32::MAX,
        i32::MIN < owner_z < i32::MAX,
    ensures
        r@ == generator.populated(owner_x, owner_z, seeded_quad(generator, owner_x, owner_z)),
{
    let mut buffer = QuadChunkBuffer::new(generator, owner_x, owner_z);
    buffer.set_column(owner_x, owner_z, backward_seed(generator, owner_x, owner_z));
    generator.run_population(owner_x, owner_z, &mut buffer);
    buffer
}

/// Same as `populate_owner`, but with the home column left as the generator's terrain.
pub fn populate_owner_isolated<G: PopulationSource>(generator: &G, owner_x: i32, owner_z: i32) -> (r: QuadChunkBuffer)
    requires
        owner_x < i32::MAX,
        owner_z < i32::MAX,
    ensures
        r@ == generator.populated(owner_x, owner_z, initial_quad(generator, owner_x, owner_z)),
{
    let mut buffer = QuadChunkBuffer::new(generator, owner_x, owner_z);
    generator.run_population(owner_x, owner_z, &mut buffer);
    buffer
}

} // verus!
