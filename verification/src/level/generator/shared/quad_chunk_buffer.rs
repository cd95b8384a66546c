use super::{BlockPos, TerrainSource, generated_column};
use super::chunk_buffer::ChunkBuffer;
use super::{CHUNK_HEIGHT, column_index, column_len};
use vstd::prelude::*;

verus! {

/// The abstract content of a `QuadChunkBuffer`: the chunk coordinates of its owner and
/// its four columns, in the order `(owner_x, owner_z)`, `(owner_x, owner_z + 1)`,
/// `(owner_x + 1, owner_z)`, `(owner_x + 1, owner_z + 1)`.
pub struct QuadView {
    pub x: int,
    pub z: int,
    pub columns: Seq<Seq<i32>>,
}

/// Slot of chunk offset `(dx, dz)` within a quad.
pub open spec fn quad_slot(dx: int, dz: int) -> int {
    dx * 2 + dz
}

/// The quad covers chunk `(cx, cz)`.
pub open spec fn quad_covers(q: QuadView, cx: int, cz: int) -> bool {
    0 <= cx - q.x < 2 && 0 <= cz - q.z < 2
}

/// The column the quad holds for chunk `(cx, cz)`.
pub open spec fn quad_column(q: QuadView, cx: int, cz: int) -> Seq<i32> {
    q.columns[quad_slot(cx - q.x, cz - q.z)]
}

/// Chunk coordinate of world coordinate `w` (rounding down).
pub open spec fn chunk_of(w: int) -> int {
    w / 16
}

/// Coordinate of world coordinate `w` inside its chunk.
pub open spec fn local_of(w: int) -> int {
    w % 16
}

/// A world column height `wy` that a chunk column stores.
pub open spec fn in_height(wy: int) -> bool {
    0 <= wy < 128
}

/// The quad covers the block at world position `(wx, wy, wz)`.
pub open spec fn quad_holds(q: QuadView, wx: int, wy: int, wz: int) -> bool {
    in_height(wy) && quad_covers(q, chunk_of(wx), chunk_of(wz))
}

/// The block the quad holds at world position `(wx, wy, wz)`.
pub open spec fn quad_block(q: QuadView, wx: int, wy: int, wz: int) -> i32 {
    quad_column(q, chunk_of(wx), chunk_of(wz))[column_index(local_of(wx), wy, local_of(wz))]
}

/// The quad after writing `block_id` at world position `(wx, wy, wz)`, which it holds.
pub open spec fn quad_with_block(q: QuadView, wx: int, wy: int, wz: int, block_id: i32) -> QuadView {
    let slot = quad_slot(chunk_of(wx) - q.x, chunk_of(wz) - q.z);
    QuadView {
        columns: q.columns.update(
            slot,
            q.columns[slot].update(column_index(local_of(wx), wy, local_of(wz)), block_id),
        ),
        ..q
    }
}

/// The quad after writing `block_id` at world position `(wx, wy, wz)`: changed where the
/// quad holds that position, unchanged elsewhere.
pub open spec fn quad_after_write(q: QuadView, wx: int, wy: int, wz: int, block_id: i32) -> QuadView {
    if quad_holds(q, wx, wy, wz) {
        quad_with_block(q, wx, wy, wz, block_id)
    } else {
        q
    }
}

/// A well-formed quad view: four full columns.
pub open spec fn quad_wf(q: QuadView) -> bool {
    &&& q.columns.len() == 4
    &&& forall|i: int| 0 <= i < 4 ==> (#[trigger] q.columns[i]).len() == column_len()
}

/// The block `read` gives at world position `(wx, wy, wz)`: `-1` outside the world's
/// height, the quad's block where the quad covers it, and otherwise the block of the
/// generator's column there.
pub open spec fn world_block<G: TerrainSource>(generator: &G, q: QuadView, wx: int, wy: int, wz: int) -> i32 {
    if !in_height(wy) {
        -1i32
    } else if quad_covers(q, chunk_of(wx), chunk_of(wz)) {
        quad_block(q, wx, wy, wz)
    } else {
        generated_column(generator, chunk_of(wx) as i32, chunk_of(wz) as i32)[column_index(local_of(wx), wy, local_of(wz))]
    }
}

/// The quad of owner `(owner_x, owner_z)` before population: each of its four columns
/// as the generator builds it.
pub open spec fn initial_quad<G: TerrainSource>(generator: &G, owner_x: i32, owner_z: i32) -> QuadView {
    QuadView {
        x: owner_x as int,
        z: owner_z as int,
        columns: seq![
            generated_column(generator, owner_x, owner_z),
            generated_column(generator, owner_x, (owner_z + 1) as i32),
            generated_column(generator, (owner_x + 1) as i32, owner_z),
            generated_column(generator, (owner_x + 1) as i32, (owner_z + 1) as i32),
        ],
    }
}

/// A 2x2 grid of columns covering owner chunk `(x, z)` and its forward neighbours
/// (`+x`, `+z`, `+x+z`): everything an owner's own population features can reach.
pub struct QuadChunkBuffer {
    x: i32,
    z: i32,
    chunks: [[ChunkBuffer; 2]; 2],
}

impl View for QuadChunkBuffer {
    type V = QuadView;

    closed spec fn view(&self) -> QuadView {
        QuadView {
            x: self.x as int,
            z: self.z as int,
            columns: seq![self.chunks[0][0]@, self.chunks[0][1]@, self.chunks[1][0]@, self.chunks[1][1]@],
        }
    }
}

impl QuadChunkBuffer {
    /// Every quad view is well formed, with an owner in `i32` range.
    pub proof fn lemma_wf(&self)
        ensures
            quad_wf(self@),
            i32::MIN <= self@.x <= i32::MAX,
            i32::MIN <= self@.z <= i32::MAX,
    {
        self.chunks[0][0].lemma_len();
        self.chunks[0][1].lemma_len();
        self.chunks[1][0].lemma_len();
        self.chunks[1][1].lemma_len();
    }

    /// The quad of owner `(owner_x, owner_z)`, each column as the generator builds it
    /// (terrain with caves), built in the order `(0, 0)`, `(0, 1)`, `(1, 0)`, `(1, 1)`.
    pub fn new<G: TerrainSource>(generator: &G, owner_x: i32, owner_z: i32) -> (r: Self)
        requires
            owner_x < i32::MAX,
            owner_z < i32::MAX,
        ensures
            r@.x == owner_x,
            r@.z == owner_z,
            r@ == initial_quad(generator, owner_x, owner_z),
    {
        let c00 = (*generator.terrain_and_caves(owner_x, owner_z)).clone();
        let c01 = (*generator.terrain_and_caves(owner_x, owner_z + 1)).clone();
        let c10 = (*generator.terrain_and_caves(owner_x + 1, owner_z)).clone();
        let c11 = (*generator.terrain_and_caves(owner_x + 1, owner_z + 1)).clone();
        QuadChunkBuffer { x: owner_x, z: owner_z, chunks: [[c00, c01], [c10, c11]] }
    }

    /// The column of chunk `(cx, cz)`, if the quad covers it.
    pub fn column(&self, cx: i32, cz: i32) -> (r: Option<&ChunkBuffer>)
        ensures
            match r {
                Some(c) => quad_covers(self@, cx as int, cz as int) && c@ == quad_column(self@, cx as int, cz as int),
                None => !quad_covers(self@, cx as int, cz as int),
            },
    {
        let dx = cx as i64 - self.x as i64;
        let dz = cz as i64 - self.z as i64;
        if 0 <= dx && dx < 2 && 0 <= dz && dz < 2 {
            Some(&self.chunks[dx as usize][dz as usize])
        } else {
            None
        }
    }

    /// Replaces the column of chunk `(cx, cz)`, if the quad covers it.
    pub fn set_column(&mut self, cx: i32, cz: i32, column: ChunkBuffer)
        ensures
            final(self)@.x == old(self)@.x,
            final(self)@.z == old(self)@.z,
            final(self)@.columns == (if quad_covers(old(self)@, cx as int, cz as int) {
                old(self)@.columns.update(quad_slot(cx - old(self)@.x, cz - old(self)@.z), column@)
            } else {
                old(self)@.columns
            }),
    {
        let dx = cx as i64 - self.x as i64;
        let dz = cz as i64 - self.z as i64;
        if 0 <= dx && dx < 2 && 0 <= dz && dz < 2 {
            self.chunks[dx as usize][dz as usize] = column;
        }
        proof {
            assert(final(self)@.columns =~= (if quad_covers(old(self)@, cx as int, cz as int) {
                old(self)@.columns.update(quad_slot(cx - old(self)@.x, cz - old(self)@.z), column@)
            } else {
                old(self)@.columns
            }));
        }
    }
}

impl QuadChunkBuffer {
    /// The column of chunk `(cx, cz)` for writing, if the quad covers it.
    fn column_mut(&mut self, cx: i32, cz: i32) -> (r: Option<&mut ChunkBuffer>)
        ensures
            match r {
                Some(c) => {
                    &&& quad_covers(old(self)@, cx as int, cz as int)
                    &&& c@ == quad_column(old(self)@, cx as int, cz as int)
                    &&& final(self)@.x == old(self)@.x
                    &&& final(self)@.z == old(self)@.z
                    &&& final(self)@.columns == old(self)@.columns.update(
                        quad_slot(cx - old(self)@.x, cz - old(self)@.z),
                        final(c)@,
                    )
                },
                None => !quad_covers(old(self)@, cx as int, cz as int) && final(self)@ == old(self)@,
            },
    {
        let dx = cx as i64 - self.x as i64;
        let dz = cz as i64 - self.z as i64;
        if 0 <= dx && dx < 2 && 0 <= dz && dz < 2 {
            Some(&mut self.chunks[dx as usize][dz as usize])
        } else {
            None
        }
    }
}

/// Splits world coordinates into chunk and in-chunk coordinates.
fn split_coordinate(w: i32) -> (r: (i32, usize))
    ensures
        r.0 == chunk_of(w as int),
        r.1 == local_of(w as int),
        0 <= r.1 < 16,
{
    let c = w.checked_div_euclid(16).unwrap();
    let l = w.checked_rem_euclid(16).unwrap();
    (c, l as usize)
}

/// The block at world position `(wx, wy, wz)`: `-1` above or below the world, the
/// quad's block where the quad covers it, and otherwise the block of the generator's
/// own column (terrain with caves) for that chunk.
pub fn read<G: TerrainSource>(generator: &G, buffer: &QuadChunkBuffer, wx: i32, wy: i32, wz: i32) -> (r: i32)
    ensures
        !in_height(wy as int) ==> r == -1,
        quad_holds(buffer@, wx as int, wy as int, wz as int) ==> r == quad_block(buffer@, wx as int, wy as int, wz as int),
        known_block(buffer@, wx as int, wy as int, wz as int) matches Some(v) ==> r == v,
        r == world_block(generator, buffer@, wx as int, wy as int, wz as int),
{
    if !(0 <= wy && wy < CHUNK_HEIGHT as i32) {
        return -1;
    }
    let (cx, lx) = split_coordinate(wx);
    let (cz, lz) = split_coordinate(wz);
    match buffer.column(cx, cz) {
        Some(column) => column.get(lx, wy as usize, lz),
        None => generator.terrain_and_caves(cx, cz).get(lx, wy as usize, lz),
    }
}

/// Writes `block_id` at world position `(wx, wy, wz)` where the quad holds it; anywhere
/// else the write is dropped.
pub fn write(buffer: &mut QuadChunkBuffer, wx: i32, wy: i32, wz: i32, block_id: i32)
    ensures
        final(buffer)@ == quad_after_write(old(buffer)@, wx as int, wy as int, wz as int, block_id),
{
    if !(0 <= wy && wy < CHUNK_HEIGHT as i32) {
        return;
    }
    let (cx, lx) = split_coordinate(wx);
    let (cz, lz) = split_coordinate(wz);
    if let Some(column) = buffer.column_mut(cx, cz) {
        column.set(lx, wy as usize, lz, block_id);
    }
}

/// What the quad alone determines of the block at `(wx, wy, wz)`: `-1` outside the
/// world's height, the quad's block where the quad covers it, nothing elsewhere.
pub open spec fn known_block(q: QuadView, wx: int, wy: int, wz: int) -> Option<i32> {
    if !in_height(wy) {
        Some(-1i32)
    } else if quad_covers(q, chunk_of(wx), chunk_of(wz)) {
        Some(quad_block(q, wx, wy, wz))
    } else {
        None
    }
}

/// `new` is `old` with some blocks replaced by ids in `ids`, and nothing else changed.
pub open spec fn changed_only_to(old: QuadView, new: QuadView, ids: Set<i32>) -> bool {
    &&& new.x == old.x
    &&& new.z == old.z
    &&& new.columns.len() == old.columns.len()
    &&& forall|i: int| 0 <= i < old.columns.len() ==> (#[trigger] new.columns[i]).len() == old.columns[i].len()
    &&& forall|i: int, j: int|
        0 <= i < old.columns.len() && 0 <= j < old.columns[i].len() ==> #[trigger] new.columns[i][j] == old.columns[i][j]
            || ids.contains(new.columns[i][j])
}

pub proof fn lemma_changed_only_to_refl(q: QuadView, ids: Set<i32>)
    ensures
        changed_only_to(q, q, ids),
{
}

/// Writing an id of `ids` keeps a quad changed only to `ids`.
pub proof fn lemma_changed_only_to_write(old: QuadView, mid: QuadView, new: QuadView, ids: Set<i32>, wx: int, wy: int, wz: int, id: i32)
    requires
        quad_wf(old),
        changed_only_to(old, mid, ids),
        ids.contains(id),
        new == quad_after_write(mid, wx, wy, wz, id),
    ensures
        changed_only_to(old, new, ids),
{
    if quad_holds(mid, wx, wy, wz) {
        let slot = quad_slot(chunk_of(wx) - mid.x, chunk_of(wz) - mid.z);
        let k = column_index(local_of(wx), wy, local_of(wz));
        assert forall|i: int, j: int|
            0 <= i < old.columns.len() && 0 <= j < old.columns[i].len() implies #[trigger] new.columns[i][j]
                == old.columns[i][j] || ids.contains(new.columns[i][j]) by {
            if i == slot && j == k {
            } else {
                assert(new.columns[i][j] == mid.columns[i][j]);
            }
        }
    }
}

/// Two successive changes to `ids` are a change to `ids`.
pub proof fn lemma_changed_only_to_trans(a: QuadView, b: QuadView, c: QuadView, ids: Set<i32>)
    requires
        changed_only_to(a, b, ids),
        changed_only_to(b, c, ids),
    ensures
        changed_only_to(a, c, ids),
{
    assert forall|i: int, j: int|
        0 <= i < a.columns.len() && 0 <= j < a.columns[i].len() implies #[trigger] c.columns[i][j]
            == a.columns[i][j] || ids.contains(c.columns[i][j]) by {
        assert(c.columns[i][j] == b.columns[i][j] || ids.contains(c.columns[i][j]));
        assert(b.columns[i][j] == a.columns[i][j] || ids.contains(b.columns[i][j]));
    }
}

/// A change to `ids` is a change to any larger set.
pub proof fn lemma_changed_only_to_widen(a: QuadView, b: QuadView, ids: Set<i32>, more: Set<i32>)
    requires
        changed_only_to(a, b, ids),
        ids.subset_of(more),
    ensures
        changed_only_to(a, b, more),
{
    assert forall|i: int, j: int|
        0 <= i < a.columns.len() && 0 <= j < a.columns[i].len() implies #[trigger] b.columns[i][j]
            == a.columns[i][j] || more.contains(b.columns[i][j]) by {
        if b.columns[i][j] != a.columns[i][j] {
            assert(ids.contains(b.columns[i][j]));
        }
    }
}


/// Reading back after a write: the written position, where the quad holds it, gives the
/// written id; every other position gives what it gave before. The quad stays well formed.
pub proof fn lemma_known_after_write(q: QuadView, wx: int, wy: int, wz: int, id: i32, x: int, y: int, z: int)
    requires
        quad_wf(q),
    ensures
        quad_wf(quad_after_write(q, wx, wy, wz, id)),
        known_block(quad_after_write(q, wx, wy, wz, id), x, y, z) == if x == wx && y == wy && z == wz
            && quad_holds(q, wx, wy, wz) {
            Some(id)
        } else {
            known_block(q, x, y, z)
        },
{
    let n = quad_after_write(q, wx, wy, wz, id);
    if quad_holds(q, wx, wy, wz) {
        let slot = quad_slot(chunk_of(wx) - q.x, chunk_of(wz) - q.z);
        let k = column_index(local_of(wx), wy, local_of(wz));
        assert(0 <= local_of(wx) < 16 && 0 <= local_of(wz) < 16);
        assert(0 <= k < column_len());
        assert forall|i: int| 0 <= i < 4 implies (#[trigger] n.columns[i]).len() == column_len() by {
            if i == slot {
            } else {
            }
        }
        if in_height(y) && quad_covers(q, chunk_of(x), chunk_of(z)) {
            let slot2 = quad_slot(chunk_of(x) - q.x, chunk_of(z) - q.z);
            let k2 = column_index(local_of(x), y, local_of(z));
            assert(0 <= local_of(x) < 16 && 0 <= local_of(z) < 16);
            assert(0 <= k2 < column_len());
            if !(x == wx && y == wy && z == wz) {
                if slot2 == slot && k2 == k {
                    assert(chunk_of(x) == chunk_of(wx) && chunk_of(z) == chunk_of(wz));
                    assert(local_of(x) == local_of(wx) && y == wy && local_of(z) == local_of(wz));
                    assert(x == chunk_of(x) * 16 + local_of(x));
                    assert(wx == chunk_of(wx) * 16 + local_of(wx));
                    assert(z == chunk_of(z) * 16 + local_of(z));
                    assert(wz == chunk_of(wz) * 16 + local_of(wz));
                }
            }
        }
    }
}

/// A block the quad holds, written, reads back as written.
pub proof fn lemma_read_after_write(q: QuadView, wx: int, wy: int, wz: int, id: i32)
    requires
        quad_wf(q),
        quad_holds(q, wx, wy, wz),
    ensures
        known_block(quad_after_write(q, wx, wy, wz, id), wx, wy, wz) == Some(id),
{
    lemma_known_after_write(q, wx, wy, wz, id, wx, wy, wz);
}

/// `lemma_known_after_write` at every position at once.
pub proof fn lemma_known_after_write_all(q: QuadView, wx: int, wy: int, wz: int, id: i32)
    requires
        quad_wf(q),
    ensures
        quad_wf(quad_after_write(q, wx, wy, wz, id)),
        forall|x: int, y: int, z: int|
            #[trigger] known_block(quad_after_write(q, wx, wy, wz, id), x, y, z) == if x == wx && y == wy && z == wz
                && quad_holds(q, wx, wy, wz) {
                Some(id)
            } else {
                known_block(q, x, y, z)
            },
{
    lemma_known_after_write(q, wx, wy, wz, id, 0, 0, 0);
    assert forall|x: int, y: int, z: int|
        #[trigger] known_block(quad_after_write(q, wx, wy, wz, id), x, y, z) == if x == wx && y == wy && z == wz
            && quad_holds(q, wx, wy, wz) {
            Some(id)
        } else {
            known_block(q, x, y, z)
        } by {
        lemma_known_after_write(q, wx, wy, wz, id, x, y, z);
    }
}

/// World `x` of index `i` of the column in slot `slot` of quad `q`.
pub open spec fn slot_world_x(q: QuadView, slot: int, i: int) -> int {
    (q.x + slot / 2) * 16 + i / 2048
}

/// Height of index `i` of a column.
pub open spec fn index_y(i: int) -> int {
    (i / 16) % 128
}

/// World `z` of index `i` of the column in slot `slot` of quad `q`.
pub open spec fn slot_world_z(q: QuadView, slot: int, i: int) -> int {
    (q.z + slot % 2) * 16 + i % 16
}

/// `q` with every block it holds replaced by `f` of that block's world position.
pub open spec fn quad_rebuilt(q: QuadView, f: spec_fn(int, int, int) -> i32) -> QuadView {
    QuadView {
        x: q.x,
        z: q.z,
        columns: Seq::new(
            4,
            |slot: int| Seq::new(column_len(), |i: int| f(slot_world_x(q, slot, i), index_y(i), slot_world_z(q, slot, i))),
        ),
    }
}

proof fn lemma_index_coordinates(i: int)
    requires
        0 <= i < column_len(),
    ensures
        0 <= i / 2048 < 16,
        0 <= index_y(i) < 128,
        0 <= i % 16 < 16,
        column_index(i / 2048, index_y(i), i % 16) == i,
{
}

proof fn lemma_coordinates_index(x: int, y: int, z: int)
    requires
        0 <= x < 16,
        0 <= y < 128,
        0 <= z < 16,
    ensures
        column_index(x, y, z) / 2048 == x,
        index_y(column_index(x, y, z)) == y,
        column_index(x, y, z) % 16 == z,
        0 <= column_index(x, y, z) < column_len(),
{
}

/// The block a held position reads in a rebuilt quad is `f` of that position; every
/// other position reads as before.
pub proof fn lemma_quad_rebuilt(q: QuadView, f: spec_fn(int, int, int) -> i32)
    requires
        quad_wf(q),
    ensures
        quad_wf(quad_rebuilt(q, f)),
        quad_rebuilt(q, f).x == q.x,
        quad_rebuilt(q, f).z == q.z,
        forall|x: int, y: int, z: int|
            #[trigger] known_block(quad_rebuilt(q, f), x, y, z) == if quad_holds(q, x, y, z) {
                Some(f(x, y, z))
            } else {
                known_block(q, x, y, z)
            },
{
    let n = quad_rebuilt(q, f);
    assert forall|x: int, y: int, z: int|
        #[trigger] known_block(n, x, y, z) == if quad_holds(q, x, y, z) {
            Some(f(x, y, z))
        } else {
            known_block(q, x, y, z)
        } by {
        if quad_holds(q, x, y, z) {
            let slot = quad_slot(chunk_of(x) - q.x, chunk_of(z) - q.z);
            lemma_coordinates_index(local_of(x), y, local_of(z));
            let i = column_index(local_of(x), y, local_of(z));
            assert(slot / 2 == chunk_of(x) - q.x);
            assert(slot % 2 == chunk_of(z) - q.z);
            assert(slot_world_x(q, slot, i) == x);
            assert(slot_world_z(q, slot, i) == z);
        }
    }
}

/// Two well-formed quads of one owner that read alike everywhere are equal.
pub proof fn lemma_quad_ext(a: QuadView, b: QuadView)
    requires
        quad_wf(a),
        quad_wf(b),
        a.x == b.x,
        a.z == b.z,
        forall|x: int, y: int, z: int| #[trigger] known_block(a, x, y, z) == known_block(b, x, y, z),
    ensures
        a == b,
{
    assert forall|slot: int| 0 <= slot < 4 implies #[trigger] a.columns[slot] == b.columns[slot] by {
        assert forall|i: int| 0 <= i < column_len() implies a.columns[slot][i] == b.columns[slot][i] by {
            lemma_index_coordinates(i);
            let x = slot_world_x(a, slot, i);
            let y = index_y(i);
            let z = slot_world_z(a, slot, i);
            assert(chunk_of(x) == a.x + slot / 2);
            assert(local_of(x) == i / 2048);
            assert(chunk_of(z) == a.z + slot % 2);
            assert(local_of(z) == i % 16);
            assert(quad_slot(chunk_of(x) - a.x, chunk_of(z) - a.z) == slot);
            assert(known_block(a, x, y, z) == Some(a.columns[slot][i]));
            assert(known_block(b, x, y, z) == Some(b.columns[slot][i]));
        }
        assert(a.columns[slot] =~= b.columns[slot]);
    }
    assert(a.columns =~= b.columns);
}

/// The quad covers every column within `r` of `p` horizontally.
pub open spec fn covers_around(q: QuadView, p: BlockPos, r: int) -> bool {
    quad_covers(q, chunk_of(p.x - r), chunk_of(p.z - r)) && quad_covers(q, chunk_of(p.x + r), chunk_of(p.z + r))
}

/// A quad covering the columns within `r` of `p` covers each of them.
pub proof fn lemma_covers_around(q: QuadView, p: BlockPos, r: int, x: int, z: int)
    requires
        covers_around(q, p, r),
        p.x - r <= x <= p.x + r,
        p.z - r <= z <= p.z + r,
    ensures
        quad_covers(q, chunk_of(x), chunk_of(z)),
{
    vstd::arithmetic::div_mod::lemma_div_is_ordered(p.x - r, x, 16);
    vstd::arithmetic::div_mod::lemma_div_is_ordered(x, p.x + r, 16);
    vstd::arithmetic::div_mod::lemma_div_is_ordered(p.z - r, z, 16);
    vstd::arithmetic::div_mod::lemma_div_is_ordered(z, p.z + r, 16);
}

/// The quad of owner `(ox, oz)` covers the columns within 8 of a spot 8 to 23 blocks from
/// the owner's corner.
pub proof fn lemma_owner_covers(q: QuadView, ox: int, oz: int, p: BlockPos)
    requires
        q.x == ox,
        q.z == oz,
        ox * 16 + 8 <= p.x < ox * 16 + 24,
        oz * 16 + 8 <= p.z < oz * 16 + 24,
    ensures
        covers_around(q, p, 8),
{
}

/// A quad covering the columns of two corners covers every column between them.
pub proof fn lemma_covers_between(q: QuadView, x1: int, z1: int, x2: int, z2: int, x: int, z: int)
    requires
        quad_covers(q, chunk_of(x1), chunk_of(z1)),
        quad_covers(q, chunk_of(x2), chunk_of(z2)),
        x1 <= x <= x2,
        z1 <= z <= z2,
    ensures
        quad_covers(q, chunk_of(x), chunk_of(z)),
{
    vstd::arithmetic::div_mod::lemma_div_is_ordered(x1, x, 16);
    vstd::arithmetic::div_mod::lemma_div_is_ordered(x, x2, 16);
    vstd::arithmetic::div_mod::lemma_div_is_ordered(z1, z, 16);
    vstd::arithmetic::div_mod::lemma_div_is_ordered(z, z2, 16);
}

} // verus!
