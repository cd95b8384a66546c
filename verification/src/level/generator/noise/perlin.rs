//! The permutation table of a Perlin noise source, shuffled from a Java-style random
//! generator exactly as the Beta 1.7.3 terrain generator shuffles it.
use crate::level::generator::java_rand::JavaRand;
use crate::rand::lcg::{bounded_draw, is_state, lemma_bounded_draw_range};
use vstd::prelude::*;

verus! {

/// The values `0..256` in order.
pub open spec fn identity_perm() -> Seq<u8> {
    Seq::new(256, |i: int| i as u8)
}

/// `p` with the entries at `i` and `j` exchanged.
pub open spec fn swapped(p: Seq<u8>, i: int, j: int) -> Seq<u8> {
    p.update(i, p[j]).update(j, p[i])
}

/// The Fisher-Yates steps `i, i - 1, ..., 0` on `p` from generator state `s`: step `k`
/// draws `j` in `[0, k]` and exchanges entries `k` and `j`. The permutation and the state
/// after them.
pub open spec fn shuffled(p: Seq<u8>, s: int, i: int) -> (Seq<u8>, int)
    decreases i + 1,
{
    if i < 0 {
        (p, s)
    } else {
        let (s1, j) = bounded_draw(s, i + 1);
        shuffled(swapped(p, i, j), s1, i - 1)
    }
}

/// The permutation a noise source shuffles from generator state `s`, and the state after.
pub open spec fn perlin_shuffle(s: int) -> (Seq<u8>, int) {
    shuffled(identity_perm(), s, 255)
}

/// The 512-entry table of a noise source: the shuffled permutation, twice.
pub open spec fn perlin_table(s: int) -> Seq<u8> {
    Seq::new(512, |k: int| perlin_shuffle(s).0[k % 256])
}

/// Exchanging two entries keeps a table free of repeats.
proof fn lemma_swapped_no_duplicates(p: Seq<u8>, i: int, j: int)
    requires
        p.no_duplicates(),
        0 <= i < p.len(),
        0 <= j < p.len(),
    ensures
        swapped(p, i, j).no_duplicates(),
        swapped(p, i, j).len() == p.len(),
{
    let q = swapped(p, i, j);
    assert forall|a: int, b: int| 0 <= a < q.len() && 0 <= b < q.len() && a != b implies q[a] != q[b] by {
        let pa = if a == j { i } else if a == i { j } else { a };
        let pb = if b == j { i } else if b == i { j } else { b };
        assert(q[a] == p[pa]);
        assert(q[b] == p[pb]);
    }
}

/// Fisher-Yates steps keep a table of 256 entries free of repeats.
proof fn lemma_shuffled_no_duplicates(p: Seq<u8>, s: int, i: int)
    requires
        p.len() == 256,
        p.no_duplicates(),
        is_state(s),
        i < 256,
    ensures
        shuffled(p, s, i).0.len() == 256,
        shuffled(p, s, i).0.no_duplicates(),
    decreases i + 1,
{
    if i >= 0 {
        lemma_bounded_draw_range(s, i + 1);
        let (s1, j) = bounded_draw(s, i + 1);
        lemma_swapped_no_duplicates(p, i, j);
        lemma_shuffled_no_duplicates(swapped(p, i, j), s1, i - 1);
    }
}

/// A noise source's permutation is one: each value of `0..256` stands in it exactly once.
pub proof fn lemma_perlin_permutation(s: int)
    requires
        is_state(s),
    ensures
        perlin_shuffle(s).0.len() == 256,
        perlin_shuffle(s).0.no_duplicates(),
        forall|v: u8| #[trigger] perlin_shuffle(s).0.contains(v),
{
    let id = identity_perm();
    assert forall|a: int, b: int| 0 <= a < id.len() && 0 <= b < id.len() && a != b implies id[a] != id[b] by {
        assert(id[a] == a as u8 && id[b] == b as u8);
    }
    lemma_shuffled_no_duplicates(id, s, 255);
    let p = perlin_shuffle(s).0;
    assert forall|v: u8| #[trigger] p.contains(v) by {
        let ps = p.to_set();
        p.unique_seq_to_set();
        assert(ps.len() == 256);
        let full = Set::new(|w: u8| true);
        assert(ps.subset_of(full));
        lemma_u8_set_full(full);
        vstd::set_lib::lemma_len_subset(ps, full);
        if !p.contains(v) {
            assert(!ps.contains(v));
            assert(ps.subset_of(full.remove(v)));
            vstd::set_lib::lemma_len_subset(ps, full.remove(v));
        }
    }
}

/// There are 256 values of `u8`.
proof fn lemma_u8_set_full(full: Set<u8>)
    requires
        full == Set::new(|w: u8| true),
    ensures
        full.finite(),
        full.len() == 256,
{
    let m = Set::new(|i: int| 0 <= i < 256);
    let f = |i: int| i as u8;
    vstd::set_lib::lemma_int_range(0, 256);
    assert(vstd::set_lib::set_int_range(0, 256) =~= m);
    assert(m.map(f) =~= full) by {
        assert forall|w: u8| full.contains(w) implies m.map(f).contains(w) by {
            assert(m.contains(w as int) && f(w as int) == w);
        }
    }
    assert(vstd::relations::injective_on(f, m)) by {
        assert forall|a: int, b: int| m.contains(a) && m.contains(b) && f(a) == f(b) implies a == b by {
        }
    }
    vstd::set_lib::lemma_map_size(m, full, f);
}

/// A Perlin noise source: its permutation of `0..256`, repeated to 512 entries so that
/// lookups of a sum of two entries need no wrap.
#[derive(Debug)]
pub struct PerlinNoise {
    perm: [u8; 512],
}

impl View for PerlinNoise {
    type V = Seq<u8>;

    closed spec fn view(&self) -> Seq<u8> {
        self.perm@
    }
}

impl PerlinNoise {
    /// Shuffles a fresh permutation from `rng`: 256 bounded draws, from bound 256 down to 1.
    pub fn new(rng: &mut JavaRand) -> (r: Self)
        ensures
            r@ == perlin_table(old(rng)@),
            final(rng)@ == perlin_shuffle(old(rng)@).1,
    {
        let ghost s0 = rng@;
        let mut p = [0u8; 256];
        let mut i: usize = 0;
        while i < 256
            invariant
                0 <= i <= 256,
                p@.len() == 256,
                forall|k: int| 0 <= k < i ==> p@[k] == k as u8,
            decreases 256 - i,
        {
            p[i] = i as u8;
            i += 1;
        }
        assert(p@ =~= identity_perm());
        let mut i: usize = 256;
        while i > 0
            invariant
                0 <= i <= 256,
                p@.len() == 256,
                shuffled(p@, rng@, i - 1) == perlin_shuffle(s0),
            decreases i,
        {
            i -= 1;
            let ghost before = p@;
            let j = rng.next_i32_bounded((i + 1) as i32) as usize;
            let a = p[i];
            let b = p[j];
            p[i] = b;
            p[j] = a;
            assert(p@ =~= swapped(before, i as int, j as int));
        }
        let mut perm = [0u8; 512];
        let mut k: usize = 0;
        while k < 512
            invariant
                0 <= k <= 512,
                perm@.len() == 512,
                p@ == perlin_shuffle(s0).0,
                forall|m: int| 0 <= m < k ==> perm@[m] == p@[m % 256],
            decreases 512 - k,
        {
            let m = k & 255;
            assert(k & 255 == k % 256) by (bit_vector);
            perm[k] = p[m];
            k += 1;
        }
        assert(perm@ =~= perlin_table(s0));
        PerlinNoise { perm }
    }

    /// Entry `i` of the table.
    pub fn perm(&self, i: usize) -> (r: u8)
        requires
            i < 512,
        ensures
            r == self@[i as int],
    {
        self.perm[i]
    }
}

impl Clone for PerlinNoise {
    fn clone(&self) -> (r: Self)
        ensures
            r@ == self@,
    {
        PerlinNoise { perm: self.perm }
    }
}

} // verus!
