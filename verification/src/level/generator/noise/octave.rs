//! A stack of Perlin noise sources, one per octave, each shuffled in turn from the same
//! generator.
use super::perlin::{PerlinNoise, perlin_shuffle, perlin_table};
use crate::level::generator::java_rand::JavaRand;
use vstd::prelude::*;

verus! {

/// The tables of `count` noise sources shuffled one after another from state `s`, and
/// the state after them.
pub open spec fn octave_tables(s: int, count: nat) -> (Seq<Seq<u8>>, int)
    decreases count,
{
    if count == 0 {
        (Seq::empty(), s)
    } else {
        let (tables, s1) = octave_tables(s, (count - 1) as nat);
        (tables.push(perlin_table(s1)), perlin_shuffle(s1).1)
    }
}

/// Octaves of Perlin noise, the first the coarsest.
#[derive(Debug)]
pub struct OctaveNoise {
    octaves: Vec<PerlinNoise>,
}

impl View for OctaveNoise {
    type V = Seq<Seq<u8>>;

    closed spec fn view(&self) -> Seq<Seq<u8>> {
        self.octaves@.map_values(|o: PerlinNoise| o@)
    }
}

impl OctaveNoise {
    /// `octave_count` noise sources, shuffled in order from `rand`.
    pub fn new(rand: &mut JavaRand, octave_count: usize) -> (r: Self)
        ensures
            r@ == octave_tables(old(rand)@, octave_count as nat).0,
            final(rand)@ == octave_tables(old(rand)@, octave_count as nat).1,
    {
        let ghost s0 = rand@;
        let mut octaves: Vec<PerlinNoise> = Vec::new();
        let mut i: usize = 0;
        while i < octave_count
            invariant
                0 <= i <= octave_count,
                octaves@.len() == i,
                octaves@.map_values(|o: PerlinNoise| o@) == octave_tables(s0, i as nat).0,
                rand@ == octave_tables(s0, i as nat).1,
            decreases octave_count - i,
        {
            let ghost before = octaves@;
            octaves.push(PerlinNoise::new(rand));
            assert(octaves@.map_values(|o: PerlinNoise| o@) =~= before.map_values(|o: PerlinNoise| o@).push(
                octaves@[i as int]@,
            ));
            i += 1;
        }
        OctaveNoise { octaves }
    }

    /// The number of octaves.
    pub fn len(&self) -> (r: usize)
        ensures
            r == self@.len(),
    {
        self.octaves.len()
    }

    /// Octave `i`.
    pub fn octave(&self, i: usize) -> (r: &PerlinNoise)
        requires
            i < self@.len(),
        ensures
            r@ == self@[i as int],
    {
        &self.octaves[i]
    }
}

impl Clone for OctaveNoise {
    fn clone(&self) -> (r: Self)
        ensures
            r@ == self@,
    {
        let mut octaves: Vec<PerlinNoise> = Vec::new();
        let mut i: usize = 0;
        while i < self.octaves.len()
            invariant
                0 <= i <= self.octaves@.len(),
                octaves@.len() == i,
                forall|k: int| 0 <= k < i ==> (#[trigger] octaves@[k])@ == self.octaves@[k]@,
            decreases self.octaves@.len() - i,
        {
            octaves.push(self.octaves[i].clone());
            i += 1;
        }
        let r = OctaveNoise { octaves };
        assert(r@ =~= self@);
        r
    }
}

} // verus!
