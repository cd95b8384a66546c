use vstd::prelude::*;

verus! {

#[derive(Debug, Clone, Copy, PartialEq, Eq, Structural, PartialOrd, Ord, Hash)]
pub enum Biome {
    Void,
    RainForest,
    Swampland,
    SeasonalForest,
    Forest,
    Savanna,
    ShrubLand,
    Taiga,
    Desert,
    Plains,
    IceDesert,
    Tundra,
    Nether,
    Sky,
}

impl Default for Biome {
    fn default() -> (r: Self)
        ensures
            r == Biome::Void,
    {
        Biome::Void
    }
}

/// The biome of a climate given as indices: temperature `t / 63` and humidity
/// `h / 63 * t / 63` (humidity scaled by temperature), with the thresholds of the
/// game's climate table. Each comparison is stated on the exact fractions.
pub open spec fn biome_of_climate(t: int, h: int) -> Biome {
    let p = h * t;
    if 10 * t < 63 {
        Biome::Tundra
    } else if 5 * p < 3969 {
        if 2 * t < 63 {
            Biome::Tundra
        } else if 100 * t < 95 * 63 {
            Biome::Savanna
        } else {
            Biome::Desert
        }
    } else if 2 * p > 3969 && 10 * t < 7 * 63 {
        Biome::Swampland
    } else if 2 * t < 63 {
        Biome::Taiga
    } else if 100 * t < 97 * 63 {
        if 100 * p < 35 * 3969 {
            Biome::ShrubLand
        } else {
            Biome::Forest
        }
    } else if 100 * p < 45 * 3969 {
        Biome::Plains
    } else if 10 * p < 9 * 3969 {
        Biome::SeasonalForest
    } else {
        Biome::RainForest
    }
}

/// The biome for temperature index `temperature_index` and humidity index
/// `humidity_index` (each out of 63).
pub fn biome_from_climate(temperature_index: usize, humidity_index: usize) -> (r: Biome)
    ensures
        r == biome_of_climate(temperature_index as int, humidity_index as int),
{
    let t = temperature_index as u128;
    let h = humidity_index as u128;
    proof {
        assert(h * t <= 0xffff_ffff_ffff_ffff * 0xffff_ffff_ffff_ffff) by (nonlinear_arith)
            requires
                h <= 0xffff_ffff_ffff_ffff,
                t <= 0xffff_ffff_ffff_ffff,
        ;
    }
    let p = h * t;
    if 10 * t < 63 {
        Biome::Tundra
    } else if p < 3969 / 5 + 1 {
        if 2 * t < 63 {
            Biome::Tundra
        } else if 100 * t < 95 * 63 {
            Biome::Savanna
        } else {
            Biome::Desert
        }
    } else if p > 3969 / 2 && 10 * t < 7 * 63 {
        Biome::Swampland
    } else if 2 * t < 63 {
        Biome::Taiga
    } else if 100 * t < 97 * 63 {
        if p < 35 * 3969 / 100 + 1 {
            Biome::ShrubLand
        } else {
            Biome::Forest
        }
    } else if p < 45 * 3969 / 100 + 1 {
        Biome::Plains
    } else if p < 9 * 3969 / 10 + 1 {
        Biome::SeasonalForest
    } else {
        Biome::RainForest
    }
}

} // verus!
