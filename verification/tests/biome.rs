use pyrite::level::generator::overworld::biome::{Biome, biome_from_climate};

fn float_table(temperature_index: usize, humidity_index: usize) -> Biome {
    let temperature = temperature_index as f32 / 63.0;
    let humidity = humidity_index as f32 / 63.0 * temperature;
    if temperature < 0.1 {
        Biome::Tundra
    } else if humidity < 0.2 {
        if temperature < 0.5 {
            Biome::Tundra
        } else if temperature < 0.95 {
            Biome::Savanna
        } else {
            Biome::Desert
        }
    } else if humidity > 0.5 && temperature < 0.7 {
        Biome::Swampland
    } else if temperature < 0.5 {
        Biome::Taiga
    } else if temperature < 0.97 {
        if humidity < 0.35 { Biome::ShrubLand } else { Biome::Forest }
    } else if humidity < 0.45 {
        Biome::Plains
    } else if humidity < 0.9 {
        Biome::SeasonalForest
    } else {
        Biome::RainForest
    }
}

#[test]
fn biome_table_matches_float_thresholds() {
    for t in 0..=63 {
        for h in 0..=63 {
            assert_eq!(biome_from_climate(t, h), float_table(t, h), "t={} h={}", t, h);
        }
    }
}

#[test]
fn biome_table_corners() {
    assert_eq!(biome_from_climate(0, 0), Biome::Tundra);
    assert_eq!(biome_from_climate(63, 0), Biome::Desert);
    assert_eq!(biome_from_climate(63, 63), Biome::RainForest);
    assert_eq!(biome_from_climate(32, 63), Biome::Swampland);
    assert_eq!(biome_from_climate(40, 40), Biome::Forest);
    assert_eq!(biome_from_climate(40, 30), Biome::ShrubLand);
}

#[test]
fn default_biome_is_void() {
    assert_eq!(Biome::default(), Biome::Void);
}
