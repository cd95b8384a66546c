use pyrite::level::generator::java_rand::JavaRand;
use pyrite::level::generator::noise::octave::OctaveNoise;
use pyrite::level::generator::noise::perlin::PerlinNoise;

fn table(noise: &PerlinNoise) -> Vec<u8> {
    (0..512).map(|i| noise.perm(i)).collect()
}

#[test]
fn permutation_for_seed_1() {
    let mut rand = JavaRand::new(1);
    let noise = PerlinNoise::new(&mut rand);
    let t = table(&noise);
    assert_eq!(&t[..8], &[33, 24, 70, 39, 251, 76, 155, 20]);
    assert_eq!(rand.get_seed(), 199571614519148);
}

#[test]
fn permutation_for_negative_seed() {
    let mut rand = JavaRand::new(-5);
    let t = table(&PerlinNoise::new(&mut rand));
    assert_eq!(&t[..8], &[173, 35, 241, 89, 23, 44, 94, 121]);
}

#[test]
fn table_repeats_a_permutation() {
    for seed in [0i64, 1, 77, -123456789] {
        let mut rand = JavaRand::new(seed);
        let t = table(&PerlinNoise::new(&mut rand));
        for i in 0..256 {
            assert_eq!(t[i], t[i + 256]);
        }
        let mut seen = [false; 256];
        for &v in &t[..256] {
            assert!(!seen[v as usize]);
            seen[v as usize] = true;
        }
    }
}

#[test]
fn octaves_are_shuffled_in_turn() {
    let mut rand = JavaRand::new(8);
    let octaves = OctaveNoise::new(&mut rand, 3);
    assert_eq!(octaves.len(), 3);
    let mut again = JavaRand::new(8);
    for i in 0..3 {
        let single = PerlinNoise::new(&mut again);
        assert_eq!(table(octaves.octave(i)), table(&single));
    }
    assert_eq!(rand.get_seed(), again.get_seed());
}

#[test]
fn clones_keep_the_table() {
    let mut rand = JavaRand::new(31);
    let octaves = OctaveNoise::new(&mut rand, 2);
    let copy = octaves.clone();
    assert_eq!(copy.len(), 2);
    assert_eq!(table(copy.octave(1)), table(octaves.octave(1)));
}

#[test]
fn zero_octaves_draw_nothing() {
    let mut rand = JavaRand::new(4);
    let before = rand.get_seed();
    let octaves = OctaveNoise::new(&mut rand, 0);
    assert_eq!(octaves.len(), 0);
    assert_eq!(rand.get_seed(), before);
}
