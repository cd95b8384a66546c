use pyrite::level::generator::seed::parse_seed;
use pyrite::level::generator::shared::chunk_seed;

#[test]
fn decimal_seeds_are_their_value() {
    assert_eq!(parse_seed("12345"), 12345);
    assert_eq!(parse_seed("-9"), -9);
    assert_eq!(parse_seed("+7"), 7);
    assert_eq!(parse_seed("2151901553968352745"), 2151901553968352745);
    assert_eq!(parse_seed("-9223372036854775808"), i64::MIN);
}

#[test]
fn text_seeds_are_java_string_hashes() {
    assert_eq!(parse_seed("Glacier"), 1772835215);
    assert_eq!(parse_seed(""), 0);
    assert_eq!(parse_seed("abc"), 96354);
    assert_eq!(parse_seed("-"), 45);
    assert_eq!(parse_seed("+"), 43);
    assert_eq!(parse_seed(" 1"), 1041);
}

#[test]
fn out_of_range_number_is_hashed() {
    assert_eq!(parse_seed("9223372036854775808"), -1773151197);
}

#[test]
fn characters_beyond_the_basic_plane_hash_as_two_units() {
    assert_eq!(parse_seed("\u{e9}\u{1d11e}"), 1996307);
}

#[test]
fn decimal_text_round_trips() {
    for n in [0i64, 1, -1, 42, i64::MAX, i64::MIN, 1772835215] {
        assert_eq!(parse_seed(&n.to_string()), n);
    }
}

#[test]
fn chunk_seeds_match_known_values() {
    assert_eq!(chunk_seed(0, 0, 0), 0);
    assert_eq!(chunk_seed(12345, 3, -7), -8218855382820530819);
    assert_eq!(chunk_seed(-1, 100, 200), -6424252607344756837);
    assert_eq!(chunk_seed(1772835215, -1, -1), 4261578740406353493);
}

#[test]
fn chunk_seed_of_origin_is_world_seed() {
    for seed in [5i64, -3, 987654321] {
        assert_eq!(chunk_seed(seed, 0, 0), seed);
    }
}
