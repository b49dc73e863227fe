use zikzakzoo_core::ParseError;
use zikzakzoo_core::deserialize;
use zikzakzoo_core::format_seed_and_moves;

#[test]
fn format_matches_wire_example() {
    let s = format_seed_and_moves(1699999999, &vec![4, 0, 2]);
    assert_eq!(s, "1699999999,4,0,2");
}

#[test]
fn format_without_moves_is_just_the_seed() {
    assert_eq!(format_seed_and_moves(42, &vec![]), "42");
    assert_eq!(format_seed_and_moves(0, &vec![]), "0");
    assert_eq!(format_seed_and_moves(u64::MAX, &vec![]), "18446744073709551615");
}

#[test]
fn format_writes_any_move_in_decimal() {
    assert_eq!(format_seed_and_moves(5, &vec![10, 0]), "5,10,0");
}

#[test]
fn round_trip_preserves_transcripts() {
    let cases: Vec<(u64, Vec<usize>)> = vec![
        (0, vec![]),
        (42, vec![0, 1, 2]),
        (1699999999, vec![4, 0, 2]),
        (u64::MAX, vec![8, 7, 6, 5, 4, 3, 2, 1, 0]),
    ];
    for (seed, moves) in cases {
        let wire = format_seed_and_moves(seed, &moves);
        let round = deserialize(&wire).unwrap();
        assert_eq!(round.seed, seed);
        assert_eq!(round.player_moves, moves);
    }
}

#[test]
fn deserialize_rejects_bad_seeds() {
    assert_eq!(deserialize("").unwrap_err(), ParseError::InvalidSeed);
    assert_eq!(deserialize("notaseed,0,1,2").unwrap_err(), ParseError::InvalidSeed);
    assert_eq!(deserialize("18446744073709551616").unwrap_err(), ParseError::InvalidSeed);
    assert_eq!(deserialize("-1,0").unwrap_err(), ParseError::InvalidSeed);
    assert_eq!(deserialize("4 2,0").unwrap_err(), ParseError::InvalidSeed);
}

#[test]
fn deserialize_rejects_bad_moves() {
    assert_eq!(deserialize("1,9").unwrap_err(), ParseError::InvalidMove);
    assert_eq!(deserialize("1,x").unwrap_err(), ParseError::InvalidMove);
    assert_eq!(deserialize("1,").unwrap_err(), ParseError::InvalidMove);
    assert_eq!(deserialize("1,2,10").unwrap_err(), ParseError::InvalidMove);
}

#[test]
fn deserialize_accepts_plus_signs_like_from_str() {
    let round = deserialize("+42,3").unwrap();
    assert_eq!(round.seed, 42);
    assert_eq!(round.player_moves, vec![3]);
    let round = deserialize("7,+8").unwrap();
    assert_eq!(round.seed, 7);
    assert_eq!(round.player_moves, vec![8]);
}

#[test]
fn deserialize_accepts_max_seed() {
    let round = deserialize("18446744073709551615").unwrap();
    assert_eq!(round.seed, u64::MAX);
    assert!(round.player_moves.is_empty());
}

#[test]
fn deserialize_accepts_leading_zeros() {
    let round = deserialize("007,08").unwrap();
    assert_eq!(round.seed, 7);
    assert_eq!(round.player_moves, vec![8]);
}
