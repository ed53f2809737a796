use levelbot::database::Partition;
use levelbot::difficulty::LevelDifficulty;
use levelbot::level::{Coefficients, Level};
use levelbot::matcher::best_match;
use levelbot::text::{ascii_lowercase, bytes_eq, extract_mention};
use levelbot::web::AppState;
use levelbot::{database::LevelDatabase, NUM_COEFFICIENTS};

fn coeffs(seed: u32) -> Coefficients {
    let mut r = Vec::new();
    let mut g = Vec::new();
    let mut b = Vec::new();
    for i in 0..NUM_COEFFICIENTS as u32 {
        r.push(seed + i);
        g.push(seed + i);
        b.push(seed + i);
    }
    Coefficients { r, g, b }
}

#[test]
fn best_match_picks_minimum() {
    assert_eq!(best_match(&vec![]), None);
    assert_eq!(best_match(&vec![7]), Some(0));
    assert_eq!(best_match(&vec![9, 3, 5]), Some(1));
    assert_eq!(best_match(&vec![0, 3, 0]), Some(0));
}

#[test]
fn best_match_breaks_ties_by_order() {
    assert_eq!(best_match(&vec![4, 2, 2, 8]), Some(1));
}

#[test]
fn best_match_is_deterministic() {
    let keys = vec![11, 2, 2, 19, 2];
    let first = best_match(&keys);
    for _ in 0..10 {
        assert_eq!(best_match(&keys), first);
    }
}

#[test]
fn distance_keys_order_as_floats() {
    // the sort key is the bit pattern of the non-negative distance, whose
    // unsigned order is the float order
    let near = 0.5f32.to_bits();
    let far = 250.25f32.to_bits();
    let zero = 0.0f32.to_bits();
    assert_eq!(zero, 0);
    assert!(near < far);
    assert_eq!(best_match(&vec![far, near, zero]), Some(2));
}

#[test]
fn exact_query_matches_at_distance_zero() {
    // a query identical to a catalogued fingerprint scores distance zero,
    // whose key is zero: the smallest possible, so that record wins
    let mut db = LevelDatabase::new();
    db.insert_or_overwrite(Level {
        name: b"sunrise".to_vec(),
        difficulty: LevelDifficulty::Easy,
        coefficients: coeffs(40),
    });
    db.insert_or_overwrite(Level {
        name: b"cavern".to_vec(),
        difficulty: LevelDifficulty::Easy,
        coefficients: coeffs(90),
    });
    let state = AppState { database: db };
    let keys = vec![0.0f32.to_bits(), 81.5f32.to_bits()];
    let (idx, key) = state.best_guess(LevelDifficulty::Easy, &keys).unwrap();
    assert_eq!(idx, 0);
    assert_eq!(key, 0);
    let p = state.database.partition(LevelDifficulty::Easy);
    assert_eq!(p.get(idx).name, b"sunrise".to_vec());
    assert_eq!(state.best_guess(LevelDifficulty::Hard, &vec![]), None);
}

#[test]
fn partition_best_match_pairs_key() {
    let mut p = Partition::new();
    p.insert_or_overwrite(Level {
        name: b"a".to_vec(),
        difficulty: LevelDifficulty::Easy,
        coefficients: coeffs(1),
    });
    p.insert_or_overwrite(Level {
        name: b"b".to_vec(),
        difficulty: LevelDifficulty::Easy,
        coefficients: coeffs(2),
    });
    assert_eq!(p.best_match_in(&vec![9, 4]), Some((1, 4)));
}

#[test]
fn lowercase_folds_ascii_only() {
    let folded = ascii_lowercase(&b"MiXeD Case 123 [A-Z]!".to_vec());
    assert_eq!(folded, b"mixed case 123 [a-z]!".to_vec());
    let high = ascii_lowercase(&vec![0xC0, 0xFF, b'Q']);
    assert_eq!(high, vec![0xC0, 0xFF, b'q']);
}

#[test]
fn byte_equality() {
    assert!(bytes_eq(&b"abc".to_vec(), &b"abc".to_vec()));
    assert!(!bytes_eq(&b"abc".to_vec(), &b"abd".to_vec()));
    assert!(!bytes_eq(&b"abc".to_vec(), &b"ab".to_vec()));
    assert!(bytes_eq(&Vec::new(), &Vec::new()));
}

#[test]
fn mention_extraction() {
    assert_eq!(extract_mention(&b"congrats <@1234567>!".to_vec()), Some(1234567));
    assert_eq!(extract_mention(&b"<@!42> wins".to_vec()), Some(42));
    assert_eq!(extract_mention(&b"first <@7> then <@8>".to_vec()), Some(7));
    assert_eq!(extract_mention(&b"no mention".to_vec()), None);
    assert_eq!(extract_mention(&b"<@> empty".to_vec()), None);
    assert_eq!(extract_mention(&b"<@!x5>".to_vec()), None);
    assert_eq!(extract_mention(&b"<@5".to_vec()), None);
    assert_eq!(extract_mention(&b"tail <@99>".to_vec()), Some(99));
    assert_eq!(extract_mention(&b"".to_vec()), None);
}

#[test]
fn mention_overflow_is_rejected() {
    assert_eq!(
        extract_mention(&b"<@18446744073709551615>".to_vec()),
        Some(u64::MAX)
    );
    assert_eq!(extract_mention(&b"<@18446744073709551616>".to_vec()), None);
    assert_eq!(extract_mention(&b"<@99999999999999999999999>".to_vec()), None);
}

#[test]
fn broken_mention_falls_through_to_next() {
    // `<@` without digits is no marker; the later complete one counts
    assert_eq!(extract_mention(&b"<@ <@!31>".to_vec()), Some(31));
}
