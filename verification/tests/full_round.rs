//! One whole lifecycle: a round is lost, the answer is learned and
//! persisted, and a later identical image matches the learned record.

use levelbot::database::{load_levels, LevelDatabase};
use levelbot::difficulty::LevelDifficulty;
use levelbot::level::Coefficients;
use levelbot::rounds::{Handler, Resolution};
use levelbot::NUM_COEFFICIENTS;

fn coeffs(seed: u32) -> Coefficients {
    let mut r = Vec::new();
    let mut g = Vec::new();
    let mut b = Vec::new();
    for i in 0..NUM_COEFFICIENTS as u32 {
        r.push((seed * 31 + i) ^ 0x5a5a);
        g.push(seed * 17 + i);
        b.push(seed * 13 + 2 * i);
    }
    Coefficients { r, g, b }
}

#[test]
fn lost_round_teaches_the_catalogue() {
    let mut db = LevelDatabase::new();
    let mut h = Handler::new();

    // a round begins; we have no catalogue yet, so no guess is recorded
    assert!(h.round_started(42, b"https://img/first.png".to_vec(), LevelDifficulty::Hard));
    assert!(h.guess_submitted(42, 9001, b"Lost Temple".to_vec()));
    assert!(h.fingerprint_ready(42, &b"https://img/first.png".to_vec(), vec![0xA], coeffs(7)));

    // the platform resolves the round, crediting the guesser
    let resolution = h.round_resolved(42, &b"Congratulations <@9001>!".to_vec());
    let (name, difficulty, fp) = match resolution {
        Resolution::Learn {
            name,
            difficulty,
            coefficients,
            image,
        } => {
            assert_eq!(image, Some(vec![0xA]));
            (name, difficulty, coefficients.unwrap())
        }
        _ => panic!("expected a learning resolution"),
    };
    assert_eq!(name, b"lost temple".to_vec());
    assert_eq!(difficulty, LevelDifficulty::Hard);

    // the answer is learned and the partition fully persisted
    let (known_before, saved) = db.learn(name, difficulty, fp);
    assert!(!known_before);
    let reloaded = load_levels(&saved).unwrap();
    assert_eq!(reloaded.len(), 1);
    assert_eq!(reloaded.get(0).name, b"lost temple".to_vec());
    assert_eq!(reloaded.get(0).coefficients.r, coeffs(7).r);

    // a later round shows the same image: the learned record matches at
    // distance zero and our stored guess survives resolution unscathed
    assert!(h.round_started(42, b"https://img/second.png".to_vec(), LevelDifficulty::Hard));
    assert!(h.guess_submitted(42, 7777, b"Lost TEMPLE".to_vec()));
    let p = db.partition(LevelDifficulty::Hard);
    let keys = vec![0.0f32.to_bits()];
    let (idx, key) = p.best_match_in(&keys).unwrap();
    let guess_name = p.get(idx).name.clone();
    assert!(h.record_guess(
        42,
        &b"https://img/second.png".to_vec(),
        guess_name,
        key
    ));
    match h.round_resolved(42, &b"Congratulations <@7777>!".to_vec()) {
        Resolution::Correct {
            name,
            distance_key,
            image,
        } => {
            assert_eq!(name, b"lost temple".to_vec());
            assert_eq!(distance_key, 0);
            // no fetch landed for the second round, so no bytes ride along
            assert!(image.is_none());
        }
        _ => panic!("expected a correct resolution"),
    }
}
