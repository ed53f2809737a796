use levelbot::difficulty::LevelDifficulty;
use levelbot::level::Coefficients;
use levelbot::rounds::{Handler, Resolution};
use levelbot::NUM_COEFFICIENTS;

fn coeffs(seed: u32) -> Coefficients {
    let mut r = Vec::new();
    let mut g = Vec::new();
    let mut b = Vec::new();
    for i in 0..NUM_COEFFICIENTS as u32 {
        r.push(seed + i);
        g.push(seed + 100 + i);
        b.push(seed + 200 + i);
    }
    Coefficients { r, g, b }
}

#[test]
fn redundant_round_started_is_ignored() {
    let mut h = Handler::new();
    assert!(h.round_started(1, b"http://a/x.png".to_vec(), LevelDifficulty::Easy));
    assert!(!h.round_started(1, b"http://a/x.png".to_vec(), LevelDifficulty::Easy));
    // a different image replaces the round outright
    assert!(h.round_started(1, b"http://a/y.png".to_vec(), LevelDifficulty::Hard));
}

#[test]
fn stale_fingerprint_is_discarded() {
    let mut h = Handler::new();
    h.round_started(5, b"url-a".to_vec(), LevelDifficulty::Easy);
    h.round_started(5, b"url-b".to_vec(), LevelDifficulty::Easy);
    // the fingerprint computed against the superseded image must not land
    let accepted = h.fingerprint_ready(5, &b"url-a".to_vec(), vec![1, 2, 3], coeffs(1));
    assert!(!accepted);
    // whereas one for the current image does
    let accepted = h.fingerprint_ready(5, &b"url-b".to_vec(), vec![4, 5], coeffs(2));
    assert!(accepted);
}

#[test]
fn fingerprint_for_vanished_round_is_discarded() {
    let mut h = Handler::new();
    h.round_started(5, b"url-a".to_vec(), LevelDifficulty::Easy);
    h.round_timeout(5);
    assert!(!h.fingerprint_ready(5, &b"url-a".to_vec(), vec![], coeffs(1)));
}

#[test]
fn guesses_recorded_only_with_active_round() {
    let mut h = Handler::new();
    assert!(!h.guess_submitted(2, 77, b"Sunrise".to_vec()));
    h.round_started(2, b"u".to_vec(), LevelDifficulty::Easy);
    assert!(h.guess_submitted(2, 77, b"Sunrise".to_vec()));
    // the ledger keeps the latest text per author
    assert!(h.guess_submitted(2, 77, b"Sunset".to_vec()));
}

#[test]
fn resolution_without_round_or_winner() {
    let mut h = Handler::new();
    assert!(matches!(
        h.round_resolved(9, &b"<@123> won".to_vec()),
        Resolution::NoRound
    ));
    h.round_started(9, b"u".to_vec(), LevelDifficulty::Easy);
    assert!(matches!(
        h.round_resolved(9, &b"nobody won".to_vec()),
        Resolution::NoWinner
    ));
    // the round is gone afterwards whatever the outcome
    assert!(matches!(
        h.round_resolved(9, &b"<@123> won".to_vec()),
        Resolution::NoRound
    ));
}

#[test]
fn resolution_winner_without_ledger_entry() {
    let mut h = Handler::new();
    h.round_started(9, b"u".to_vec(), LevelDifficulty::Easy);
    h.guess_submitted(9, 500, b"other".to_vec());
    assert!(matches!(
        h.round_resolved(9, &b"congrats <@123>!".to_vec()),
        Resolution::NoLedgerEntry
    ));
}

#[test]
fn matching_guess_means_no_learning() {
    let mut h = Handler::new();
    h.round_started(9, b"u".to_vec(), LevelDifficulty::Easy);
    h.guess_submitted(9, 123, b"Sunrise".to_vec());
    h.fingerprint_ready(9, &b"u".to_vec(), vec![1], coeffs(3));
    h.record_guess(9, &b"u".to_vec(), b"sunrise".to_vec(), 0);
    match h.round_resolved(9, &b"congrats <@!123>!".to_vec()) {
        Resolution::Correct {
            name,
            distance_key,
            image,
        } => {
            assert_eq!(name, b"sunrise".to_vec());
            assert_eq!(distance_key, 0);
            assert_eq!(image, Some(vec![1]));
        }
        _ => panic!("expected a correct resolution"),
    }
}

#[test]
fn mismatching_guess_is_learned_lowercased() {
    let mut h = Handler::new();
    h.round_started(9, b"u".to_vec(), LevelDifficulty::Legendary);
    h.guess_submitted(9, 123, b"Frozen PEAK".to_vec());
    h.fingerprint_ready(9, &b"u".to_vec(), vec![1], coeffs(3));
    h.record_guess(9, &b"u".to_vec(), b"sunrise".to_vec(), 17);
    match h.round_resolved(9, &b"congrats <@123>!".to_vec()) {
        Resolution::Learn {
            name,
            difficulty,
            coefficients,
            image,
        } => {
            assert_eq!(name, b"frozen peak".to_vec());
            assert_eq!(difficulty, LevelDifficulty::Legendary);
            let c = coefficients.expect("the fingerprint was recorded");
            assert_eq!(c.r, coeffs(3).r);
            assert_eq!(image, Some(vec![1]));
        }
        _ => panic!("expected a learning resolution"),
    }
}

#[test]
fn learning_without_fingerprint_hands_back_none() {
    let mut h = Handler::new();
    h.round_started(9, b"u".to_vec(), LevelDifficulty::Easy);
    h.guess_submitted(9, 123, b"cave".to_vec());
    match h.round_resolved(9, &b"<@123>".to_vec()) {
        Resolution::Learn { coefficients, .. } => assert!(coefficients.is_none()),
        _ => panic!("expected a learning resolution"),
    }
}
