use levelbot::database::{load_levels, save_levels, LevelDatabase, Partition, EXCLUDED_PREFIX};
use levelbot::difficulty::LevelDifficulty;
use levelbot::level::{Coefficients, Level};
use levelbot::{DbError, LoadError, NUM_COEFFICIENTS};

fn coeffs(seed: u32) -> Coefficients {
    // Arbitrary, distinctive bit patterns; several are valid float bits of
    // odd values, which the store must carry bit for bit.
    let mut r = Vec::new();
    let mut g = Vec::new();
    let mut b = Vec::new();
    for i in 0..NUM_COEFFICIENTS as u32 {
        r.push(seed.wrapping_mul(2654435761).wrapping_add(i));
        g.push(seed.wrapping_mul(40503).wrapping_add(i * 7));
        b.push(0x7f80_0001u32.wrapping_add(seed).wrapping_add(i));
    }
    Coefficients { r, g, b }
}

fn level(name: &[u8], difficulty: LevelDifficulty, seed: u32) -> Level {
    Level {
        name: name.to_vec(),
        difficulty,
        coefficients: coeffs(seed),
    }
}

fn partition(levels: Vec<Level>) -> Partition {
    let mut p = Partition::new();
    for l in levels {
        p.insert_or_overwrite(l);
    }
    p
}

#[test]
fn save_load_roundtrip() {
    let p = partition(vec![
        level(b"sunrise", LevelDifficulty::Easy, 3),
        level(b"sunset", LevelDifficulty::Easy, 99),
        level(b"", LevelDifficulty::Hard, 7),
    ]);
    let bytes = save_levels(&p);
    let q = load_levels(&bytes).unwrap();
    assert_eq!(q.len(), 3);
    for i in 0..3 {
        let a = p.get(i);
        let b = q.get(i);
        assert_eq!(a.name, b.name);
        assert_eq!(a.difficulty, b.difficulty);
        assert_eq!(a.coefficients.r, b.coefficients.r);
        assert_eq!(a.coefficients.g, b.coefficients.g);
        assert_eq!(a.coefficients.b, b.coefficients.b);
    }
    // and the bytes themselves round-trip
    assert_eq!(save_levels(&q), bytes);
}

#[test]
fn empty_partition_roundtrip() {
    let p = Partition::new();
    let bytes = save_levels(&p);
    assert_eq!(bytes.len(), 8);
    let q = load_levels(&bytes).unwrap();
    assert_eq!(q.len(), 0);
}

#[test]
fn longest_name_roundtrip() {
    let name = vec![b'x'; 255];
    let p = partition(vec![level(&name, LevelDifficulty::Legendary, 1)]);
    let bytes = save_levels(&p);
    let q = load_levels(&bytes).unwrap();
    assert_eq!(q.len(), 1);
    assert_eq!(q.get(0).name, name);
}

#[test]
fn insert_twice_same_bytes() {
    let mut p = partition(vec![level(b"alpha", LevelDifficulty::Medium, 1)]);
    let first = p.insert_or_overwrite(level(b"beta", LevelDifficulty::Medium, 2));
    assert!(!first);
    let once = save_levels(&p);
    let again = p.insert_or_overwrite(level(b"beta", LevelDifficulty::Medium, 2));
    assert!(again);
    assert_eq!(save_levels(&p), once);
}

#[test]
fn overwrite_replaces_record() {
    let mut p = partition(vec![level(b"alpha", LevelDifficulty::Easy, 1)]);
    let known = p.insert_or_overwrite(level(b"alpha", LevelDifficulty::Easy, 8));
    assert!(known);
    assert_eq!(p.len(), 1);
    assert_eq!(p.get(0).coefficients.r, coeffs(8).r);
}

#[test]
fn excluded_prefix_skipped_on_load() {
    let mut marked = vec![EXCLUDED_PREFIX];
    marked.extend_from_slice(b"marker");
    let p = partition(vec![
        level(b"keep", LevelDifficulty::Easy, 1),
        level(&marked, LevelDifficulty::Easy, 2),
    ]);
    let bytes = save_levels(&p);
    let q = load_levels(&bytes).unwrap();
    assert_eq!(q.len(), 1);
    assert_eq!(q.get(0).name, b"keep".to_vec());
}

#[test]
fn unknown_difficulty_tag_reads_as_easy() {
    let p = partition(vec![level(b"x", LevelDifficulty::Easy, 1)]);
    let mut bytes = save_levels(&p);
    // the tag byte sits after the count, the length byte and the name
    let tag_index = 8 + 1 + 1;
    assert_eq!(bytes[tag_index], 0);
    bytes[tag_index] = 200;
    let q = load_levels(&bytes).unwrap();
    assert_eq!(q.get(0).difficulty, LevelDifficulty::Easy);
}

#[test]
fn truncated_file_fails() {
    let p = partition(vec![level(b"x", LevelDifficulty::Easy, 1)]);
    let bytes = save_levels(&p);
    assert!(matches!(
        load_levels(&bytes[..7].to_vec()),
        Err(LoadError::Truncated)
    ));
    assert!(matches!(
        load_levels(&bytes[..bytes.len() - 1].to_vec()),
        Err(LoadError::Truncated)
    ));
    // a count larger than the records present fails too
    let mut long = bytes.clone();
    long[0] = 2;
    assert!(matches!(load_levels(&long), Err(LoadError::Truncated)));
}

#[test]
fn duplicate_name_on_load_keeps_last() {
    let p1 = partition(vec![level(b"dup", LevelDifficulty::Easy, 1)]);
    let p2 = partition(vec![level(b"dup", LevelDifficulty::Easy, 9)]);
    let mut bytes = save_levels(&p1);
    let second = save_levels(&p2);
    bytes.extend_from_slice(&second[8..]);
    bytes[0] = 2;
    let q = load_levels(&bytes).unwrap();
    assert_eq!(q.len(), 1);
    assert_eq!(q.get(0).coefficients.r, coeffs(9).r);
}

#[test]
fn rename_missing_fails_and_changes_nothing() {
    let mut p = partition(vec![level(b"dawn", LevelDifficulty::Easy, 4)]);
    let before = save_levels(&p);
    let r = p.rename(&b"sunrise".to_vec(), b"sunset".to_vec());
    assert_eq!(r, Err(DbError::NotFound));
    assert_eq!(save_levels(&p), before);
}

#[test]
fn rename_relabels_in_place() {
    let mut p = partition(vec![
        level(b"one", LevelDifficulty::Easy, 1),
        level(b"two", LevelDifficulty::Easy, 2),
    ]);
    p.rename(&b"one".to_vec(), b"three".to_vec()).unwrap();
    assert_eq!(p.len(), 2);
    assert_eq!(p.get(0).name, b"three".to_vec());
    assert_eq!(p.get(0).coefficients.r, coeffs(1).r);
    assert_eq!(p.get(1).name, b"two".to_vec());
}

#[test]
fn rename_onto_existing_overwrites() {
    let mut p = partition(vec![
        level(b"one", LevelDifficulty::Easy, 1),
        level(b"two", LevelDifficulty::Easy, 2),
    ]);
    p.rename(&b"one".to_vec(), b"two".to_vec()).unwrap();
    assert_eq!(p.len(), 1);
    assert_eq!(p.get(0).name, b"two".to_vec());
    assert_eq!(p.get(0).coefficients.r, coeffs(1).r);
}

#[test]
fn remove_deletes_and_missing_fails() {
    let mut p = partition(vec![
        level(b"one", LevelDifficulty::Easy, 1),
        level(b"two", LevelDifficulty::Easy, 2),
    ]);
    assert_eq!(p.remove(&b"nope".to_vec()), Err(DbError::NotFound));
    assert_eq!(p.len(), 2);
    p.remove(&b"one".to_vec()).unwrap();
    assert_eq!(p.len(), 1);
    assert_eq!(p.get(0).name, b"two".to_vec());
}

#[test]
fn database_partitions_are_independent() {
    let mut db = LevelDatabase::new();
    let known = db.insert_or_overwrite(level(b"same", LevelDifficulty::Easy, 1));
    assert!(!known);
    let known = db.insert_or_overwrite(level(b"same", LevelDifficulty::Hard, 2));
    assert!(!known);
    assert_eq!(db.partition(LevelDifficulty::Easy).len(), 1);
    assert_eq!(db.partition(LevelDifficulty::Hard).len(), 1);
    assert_eq!(db.partition(LevelDifficulty::Medium).len(), 0);
    db.remove(LevelDifficulty::Easy, &b"same".to_vec()).unwrap();
    assert_eq!(db.partition(LevelDifficulty::Easy).len(), 0);
    assert_eq!(db.partition(LevelDifficulty::Hard).len(), 1);
}

#[test]
fn learn_returns_flag_and_full_bytes() {
    let mut db = LevelDatabase::new();
    let (known, bytes) = db.learn(b"ruins".to_vec(), LevelDifficulty::Medium, coeffs(5));
    assert!(!known);
    assert_eq!(bytes, save_levels(db.partition(LevelDifficulty::Medium)));
    let (known, bytes) = db.learn(b"ruins".to_vec(), LevelDifficulty::Medium, coeffs(6));
    assert!(known);
    assert_eq!(bytes, save_levels(db.partition(LevelDifficulty::Medium)));
    assert_eq!(db.partition(LevelDifficulty::Medium).len(), 1);
}
