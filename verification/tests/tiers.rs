use levelbot::difficulty::LevelDifficulty;

const ALL: [LevelDifficulty; 4] = [
    LevelDifficulty::Easy,
    LevelDifficulty::Medium,
    LevelDifficulty::Hard,
    LevelDifficulty::Legendary,
];

#[test]
fn tags_roundtrip() {
    for d in ALL {
        assert_eq!(LevelDifficulty::from_tag(d.tag()), d);
    }
    assert_eq!(LevelDifficulty::Easy.tag(), 0);
    assert_eq!(LevelDifficulty::Medium.tag(), 1);
    assert_eq!(LevelDifficulty::Hard.tag(), 2);
    assert_eq!(LevelDifficulty::Legendary.tag(), 3);
}

#[test]
fn unknown_tags_fall_back_to_easy() {
    assert_eq!(LevelDifficulty::from_tag(4), LevelDifficulty::Easy);
    assert_eq!(LevelDifficulty::from_tag(255), LevelDifficulty::Easy);
}

#[test]
fn file_names() {
    assert_eq!(LevelDifficulty::Easy.filename(), "easy.bin");
    assert_eq!(LevelDifficulty::Medium.filename(), "medium.bin");
    assert_eq!(LevelDifficulty::Hard.filename(), "hard.bin");
    assert_eq!(LevelDifficulty::Legendary.filename(), "legendary.bin");
    assert_eq!(LevelDifficulty::Easy.directory(), "easy");
    assert_eq!(LevelDifficulty::Legendary.directory(), "legendary");
}
