//! The four difficulty tiers a level can belong to.

use vstd::prelude::*;

verus! {

/// Difficulty tier of a level.  Each tier owns an independent catalogue
/// partition, persisted in a file of its own.
#[derive(Debug, Copy, Clone, Hash, PartialEq, Eq, Structural)]
pub enum LevelDifficulty {
    Easy,
    Medium,
    Hard,
    Legendary,
}

impl LevelDifficulty {
    /// The one-byte tag this tier is persisted as.
    pub open spec fn spec_tag(self) -> u8 {
        match self {
            LevelDifficulty::Easy => 0,
            LevelDifficulty::Medium => 1,
            LevelDifficulty::Hard => 2,
            LevelDifficulty::Legendary => 3,
        }
    }

    /// The tier a persisted tag byte denotes; unknown tags fall back to Easy.
    pub open spec fn spec_from_tag(tag: u8) -> LevelDifficulty {
        match tag {
            1 => LevelDifficulty::Medium,
            2 => LevelDifficulty::Hard,
            3 => LevelDifficulty::Legendary,
            _ => LevelDifficulty::Easy,
        }
    }

    pub fn tag(&self) -> (t: u8)
        ensures
            t == self.spec_tag(),
    {
        match self {
            LevelDifficulty::Easy => 0,
            LevelDifficulty::Medium => 1,
            LevelDifficulty::Hard => 2,
            LevelDifficulty::Legendary => 3,
        }
    }

    pub fn from_tag(tag: u8) -> (d: LevelDifficulty)
        ensures
            d == LevelDifficulty::spec_from_tag(tag),
    {
        match tag {
            1 => LevelDifficulty::Medium,
            2 => LevelDifficulty::Hard,
            3 => LevelDifficulty::Legendary,
            _ => LevelDifficulty::Easy,
        }
    }

    /// Directory in which images for this tier are kept.
    pub fn directory(&self) -> (s: &'static str)
        ensures
            self is Easy ==> s@ == "easy"@,
            self is Medium ==> s@ == "medium"@,
            self is Hard ==> s@ == "hard"@,
            self is Legendary ==> s@ == "legendary"@,
    {
        match self {
            LevelDifficulty::Easy => "easy",
            LevelDifficulty::Medium => "medium",
            LevelDifficulty::Hard => "hard",
            LevelDifficulty::Legendary => "legendary",
        }
    }

    /// Name of the file this tier's partition is persisted in.
    pub fn filename(&self) -> (s: &'static str)
        ensures
            self is Easy ==> s@ == "easy.bin"@,
            self is Medium ==> s@ == "medium.bin"@,
            self is Hard ==> s@ == "hard.bin"@,
            self is Legendary ==> s@ == "legendary.bin"@,
    {
        match self {
            LevelDifficulty::Easy => "easy.bin",
            LevelDifficulty::Medium => "medium.bin",
            LevelDifficulty::Hard => "hard.bin",
            LevelDifficulty::Legendary => "legendary.bin",
        }
    }
}

} // verus!
