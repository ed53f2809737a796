//! Catalogue records: a level's name, difficulty and fingerprint.

use vstd::prelude::*;

use crate::difficulty::LevelDifficulty;
use crate::NUM_COEFFICIENTS;

verus! {

/// A fingerprint: per-channel transform coefficients of one image, ordered
/// from lowest to highest frequency.  Each entry is the bit pattern of a
/// 32-bit IEEE float; the crate never does arithmetic on them, it stores,
/// compares and transports them exactly.
#[derive(Debug, Clone)]
pub struct Coefficients {
    pub r: Vec<u32>,
    pub g: Vec<u32>,
    pub b: Vec<u32>,
}

/// Mathematical image of a `Coefficients` value.
pub ghost struct CoefficientsView {
    pub r: Seq<u32>,
    pub g: Seq<u32>,
    pub b: Seq<u32>,
}

impl View for Coefficients {
    type V = CoefficientsView;

    open spec fn view(&self) -> CoefficientsView {
        CoefficientsView { r: self.r@, g: self.g@, b: self.b@ }
    }
}

impl CoefficientsView {
    /// Exactly `NUM_COEFFICIENTS` entries per colour channel.
    pub open spec fn wf(self) -> bool {
        &&& self.r.len() == NUM_COEFFICIENTS
        &&& self.g.len() == NUM_COEFFICIENTS
        &&& self.b.len() == NUM_COEFFICIENTS
    }
}

impl Coefficients {
    pub open spec fn wf(&self) -> bool {
        self@.wf()
    }
}

/// One catalogue record.  The name is a byte string: the persisted format
/// stores one byte per character, so a name is at most 255 single-byte
/// characters.
#[derive(Debug, Clone)]
pub struct Level {
    pub name: Vec<u8>,
    pub difficulty: LevelDifficulty,
    pub coefficients: Coefficients,
}

/// Mathematical image of a `Level` value.
pub ghost struct LevelView {
    pub name: Seq<u8>,
    pub difficulty: LevelDifficulty,
    pub coefficients: CoefficientsView,
}

impl View for Level {
    type V = LevelView;

    open spec fn view(&self) -> LevelView {
        LevelView {
            name: self.name@,
            difficulty: self.difficulty,
            coefficients: self.coefficients@,
        }
    }
}

/// A name fits the persisted one-byte length prefix.
pub open spec fn valid_name(name: Seq<u8>) -> bool {
    name.len() <= 255
}

impl LevelView {
    pub open spec fn wf(self) -> bool {
        &&& valid_name(self.name)
        &&& self.coefficients.wf()
    }
}

impl Level {
    pub open spec fn wf(&self) -> bool {
        self@.wf()
    }
}

} // verus!
