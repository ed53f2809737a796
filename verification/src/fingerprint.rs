//! From raw image bytes to the per-channel sample grids, and from transform
//! output to a fingerprint.
//!
//! The format is sniffed from the buffer's content, the image is resized to
//! a fixed square with a triangular (area-weighted) filter, and the samples
//! are split into flat red, green and blue grids in row-major order.  Every
//! sample is carried as the bit pattern of its 32-bit float.  The cosine
//! transform itself is floating-point arithmetic and runs outside this
//! crate, on one shared plan constructed once per process; its output comes
//! back here, again as bit patterns, to be truncated into a fingerprint.

use vstd::prelude::*;

use crate::level::Coefficients;
use crate::{DecodeError, ExtractError, IMAGE_DIM, NUM_COEFFICIENTS};

verus! {

/// Does this buffer decode as an image?  Decoding depends on the bytes
/// alone, so the outcome has a name; nothing more is claimed of it.
pub uninterp spec fn decodable(data: Seq<u8>) -> bool;

/// The normalised samples of a decodable buffer: the decoded image resized
/// to `w` by `h`, rendered as 32-bit float RGB, row-major, three samples
/// per pixel interleaved R, G, B, each sample as its bit pattern.  A pure
/// function of the bytes and the dimensions.
pub uninterp spec fn normalized_bits(data: Seq<u8>, w: nat, h: nat) -> Seq<u32>;

/// Relies on image::load_from_memory (the format is guessed from the
/// buffer's content; decoding is a pure function of the bytes, failures are
/// returned, not panicked), DynamicImage::resize_exact (the result has
/// exactly the given dimensions, aspect ratio not preserved, triangular
/// filter) and DynamicImage::into_rgb32f with ImageBuffer::as_raw (the
/// conversion allocates its own exact-size buffer: `3 * w * h` samples in
/// row-major order, interleaved R, G, B).  Every failure becomes
/// `DecodeError`.
#[verifier::external_body]
fn decode_normalized(data: &Vec<u8>, w: u32, h: u32) -> (r: Result<Vec<u32>, DecodeError>)
    requires
        w >= 1,
        h >= 1,
    ensures
        r is Ok <==> decodable(data@),
        match r {
            Ok(s) => {
                &&& s@ == normalized_bits(data@, w as nat, h as nat)
                &&& s@.len() == 3 * w * h
            },
            Err(e) => e == DecodeError::Undecodable,
        },
{
    match image::load_from_memory(data.as_slice()) {
        Ok(img) => Ok(
            img.resize_exact(w, h, image::imageops::FilterType::Triangle)
                .into_rgb32f()
                .as_raw()
                .iter()
                .map(|s| s.to_bits())
                .collect(),
        ),
        Err(_) => Err(DecodeError::Undecodable),
    }
}

/// The three colour channels of a normalised image: one flat row-major grid
/// of sample bit patterns per channel.
pub struct RgbChannels {
    pub r: Vec<u32>,
    pub g: Vec<u32>,
    pub b: Vec<u32>,
}

/// These grids are exactly the fixed-resolution normalisation of `data`,
/// channel by channel.
pub open spec fn grids_of(data: Seq<u8>, ch: RgbChannels) -> bool {
    let s = normalized_bits(data, IMAGE_DIM as nat, IMAGE_DIM as nat);
    &&& ch.r@.len() == IMAGE_DIM * IMAGE_DIM
    &&& ch.g@.len() == IMAGE_DIM * IMAGE_DIM
    &&& ch.b@.len() == IMAGE_DIM * IMAGE_DIM
    &&& forall|i: int|
        0 <= i < IMAGE_DIM * IMAGE_DIM ==> {
            &&& ch.r@[i] == s[3 * i]
            &&& ch.g@[i] == s[3 * i + 1]
            &&& ch.b@[i] == s[3 * i + 2]
        }
}

/// Law: the byte-to-grid stage is a pure function of its input — two
/// extractions of the same buffer hold bit-identical grids.
pub proof fn lemma_extraction_deterministic(data: Seq<u8>, a: RgbChannels, b: RgbChannels)
    requires
        grids_of(data, a),
        grids_of(data, b),
    ensures
        a.r@ == b.r@,
        a.g@ == b.g@,
        a.b@ == b.b@,
{
    assert(a.r@ =~= b.r@);
    assert(a.g@ =~= b.g@);
    assert(a.b@ =~= b.b@);
}

/// Split interleaved R, G, B samples into the three channel grids.
pub fn split_channels(samples: &Vec<u32>) -> (out: RgbChannels)
    requires
        samples@.len() % 3 == 0,
    ensures
        out.r@.len() * 3 == samples@.len(),
        out.g@.len() == out.r@.len(),
        out.b@.len() == out.r@.len(),
        forall|i: int|
            0 <= i < out.r@.len() ==> {
                &&& out.r@[i] == samples@[3 * i]
                &&& out.g@[i] == samples@[3 * i + 1]
                &&& out.b@[i] == samples@[3 * i + 2]
            },
{
    let m = samples.len();
    let n = m / 3;
    let mut r: Vec<u32> = Vec::new();
    let mut g: Vec<u32> = Vec::new();
    let mut b: Vec<u32> = Vec::new();
    let mut i: usize = 0;
    while i < n
        invariant
            m == samples@.len(),
            n == m / 3,
            m % 3 == 0,
            i <= n,
            r@.len() == i && g@.len() == i && b@.len() == i,
            forall|j: int|
                0 <= j < i ==> {
                    &&& r@[j] == samples@[3 * j]
                    &&& g@[j] == samples@[3 * j + 1]
                    &&& b@[j] == samples@[3 * j + 2]
                },
        decreases n - i,
    {
        proof {
            vstd::arithmetic::div_mod::lemma_fundamental_div_mod(m as int, 3);
        }
        r.push(samples[3 * i]);
        g.push(samples[3 * i + 1]);
        b.push(samples[3 * i + 2]);
        i += 1;
    }
    RgbChannels { r, g, b }
}

/// Decode an image buffer, normalise it to the fixed square resolution and
/// split it into per-channel sample grids.  Succeeds exactly on decodable
/// data, and then the grids are the normalisation of the input, channel by
/// channel; undecodable data fails, and a default grid is never
/// substituted.
pub fn prepare_channels(data: &Vec<u8>) -> (r: Result<RgbChannels, DecodeError>)
    ensures
        r is Ok <==> decodable(data@),
        match r {
            Ok(ch) => grids_of(data@, ch),
            Err(e) => e == DecodeError::Undecodable,
        },
{
    let samples = match decode_normalized(data, IMAGE_DIM as u32, IMAGE_DIM as u32) {
        Ok(samples) => samples,
        Err(e) => {
            return Err(e);
        },
    };
    proof {
        assert(samples@.len() == 3 * (IMAGE_DIM * IMAGE_DIM));
    }
    let ch = split_channels(&samples);
    Ok(ch)
}

impl Coefficients {
    /// Build a fingerprint from the transform output of the three channels:
    /// the first `NUM_COEFFICIENTS` coefficients of each, lowest frequency
    /// first.  A channel with fewer coefficients than that signals a broken
    /// transform stage.
    pub fn new(r: Vec<u32>, g: Vec<u32>, b: Vec<u32>) -> (out: Result<Coefficients, ExtractError>)
        ensures
            match out {
                Ok(c) => {
                    &&& r@.len() >= NUM_COEFFICIENTS
                    &&& g@.len() >= NUM_COEFFICIENTS
                    &&& b@.len() >= NUM_COEFFICIENTS
                    &&& c.r@ == r@.subrange(0, NUM_COEFFICIENTS as int)
                    &&& c.g@ == g@.subrange(0, NUM_COEFFICIENTS as int)
                    &&& c.b@ == b@.subrange(0, NUM_COEFFICIENTS as int)
                    &&& c.wf()
                },
                Err(e) => {
                    &&& e == ExtractError::TransformLengthMismatch
                    &&& (r@.len() < NUM_COEFFICIENTS || g@.len() < NUM_COEFFICIENTS || b@.len()
                        < NUM_COEFFICIENTS)
                },
            },
    {
        if r.len() < NUM_COEFFICIENTS || g.len() < NUM_COEFFICIENTS || b.len() < NUM_COEFFICIENTS {
            return Err(ExtractError::TransformLengthMismatch);
        }
        let mut r = r;
        let mut g = g;
        let mut b = b;
        r.truncate(NUM_COEFFICIENTS);
        g.truncate(NUM_COEFFICIENTS);
        b.truncate(NUM_COEFFICIENTS);
        Ok(Coefficients { r, g, b })
    }
}

} // verus!
