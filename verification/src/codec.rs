//! Persisted byte layout of catalogue records.
//!
//! Per record, little endian: one byte of name length, that many name bytes,
//! one difficulty tag byte, then `NUM_COEFFICIENTS` 32-bit coefficients per
//! channel in R, G, B order.  A partition file is an 8-byte little-endian
//! record count followed by that many records back to back.

use vstd::prelude::*;

use vstd::bytes::{
    lemma_auto_spec_u32_to_from_le_bytes, lemma_auto_spec_u64_to_from_le_bytes,
    spec_u32_from_le_bytes, spec_u32_to_le_bytes, spec_u64_from_le_bytes, spec_u64_to_le_bytes,
    u32_from_le_bytes, u32_to_le_bytes,
};
use vstd::slice::slice_subrange;

use crate::difficulty::LevelDifficulty;
use crate::level::{Coefficients, CoefficientsView, Level, LevelView};
use crate::LoadError;
use crate::NUM_COEFFICIENTS;

verus! {

/// Bytes one record's coefficients occupy: three channels of four bytes per
/// coefficient.
pub const COEFF_BYTE_LEN: usize = 12 * NUM_COEFFICIENTS;

// ---------------------------------------------------------------------------
// Serialisation, as spec functions.
// ---------------------------------------------------------------------------

/// The bytes one channel's coefficients serialise to.
pub open spec fn chan_bytes(s: Seq<u32>) -> Seq<u8>
    decreases s.len(),
{
    if s.len() == 0 {
        Seq::empty()
    } else {
        spec_u32_to_le_bytes(s[0]) + chan_bytes(s.drop_first())
    }
}

/// The bytes a fingerprint serialises to: R, then G, then B.
pub open spec fn coeff_bytes(c: CoefficientsView) -> Seq<u8> {
    chan_bytes(c.r) + chan_bytes(c.g) + chan_bytes(c.b)
}

/// The bytes one record serialises to.
pub open spec fn level_bytes(v: LevelView) -> Seq<u8> {
    seq![v.name.len() as u8] + v.name + seq![v.difficulty.spec_tag()] + coeff_bytes(v.coefficients)
}

/// The bytes a sequence of records serialises to, back to back.
pub open spec fn levels_bytes(vs: Seq<LevelView>) -> Seq<u8>
    decreases vs.len(),
{
    if vs.len() == 0 {
        Seq::empty()
    } else {
        level_bytes(vs[0]) + levels_bytes(vs.drop_first())
    }
}

/// The bytes a whole partition serialises to: record count, then records.
pub open spec fn partition_bytes(vs: Seq<LevelView>) -> Seq<u8> {
    spec_u64_to_le_bytes(vs.len() as u64) + levels_bytes(vs)
}

// ---------------------------------------------------------------------------
// Parsing, as spec functions.
// ---------------------------------------------------------------------------

/// The 32-bit little-endian integer at `pos`.
pub open spec fn parse_u32_at(bytes: Seq<u8>, pos: int) -> u32 {
    spec_u32_from_le_bytes(bytes.subrange(pos, pos + 4))
}

/// One channel's coefficients read from `pos`.
pub open spec fn parse_chan(bytes: Seq<u8>, pos: int) -> Seq<u32> {
    Seq::new(NUM_COEFFICIENTS as nat, |i: int| parse_u32_at(bytes, pos + 4 * i))
}

/// The record starting at `pos`, with the position just past it, or `None`
/// if the buffer ends first.
pub open spec fn parse_level(bytes: Seq<u8>, pos: int) -> Option<(LevelView, int)> {
    if pos < 0 || pos + 1 > bytes.len() {
        None
    } else {
        let nlen = bytes[pos] as int;
        if pos + 2 + nlen + COEFF_BYTE_LEN > bytes.len() {
            None
        } else {
            let cbase = pos + 2 + nlen;
            let v = LevelView {
                name: bytes.subrange(pos + 1, pos + 1 + nlen),
                difficulty: LevelDifficulty::spec_from_tag(bytes[pos + 1 + nlen]),
                coefficients: CoefficientsView {
                    r: parse_chan(bytes, cbase),
                    g: parse_chan(bytes, cbase + 4 * NUM_COEFFICIENTS),
                    b: parse_chan(bytes, cbase + 8 * NUM_COEFFICIENTS),
                },
            };
            Some((v, cbase + COEFF_BYTE_LEN))
        }
    }
}

/// `n` records read back to back from `pos`.
pub open spec fn parse_levels(bytes: Seq<u8>, pos: int, n: nat) -> Option<Seq<LevelView>>
    decreases n,
{
    if n == 0 {
        Some(Seq::empty())
    } else {
        match parse_level(bytes, pos) {
            None => None,
            Some(parsed) => match parse_levels(bytes, parsed.1, (n - 1) as nat) {
                None => None,
                Some(rest) => Some(seq![parsed.0] + rest),
            },
        }
    }
}

/// A whole partition file: record count, then that many records.  Trailing
/// bytes are ignored, as a sequential reader would leave them unread.
pub open spec fn parse_partition(bytes: Seq<u8>) -> Option<Seq<LevelView>> {
    if bytes.len() < 8 {
        None
    } else {
        parse_levels(bytes, 8, spec_u64_from_le_bytes(bytes.subrange(0, 8)) as nat)
    }
}

// ---------------------------------------------------------------------------
// Executable serialisation.
// ---------------------------------------------------------------------------

fn write_chan(out: &mut Vec<u8>, s: &Vec<u32>)
    ensures
        final(out)@ == old(out)@ + chan_bytes(s@),
{
    let ghost out0 = out@;
    let mut i: usize = 0;
    while i < s.len()
        invariant
            i <= s@.len(),
            out@ == out0 + chan_bytes(s@.take(i as int)),
        decreases s@.len() - i,
    {
        let mut quad = u32_to_le_bytes(s[i]);
        out.append(&mut quad);
        proof {
            assert(s@.take(i + 1) =~= s@.take(i as int).push(s@[i as int]));
            lemma_chan_bytes_push(s@.take(i as int), s@[i as int]);
            assert(out@ =~= out0 + chan_bytes(s@.take(i + 1)));
        }
        i += 1;
    }
    proof {
        assert(s@.take(s@.len() as int) =~= s@);
    }
}

impl Level {
    /// Append this record's bytes to `out`.
    pub fn write(&self, out: &mut Vec<u8>)
        requires
            self.wf(),
        ensures
            final(out)@ == old(out)@ + level_bytes(self@),
    {
        let ghost out0 = out@;
        out.push(self.name.len() as u8);
        let mut i: usize = 0;
        while i < self.name.len()
            invariant
                i <= self.name@.len(),
                self.name@.len() <= 255,
                out@ == out0 + seq![self.name@.len() as u8] + self.name@.take(i as int),
            decreases self.name@.len() - i,
        {
            out.push(self.name[i]);
            proof {
                assert(self.name@.take(i + 1) =~= self.name@.take(i as int).push(
                    self.name@[i as int],
                ));
            }
            i += 1;
        }
        proof {
            assert(self.name@.take(self.name@.len() as int) =~= self.name@);
        }
        out.push(self.difficulty.tag());
        write_chan(out, &self.coefficients.r);
        write_chan(out, &self.coefficients.g);
        write_chan(out, &self.coefficients.b);
        proof {
            assert(out@ =~= out0 + level_bytes(self@));
        }
    }

    /// Read the record starting at `pos`, returning it with the position
    /// just past it.
    pub fn read(bytes: &Vec<u8>, pos: usize) -> (r: Result<(Level, usize), LoadError>)
        ensures
            match r {
                Ok(ok) => {
                    &&& parse_level(bytes@, pos as int) == Some((ok.0@, ok.1 as int))
                    &&& ok.0.wf()
                    &&& pos < ok.1 <= bytes@.len()
                },
                Err(e) => parse_level(bytes@, pos as int) is None && e == LoadError::Truncated,
            },
    {
        if pos >= bytes.len() {
            return Err(LoadError::Truncated);
        }
        let nlen = bytes[pos] as usize;
        if bytes.len() - pos - 1 < nlen + 1 + COEFF_BYTE_LEN {
            return Err(LoadError::Truncated);
        }
        let n = bytes.len();
        let mut name: Vec<u8> = Vec::new();
        let mut i: usize = 0;
        while i < nlen
            invariant
                i <= nlen,
                n == bytes@.len(),
                pos + 2 + nlen + COEFF_BYTE_LEN <= n,
                name@ == bytes@.subrange(pos + 1, pos + 1 + i),
            decreases nlen - i,
        {
            name.push(bytes[pos + 1 + i]);
            proof {
                assert(bytes@.subrange(pos + 1, pos + 1 + i + 1) =~= bytes@.subrange(
                    pos + 1,
                    pos + 1 + i,
                ).push(bytes@[pos + 1 + i]));
            }
            i += 1;
        }
        let tag = bytes[pos + 1 + nlen];
        let cbase = pos + 2 + nlen;
        let r = read_chan(bytes, cbase);
        let g = read_chan(bytes, cbase + 4 * NUM_COEFFICIENTS);
        let b = read_chan(bytes, cbase + 8 * NUM_COEFFICIENTS);
        let level = Level {
            name,
            difficulty: LevelDifficulty::from_tag(tag),
            coefficients: Coefficients { r, g, b },
        };
        Ok((level, cbase + COEFF_BYTE_LEN))
    }
}

fn read_chan(bytes: &Vec<u8>, pos: usize) -> (v: Vec<u32>)
    requires
        pos + 4 * NUM_COEFFICIENTS <= bytes@.len(),
    ensures
        v@ == parse_chan(bytes@, pos as int),
        v@.len() == NUM_COEFFICIENTS,
{
    let n = bytes.len();
    let mut v: Vec<u32> = Vec::new();
    let mut i: usize = 0;
    while i < NUM_COEFFICIENTS
        invariant
            i <= NUM_COEFFICIENTS,
            n == bytes@.len(),
            pos + 4 * NUM_COEFFICIENTS <= n,
            v@.len() == i,
            forall|j: int| 0 <= j < i ==> v@[j] == parse_u32_at(bytes@, pos + 4 * j),
        decreases NUM_COEFFICIENTS - i,
    {
        let x = u32_from_le_bytes(slice_subrange(bytes.as_slice(), pos + 4 * i, pos + 4 * i + 4));
        v.push(x);
        i += 1;
    }
    proof {
        assert(v@ =~= parse_chan(bytes@, pos as int));
    }
    v
}

// ---------------------------------------------------------------------------
// Round trip: parsing what was serialised gives the records back.
// ---------------------------------------------------------------------------

pub proof fn lemma_chan_bytes_len(s: Seq<u32>)
    ensures
        chan_bytes(s).len() == 4 * s.len(),
    decreases s.len(),
{
    lemma_auto_spec_u32_to_from_le_bytes();
    if s.len() > 0 {
        lemma_chan_bytes_len(s.drop_first());
    }
}

proof fn lemma_chan_bytes_push(s: Seq<u32>, x: u32)
    ensures
        chan_bytes(s.push(x)) == chan_bytes(s) + spec_u32_to_le_bytes(x),
    decreases s.len(),
{
    lemma_auto_spec_u32_to_from_le_bytes();
    if s.len() == 0 {
        assert(s.push(x)[0] == x);
        assert(s.push(x).drop_first() =~= Seq::<u32>::empty());
        assert(chan_bytes(s.push(x)) == spec_u32_to_le_bytes(x) + chan_bytes(
            Seq::<u32>::empty(),
        ));
        assert(chan_bytes(s.push(x)) =~= chan_bytes(s) + spec_u32_to_le_bytes(x));
    } else {
        lemma_chan_bytes_push(s.drop_first(), x);
        assert(s.push(x)[0] == s[0]);
        assert(s.push(x).drop_first() =~= s.drop_first().push(x));
        assert(chan_bytes(s.push(x)) == spec_u32_to_le_bytes(s[0]) + chan_bytes(
            s.drop_first().push(x),
        ));
        assert(chan_bytes(s) == spec_u32_to_le_bytes(s[0]) + chan_bytes(s.drop_first()));
        assert(chan_bytes(s.push(x)) =~= chan_bytes(s) + spec_u32_to_le_bytes(x));
    }
}

pub proof fn lemma_levels_bytes_push(vs: Seq<LevelView>, v: LevelView)
    ensures
        levels_bytes(vs.push(v)) == levels_bytes(vs) + level_bytes(v),
    decreases vs.len(),
{
    if vs.len() == 0 {
        assert(vs.push(v)[0] == v);
        assert(vs.push(v).drop_first() =~= Seq::<LevelView>::empty());
        assert(levels_bytes(vs.push(v)) == level_bytes(v) + levels_bytes(
            Seq::<LevelView>::empty(),
        ));
        assert(levels_bytes(vs.push(v)) =~= levels_bytes(vs) + level_bytes(v));
    } else {
        lemma_levels_bytes_push(vs.drop_first(), v);
        assert(vs.push(v)[0] == vs[0]);
        assert(vs.push(v).drop_first() =~= vs.drop_first().push(v));
        assert(levels_bytes(vs.push(v)) == level_bytes(vs[0]) + levels_bytes(
            vs.drop_first().push(v),
        ));
        assert(levels_bytes(vs) == level_bytes(vs[0]) + levels_bytes(vs.drop_first()));
        assert(levels_bytes(vs.push(v)) =~= levels_bytes(vs) + level_bytes(v));
    }
}

/// Within `chan_bytes(s)`, coefficient `i` sits at offset `4 * i`.
proof fn lemma_chan_bytes_index(s: Seq<u32>, i: int)
    requires
        0 <= i < s.len(),
    ensures
        chan_bytes(s).subrange(4 * i, 4 * i + 4) == spec_u32_to_le_bytes(s[i]),
    decreases s.len(),
{
    lemma_auto_spec_u32_to_from_le_bytes();
    lemma_chan_bytes_len(s);
    lemma_chan_bytes_len(s.drop_first());
    if i == 0 {
        assert(chan_bytes(s).subrange(0, 4) =~= spec_u32_to_le_bytes(s[0]));
    } else {
        lemma_chan_bytes_index(s.drop_first(), i - 1);
        assert(chan_bytes(s).subrange(4 * i, 4 * i + 4) =~= chan_bytes(s.drop_first()).subrange(
            4 * (i - 1),
            4 * (i - 1) + 4,
        ));
    }
}

/// Parsing a channel from bytes that hold `chan_bytes(s)` gives `s` back.
proof fn lemma_chan_roundtrip(bytes: Seq<u8>, pos: int, s: Seq<u32>)
    requires
        s.len() == NUM_COEFFICIENTS,
        0 <= pos,
        pos + 4 * NUM_COEFFICIENTS <= bytes.len(),
        bytes.subrange(pos, pos + 4 * NUM_COEFFICIENTS) == chan_bytes(s),
    ensures
        parse_chan(bytes, pos) == s,
{
    lemma_auto_spec_u32_to_from_le_bytes();
    assert forall|i: int| 0 <= i < NUM_COEFFICIENTS implies parse_chan(bytes, pos)[i] == s[i] by {
        lemma_chan_bytes_index(s, i);
        assert(bytes.subrange(pos + 4 * i, pos + 4 * i + 4) =~= chan_bytes(s).subrange(
            4 * i,
            4 * i + 4,
        ));
    }
    assert(parse_chan(bytes, pos) =~= s);
}

pub proof fn lemma_level_bytes_len(v: LevelView)
    requires
        v.wf(),
    ensures
        level_bytes(v).len() == 2 + v.name.len() + COEFF_BYTE_LEN,
{
    lemma_chan_bytes_len(v.coefficients.r);
    lemma_chan_bytes_len(v.coefficients.g);
    lemma_chan_bytes_len(v.coefficients.b);
}

/// Parsing a record from bytes that hold `level_bytes(v)` gives `v` back.
proof fn lemma_level_roundtrip(bytes: Seq<u8>, pos: int, v: LevelView)
    requires
        v.wf(),
        0 <= pos,
        pos + level_bytes(v).len() <= bytes.len(),
        bytes.subrange(pos, pos + level_bytes(v).len() as int) == level_bytes(v),
    ensures
        parse_level(bytes, pos) == Some((v, pos + level_bytes(v).len())),
{
    lemma_level_bytes_len(v);
    lemma_chan_bytes_len(v.coefficients.r);
    lemma_chan_bytes_len(v.coefficients.g);
    lemma_chan_bytes_len(v.coefficients.b);
    let lb = level_bytes(v);
    let nlen = v.name.len() as int;
    assert forall|j: int| 0 <= j < lb.len() implies bytes[pos + j] == lb[j] by {
        assert(bytes.subrange(pos, pos + lb.len() as int)[j] == lb[j]);
    }
    assert(bytes[pos] == lb[0]);
    assert(lb[0] == v.name.len() as u8);
    assert(bytes[pos] as int == nlen);
    let cbase = pos + 2 + nlen;
    assert forall|i: int| 0 <= i < nlen implies bytes[pos + 1 + i] == v.name[i] by {
        assert(bytes[pos + 1 + i] == lb[1 + i]);
        assert(lb[1 + i] == v.name[i]);
    }
    assert(bytes.subrange(pos + 1, pos + 1 + nlen) =~= v.name);
    assert(bytes[pos + 1 + nlen] == lb[1 + nlen]);
    assert(lb[1 + nlen] == v.difficulty.spec_tag());
    assert(LevelDifficulty::spec_from_tag(v.difficulty.spec_tag()) == v.difficulty);
    let cb = coeff_bytes(v.coefficients);
    assert forall|i: int| 0 <= i < 12 * NUM_COEFFICIENTS implies bytes[cbase + i] == cb[i] by {
        assert(bytes[pos + (2 + nlen + i)] == lb[2 + nlen + i]);
        assert(lb[2 + nlen + i] == cb[i]);
    }
    assert forall|i: int| 0 <= i < 4 * NUM_COEFFICIENTS implies bytes[cbase + i] == chan_bytes(
        v.coefficients.r,
    )[i] by {
        assert(bytes[cbase + i] == cb[i]);
        assert(cb[i] == chan_bytes(v.coefficients.r)[i]);
    }
    assert(bytes.subrange(cbase, cbase + 4 * NUM_COEFFICIENTS) =~= chan_bytes(v.coefficients.r));
    lemma_chan_roundtrip(bytes, cbase, v.coefficients.r);
    assert forall|i: int| 0 <= i < 4 * NUM_COEFFICIENTS implies bytes[cbase + 4 * NUM_COEFFICIENTS
        + i] == chan_bytes(v.coefficients.g)[i] by {
        assert(bytes[cbase + (4 * NUM_COEFFICIENTS + i)] == cb[4 * NUM_COEFFICIENTS + i]);
    }
    assert(bytes.subrange(
        cbase + 4 * NUM_COEFFICIENTS,
        cbase + 8 * NUM_COEFFICIENTS,
    ) =~= chan_bytes(v.coefficients.g));
    lemma_chan_roundtrip(bytes, cbase + 4 * NUM_COEFFICIENTS, v.coefficients.g);
    assert forall|i: int| 0 <= i < 4 * NUM_COEFFICIENTS implies bytes[cbase + 8 * NUM_COEFFICIENTS
        + i] == chan_bytes(v.coefficients.b)[i] by {
        assert(bytes[cbase + (8 * NUM_COEFFICIENTS + i)] == cb[8 * NUM_COEFFICIENTS + i]);
    }
    assert(bytes.subrange(
        cbase + 8 * NUM_COEFFICIENTS,
        cbase + 12 * NUM_COEFFICIENTS,
    ) =~= chan_bytes(v.coefficients.b));
    lemma_chan_roundtrip(bytes, cbase + 8 * NUM_COEFFICIENTS, v.coefficients.b);
    let parsed = parse_level(bytes, pos)->Some_0;
    assert(parsed.0.name == v.name);
    assert(parsed.0.coefficients == v.coefficients);
    assert(parsed.0 == v);
}

/// Parsing `vs.len()` records from bytes that hold `levels_bytes(vs)` gives
/// `vs` back.
proof fn lemma_levels_roundtrip(bytes: Seq<u8>, pos: int, vs: Seq<LevelView>)
    requires
        forall|i: int| 0 <= i < vs.len() ==> (#[trigger] vs[i]).wf(),
        0 <= pos,
        pos + levels_bytes(vs).len() <= bytes.len(),
        bytes.subrange(pos, pos + levels_bytes(vs).len() as int) == levels_bytes(vs),
    ensures
        parse_levels(bytes, pos, vs.len()) == Some(vs),
    decreases vs.len(),
{
    if vs.len() == 0 {
        assert(parse_levels(bytes, pos, 0) == Some(Seq::<LevelView>::empty()));
        assert(vs =~= Seq::<LevelView>::empty());
    } else {
        let v0 = vs[0];
        lemma_level_bytes_len(v0);
        let all = levels_bytes(vs);
        let lb0 = level_bytes(v0).len() as int;
        let rest = vs.drop_first();
        assert(all == level_bytes(v0) + levels_bytes(rest));
        assert forall|j: int| 0 <= j < all.len() implies bytes[pos + j] == all[j] by {
            assert(bytes.subrange(pos, pos + all.len() as int)[j] == all[j]);
        }
        assert forall|j: int| 0 <= j < lb0 implies bytes[pos + j] == level_bytes(v0)[j] by {
            assert(all[j] == level_bytes(v0)[j]);
        }
        assert(bytes.subrange(pos, pos + lb0) =~= level_bytes(v0));
        lemma_level_roundtrip(bytes, pos, v0);
        assert(forall|i: int| 0 <= i < rest.len() ==> (#[trigger] rest[i]).wf());
        assert forall|j: int| 0 <= j < levels_bytes(rest).len() implies bytes[pos + lb0 + j]
            == levels_bytes(rest)[j] by {
            assert(bytes[pos + (lb0 + j)] == all[lb0 + j]);
            assert(all[lb0 + j] == levels_bytes(rest)[j]);
        }
        assert(bytes.subrange(pos + lb0, pos + lb0 + levels_bytes(rest).len() as int) =~= levels_bytes(
            rest,
        ));
        lemma_levels_roundtrip(bytes, pos + lb0, rest);
        assert(seq![v0] + rest =~= vs);
    }
}

/// Serialising a partition and parsing the result gives the records back
/// exactly.
pub proof fn lemma_partition_roundtrip(vs: Seq<LevelView>)
    requires
        forall|i: int| 0 <= i < vs.len() ==> (#[trigger] vs[i]).wf(),
        vs.len() <= u64::MAX,
    ensures
        parse_partition(partition_bytes(vs)) == Some(vs),
{
    lemma_auto_spec_u64_to_from_le_bytes();
    let bytes = partition_bytes(vs);
    assert(bytes.subrange(0, 8) =~= spec_u64_to_le_bytes(vs.len() as u64));
    assert(spec_u64_from_le_bytes(bytes.subrange(0, 8)) == vs.len() as u64);
    assert(bytes.subrange(8, 8 + levels_bytes(vs).len() as int) =~= levels_bytes(vs));
    lemma_levels_roundtrip(bytes, 8, vs);
}

} // verus!
