//! Nearest-neighbour selection over a partition's candidates.
//!
//! A query fingerprint is scored against every record of one difficulty
//! partition by a weighted Euclidean distance.  The distance arithmetic is
//! floating point and happens outside this crate; each candidate's score
//! arrives here as a sort key — the bit pattern of the (non-negative)
//! distance, whose unsigned order is the distance order.  This module does
//! the part that decides: the brute-force scan for the minimum, with the
//! first candidate winning ties, so that a fixed candidate ordering always
//! yields the same answer.

use vstd::prelude::*;

use crate::database::Partition;

verus! {

/// `i` indexes the first minimal key: no key is smaller, and everything
/// before `i` is strictly larger.
pub open spec fn is_first_min(keys: Seq<u32>, i: int) -> bool {
    &&& 0 <= i < keys.len()
    &&& forall|j: int| 0 <= j < keys.len() ==> keys[i] <= keys[j]
    &&& forall|j: int| 0 <= j < i ==> keys[j] > keys[i]
}

/// The first minimal key's index, if any.
pub open spec fn spec_best(keys: Seq<u32>) -> Option<int>
    decreases keys.len(),
{
    if keys.len() == 0 {
        None
    } else {
        match spec_best(keys.drop_first()) {
            None => Some(0),
            Some(i) => if keys[0] <= keys[i + 1] {
                Some(0)
            } else {
                Some(i + 1)
            },
        }
    }
}

/// `spec_best` finds exactly the first minimal key.
pub proof fn lemma_spec_best(keys: Seq<u32>)
    ensures
        match spec_best(keys) {
            None => keys.len() == 0,
            Some(i) => is_first_min(keys, i),
        },
    decreases keys.len(),
{
    if keys.len() > 0 {
        let rest = keys.drop_first();
        lemma_spec_best(rest);
        assert(forall|j: int| 0 <= j < rest.len() ==> rest[j] == keys[j + 1]);
        match spec_best(rest) {
            None => {
                assert(rest.len() == 0);
            },
            Some(i) => {
                if keys[0] <= keys[i + 1] {
                    assert forall|j: int| 0 <= j < keys.len() implies keys[0] <= #[trigger] keys[j] by {
                        if j > 0 {
                            assert(rest[i] <= rest[j - 1]);
                        }
                    }
                } else {
                    assert forall|j: int| 0 <= j < keys.len() implies keys[i + 1] <= #[trigger] keys[j] by {
                        if j > 0 {
                            assert(rest[i] <= rest[j - 1]);
                        }
                    }
                    assert forall|j: int| 0 <= j < i + 1 implies #[trigger] keys[j] > keys[i + 1] by {
                        if j > 0 {
                            assert(rest[j - 1] > rest[i]);
                        }
                    }
                }
            },
        }
    }
}

/// Law: the selection is a function of the keys alone — two runs over the
/// same candidate ordering pick the same index.
pub proof fn lemma_best_match_deterministic(keys: Seq<u32>, i1: int, i2: int)
    requires
        is_first_min(keys, i1),
        is_first_min(keys, i2),
    ensures
        i1 == i2,
{
    assert(keys[i1] <= keys[i2] && keys[i2] <= keys[i1]);
}

/// Index of the candidate with the smallest key; the earliest wins ties.
/// `None` exactly when there are no candidates.
pub fn best_match(keys: &Vec<u32>) -> (r: Option<usize>)
    ensures
        match r {
            None => keys@.len() == 0,
            Some(i) => is_first_min(keys@, i as int) && spec_best(keys@) == Some(i as int),
        },
{
    let n = keys.len();
    if n == 0 {
        return None;
    }
    let mut best: usize = 0;
    let mut best_key: u32 = keys[0];
    let mut i: usize = 1;
    while i < n
        invariant
            n == keys@.len(),
            1 <= i <= n,
            best < i,
            best_key == keys@[best as int],
            forall|j: int| 0 <= j < i ==> best_key <= keys@[j],
            forall|j: int| 0 <= j < best ==> keys@[j] > best_key,
        decreases n - i,
    {
        if keys[i] < best_key {
            best = i;
            best_key = keys[i];
        }
        i += 1;
    }
    proof {
        lemma_spec_best(keys@);
        lemma_best_match_deterministic(keys@, spec_best(keys@)->Some_0, best as int);
    }
    Some(best)
}

impl Partition {
    /// The best match among this partition's records: the record whose key
    /// is smallest, ties to the earliest record.  `keys` pairs with the
    /// records by index.  `None` exactly when the partition is empty.
    pub fn best_match_in(&self, keys: &Vec<u32>) -> (r: Option<(usize, u32)>)
        requires
            keys@.len() == self@.len(),
        ensures
            match r {
                None => self@.len() == 0,
                Some(pair) => {
                    &&& is_first_min(keys@, pair.0 as int)
                    &&& pair.1 == keys@[pair.0 as int]
                },
            },
    {
        match best_match(keys) {
            None => None,
            Some(i) => Some((i, keys[i])),
        }
    }
}

} // verus!
