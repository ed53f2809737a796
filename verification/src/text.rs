//! Byte-string utilities: comparison, case folding and mention parsing.
//!
//! Catalogue names and submitted guesses are byte strings (the persisted
//! format stores one byte per character), so comparison and normalisation
//! work on bytes.  Case folding is ASCII-only: `A` to `Z` map to `a` to `z`
//! and every other byte is left alone.

use vstd::prelude::*;

verus! {

/// Compare two byte strings for equality.
pub fn bytes_eq(a: &Vec<u8>, b: &Vec<u8>) -> (r: bool)
    ensures
        r <==> a@ == b@,
{
    if a.len() != b.len() {
        return false;
    }
    let mut i: usize = 0;
    while i < a.len()
        invariant
            i <= a@.len(),
            a@.len() == b@.len(),
            forall|j: int| 0 <= j < i ==> a@[j] == b@[j],
        decreases a@.len() - i,
    {
        if a[i] != b[i] {
            return false;
        }
        i += 1;
    }
    proof {
        assert(a@ =~= b@);
    }
    true
}

/// ASCII case folding of one byte.
pub open spec fn spec_lower_byte(b: u8) -> u8 {
    if 65 <= b <= 90 {
        (b + 32) as u8
    } else {
        b
    }
}

/// ASCII case folding of a byte string.
pub open spec fn spec_lower(s: Seq<u8>) -> Seq<u8> {
    s.map_values(|b: u8| spec_lower_byte(b))
}

/// Fold a byte string to ASCII lower case.
pub fn ascii_lowercase(s: &Vec<u8>) -> (r: Vec<u8>)
    ensures
        r@ == spec_lower(s@),
{
    let mut r: Vec<u8> = Vec::new();
    let mut i: usize = 0;
    while i < s.len()
        invariant
            i <= s@.len(),
            r@.len() == i,
            forall|j: int| 0 <= j < i ==> r@[j] == spec_lower_byte(s@[j]),
        decreases s@.len() - i,
    {
        let b = s[i];
        if 65 <= b && b <= 90 {
            r.push(b + 32);
        } else {
            r.push(b);
        }
        i += 1;
    }
    proof {
        assert(r@ =~= spec_lower(s@));
    }
    r
}

// ---------------------------------------------------------------------------
// Mentions.  A resolution message credits its winner with a marker of the
// form `<@123456>` or `<@!123456>`: the winner's numeric identifier between
// an `<@` (with an optional `!`) and a `>`.  The first such marker in the
// text names the winner.
// ---------------------------------------------------------------------------

pub open spec fn is_digit(b: u8) -> bool {
    48 <= b <= 57
}

/// First index at or after `j` holding a non-digit, or the end of `s`.
pub open spec fn digits_end(s: Seq<u8>, j: int) -> int
    decreases s.len() - j,
{
    if j < 0 || j >= s.len() || !is_digit(s[j]) {
        j
    } else {
        digits_end(s, j + 1)
    }
}

/// Value of the decimal digits `s[j..k]`.
pub open spec fn digits_value(s: Seq<u8>, j: int, k: int) -> int
    decreases k - j,
{
    if j >= k {
        0
    } else {
        digits_value(s, j, k - 1) * 10 + (s[k - 1] - 48)
    }
}

/// Index of the first digit of a mention whose marker starts at `i`.
pub open spec fn mention_digits_start(s: Seq<u8>, i: int) -> int {
    if s[i + 2] == 33 {
        i + 3
    } else {
        i + 2
    }
}

/// A mention marker starts at `i`: `<@`, an optional `!`, one or more
/// digits, then `>`.
pub open spec fn mention_at(s: Seq<u8>, i: int) -> bool {
    &&& 0 <= i
    &&& i + 2 < s.len()
    &&& s[i] == 60
    &&& s[i + 1] == 64
    &&& {
        let j = mention_digits_start(s, i);
        let k = digits_end(s, j);
        &&& k > j
        &&& k < s.len()
        &&& s[k] == 62
    }
}

/// Value of the mention starting at `i`.
pub open spec fn mention_value(s: Seq<u8>, i: int) -> int {
    let j = mention_digits_start(s, i);
    digits_value(s, j, digits_end(s, j))
}

/// Start of the leftmost mention at or after `from`, if any.
pub open spec fn first_mention_from(s: Seq<u8>, from: int) -> Option<int>
    decreases s.len() - from,
{
    if from >= s.len() {
        None
    } else if mention_at(s, from) {
        Some(from)
    } else {
        first_mention_from(s, from + 1)
    }
}

/// Start of the leftmost mention in `s`, if any.
pub open spec fn first_mention(s: Seq<u8>) -> Option<int> {
    first_mention_from(s, 0)
}

/// Find the winner's identifier: the value of the leftmost mention marker.
/// Returns `None` when the text holds no marker, and also when the marked
/// number does not fit in 64 bits.
pub fn extract_mention(s: &Vec<u8>) -> (r: Option<u64>)
    ensures
        match r {
            Some(v) => {
                &&& first_mention(s@) is Some
                &&& v == mention_value(s@, first_mention(s@)->Some_0)
            },
            None => first_mention(s@) is None || mention_value(
                s@,
                first_mention(s@)->Some_0,
            ) > u64::MAX,
        },
{
    let n = s.len();
    let mut i: usize = 0;
    while i < n
        invariant
            n == s@.len(),
            i <= n,
            first_mention(s@) == first_mention_from(s@, i as int),
        decreases n - i,
    {
        proof {
            lemma_first_mention_step(s@, i as int);
        }
        if try_mention_at(s, i) {
            return read_mention_value(s, i);
        }
        i += 1;
    }
    None
}

/// Does a mention marker start at `i`?
fn try_mention_at(s: &Vec<u8>, i: usize) -> (r: bool)
    requires
        i < s@.len(),
    ensures
        r == mention_at(s@, i as int),
{
    let n = s.len();
    if n - i <= 2 {
        return false;
    }
    if s[i] != 60 || s[i + 1] != 64 {
        return false;
    }
    let j = if s[i + 2] == 33 {
        i + 3
    } else {
        i + 2
    };
    let k = scan_digits(s, j);
    j < k && k < n && s[k] == 62
}

/// First index at or after `j` holding a non-digit, or the end of `s`.
fn scan_digits(s: &Vec<u8>, j: usize) -> (k: usize)
    requires
        j <= s@.len(),
    ensures
        k == digits_end(s@, j as int),
        j <= k <= s@.len(),
        forall|t: int| j <= t < k ==> is_digit(s@[t]),
{
    let n = s.len();
    let mut k = j;
    while k < n && 48 <= s[k] && s[k] <= 57
        invariant
            n == s@.len(),
            j <= k <= n,
            digits_end(s@, j as int) == digits_end(s@, k as int),
            forall|t: int| j <= t < k ==> is_digit(s@[t]),
        decreases n - k,
    {
        k += 1;
    }
    k
}

/// Parse the digits of the mention at `i` into a 64-bit value; `None` when
/// the number is too large.
fn read_mention_value(s: &Vec<u8>, i: usize) -> (r: Option<u64>)
    requires
        mention_at(s@, i as int),
    ensures
        match r {
            Some(v) => v == mention_value(s@, i as int),
            None => mention_value(s@, i as int) > u64::MAX,
        },
{
    let n = s.len();
    proof {
        assert(n == s@.len());
    }
    let j = if s[i + 2] == 33 {
        i + 3
    } else {
        i + 2
    };
    proof {
        assert(j as int == mention_digits_start(s@, i as int));
    }
    let k = scan_digits(s, j);
    proof {
        lemma_digits_value_nonneg(s@, j as int, k as int);
    }
    let mut acc: u64 = 0;
    let mut t = j;
    while t < k
        invariant
            j <= t <= k,
            k <= s@.len(),
            mention_at(s@, i as int),
            j as int == mention_digits_start(s@, i as int),
            k as int == digits_end(s@, j as int),
            forall|u: int| j <= u < k ==> is_digit(s@[u]),
            acc == digits_value(s@, j as int, t as int),
        decreases k - t,
    {
        let d = s[t];
        proof {
            lemma_digits_value_nonneg(s@, j as int, t as int);
            vstd::arithmetic::div_mod::lemma_fundamental_div_mod(
                u64::MAX - (d - 48),
                10,
            );
        }
        if acc > (u64::MAX - (d - 48) as u64) / 10 {
            proof {
                assert(acc * 10 + (d - 48) > u64::MAX);
                assert(digits_value(s@, j as int, t + 1) == acc * 10 + (d - 48));
                lemma_digits_value_monotonic(s@, j as int, t + 1, k as int);
                assert(mention_value(s@, i as int) == digits_value(s@, j as int, k as int));
            }
            return None;
        }
        proof {
            assert(acc * 10 + (d - 48) <= u64::MAX);
        }
        acc = acc * 10 + (d - 48) as u64;
        t += 1;
    }
    Some(acc)
}

proof fn lemma_first_mention_step(s: Seq<u8>, i: int)
    requires
        0 <= i < s.len(),
    ensures
        !mention_at(s, i) ==> first_mention_from(s, i) == first_mention_from(s, i + 1),
        mention_at(s, i) ==> first_mention_from(s, i) == Some(i),
{
}

proof fn lemma_digits_value_nonneg(s: Seq<u8>, j: int, k: int)
    requires
        forall|t: int| j <= t < k ==> is_digit(s[t]),
        0 <= j,
        k <= s.len(),
    ensures
        digits_value(s, j, k) >= 0,
    decreases k - j,
{
    if j < k {
        lemma_digits_value_nonneg(s, j, k - 1);
    }
}

/// With more digits the value only grows.
proof fn lemma_digits_value_monotonic(s: Seq<u8>, j: int, m: int, k: int)
    requires
        forall|t: int| j <= t < k ==> is_digit(s[t]),
        0 <= j <= m <= k,
        k <= s.len(),
    ensures
        digits_value(s, j, k) >= digits_value(s, j, m),
    decreases k - m,
{
    if m < k {
        lemma_digits_value_monotonic(s, j, m, k - 1);
        lemma_digits_value_nonneg(s, j, k - 1);
    }
}

} // verus!
