//! Proof-of-work difficulty: a candidate hash satisfies difficulty `d` iff it
//! has at least `d` leading zero bits, scanning bytes most-significant first.
use vstd::prelude::*;

verus! {

/// True iff bit `i` (0 = least significant) of `b` is set. Meaningful for `i < 8`.
pub open spec fn bit_set(b: u8, i: u8) -> bool {
    b & (1u8 << i) != 0
}

/// Number of leading zero bits of `b` among bits `i` down to 0.
pub open spec fn lz_from(b: u8, i: int) -> nat
    decreases i + 1,
{
    if i < 0 {
        0
    } else if bit_set(b, i as u8) {
        0
    } else {
        1 + lz_from(b, i - 1)
    }
}

/// Number of leading zero bits of a byte string, scanning bytes
/// most-significant-bit first, stopping at the first set bit.
pub open spec fn lz_bytes(s: Seq<u8>) -> nat
    decreases s.len(),
{
    if s.len() == 0 {
        0
    } else if lz_from(s[0], 7) == 8 {
        8 + lz_bytes(s.drop_first())
    } else {
        lz_from(s[0], 7)
    }
}

/// If every bit of `b` strictly above `j` and at most `hi` is clear, the
/// leading-zero count from `hi` decomposes at `j`.
proof fn lemma_lz_from_split(b: u8, hi: int, j: int)
    requires
        -1 <= j <= hi <= 7,
        forall|m: u8| j < m <= hi ==> !bit_set(b, m),
    ensures
        lz_from(b, hi) == (hi - j) + lz_from(b, j),
    decreases hi - j,
{
    if j < hi {
        assert(!bit_set(b, hi as u8));
        lemma_lz_from_split(b, hi - 1, j);
    }
}

/// A zero byte contributes exactly 8 leading zero bits.
proof fn lemma_lz_from_zero_byte(b: u8)
    requires
        b == 0,
    ensures
        lz_from(b, 7) == 8,
{
    assert forall|m: u8| 0 < m <= 7 implies !bit_set(b, m) by {
        assert(0u8 & (1u8 << m) == 0) by (bit_vector);
    }
    assert(!bit_set(b, 0)) by {
        assert(0u8 & (1u8 << 0u8) == 0) by (bit_vector);
    }
    lemma_lz_from_split(b, 7, -1);
}

/// Leading zeros of a byte string whose first `k` bytes are each all zero
/// bits: 8 bits per such byte, plus the leading zeros of the remainder.
proof fn lemma_lz_bytes_zero_prefix(s: Seq<u8>, k: int)
    requires
        0 <= k <= s.len(),
        forall|m: int| 0 <= m < k ==> lz_from(#[trigger] s[m], 7) == 8,
    ensures
        lz_bytes(s) == 8 * k + lz_bytes(s.skip(k)),
    decreases k,
{
    if k == 0 {
        assert(s.skip(0) =~= s);
    } else {
        lemma_lz_bytes_zero_prefix(s, k - 1);
        assert(s.skip(k - 1).drop_first() =~= s.skip(k));
        assert(s.skip(k - 1)[0] == s[k - 1]);
    }
}

/// Returns whether `hash` has at least `difficulty` leading zero bits.
pub fn satisfies_difficulty(hash: &Vec<u8>, difficulty: u64) -> (r: bool)
    requires
        8 * hash@.len() <= u64::MAX,
    ensures
        r == (lz_bytes(hash@) >= difficulty),
{
    let mut counter: u64 = 0;
    let n = hash.len();
    let mut k: usize = 0;
    while k < n
        invariant
            0 <= k <= n,
            n == hash@.len(),
            8 * hash@.len() <= u64::MAX,
            counter == 8 * k,
            forall|m: int| 0 <= m < k ==> lz_from(#[trigger] hash@[m], 7) == 8,
        decreases n - k,
    {
        let byte = hash[k];
        let mut i: u8 = 8;
        while i > 0
            invariant
                0 <= i <= 8,
                byte == hash@[k as int],
                0 <= k < n,
                n == hash@.len(),
                8 * hash@.len() <= u64::MAX,
                counter == 8 * k + (8 - i),
                forall|m: int| 0 <= m < k ==> lz_from(#[trigger] hash@[m], 7) == 8,
                forall|m: u8| i <= m < 8 ==> !bit_set(byte, m),
            decreases i,
        {
            i = i - 1;
            if byte & (1u8 << i) == 0 {
                counter = counter + 1;
            } else {
                proof {
                    lemma_lz_bytes_zero_prefix(hash@, k as int);
                    assert(hash@.skip(k as int)[0] == byte);
                    lemma_lz_from_split(byte, 7, i as int);
                    assert(bit_set(byte, i));
                    assert(lz_from(byte, i as int) == 0);
                    assert(lz_bytes(hash@.skip(k as int)) == 7 - i);
                    assert(lz_bytes(hash@) == counter);
                }
                return counter >= difficulty;
            }
        }
        proof {
            lemma_lz_from_split(byte, 7, -1);
        }
        k = k + 1;
    }
    proof {
        lemma_lz_bytes_zero_prefix(hash@, n as int);
        assert(hash@.skip(n as int) =~= Seq::<u8>::empty());
    }
    counter >= difficulty
}

/// Law: an all-zero hash of at least `d` bits satisfies difficulty `d`; by
/// the exact postcondition of `satisfies_difficulty`, a hash with fewer than
/// `d` leading zero bits does not.
pub proof fn lemma_all_zero_satisfies(s: Seq<u8>, d: u64)
    requires
        forall|m: int| 0 <= m < s.len() ==> s[m] == 0,
        d <= 8 * s.len(),
    ensures
        lz_bytes(s) >= d,
{
    assert forall|m: int| 0 <= m < s.len() implies lz_from(#[trigger] s[m], 7) == 8 by {
        lemma_lz_from_zero_byte(s[m]);
    }
    lemma_lz_bytes_zero_prefix(s, s.len() as int);
    assert(s.skip(s.len() as int) =~= Seq::<u8>::empty());
}

} // verus!
