//! Fixed-width big-endian integer encoding and small byte-string helpers used
//! by the header, transaction and address encoders.
use vstd::prelude::*;

verus! {

/// The 8-byte big-endian encoding of `x`.
pub open spec fn u64_be_spec(x: u64) -> Seq<u8> {
    seq![
        ((x >> 56) & 0xff) as u8,
        ((x >> 48) & 0xff) as u8,
        ((x >> 40) & 0xff) as u8,
        ((x >> 32) & 0xff) as u8,
        ((x >> 24) & 0xff) as u8,
        ((x >> 16) & 0xff) as u8,
        ((x >> 8) & 0xff) as u8,
        (x & 0xff) as u8,
    ]
}

/// The 4-byte big-endian encoding of `x`.
pub open spec fn u32_be_spec(x: u32) -> Seq<u8> {
    seq![
        ((x >> 24) & 0xff) as u8,
        ((x >> 16) & 0xff) as u8,
        ((x >> 8) & 0xff) as u8,
        (x & 0xff) as u8,
    ]
}

/// The u64 read back from an 8-byte big-endian encoding.
pub open spec fn u64_from_be_spec(s: Seq<u8>) -> u64
    recommends
        s.len() == 8,
{
    (((s[0] as u64) << 56) | ((s[1] as u64) << 48) | ((s[2] as u64) << 40) | ((s[3] as u64) << 32)
        | ((s[4] as u64) << 24) | ((s[5] as u64) << 16) | ((s[6] as u64) << 8) | (s[7] as u64)) as u64
}

/// The u32 read back from a 4-byte big-endian encoding.
pub open spec fn u32_from_be_spec(s: Seq<u8>) -> u32
    recommends
        s.len() == 4,
{
    (((s[0] as u32) << 24) | ((s[1] as u32) << 16) | ((s[2] as u32) << 8) | (s[3] as u32)) as u32
}

/// Appends the 8-byte big-endian encoding of `x` to `out`.
pub fn push_u64_be(out: &mut Vec<u8>, x: u64)
    ensures
        final(out)@ == old(out)@ + u64_be_spec(x),
{
    proof {
        assert((x >> 56) & 0xff < 256 && (x >> 48) & 0xff < 256 && (x >> 40) & 0xff < 256 && (x
            >> 32) & 0xff < 256 && (x >> 24) & 0xff < 256 && (x >> 16) & 0xff < 256 && (x >> 8)
            & 0xff < 256 && x & 0xff < 256) by (bit_vector);
    }
    out.push(((x >> 56) & 0xff) as u8);
    out.push(((x >> 48) & 0xff) as u8);
    out.push(((x >> 40) & 0xff) as u8);
    out.push(((x >> 32) & 0xff) as u8);
    out.push(((x >> 24) & 0xff) as u8);
    out.push(((x >> 16) & 0xff) as u8);
    out.push(((x >> 8) & 0xff) as u8);
    out.push((x & 0xff) as u8);
    proof {
        assert(out@ =~= old(out)@ + u64_be_spec(x));
    }
}

/// Appends the 4-byte big-endian encoding of `x` to `out`.
pub fn push_u32_be(out: &mut Vec<u8>, x: u32)
    ensures
        final(out)@ == old(out)@ + u32_be_spec(x),
{
    proof {
        assert((x >> 24) & 0xff < 256 && (x >> 16) & 0xff < 256 && (x >> 8) & 0xff < 256 && x & 0xff
            < 256) by (bit_vector);
    }
    out.push(((x >> 24) & 0xff) as u8);
    out.push(((x >> 16) & 0xff) as u8);
    out.push(((x >> 8) & 0xff) as u8);
    out.push((x & 0xff) as u8);
    proof {
        assert(out@ =~= old(out)@ + u32_be_spec(x));
    }
}

/// A byte string prefixed with its length as 8 big-endian bytes.
pub open spec fn len_prefixed_spec(s: Seq<u8>) -> Seq<u8> {
    u64_be_spec(s.len() as u64) + s
}

/// Appends the length-prefixed encoding of `field` to `out`.
pub fn push_len_prefixed(out: &mut Vec<u8>, field: &Vec<u8>)
    ensures
        final(out)@ == old(out)@ + len_prefixed_spec(field@),
{
    push_u64_be(out, field.len() as u64);
    push_bytes(out, field);
    proof {
        assert(out@ =~= old(out)@ + len_prefixed_spec(field@));
    }
}

/// Appends all of `src` to `out`.
pub fn push_bytes(out: &mut Vec<u8>, src: &Vec<u8>)
    ensures
        final(out)@ == old(out)@ + src@,
{
    out.extend_from_slice(src.as_slice());
    proof {
        assert(out@ =~= old(out)@ + src@);
    }
}

/// Decoding inverts encoding for u64.
pub proof fn lemma_u64_be_roundtrip(x: u64)
    ensures
        u64_from_be_spec(u64_be_spec(x)) == x,
{
    let b0 = ((x >> 56) & 0xff) as u8;
    let b1 = ((x >> 48) & 0xff) as u8;
    let b2 = ((x >> 40) & 0xff) as u8;
    let b3 = ((x >> 32) & 0xff) as u8;
    let b4 = ((x >> 24) & 0xff) as u8;
    let b5 = ((x >> 16) & 0xff) as u8;
    let b6 = ((x >> 8) & 0xff) as u8;
    let b7 = (x & 0xff) as u8;
    let y = ((b0 as u64) << 56) | ((b1 as u64) << 48) | ((b2 as u64) << 40) | ((b3 as u64) << 32)
        | ((b4 as u64) << 24) | ((b5 as u64) << 16) | ((b6 as u64) << 8) | (b7 as u64);
    assert(y == x) by (bit_vector)
        requires
            b0 == ((x >> 56) & 0xff) as u8,
            b1 == ((x >> 48) & 0xff) as u8,
            b2 == ((x >> 40) & 0xff) as u8,
            b3 == ((x >> 32) & 0xff) as u8,
            b4 == ((x >> 24) & 0xff) as u8,
            b5 == ((x >> 16) & 0xff) as u8,
            b6 == ((x >> 8) & 0xff) as u8,
            b7 == (x & 0xff) as u8,
            y == ((b0 as u64) << 56) | ((b1 as u64) << 48) | ((b2 as u64) << 40) | ((b3 as u64)
                << 32) | ((b4 as u64) << 24) | ((b5 as u64) << 16) | ((b6 as u64) << 8) | (
            b7 as u64),
    ;
    assert(u64_be_spec(x)[0] == b0 && u64_be_spec(x)[1] == b1 && u64_be_spec(x)[2] == b2
        && u64_be_spec(x)[3] == b3 && u64_be_spec(x)[4] == b4 && u64_be_spec(x)[5] == b5
        && u64_be_spec(x)[6] == b6 && u64_be_spec(x)[7] == b7);
}

/// The 8-byte big-endian encoding is injective.
pub proof fn lemma_u64_be_injective(a: u64, b: u64)
    requires
        u64_be_spec(a) == u64_be_spec(b),
    ensures
        a == b,
{
    lemma_u64_be_roundtrip(a);
    lemma_u64_be_roundtrip(b);
}

/// Decoding inverts encoding for u32.
pub proof fn lemma_u32_be_roundtrip(x: u32)
    ensures
        u32_from_be_spec(u32_be_spec(x)) == x,
{
    let b0 = ((x >> 24) & 0xff) as u8;
    let b1 = ((x >> 16) & 0xff) as u8;
    let b2 = ((x >> 8) & 0xff) as u8;
    let b3 = (x & 0xff) as u8;
    let y = ((b0 as u32) << 24) | ((b1 as u32) << 16) | ((b2 as u32) << 8) | (b3 as u32);
    assert(y == x) by (bit_vector)
        requires
            b0 == ((x >> 24) & 0xff) as u8,
            b1 == ((x >> 16) & 0xff) as u8,
            b2 == ((x >> 8) & 0xff) as u8,
            b3 == (x & 0xff) as u8,
            y == ((b0 as u32) << 24) | ((b1 as u32) << 16) | ((b2 as u32) << 8) | (b3 as u32),
    ;
    assert(u32_be_spec(x)[0] == b0 && u32_be_spec(x)[1] == b1 && u32_be_spec(x)[2] == b2
        && u32_be_spec(x)[3] == b3);
}

/// The 4-byte big-endian encoding is injective.
pub proof fn lemma_u32_be_injective(a: u32, b: u32)
    requires
        u32_be_spec(a) == u32_be_spec(b),
    ensures
        a == b,
{
    lemma_u32_be_roundtrip(a);
    lemma_u32_be_roundtrip(b);
}

/// Encoding inverts decoding on any 8 bytes.
pub proof fn lemma_u64_be_decode_encode(s: Seq<u8>)
    requires
        s.len() == 8,
    ensures
        u64_be_spec(u64_from_be_spec(s)) =~= s,
{
    let s0 = s[0];
    let s1 = s[1];
    let s2 = s[2];
    let s3 = s[3];
    let s4 = s[4];
    let s5 = s[5];
    let s6 = s[6];
    let s7 = s[7];
    let x = u64_from_be_spec(s);
    assert(((x >> 56) & 0xff) as u8 == s0 && ((x >> 48) & 0xff) as u8 == s1 && ((x >> 40)
        & 0xff) as u8 == s2 && ((x >> 32) & 0xff) as u8 == s3 && ((x >> 24) & 0xff) as u8 == s4 && (
    (x >> 16) & 0xff) as u8 == s5 && ((x >> 8) & 0xff) as u8 == s6 && (x & 0xff) as u8 == s7)
        by (bit_vector)
        requires
            x == (((s0 as u64) << 56) | ((s1 as u64) << 48) | ((s2 as u64) << 40) | ((s3 as u64)
                << 32) | ((s4 as u64) << 24) | ((s5 as u64) << 16) | ((s6 as u64) << 8) | (
            s7 as u64)) as u64,
    ;
}

/// Encoding inverts decoding on any 4 bytes.
pub proof fn lemma_u32_be_decode_encode(s: Seq<u8>)
    requires
        s.len() == 4,
    ensures
        u32_be_spec(u32_from_be_spec(s)) =~= s,
{
    let s0 = s[0];
    let s1 = s[1];
    let s2 = s[2];
    let s3 = s[3];
    let x = u32_from_be_spec(s);
    assert(((x >> 24) & 0xff) as u8 == s0 && ((x >> 16) & 0xff) as u8 == s1 && ((x >> 8)
        & 0xff) as u8 == s2 && (x & 0xff) as u8 == s3) by (bit_vector)
        requires
            x == (((s0 as u32) << 24) | ((s1 as u32) << 16) | ((s2 as u32) << 8) | (
            s3 as u32)) as u32,
    ;
}

/// Two length-prefixed fields starting at the same position are the same
/// field.
pub proof fn lemma_lp_unique(bytes: Seq<u8>, pos: int, w1: Seq<u8>, w2: Seq<u8>)
    requires
        0 <= pos,
        w1.len() <= usize::MAX,
        w2.len() <= usize::MAX,
        lp_starts_at(bytes, pos, w1),
        lp_starts_at(bytes, pos, w2),
    ensures
        w1 == w2,
{
    assert(bytes.subrange(pos, pos + 8) =~= bytes.subrange(pos, pos + 8 + w1.len()).subrange(
        0,
        8,
    ));
    assert(len_prefixed_spec(w1).subrange(0, 8) =~= u64_be_spec(w1.len() as u64));
    assert(bytes.subrange(pos, pos + 8) =~= bytes.subrange(pos, pos + 8 + w2.len()).subrange(
        0,
        8,
    ));
    assert(len_prefixed_spec(w2).subrange(0, 8) =~= u64_be_spec(w2.len() as u64));
    lemma_u64_be_injective(w1.len() as u64, w2.len() as u64);
    assert(w1.len() == w2.len());
    assert(w1 =~= len_prefixed_spec(w1).subrange(8, 8 + w1.len() as int));
    assert(w2 =~= len_prefixed_spec(w2).subrange(8, 8 + w2.len() as int));
    assert(w1 =~= w2);
}

/// Reads 8 bytes at `pos` as a big-endian u64, returning the value and the
/// position just past it; fails exactly when fewer than 8 bytes remain.
pub fn read_u64_be(bytes: &Vec<u8>, pos: usize) -> (r: Option<(u64, usize)>)
    ensures
        r matches Some((x, p)) ==> pos + 8 <= bytes@.len() && p == pos + 8 && u64_be_spec(x)
            == bytes@.subrange(pos as int, pos + 8),
        r is None ==> pos + 8 > bytes@.len(),
{
    if bytes.len() < 8 || pos > bytes.len() - 8 {
        return None;
    }
    let x: u64 = ((bytes[pos] as u64) << 56) | ((bytes[pos + 1] as u64) << 48) | ((bytes[pos
        + 2] as u64) << 40) | ((bytes[pos + 3] as u64) << 32) | ((bytes[pos + 4] as u64) << 24) | (
    (bytes[pos + 5] as u64) << 16) | ((bytes[pos + 6] as u64) << 8) | (bytes[pos + 7] as u64);
    proof {
        let s = bytes@.subrange(pos as int, pos + 8);
        assert(s[0] == bytes@[pos as int] && s[1] == bytes@[pos + 1] && s[2] == bytes@[pos + 2]
            && s[3] == bytes@[pos + 3] && s[4] == bytes@[pos + 4] && s[5] == bytes@[pos + 5] && s[6]
            == bytes@[pos + 6] && s[7] == bytes@[pos + 7]);
        assert(x == u64_from_be_spec(s));
        lemma_u64_be_decode_encode(s);
    }
    Some((x, pos + 8))
}

/// Reads 4 bytes at `pos` as a big-endian u32, returning the value and the
/// position just past it; fails exactly when fewer than 4 bytes remain.
pub fn read_u32_be(bytes: &Vec<u8>, pos: usize) -> (r: Option<(u32, usize)>)
    ensures
        r matches Some((x, p)) ==> pos + 4 <= bytes@.len() && p == pos + 4 && u32_be_spec(x)
            == bytes@.subrange(pos as int, pos + 4),
        r is None ==> pos + 4 > bytes@.len(),
{
    if bytes.len() < 4 || pos > bytes.len() - 4 {
        return None;
    }
    let x: u32 = ((bytes[pos] as u32) << 24) | ((bytes[pos + 1] as u32) << 16) | ((bytes[pos
        + 2] as u32) << 8) | (bytes[pos + 3] as u32);
    proof {
        let s = bytes@.subrange(pos as int, pos + 4);
        assert(s[0] == bytes@[pos as int] && s[1] == bytes@[pos + 1] && s[2] == bytes@[pos + 2]
            && s[3] == bytes@[pos + 3]);
        assert(x == u32_from_be_spec(s));
        lemma_u32_be_decode_encode(s);
    }
    Some((x, pos + 4))
}

/// Whether the length-prefixed encoding of `w` sits at `pos` in `bytes`.
pub open spec fn lp_starts_at(bytes: Seq<u8>, pos: int, w: Seq<u8>) -> bool {
    &&& pos + 8 + w.len() <= bytes.len()
    &&& bytes.subrange(pos, pos + 8 + w.len()) == len_prefixed_spec(w)
}

/// Reads one length-prefixed byte string at `pos`, returning the field bytes
/// and the position just past them. The read is exact: it succeeds on
/// precisely the byte strings that start with a length-prefixed field, and
/// that field and end position are unique.
pub fn read_len_prefixed(bytes: &Vec<u8>, pos: usize) -> (r: Option<(Vec<u8>, usize)>)
    ensures
        r matches Some((v, p)) ==> pos <= p <= bytes@.len() && bytes@.subrange(pos as int, p as int)
            == len_prefixed_spec(v@),
        r matches Some((v, p)) ==> forall|w: Seq<u8>|
            #[trigger] lp_starts_at(bytes@, pos as int, w) ==> w == v@ && p == pos + 8 + w.len(),
        r is None ==> forall|w: Seq<u8>| !#[trigger] lp_starts_at(bytes@, pos as int, w),
{
    let (x, p1) = match read_u64_be(bytes, pos) {
        Some(r) => r,
        None => {
            proof {
                assert forall|w: Seq<u8>| !#[trigger] lp_starts_at(bytes@, pos as int, w) by {}
            }
            return None;
        },
    };
    let blen = bytes.len();
    if x > (blen - p1) as u64 {
        proof {
            assert forall|w: Seq<u8>| !#[trigger] lp_starts_at(bytes@, pos as int, w) by {
                if lp_starts_at(bytes@, pos as int, w) {
                    lemma_len_prefix_pins_length(bytes@, pos as int, w, x);
                }
            }
        }
        return None;
    }
    let len = x as usize;
    let mut v: Vec<u8> = Vec::new();
    let mut i: usize = 0;
    while i < len
        invariant
            0 <= i <= len,
            p1 + len <= bytes@.len(),
            bytes@.len() <= usize::MAX,
            v@ =~= bytes@.subrange(p1 as int, p1 + i),
        decreases len - i,
    {
        v.push(bytes[p1 + i]);
        proof {
            assert(v@ =~= bytes@.subrange(p1 as int, p1 + i + 1));
        }
        i = i + 1;
    }
    proof {
        assert(v@.len() == len);
        assert(v@.len() as u64 == x);
        assert(bytes@.subrange(pos as int, (p1 + len) as int) =~= bytes@.subrange(
            pos as int,
            p1 as int,
        ) + bytes@.subrange(p1 as int, p1 + len));
        assert(bytes@.subrange(pos as int, (p1 + len) as int) =~= len_prefixed_spec(v@));
        assert forall|w: Seq<u8>| #[trigger] lp_starts_at(bytes@, pos as int, w) implies w == v@
            && p1 + len == pos + 8 + w.len() by {
            lemma_len_prefix_pins_length(bytes@, pos as int, w, x);
            assert(w.len() == len);
            assert(w =~= len_prefixed_spec(w).subrange(8, 8 + w.len() as int));
            assert(w =~= bytes@.subrange(p1 as int, p1 + len));
        }
    }
    Some((v, p1 + len))
}

/// If the bytes at `pos` start with the length-prefixed encoding of `w` and
/// the 8 bytes at `pos` encode `x`, then `x` is `w`'s length.
proof fn lemma_len_prefix_pins_length(bytes: Seq<u8>, pos: int, w: Seq<u8>, x: u64)
    requires
        0 <= pos,
        pos + 8 + w.len() <= bytes.len(),
        bytes.len() <= usize::MAX,
        bytes.subrange(pos, pos + 8 + w.len()) == len_prefixed_spec(w),
        u64_be_spec(x) == bytes.subrange(pos, pos + 8),
    ensures
        x == w.len(),
{
    assert(bytes.subrange(pos, pos + 8) =~= bytes.subrange(pos, pos + 8 + w.len()).subrange(0, 8));
    assert(len_prefixed_spec(w).subrange(0, 8) =~= u64_be_spec(w.len() as u64));
    lemma_u64_be_injective(x, w.len() as u64);
}

/// Byte-string equality.
pub fn bytes_eq(a: &Vec<u8>, b: &Vec<u8>) -> (r: bool)
    ensures
        r == (a@ == b@),
{
    if a.len() != b.len() {
        proof {
            assert(a@.len() != b@.len());
        }
        return false;
    }
    let n = a.len();
    let mut i: usize = 0;
    while i < n
        invariant
            0 <= i <= n,
            n == a@.len(),
            n == b@.len(),
            forall|m: int| 0 <= m < i ==> a@[m] == b@[m],
        decreases n - i,
    {
        if a[i] != b[i] {
            return false;
        }
        i = i + 1;
    }
    proof {
        assert(a@ =~= b@);
    }
    true
}

} // verus!
