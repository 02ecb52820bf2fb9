//! Merkle-root aggregation: hashes are paired and re-hashed round by round,
//! duplicating the last hash of any odd-length round, until one root remains.
//! An empty input yields a root of 32 zero bytes.
use crate::crypto::{sha256, sha256_of};
use crate::encoding::push_bytes;
use crate::tx::{tx_hash_spec, Transaction};
use vstd::prelude::*;

verus! {

/// The root of an empty hash sequence: 32 zero bytes.
pub open spec fn zero_root_spec() -> Seq<u8> {
    Seq::new(32, |i: int| 0u8)
}

/// Duplicates the last hash when the count is odd.
pub open spec fn pad_even_spec(hs: Seq<Seq<u8>>) -> Seq<Seq<u8>> {
    if hs.len() % 2 == 1 {
        hs.push(hs.last())
    } else {
        hs
    }
}

/// One pairing round over an even-length sequence: the hash of the
/// concatenation of each adjacent pair.
pub open spec fn pair_round_spec(hs: Seq<Seq<u8>>) -> Seq<Seq<u8>> {
    Seq::new((hs.len() / 2) as nat, |i: int| sha256_of(hs[2 * i] + hs[2 * i + 1]))
}

/// The merkle root of an ordered sequence of hashes.
pub open spec fn merkle_root_spec(hs: Seq<Seq<u8>>) -> Seq<u8>
    decreases hs.len(),
{
    if hs.len() == 0 {
        zero_root_spec()
    } else if hs.len() == 1 {
        hs[0]
    } else {
        merkle_root_spec(pair_round_spec(pad_even_spec(hs)))
    }
}

/// Law: the merkle root is a function of the ordered hash sequence alone, so
/// recomputing it over the same hashes always yields the same root.
pub proof fn lemma_merkle_root_deterministic(a: Seq<Seq<u8>>, b: Seq<Seq<u8>>)
    requires
        a == b,
    ensures
        merkle_root_spec(a) == merkle_root_spec(b),
{
}

/// Law: an odd-length sequence of two or more hashes has the same root as the
/// sequence with its last hash duplicated.
pub proof fn lemma_merkle_root_odd_duplicates_last(hs: Seq<Seq<u8>>)
    requires
        hs.len() >= 2,
        hs.len() % 2 == 1,
    ensures
        merkle_root_spec(hs) == merkle_root_spec(hs.push(hs.last())),
{
    let padded = hs.push(hs.last());
    assert(padded.len() % 2 == 0);
    assert(pad_even_spec(padded) == padded);
}

/// Computes the merkle root of an ordered sequence of hashes.
pub fn merkle_root_of_hashes(hashes: Vec<Vec<u8>>) -> (r: Vec<u8>)
    ensures
        r@ == merkle_root_spec(hashes.deep_view()),
{
    let ghost orig = hashes.deep_view();
    let mut hs = hashes;
    if hs.len() == 0 {
        let mut r: Vec<u8> = Vec::new();
        let mut i: usize = 0;
        while i < 32
            invariant
                r@.len() == i,
                0 <= i <= 32,
                forall|m: int| 0 <= m < i ==> r@[m] == 0u8,
            decreases 32 - i,
        {
            r.push(0u8);
            i = i + 1;
        }
        proof {
            assert(r@ =~= zero_root_spec());
        }
        return r;
    }
    while hs.len() > 1
        invariant
            hs.deep_view().len() >= 1,
            merkle_root_spec(hs.deep_view()) == merkle_root_spec(orig),
        decreases hs@.len(),
    {
        let ghost pre = hs.deep_view();
        if hs.len() % 2 == 1 {
            let last = hs[hs.len() - 1].clone();
            hs.push(last);
        }
        proof {
            assert(hs.deep_view() =~= pad_even_spec(pre));
        }
        let ghost padded = hs.deep_view();
        let mut next: Vec<Vec<u8>> = Vec::new();
        let mut i: usize = 0;
        while i + 1 < hs.len()
            invariant
                hs.deep_view() == padded,
                padded.len() % 2 == 0,
                padded.len() >= 2,
                i % 2 == 0,
                0 <= i <= hs@.len(),
                next.deep_view().len() == i / 2,
                forall|j: int| 0 <= j < i / 2 ==> next.deep_view()[j] == sha256_of(
                    #[trigger] padded[2 * j] + padded[2 * j + 1],
                ),
            decreases hs@.len() - i,
        {
            let mut buf: Vec<u8> = Vec::new();
            push_bytes(&mut buf, &hs[i]);
            push_bytes(&mut buf, &hs[i + 1]);
            proof {
                assert(buf@ == padded[i as int] + padded[i + 1]);
            }
            let h = sha256(&buf);
            next.push(h);
            i = i + 2;
        }
        proof {
            assert(next.deep_view() =~= pair_round_spec(padded));
        }
        hs = next;
    }
    proof {
        assert(merkle_root_spec(hs.deep_view()) == hs.deep_view()[0]);
    }
    let r = hs.remove(0);
    proof {
        assert(r@ == merkle_root_spec(orig));
    }
    r
}

/// The hashes of an ordered transaction sequence, in order.
pub open spec fn tx_hashes_spec(ts: Seq<Transaction>) -> Seq<Seq<u8>> {
    ts.map_values(|t: Transaction| tx_hash_spec(t))
}

/// Computes the merkle root over the hashes of the given transactions.
pub fn calculate_merkle_root(transactions: &Vec<Transaction>) -> (r: Vec<u8>)
    ensures
        r@ == merkle_root_spec(tx_hashes_spec(transactions@)),
{
    let n = transactions.len();
    let mut hashes: Vec<Vec<u8>> = Vec::new();
    let mut i: usize = 0;
    while i < n
        invariant
            0 <= i <= n,
            n == transactions@.len(),
            hashes@.len() == i,
            hashes.deep_view() =~= tx_hashes_spec(transactions@.take(i as int)),
        decreases n - i,
    {
        let h = transactions[i].hash();
        let ghost hv = h@;
        let ghost old_hs = hashes@;
        let ghost dpre = hashes.deep_view();
        hashes.push(h);
        proof {
            let pre = transactions@.take(i as int);
            let post = transactions@.take(i + 1);
            assert(hashes@ == old_hs.push(h));
            assert forall|j: int| 0 <= j < post.len() implies hashes.deep_view()[j]
                == tx_hashes_spec(post)[j] by {
                assert(tx_hashes_spec(post)[j] == tx_hash_spec(post[j]));
                assert(post[j] == transactions@[j]);
                assert(hashes.deep_view()[j] == hashes@[j].deep_view());
                if j < i {
                    assert(hashes@[j] == old_hs[j]);
                    assert(old_hs[j].deep_view() == dpre[j]);
                    assert(dpre[j] == tx_hashes_spec(pre)[j]);
                    assert(tx_hashes_spec(pre)[j] == tx_hash_spec(pre[j]));
                } else {
                    assert(hashes@[j]@ == hv);
                    assert(hashes@[j].deep_view() =~= hashes@[j]@);
                }
            }
            assert(hashes.deep_view() =~= tx_hashes_spec(post));
        }
        i = i + 1;
    }
    proof {
        assert(transactions@.take(n as int) =~= transactions@);
    }
    merkle_root_of_hashes(hashes)
}

} // verus!
