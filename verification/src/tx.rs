//! UTXO transactions: inputs referencing prior outputs, outputs naming
//! recipients, and a canonical length-prefixed binary encoding. The
//! transaction hash is the SHA-256 digest of the full encoding (signatures
//! included); the content signed per input is that input's encoding with its
//! signature field cleared.
use crate::crypto::{sha256, sha256_of};
use crate::encoding::{
    len_prefixed_spec, lp_starts_at, push_bytes, push_len_prefixed, push_u32_be, u32_be_spec,
    u64_be_spec,
};
use vstd::prelude::*;

verus! {

/// A reference to one prior unspent output, with the spender's address,
/// public key and signature.
#[derive(Clone, Debug)]
pub struct UtxoInput {
    pub from_addr: Vec<u8>,
    pub public_key: Vec<u8>,
    pub prev_tx_hash: Vec<u8>,
    pub output_index: u32,
    pub signature: Vec<u8>,
}

/// A spendable value record addressed to a recipient.
#[derive(Clone, Debug)]
pub struct UtxoOutput {
    pub to_addr: Vec<u8>,
    pub amount: u32,
}

/// A transfer: a sequence of inputs consumed and a sequence of outputs
/// created.
#[derive(Clone, Debug)]
pub struct Transaction {
    pub inputs: Vec<UtxoInput>,
    pub outputs: Vec<UtxoOutput>,
}

/// The canonical encoding of one input, signature included.
pub open spec fn input_enc_spec(i: UtxoInput) -> Seq<u8> {
    len_prefixed_spec(i.from_addr@) + len_prefixed_spec(i.public_key@) + len_prefixed_spec(
        i.prev_tx_hash@,
    ) + u32_be_spec(i.output_index) + len_prefixed_spec(i.signature@)
}

/// The content an input is signed over: its encoding with the signature
/// field cleared.
pub open spec fn input_hashable_spec(i: UtxoInput) -> Seq<u8> {
    len_prefixed_spec(i.from_addr@) + len_prefixed_spec(i.public_key@) + len_prefixed_spec(
        i.prev_tx_hash@,
    ) + u32_be_spec(i.output_index) + len_prefixed_spec(Seq::<u8>::empty())
}

/// The canonical encoding of one output.
pub open spec fn output_enc_spec(o: UtxoOutput) -> Seq<u8> {
    len_prefixed_spec(o.to_addr@) + u32_be_spec(o.amount)
}

/// The concatenated encodings of a sequence of inputs.
pub open spec fn inputs_enc_spec(s: Seq<UtxoInput>) -> Seq<u8>
    decreases s.len(),
{
    if s.len() == 0 {
        Seq::<u8>::empty()
    } else {
        inputs_enc_spec(s.drop_last()) + input_enc_spec(s.last())
    }
}

/// The concatenated signature-cleared encodings of a sequence of inputs.
pub open spec fn inputs_hashable_spec(s: Seq<UtxoInput>) -> Seq<u8>
    decreases s.len(),
{
    if s.len() == 0 {
        Seq::<u8>::empty()
    } else {
        inputs_hashable_spec(s.drop_last()) + input_hashable_spec(s.last())
    }
}

/// The concatenated encodings of a sequence of outputs.
pub open spec fn outputs_enc_spec(s: Seq<UtxoOutput>) -> Seq<u8>
    decreases s.len(),
{
    if s.len() == 0 {
        Seq::<u8>::empty()
    } else {
        outputs_enc_spec(s.drop_last()) + output_enc_spec(s.last())
    }
}

/// The canonical encoding of a whole transaction: input count, inputs,
/// output count, outputs.
pub open spec fn tx_enc_spec(t: Transaction) -> Seq<u8> {
    u64_be_spec(t.inputs@.len() as u64) + inputs_enc_spec(t.inputs@) + u64_be_spec(
        t.outputs@.len() as u64,
    ) + outputs_enc_spec(t.outputs@)
}

/// The content of a whole transaction with every signature cleared.
pub open spec fn tx_hashable_spec(t: Transaction) -> Seq<u8> {
    inputs_hashable_spec(t.inputs@) + outputs_enc_spec(t.outputs@)
}

/// The transaction hash: the digest of the full canonical encoding.
pub open spec fn tx_hash_spec(t: Transaction) -> Seq<u8> {
    sha256_of(tx_enc_spec(t))
}

impl UtxoInput {
    /// Replaces the signature, leaving every other field unchanged.
    pub fn set_signature(&mut self, signature: Vec<u8>)
        ensures
            final(self).from_addr == old(self).from_addr,
            final(self).public_key == old(self).public_key,
            final(self).prev_tx_hash == old(self).prev_tx_hash,
            final(self).output_index == old(self).output_index,
            final(self).signature == signature,
    {
        self.signature = signature;
    }

    /// The canonical encoding of this input, signature included.
    pub(crate) fn encode(&self) -> (r: Vec<u8>)
        ensures
            r@ == input_enc_spec(*self),
    {
        let mut out: Vec<u8> = Vec::new();
        push_len_prefixed(&mut out, &self.from_addr);
        push_len_prefixed(&mut out, &self.public_key);
        push_len_prefixed(&mut out, &self.prev_tx_hash);
        push_u32_be(&mut out, self.output_index);
        push_len_prefixed(&mut out, &self.signature);
        proof {
            assert(out@ =~= input_enc_spec(*self));
        }
        out
    }

    /// The content this input is signed over: its encoding with the
    /// signature field cleared.
    pub fn hashable_content(&self) -> (r: Vec<u8>)
        ensures
            r@ == input_hashable_spec(*self),
    {
        let empty: Vec<u8> = Vec::new();
        let mut out: Vec<u8> = Vec::new();
        push_len_prefixed(&mut out, &self.from_addr);
        push_len_prefixed(&mut out, &self.public_key);
        push_len_prefixed(&mut out, &self.prev_tx_hash);
        push_u32_be(&mut out, self.output_index);
        push_len_prefixed(&mut out, &empty);
        proof {
            assert(out@ =~= input_hashable_spec(*self));
        }
        out
    }
}

impl UtxoOutput {
    /// The canonical encoding of this output, which is also the content it
    /// contributes to signatures.
    pub fn hashable_content(&self) -> (r: Vec<u8>)
        ensures
            r@ == output_enc_spec(*self),
    {
        let mut out: Vec<u8> = Vec::new();
        push_len_prefixed(&mut out, &self.to_addr);
        push_u32_be(&mut out, self.amount);
        proof {
            assert(out@ =~= output_enc_spec(*self));
        }
        out
    }
}

impl Default for Transaction {
    /// An empty transaction: no inputs, no outputs.
    fn default() -> (r: Transaction)
        ensures
            r.inputs@.len() == 0,
            r.outputs@.len() == 0,
    {
        Transaction { inputs: Vec::new(), outputs: Vec::new() }
    }
}

impl Transaction {
    /// Replaces the signature of every input, leaving all other content
    /// unchanged.
    pub fn set_signature(&mut self, signature: Vec<u8>)
        ensures
            final(self).outputs == old(self).outputs,
            final(self).inputs@.len() == old(self).inputs@.len(),
            forall|i: int|
                0 <= i < old(self).inputs@.len() ==> {
                    &&& (#[trigger] final(self).inputs@[i]).from_addr@ == old(
                        self,
                    ).inputs@[i].from_addr@
                    &&& final(self).inputs@[i].public_key@ == old(self).inputs@[i].public_key@
                    &&& final(self).inputs@[i].prev_tx_hash@ == old(self).inputs@[i].prev_tx_hash@
                    &&& final(self).inputs@[i].output_index == old(self).inputs@[i].output_index
                    &&& final(self).inputs@[i].signature@ == signature@
                },
    {
        let n = self.inputs.len();
        let mut updated: Vec<UtxoInput> = Vec::new();
        let mut k: usize = 0;
        while k < n
            invariant
                0 <= k <= n,
                n == self.inputs@.len(),
                updated@.len() == k,
                forall|i: int|
                    0 <= i < k ==> {
                        &&& (#[trigger] updated@[i]).from_addr@ == self.inputs@[i].from_addr@
                        &&& updated@[i].public_key@ == self.inputs@[i].public_key@
                        &&& updated@[i].prev_tx_hash@ == self.inputs@[i].prev_tx_hash@
                        &&& updated@[i].output_index == self.inputs@[i].output_index
                        &&& updated@[i].signature@ == signature@
                    },
            decreases n - k,
        {
            let inp = &self.inputs[k];
            updated.push(
                UtxoInput {
                    from_addr: inp.from_addr.clone(),
                    public_key: inp.public_key.clone(),
                    prev_tx_hash: inp.prev_tx_hash.clone(),
                    output_index: inp.output_index,
                    signature: signature.clone(),
                },
            );
            k = k + 1;
        }
        self.inputs = updated;
    }

    /// The canonical encoding of the whole transaction, signatures included.
    pub fn to_bytes(&self) -> (r: Vec<u8>)
        ensures
            r@ == tx_enc_spec(*self),
    {
        let mut out: Vec<u8> = Vec::new();
        crate::encoding::push_u64_be(&mut out, self.inputs.len() as u64);
        let n = self.inputs.len();
        let mut k: usize = 0;
        while k < n
            invariant
                0 <= k <= n,
                n == self.inputs@.len(),
                out@ == u64_be_spec(self.inputs@.len() as u64) + inputs_enc_spec(
                    self.inputs@.take(k as int),
                ),
            decreases n - k,
        {
            let enc = self.inputs[k].encode();
            push_bytes(&mut out, &enc);
            proof {
                assert(self.inputs@.take(k + 1).drop_last() =~= self.inputs@.take(k as int));
                assert(self.inputs@.take(k + 1).last() == self.inputs@[k as int]);
            }
            k = k + 1;
        }
        proof {
            assert(self.inputs@.take(n as int) =~= self.inputs@);
        }
        crate::encoding::push_u64_be(&mut out, self.outputs.len() as u64);
        let m = self.outputs.len();
        let ghost head = u64_be_spec(self.inputs@.len() as u64) + inputs_enc_spec(self.inputs@)
            + u64_be_spec(self.outputs@.len() as u64);
        let mut k2: usize = 0;
        while k2 < m
            invariant
                0 <= k2 <= m,
                m == self.outputs@.len(),
                out@ == head + outputs_enc_spec(self.outputs@.take(k2 as int)),
            decreases m - k2,
        {
            let enc = self.outputs[k2].hashable_content();
            push_bytes(&mut out, &enc);
            proof {
                assert(self.outputs@.take(k2 + 1).drop_last() =~= self.outputs@.take(k2 as int));
                assert(self.outputs@.take(k2 + 1).last() == self.outputs@[k2 as int]);
            }
            k2 = k2 + 1;
        }
        proof {
            assert(self.outputs@.take(m as int) =~= self.outputs@);
            assert(out@ =~= tx_enc_spec(*self));
        }
        out
    }

    /// The content of the transaction with every signature cleared: each
    /// input's signed content followed by each output's encoding.
    pub fn hashable_content(&self) -> (r: Vec<u8>)
        ensures
            r@ == tx_hashable_spec(*self),
    {
        let mut out: Vec<u8> = Vec::new();
        let n = self.inputs.len();
        let mut k: usize = 0;
        while k < n
            invariant
                0 <= k <= n,
                n == self.inputs@.len(),
                out@ == inputs_hashable_spec(self.inputs@.take(k as int)),
            decreases n - k,
        {
            let enc = self.inputs[k].hashable_content();
            push_bytes(&mut out, &enc);
            proof {
                assert(self.inputs@.take(k + 1).drop_last() =~= self.inputs@.take(k as int));
                assert(self.inputs@.take(k + 1).last() == self.inputs@[k as int]);
            }
            k = k + 1;
        }
        proof {
            assert(self.inputs@.take(n as int) =~= self.inputs@);
        }
        let ghost head = inputs_hashable_spec(self.inputs@);
        let m = self.outputs.len();
        let mut k2: usize = 0;
        while k2 < m
            invariant
                0 <= k2 <= m,
                m == self.outputs@.len(),
                out@ == head + outputs_enc_spec(self.outputs@.take(k2 as int)),
            decreases m - k2,
        {
            let enc = self.outputs[k2].hashable_content();
            push_bytes(&mut out, &enc);
            proof {
                assert(self.outputs@.take(k2 + 1).drop_last() =~= self.outputs@.take(k2 as int));
                assert(self.outputs@.take(k2 + 1).last() == self.outputs@[k2 as int]);
            }
            k2 = k2 + 1;
        }
        proof {
            assert(self.outputs@.take(m as int) =~= self.outputs@);
            assert(out@ =~= tx_hashable_spec(*self));
        }
        out
    }

    /// The transaction hash: the SHA-256 digest of the full canonical
    /// encoding, signatures included.
    pub fn hash(&self) -> (r: Vec<u8>)
        ensures
            r@ == tx_hash_spec(*self),
            r@.len() == 32,
    {
        let bytes = self.to_bytes();
        sha256(&bytes)
    }
}

/// The reason a byte string was rejected as a transaction encoding.
#[derive(Debug, Clone, Copy, PartialEq, Eq, Structural)]
pub enum DecodeError {
    Malformed,
}

/// Concatenating input lists concatenates their encodings.
proof fn lemma_inputs_enc_add(a: Seq<UtxoInput>, b: Seq<UtxoInput>)
    ensures
        inputs_enc_spec(a + b) == inputs_enc_spec(a) + inputs_enc_spec(b),
    decreases b.len(),
{
    if b.len() == 0 {
        assert(a + b =~= a);
        assert(inputs_enc_spec(a) + inputs_enc_spec(b) =~= inputs_enc_spec(a));
    } else {
        assert((a + b).drop_last() =~= a + b.drop_last());
        assert((a + b).last() == b.last());
        lemma_inputs_enc_add(a, b.drop_last());
        assert(inputs_enc_spec(a) + inputs_enc_spec(b) =~= inputs_enc_spec(a) + inputs_enc_spec(
            b.drop_last(),
        ) + input_enc_spec(b.last()));
    }
}

/// Concatenating output lists concatenates their encodings.
proof fn lemma_outputs_enc_add(a: Seq<UtxoOutput>, b: Seq<UtxoOutput>)
    ensures
        outputs_enc_spec(a + b) == outputs_enc_spec(a) + outputs_enc_spec(b),
    decreases b.len(),
{
    if b.len() == 0 {
        assert(a + b =~= a);
        assert(outputs_enc_spec(a) + outputs_enc_spec(b) =~= outputs_enc_spec(a));
    } else {
        assert((a + b).drop_last() =~= a + b.drop_last());
        assert((a + b).last() == b.last());
        lemma_outputs_enc_add(a, b.drop_last());
        assert(outputs_enc_spec(a) + outputs_enc_spec(b) =~= outputs_enc_spec(a)
            + outputs_enc_spec(b.drop_last()) + output_enc_spec(b.last()));
    }
}

/// One element's encoding.
proof fn lemma_inputs_enc_single(x: UtxoInput)
    ensures
        inputs_enc_spec(seq![x]) == input_enc_spec(x),
{
    reveal_with_fuel(inputs_enc_spec, 2);
    assert(seq![x].drop_last() =~= Seq::<UtxoInput>::empty());
    assert(seq![x].last() == x);
    assert(inputs_enc_spec(seq![x]) =~= input_enc_spec(x));
}

/// One element's encoding.
proof fn lemma_outputs_enc_single(x: UtxoOutput)
    ensures
        outputs_enc_spec(seq![x]) == output_enc_spec(x),
{
    reveal_with_fuel(outputs_enc_spec, 2);
    assert(seq![x].drop_last() =~= Seq::<UtxoOutput>::empty());
    assert(seq![x].last() == x);
    assert(outputs_enc_spec(seq![x]) =~= output_enc_spec(x));
}

/// An input-list encoding splits around element `i`.
proof fn lemma_inputs_enc_split(s: Seq<UtxoInput>, i: int)
    requires
        0 <= i < s.len(),
    ensures
        inputs_enc_spec(s) == inputs_enc_spec(s.take(i)) + input_enc_spec(s[i]) + inputs_enc_spec(
            s.skip(i + 1),
        ),
{
    assert(s =~= s.take(i) + seq![s[i]] + s.skip(i + 1));
    lemma_inputs_enc_add(s.take(i) + seq![s[i]], s.skip(i + 1));
    lemma_inputs_enc_add(s.take(i), seq![s[i]]);
    lemma_inputs_enc_single(s[i]);
}

/// An output-list encoding splits around element `i`.
proof fn lemma_outputs_enc_split(s: Seq<UtxoOutput>, i: int)
    requires
        0 <= i < s.len(),
    ensures
        outputs_enc_spec(s) == outputs_enc_spec(s.take(i)) + output_enc_spec(s[i])
            + outputs_enc_spec(s.skip(i + 1)),
{
    assert(s =~= s.take(i) + seq![s[i]] + s.skip(i + 1));
    lemma_outputs_enc_add(s.take(i) + seq![s[i]], s.skip(i + 1));
    lemma_outputs_enc_add(s.take(i), seq![s[i]]);
    lemma_outputs_enc_single(s[i]);
}

/// Whether the canonical encoding of `other` sits at `pos` in `bytes`.
pub open spec fn input_starts_at(bytes: Seq<u8>, pos: int, other: UtxoInput) -> bool {
    &&& pos + input_enc_spec(other).len() <= bytes.len()
    &&& bytes.subrange(pos, pos + input_enc_spec(other).len()) == input_enc_spec(other)
}

/// Whether the canonical encoding of `other` sits at `pos` in `bytes`.
pub open spec fn output_starts_at(bytes: Seq<u8>, pos: int, other: UtxoOutput) -> bool {
    &&& pos + output_enc_spec(other).len() <= bytes.len()
    &&& bytes.subrange(pos, pos + output_enc_spec(other).len()) == output_enc_spec(other)
}

/// Where each field of an input encoding sits inside a byte string that
/// starts with it at `pos`: each length-prefixed field starts at its offset,
/// and the output index sits between them.
proof fn lemma_input_enc_slices(bytes: Seq<u8>, pos: int, other: UtxoInput)
    requires
        0 <= pos,
        input_starts_at(bytes, pos, other),
    ensures
        ({
            let oa = pos;
            let ob = oa + 8 + other.from_addr@.len();
            let oc = ob + 8 + other.public_key@.len();
            let od = oc + 8 + other.prev_tx_hash@.len();
            let oe = od + 4;
            &&& pos + input_enc_spec(other).len() == oe + 8 + other.signature@.len()
            &&& lp_starts_at(bytes, oa, other.from_addr@)
            &&& lp_starts_at(bytes, ob, other.public_key@)
            &&& lp_starts_at(bytes, oc, other.prev_tx_hash@)
            &&& bytes.subrange(od, oe) == u32_be_spec(other.output_index)
            &&& lp_starts_at(bytes, oe, other.signature@)
        }),
{
    let a = len_prefixed_spec(other.from_addr@);
    let b = len_prefixed_spec(other.public_key@);
    let c = len_prefixed_spec(other.prev_tx_hash@);
    let d = u32_be_spec(other.output_index);
    let e = len_prefixed_spec(other.signature@);
    let enc = input_enc_spec(other);
    assert(enc == a + b + c + d + e);
    assert forall|m: int| 0 <= m < enc.len() implies bytes[pos + m] == #[trigger] enc[m] by {
        assert(bytes.subrange(pos, pos + enc.len())[m] == bytes[pos + m]);
    }
    assert forall|m: int| 0 <= m < a.len() implies bytes.subrange(pos, pos + a.len())[m]
        == a[m] by {
        assert(enc[m] == a[m]);
        assert(bytes[pos + m] == enc[m]);
    }
    assert(bytes.subrange(pos, pos + a.len()) =~= a);
    let ob = pos + a.len();
    assert forall|m: int| 0 <= m < b.len() implies bytes.subrange(ob, ob + b.len())[m] == b[m] by {
        assert(enc[a.len() + m] == b[m]);
        assert(bytes[pos + (a.len() + m)] == enc[a.len() + m]);
        assert(bytes.subrange(ob, ob + b.len())[m] == bytes[ob + m]);
    }
    assert(bytes.subrange(ob, ob + b.len()) =~= b);
    let oc = ob + b.len();
    assert forall|m: int| 0 <= m < c.len() implies bytes.subrange(oc, oc + c.len())[m] == c[m] by {
        assert(enc[a.len() + b.len() + m] == c[m]);
        assert(bytes[pos + (a.len() + b.len() + m)] == enc[a.len() + b.len() + m]);
        assert(bytes.subrange(oc, oc + c.len())[m] == bytes[oc + m]);
    }
    assert(bytes.subrange(oc, oc + c.len()) =~= c);
    let od = oc + c.len();
    assert forall|m: int| 0 <= m < 4 implies bytes.subrange(od, od + 4)[m] == d[m] by {
        assert(enc[a.len() + b.len() + c.len() + m] == d[m]);
        assert(bytes[pos + (a.len() + b.len() + c.len() + m)] == enc[a.len() + b.len() + c.len()
            + m]);
        assert(bytes.subrange(od, od + 4)[m] == bytes[od + m]);
    }
    assert(bytes.subrange(od, od + 4) =~= d);
    let oe = od + 4;
    assert forall|m: int| 0 <= m < e.len() implies bytes.subrange(oe, pos + enc.len())[m]
        == e[m] by {
        assert(enc[a.len() + b.len() + c.len() + 4 + m] == e[m]);
        assert(bytes[pos + (a.len() + b.len() + c.len() + 4 + m)] == enc[a.len() + b.len()
            + c.len() + 4 + m]);
        assert(bytes.subrange(oe, pos + enc.len())[m] == bytes[oe + m]);
    }
    assert(bytes.subrange(oe, pos + enc.len()) =~= e);
}

/// Where each field of an output encoding sits inside a byte string that
/// starts with it at `pos`.
proof fn lemma_output_enc_slices(bytes: Seq<u8>, pos: int, other: UtxoOutput)
    requires
        0 <= pos,
        output_starts_at(bytes, pos, other),
    ensures
        ({
            let od = pos + 8 + other.to_addr@.len();
            &&& pos + output_enc_spec(other).len() == od + 4
            &&& lp_starts_at(bytes, pos, other.to_addr@)
            &&& bytes.subrange(od, od + 4) == u32_be_spec(other.amount)
        }),
{
    let a = len_prefixed_spec(other.to_addr@);
    let d = u32_be_spec(other.amount);
    let enc = output_enc_spec(other);
    assert(enc == a + d);
    assert forall|m: int| 0 <= m < enc.len() implies bytes[pos + m] == #[trigger] enc[m] by {
        assert(bytes.subrange(pos, pos + enc.len())[m] == bytes[pos + m]);
    }
    assert forall|m: int| 0 <= m < a.len() implies bytes.subrange(pos, pos + a.len())[m]
        == a[m] by {
        assert(enc[m] == a[m]);
        assert(bytes[pos + m] == enc[m]);
    }
    assert(bytes.subrange(pos, pos + a.len()) =~= a);
    let od = pos + a.len();
    assert forall|m: int| 0 <= m < 4 implies bytes.subrange(od, od + 4)[m] == d[m] by {
        assert(enc[a.len() + m] == d[m]);
        assert(bytes[pos + (a.len() + m)] == enc[a.len() + m]);
        assert(bytes.subrange(od, od + 4)[m] == bytes[od + m]);
    }
    assert(bytes.subrange(od, od + 4) =~= d);
}

/// Reads one encoded input at `pos`, returning it and the position just past
/// it. The read is exact: it fails only when no encoded input starts at
/// `pos`, and the end position of any encoded input starting there is unique.
#[verifier::rlimit(100)]
#[verifier::spinoff_prover]
fn read_input(bytes: &Vec<u8>, pos: usize) -> (r: Option<(UtxoInput, usize)>)
    ensures
        r matches Some((inp, p)) ==> pos <= p <= bytes@.len() && bytes@.subrange(
            pos as int,
            p as int,
        ) == input_enc_spec(inp),
        r matches Some((inp, p)) ==> forall|other: UtxoInput|
            #[trigger] input_starts_at(bytes@, pos as int, other) ==> p == pos + input_enc_spec(
                other,
            ).len(),
        r is None ==> forall|other: UtxoInput| !#[trigger] input_starts_at(
            bytes@,
            pos as int,
            other,
        ),
{
    let r_fa = crate::encoding::read_len_prefixed(bytes, pos);
    if r_fa.is_none() {
        proof {
            assert forall|other: UtxoInput| !#[trigger] input_starts_at(
                bytes@,
                pos as int,
                other,
            ) by {
                if input_starts_at(bytes@, pos as int, other) {
                    lemma_input_enc_slices(bytes@, pos as int, other);
                }
            }
        }
        return None;
    }
    let (from_addr, p1) = r_fa.unwrap();
    let r_pk = crate::encoding::read_len_prefixed(bytes, p1);
    if r_pk.is_none() {
        proof {
            assert forall|other: UtxoInput| !#[trigger] input_starts_at(
                bytes@,
                pos as int,
                other,
            ) by {
                if input_starts_at(bytes@, pos as int, other) {
                    lemma_input_enc_slices(bytes@, pos as int, other);
                    assert(p1 == pos + len_prefixed_spec(other.from_addr@).len());
                }
            }
        }
        return None;
    }
    let (public_key, p2) = r_pk.unwrap();
    let r_ph = crate::encoding::read_len_prefixed(bytes, p2);
    if r_ph.is_none() {
        proof {
            assert forall|other: UtxoInput| !#[trigger] input_starts_at(
                bytes@,
                pos as int,
                other,
            ) by {
                if input_starts_at(bytes@, pos as int, other) {
                    lemma_input_enc_slices(bytes@, pos as int, other);
                    assert(p1 == pos + len_prefixed_spec(other.from_addr@).len());
                    assert(p2 == p1 + len_prefixed_spec(other.public_key@).len());
                }
            }
        }
        return None;
    }
    let (prev_tx_hash, p3) = r_ph.unwrap();
    let r_oi = crate::encoding::read_u32_be(bytes, p3);
    if r_oi.is_none() {
        proof {
            assert forall|other: UtxoInput| !#[trigger] input_starts_at(
                bytes@,
                pos as int,
                other,
            ) by {
                if input_starts_at(bytes@, pos as int, other) {
                    lemma_input_enc_slices(bytes@, pos as int, other);
                    assert(p1 == pos + len_prefixed_spec(other.from_addr@).len());
                    assert(p2 == p1 + len_prefixed_spec(other.public_key@).len());
                    assert(p3 == p2 + len_prefixed_spec(other.prev_tx_hash@).len());
                }
            }
        }
        return None;
    }
    let (output_index, p4) = r_oi.unwrap();
    let r_sig = crate::encoding::read_len_prefixed(bytes, p4);
    if r_sig.is_none() {
        proof {
            assert forall|other: UtxoInput| !#[trigger] input_starts_at(
                bytes@,
                pos as int,
                other,
            ) by {
                if input_starts_at(bytes@, pos as int, other) {
                    lemma_input_enc_slices(bytes@, pos as int, other);
                    assert(p1 == pos + len_prefixed_spec(other.from_addr@).len());
                    assert(p2 == p1 + len_prefixed_spec(other.public_key@).len());
                    assert(p3 == p2 + len_prefixed_spec(other.prev_tx_hash@).len());
                    assert(p4 == p3 + 4);
                }
            }
        }
        return None;
    }
    let (signature, p5) = r_sig.unwrap();
    let inp = UtxoInput { from_addr, public_key, prev_tx_hash, output_index, signature };
    proof {
        assert(bytes@.subrange(pos as int, p5 as int) =~= bytes@.subrange(pos as int, p1 as int)
            + bytes@.subrange(p1 as int, p2 as int) + bytes@.subrange(p2 as int, p3 as int)
            + bytes@.subrange(p3 as int, p4 as int) + bytes@.subrange(p4 as int, p5 as int));
        assert(bytes@.subrange(pos as int, p5 as int) =~= input_enc_spec(inp));
        assert forall|other: UtxoInput| #[trigger] input_starts_at(
            bytes@,
            pos as int,
            other,
        ) implies p5 == pos + input_enc_spec(other).len() by {
            lemma_input_enc_slices(bytes@, pos as int, other);
            assert(p1 == pos + len_prefixed_spec(other.from_addr@).len());
            assert(p2 == p1 + len_prefixed_spec(other.public_key@).len());
            assert(p3 == p2 + len_prefixed_spec(other.prev_tx_hash@).len());
            assert(p4 == p3 + 4);
            assert(p5 == p4 + len_prefixed_spec(other.signature@).len());
        }
    }
    Some((inp, p5))
}

/// Reads one encoded output at `pos`, returning it and the position just
/// past it; exact in the same way as `read_input`.
fn read_output(bytes: &Vec<u8>, pos: usize) -> (r: Option<(UtxoOutput, usize)>)
    ensures
        r matches Some((out, p)) ==> pos <= p <= bytes@.len() && bytes@.subrange(
            pos as int,
            p as int,
        ) == output_enc_spec(out),
        r matches Some((out, p)) ==> forall|other: UtxoOutput|
            #[trigger] output_starts_at(bytes@, pos as int, other) ==> p == pos + output_enc_spec(
                other,
            ).len(),
        r is None ==> forall|other: UtxoOutput| !#[trigger] output_starts_at(
            bytes@,
            pos as int,
            other,
        ),
{
    let r_ta = crate::encoding::read_len_prefixed(bytes, pos);
    if r_ta.is_none() {
        proof {
            assert forall|other: UtxoOutput| !#[trigger] output_starts_at(
                bytes@,
                pos as int,
                other,
            ) by {
                if output_starts_at(bytes@, pos as int, other) {
                    lemma_output_enc_slices(bytes@, pos as int, other);
                }
            }
        }
        return None;
    }
    let (to_addr, p1) = r_ta.unwrap();
    let r_am = crate::encoding::read_u32_be(bytes, p1);
    if r_am.is_none() {
        proof {
            assert forall|other: UtxoOutput| !#[trigger] output_starts_at(
                bytes@,
                pos as int,
                other,
            ) by {
                if output_starts_at(bytes@, pos as int, other) {
                    lemma_output_enc_slices(bytes@, pos as int, other);
                    assert(p1 == pos + len_prefixed_spec(other.to_addr@).len());
                }
            }
        }
        return None;
    }
    let (amount, p2) = r_am.unwrap();
    let out = UtxoOutput { to_addr, amount };
    proof {
        assert(bytes@.subrange(pos as int, p2 as int) =~= bytes@.subrange(pos as int, p1 as int)
            + bytes@.subrange(p1 as int, p2 as int));
        assert(bytes@.subrange(pos as int, p2 as int) =~= output_enc_spec(out));
        assert forall|other: UtxoOutput| #[trigger] output_starts_at(
            bytes@,
            pos as int,
            other,
        ) implies p2 == pos + output_enc_spec(other).len() by {
            lemma_output_enc_slices(bytes@, pos as int, other);
            assert(p1 == pos + len_prefixed_spec(other.to_addr@).len());
            assert(p2 == p1 + 4);
        }
    }
    Some((out, p2))
}

impl Transaction {
    /// Parses a canonical transaction encoding. The parse is exact: on
    /// success the input bytes are exactly the canonical encoding of the
    /// returned transaction, and it fails only on byte strings that are the
    /// canonical encoding of no transaction — so decoding inverts encoding.
    #[verifier::rlimit(100)]
    #[verifier::spinoff_prover]
    pub fn from_bytes(bytes: &Vec<u8>) -> (r: Result<Transaction, DecodeError>)
        ensures
            r matches Ok(t) ==> bytes@ == tx_enc_spec(t),
            r is Err ==> forall|t: Transaction| bytes@ != #[trigger] tx_enc_spec(t),
    {
        let r_nin = crate::encoding::read_u64_be(bytes, 0);
        if r_nin.is_none() {
            proof {
                assert forall|t: Transaction| bytes@ != #[trigger] tx_enc_spec(t) by {
                    if bytes@ == tx_enc_spec(t) {
                        assert(bytes@.len() >= 16);
                    }
                }
            }
            return Err(DecodeError::Malformed);
        }
        let (n_in, p0) = r_nin.unwrap();
        proof {
            assert forall|t: Transaction| bytes@ == #[trigger] tx_enc_spec(t) implies n_in
                == t.inputs@.len() && p0 == 8 + inputs_enc_spec(t.inputs@.take(0)).len() by {
                assert(bytes@.subrange(0, 8) =~= u64_be_spec(t.inputs@.len() as u64));
                crate::encoding::lemma_u64_be_injective(n_in, t.inputs@.len() as u64);
                assert(vstd::std_specs::vec::spec_vec_len(&t.inputs) == t.inputs@.len());
                assert(t.inputs@.take(0) =~= Seq::<UtxoInput>::empty());
            }
        }
        let mut inputs: Vec<UtxoInput> = Vec::new();
        let mut pos = p0;
        let mut i: u64 = 0;
        while i < n_in
            invariant
                0 <= i <= n_in,
                inputs@.len() == i,
                0 <= pos <= bytes@.len(),
                8 <= pos,
                bytes@.subrange(8, pos as int) == inputs_enc_spec(inputs@),
                u64_be_spec(n_in) == bytes@.subrange(0, 8),
                forall|t: Transaction|
                    bytes@ == #[trigger] tx_enc_spec(t) ==> n_in == t.inputs@.len() && pos == 8
                        + inputs_enc_spec(t.inputs@.take(i as int)).len(),
            decreases n_in - i,
        {
            let r_inp = read_input(bytes, pos);
            if r_inp.is_none() {
                proof {
                    assert forall|t: Transaction| bytes@ != #[trigger] tx_enc_spec(t) by {
                        if bytes@ == tx_enc_spec(t) {
                            lemma_input_at_cursor(bytes@, t, i as int, pos as int);
                        }
                    }
                }
                return Err(DecodeError::Malformed);
            }
            let (inp, p) = r_inp.unwrap();
            proof {
                let ghost ext = inputs@.push(inp);
                assert(ext.drop_last() =~= inputs@);
                assert(ext.last() == inp);
                assert(bytes@.subrange(8, p as int) =~= bytes@.subrange(8, pos as int)
                    + bytes@.subrange(pos as int, p as int));
                assert forall|t: Transaction|
                    bytes@ == #[trigger] tx_enc_spec(t) implies n_in == t.inputs@.len() && p == 8
                    + inputs_enc_spec(t.inputs@.take(i + 1)).len() by {
                    lemma_input_at_cursor(bytes@, t, i as int, pos as int);
                    assert(input_starts_at(bytes@, pos as int, t.inputs@[i as int]));
                    assert(p == pos + input_enc_spec(t.inputs@[i as int]).len());
                    lemma_inputs_enc_add(t.inputs@.take(i as int), seq![t.inputs@[i as int]]);
                    lemma_inputs_enc_single(t.inputs@[i as int]);
                    assert(t.inputs@.take(i + 1) =~= t.inputs@.take(i as int) + seq![
                        t.inputs@[i as int],
                    ]);
                }
            }
            inputs.push(inp);
            pos = p;
            i = i + 1;
        }
        let r_nout = crate::encoding::read_u64_be(bytes, pos);
        if r_nout.is_none() {
            proof {
                assert forall|t: Transaction| bytes@ != #[trigger] tx_enc_spec(t) by {
                    if bytes@ == tx_enc_spec(t) {
                        assert(t.inputs@.take(i as int) =~= t.inputs@);
                        assert(bytes@.len() == pos + 8 + outputs_enc_spec(t.outputs@).len());
                    }
                }
            }
            return Err(DecodeError::Malformed);
        }
        let ghost inputs_done = inputs@;
        let ghost p_in_end = pos as int;
        let (n_out, p1) = r_nout.unwrap();
        proof {
            assert forall|t: Transaction| bytes@ == #[trigger] tx_enc_spec(t) implies n_in
                == t.inputs@.len() && p_in_end == 8 + inputs_enc_spec(t.inputs@).len() && n_out
                == t.outputs@.len() && p1 == p_in_end + 8 + outputs_enc_spec(
                t.outputs@.take(0),
            ).len() by {
                assert(t.inputs@.take(i as int) =~= t.inputs@);
                assert(bytes@.subrange(p_in_end, p_in_end + 8) =~= u64_be_spec(
                    t.outputs@.len() as u64,
                ));
                crate::encoding::lemma_u64_be_injective(n_out, t.outputs@.len() as u64);
                assert(vstd::std_specs::vec::spec_vec_len(&t.outputs) == t.outputs@.len());
                assert(t.outputs@.take(0) =~= Seq::<UtxoOutput>::empty());
            }
        }
        let mut outputs: Vec<UtxoOutput> = Vec::new();
        let ghost p_out_start = p1 as int;
        pos = p1;
        let mut j: u64 = 0;
        while j < n_out
            invariant
                0 <= j <= n_out,
                outputs@.len() == j,
                0 <= pos <= bytes@.len(),
                bytes@.subrange(p_out_start, pos as int) == outputs_enc_spec(outputs@),
                0 <= p_out_start <= pos as int,
                p_in_end + 8 == p_out_start,
                8 <= p_in_end,
                inputs@ == inputs_done,
                bytes@.subrange(8, p_in_end) == inputs_enc_spec(inputs@),
                u64_be_spec(n_in) == bytes@.subrange(0, 8),
                u64_be_spec(n_out) == bytes@.subrange(p_in_end, p_out_start),
                inputs@.len() == n_in,
                forall|t: Transaction|
                    bytes@ == #[trigger] tx_enc_spec(t) ==> n_in == t.inputs@.len() && p_in_end
                        == 8 + inputs_enc_spec(t.inputs@).len() && n_out == t.outputs@.len() && pos
                        == p_out_start + outputs_enc_spec(t.outputs@.take(j as int)).len(),
            decreases n_out - j,
        {
            let r_out = read_output(bytes, pos);
            if r_out.is_none() {
                proof {
                    assert forall|t: Transaction| bytes@ != #[trigger] tx_enc_spec(t) by {
                        if bytes@ == tx_enc_spec(t) {
                            lemma_output_at_cursor(bytes@, t, j as int, pos as int);
                        }
                    }
                }
                return Err(DecodeError::Malformed);
            }
            let (out, p) = r_out.unwrap();
            proof {
                let ghost ext = outputs@.push(out);
                assert(ext.drop_last() =~= outputs@);
                assert(ext.last() == out);
                assert(bytes@.subrange(p_out_start, p as int) =~= bytes@.subrange(
                    p_out_start,
                    pos as int,
                ) + bytes@.subrange(pos as int, p as int));
                assert forall|t: Transaction|
                    bytes@ == #[trigger] tx_enc_spec(t) implies n_in == t.inputs@.len() && p_in_end
                    == 8 + inputs_enc_spec(t.inputs@).len() && n_out == t.outputs@.len() && p
                    == p_out_start + outputs_enc_spec(t.outputs@.take(j + 1)).len() by {
                    lemma_output_at_cursor(bytes@, t, j as int, pos as int);
                    assert(output_starts_at(bytes@, pos as int, t.outputs@[j as int]));
                    assert(p == pos + output_enc_spec(t.outputs@[j as int]).len());
                    lemma_outputs_enc_add(t.outputs@.take(j as int), seq![t.outputs@[j as int]]);
                    lemma_outputs_enc_single(t.outputs@[j as int]);
                    assert(t.outputs@.take(j + 1) =~= t.outputs@.take(j as int) + seq![
                        t.outputs@[j as int],
                    ]);
                }
            }
            outputs.push(out);
            pos = p;
            j = j + 1;
        }
        if pos != bytes.len() {
            proof {
                assert forall|t: Transaction| bytes@ != #[trigger] tx_enc_spec(t) by {
                    if bytes@ == tx_enc_spec(t) {
                        assert(t.outputs@.take(j as int) =~= t.outputs@);
                        assert(bytes@.len() == pos);
                    }
                }
            }
            return Err(DecodeError::Malformed);
        }
        let t = Transaction { inputs, outputs };
        proof {
            assert(t.inputs@.len() as u64 == n_in);
            assert(t.outputs@.len() as u64 == n_out);
            assert(bytes@ =~= bytes@.subrange(0, 8) + bytes@.subrange(8, p_in_end)
                + bytes@.subrange(p_in_end, p_out_start) + bytes@.subrange(
                p_out_start,
                pos as int,
            ));
            assert(bytes@ =~= tx_enc_spec(t));
        }
        Ok(t)
    }
}

/// In a canonical encoding whose first `i` inputs occupy the bytes up to
/// `pos`, input `i` starts at `pos`.
proof fn lemma_input_at_cursor(bytes: Seq<u8>, t: Transaction, i: int, pos: int)
    requires
        bytes == tx_enc_spec(t),
        0 <= i < t.inputs@.len(),
        pos == 8 + inputs_enc_spec(t.inputs@.take(i)).len(),
    ensures
        input_starts_at(bytes, pos, t.inputs@[i]),
{
    lemma_inputs_enc_split(t.inputs@, i);
    let head = inputs_enc_spec(t.inputs@.take(i));
    let ei = input_enc_spec(t.inputs@[i]);
    let enc = tx_enc_spec(t);
    assert(enc == u64_be_spec(t.inputs@.len() as u64) + (head + ei + inputs_enc_spec(
        t.inputs@.skip(i + 1),
    )) + u64_be_spec(t.outputs@.len() as u64) + outputs_enc_spec(t.outputs@));
    assert forall|m: int| 0 <= m < ei.len() implies bytes.subrange(pos, pos + ei.len())[m]
        == ei[m] by {
        assert(bytes.subrange(pos, pos + ei.len())[m] == bytes[pos + m]);
        assert(bytes[pos + m] == enc[8 + head.len() + m]);
    }
    assert(bytes.subrange(pos, pos + ei.len()) =~= ei);
}

/// In a canonical encoding whose inputs and first `j` outputs occupy the
/// bytes up to `pos`, output `j` starts at `pos`.
proof fn lemma_output_at_cursor(bytes: Seq<u8>, t: Transaction, j: int, pos: int)
    requires
        bytes == tx_enc_spec(t),
        0 <= j < t.outputs@.len(),
        pos == 8 + inputs_enc_spec(t.inputs@).len() + 8 + outputs_enc_spec(
            t.outputs@.take(j),
        ).len(),
    ensures
        output_starts_at(bytes, pos, t.outputs@[j]),
{
    lemma_outputs_enc_split(t.outputs@, j);
    let head = outputs_enc_spec(t.outputs@.take(j));
    let ej = output_enc_spec(t.outputs@[j]);
    let enc = tx_enc_spec(t);
    assert(enc == u64_be_spec(t.inputs@.len() as u64) + inputs_enc_spec(t.inputs@) + u64_be_spec(
        t.outputs@.len() as u64,
    ) + (head + ej + outputs_enc_spec(t.outputs@.skip(j + 1))));
    assert forall|m: int| 0 <= m < ej.len() implies bytes.subrange(pos, pos + ej.len())[m]
        == ej[m] by {
        assert(bytes.subrange(pos, pos + ej.len())[m] == bytes[pos + m]);
        assert(bytes[pos + m] == enc[8 + inputs_enc_spec(t.inputs@).len() + 8 + head.len() + m]);
    }
    assert(bytes.subrange(pos, pos + ej.len()) =~= ej);
}

/// Two encoded inputs starting at the same position carry the same content.
proof fn lemma_input_unique(bytes: Seq<u8>, pos: int, x: UtxoInput, y: UtxoInput)
    requires
        0 <= pos,
        input_starts_at(bytes, pos, x),
        input_starts_at(bytes, pos, y),
    ensures
        x.from_addr@ == y.from_addr@,
        x.public_key@ == y.public_key@,
        x.prev_tx_hash@ == y.prev_tx_hash@,
        x.output_index == y.output_index,
        x.signature@ == y.signature@,
        input_enc_spec(x).len() == input_enc_spec(y).len(),
{
    lemma_input_enc_slices(bytes, pos, x);
    lemma_input_enc_slices(bytes, pos, y);
    assert(vstd::std_specs::vec::spec_vec_len(&x.from_addr) == x.from_addr@.len());
    assert(vstd::std_specs::vec::spec_vec_len(&y.from_addr) == y.from_addr@.len());
    crate::encoding::lemma_lp_unique(bytes, pos, x.from_addr@, y.from_addr@);
    let ob = pos + 8 + x.from_addr@.len();
    assert(vstd::std_specs::vec::spec_vec_len(&x.public_key) == x.public_key@.len());
    assert(vstd::std_specs::vec::spec_vec_len(&y.public_key) == y.public_key@.len());
    crate::encoding::lemma_lp_unique(bytes, ob, x.public_key@, y.public_key@);
    let oc = ob + 8 + x.public_key@.len();
    assert(vstd::std_specs::vec::spec_vec_len(&x.prev_tx_hash) == x.prev_tx_hash@.len());
    assert(vstd::std_specs::vec::spec_vec_len(&y.prev_tx_hash) == y.prev_tx_hash@.len());
    crate::encoding::lemma_lp_unique(bytes, oc, x.prev_tx_hash@, y.prev_tx_hash@);
    let od = oc + 8 + x.prev_tx_hash@.len();
    crate::encoding::lemma_u32_be_injective(x.output_index, y.output_index);
    let oe = od + 4;
    assert(vstd::std_specs::vec::spec_vec_len(&x.signature) == x.signature@.len());
    assert(vstd::std_specs::vec::spec_vec_len(&y.signature) == y.signature@.len());
    crate::encoding::lemma_lp_unique(bytes, oe, x.signature@, y.signature@);
}

/// Two encoded outputs starting at the same position carry the same content.
proof fn lemma_output_unique(bytes: Seq<u8>, pos: int, x: UtxoOutput, y: UtxoOutput)
    requires
        0 <= pos,
        output_starts_at(bytes, pos, x),
        output_starts_at(bytes, pos, y),
    ensures
        x.to_addr@ == y.to_addr@,
        x.amount == y.amount,
        output_enc_spec(x).len() == output_enc_spec(y).len(),
{
    lemma_output_enc_slices(bytes, pos, x);
    lemma_output_enc_slices(bytes, pos, y);
    assert(vstd::std_specs::vec::spec_vec_len(&x.to_addr) == x.to_addr@.len());
    assert(vstd::std_specs::vec::spec_vec_len(&y.to_addr) == y.to_addr@.len());
    crate::encoding::lemma_lp_unique(bytes, pos, x.to_addr@, y.to_addr@);
    let od = pos + 8 + x.to_addr@.len();
    crate::encoding::lemma_u32_be_injective(x.amount, y.amount);
}

/// The first `i` inputs of two transactions with the same canonical encoding
/// agree and occupy the same bytes.
proof fn lemma_tx_inputs_align(a: Transaction, b: Transaction, i: int)
    requires
        tx_enc_spec(a) == tx_enc_spec(b),
        a.inputs@.len() == b.inputs@.len(),
        0 <= i <= a.inputs@.len(),
    ensures
        inputs_enc_spec(a.inputs@.take(i)).len() == inputs_enc_spec(b.inputs@.take(i)).len(),
        forall|k: int|
            0 <= k < i ==> {
                let xa = #[trigger] a.inputs@[k];
                let xb = b.inputs@[k];
                &&& xa.from_addr@ == xb.from_addr@
                &&& xa.public_key@ == xb.public_key@
                &&& xa.prev_tx_hash@ == xb.prev_tx_hash@
                &&& xa.output_index == xb.output_index
                &&& xa.signature@ == xb.signature@
            },
    decreases i,
{
    if i > 0 {
        lemma_tx_inputs_align(a, b, i - 1);
        let bytes = tx_enc_spec(a);
        let pos: int = 8 + inputs_enc_spec(a.inputs@.take(i - 1)).len() as int;
        lemma_input_at_cursor(bytes, a, i - 1, pos);
        lemma_input_at_cursor(bytes, b, i - 1, pos);
        lemma_input_unique(bytes, pos, a.inputs@[i - 1], b.inputs@[i - 1]);
        lemma_inputs_enc_add(a.inputs@.take(i - 1), seq![a.inputs@[i - 1]]);
        lemma_inputs_enc_single(a.inputs@[i - 1]);
        assert(a.inputs@.take(i) =~= a.inputs@.take(i - 1) + seq![a.inputs@[i - 1]]);
        lemma_inputs_enc_add(b.inputs@.take(i - 1), seq![b.inputs@[i - 1]]);
        lemma_inputs_enc_single(b.inputs@[i - 1]);
        assert(b.inputs@.take(i) =~= b.inputs@.take(i - 1) + seq![b.inputs@[i - 1]]);
    }
}

/// The first `j` outputs of two transactions with the same canonical
/// encoding and the same input section agree and occupy the same bytes.
proof fn lemma_tx_outputs_align(a: Transaction, b: Transaction, j: int)
    requires
        tx_enc_spec(a) == tx_enc_spec(b),
        a.outputs@.len() == b.outputs@.len(),
        inputs_enc_spec(a.inputs@).len() == inputs_enc_spec(b.inputs@).len(),
        0 <= j <= a.outputs@.len(),
    ensures
        outputs_enc_spec(a.outputs@.take(j)).len() == outputs_enc_spec(b.outputs@.take(j)).len(),
        forall|k: int|
            0 <= k < j ==> {
                let xa = #[trigger] a.outputs@[k];
                let xb = b.outputs@[k];
                &&& xa.to_addr@ == xb.to_addr@
                &&& xa.amount == xb.amount
            },
    decreases j,
{
    if j > 0 {
        lemma_tx_outputs_align(a, b, j - 1);
        let bytes = tx_enc_spec(a);
        let pos: int = 8 + inputs_enc_spec(a.inputs@).len() as int + 8 + outputs_enc_spec(
            a.outputs@.take(j - 1),
        ).len() as int;
        lemma_output_at_cursor(bytes, a, j - 1, pos);
        lemma_output_at_cursor(bytes, b, j - 1, pos);
        lemma_output_unique(bytes, pos, a.outputs@[j - 1], b.outputs@[j - 1]);
        lemma_outputs_enc_add(a.outputs@.take(j - 1), seq![a.outputs@[j - 1]]);
        lemma_outputs_enc_single(a.outputs@[j - 1]);
        assert(a.outputs@.take(j) =~= a.outputs@.take(j - 1) + seq![a.outputs@[j - 1]]);
        lemma_outputs_enc_add(b.outputs@.take(j - 1), seq![b.outputs@[j - 1]]);
        lemma_outputs_enc_single(b.outputs@[j - 1]);
        assert(b.outputs@.take(j) =~= b.outputs@.take(j - 1) + seq![b.outputs@[j - 1]]);
    }
}

/// Law: the canonical transaction encoding is injective. Together with
/// `from_bytes`' exactness, decoding inverts encoding: parsing a
/// transaction's encoding succeeds and returns a transaction with exactly
/// the same content.
pub proof fn lemma_tx_enc_injective(a: Transaction, b: Transaction)
    requires
        tx_enc_spec(a) == tx_enc_spec(b),
    ensures
        a.inputs@.len() == b.inputs@.len(),
        a.outputs@.len() == b.outputs@.len(),
        forall|k: int|
            0 <= k < a.inputs@.len() ==> {
                let xa = #[trigger] a.inputs@[k];
                let xb = b.inputs@[k];
                &&& xa.from_addr@ == xb.from_addr@
                &&& xa.public_key@ == xb.public_key@
                &&& xa.prev_tx_hash@ == xb.prev_tx_hash@
                &&& xa.output_index == xb.output_index
                &&& xa.signature@ == xb.signature@
            },
        forall|k: int|
            0 <= k < a.outputs@.len() ==> {
                let xa = #[trigger] a.outputs@[k];
                let xb = b.outputs@[k];
                &&& xa.to_addr@ == xb.to_addr@
                &&& xa.amount == xb.amount
            },
{
    let bytes = tx_enc_spec(a);
    assert(bytes.subrange(0, 8) =~= u64_be_spec(a.inputs@.len() as u64));
    assert(bytes.subrange(0, 8) =~= u64_be_spec(b.inputs@.len() as u64));
    crate::encoding::lemma_u64_be_injective(a.inputs@.len() as u64, b.inputs@.len() as u64);
    assert(vstd::std_specs::vec::spec_vec_len(&a.inputs) == a.inputs@.len());
    assert(vstd::std_specs::vec::spec_vec_len(&b.inputs) == b.inputs@.len());
    lemma_tx_inputs_align(a, b, a.inputs@.len() as int);
    assert(a.inputs@.take(a.inputs@.len() as int) =~= a.inputs@);
    assert(b.inputs@.take(b.inputs@.len() as int) =~= b.inputs@);
    let pn: int = 8 + inputs_enc_spec(a.inputs@).len() as int;
    assert(bytes.subrange(pn, pn + 8) =~= u64_be_spec(a.outputs@.len() as u64));
    assert(bytes.subrange(pn, pn + 8) =~= u64_be_spec(b.outputs@.len() as u64));
    crate::encoding::lemma_u64_be_injective(a.outputs@.len() as u64, b.outputs@.len() as u64);
    assert(vstd::std_specs::vec::spec_vec_len(&a.outputs) == a.outputs@.len());
    assert(vstd::std_specs::vec::spec_vec_len(&b.outputs) == b.outputs@.len());
    lemma_tx_outputs_align(a, b, a.outputs@.len() as int);
    assert(a.outputs@.take(a.outputs@.len() as int) =~= a.outputs@);
    assert(b.outputs@.take(b.outputs@.len() as int) =~= b.outputs@);
}

/// A sequence of inputs, as a named aggregate.
pub struct UtxoInputs(pub Vec<UtxoInput>);

/// A sequence of outputs, as a named aggregate.
pub struct UtxoOutputs(pub Vec<UtxoOutput>);

} // verus!
