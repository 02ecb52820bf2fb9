//! The wallet: address derivation from the public key, the unspent-output
//! set, input selection and signing for outgoing transactions, and signature
//! verification.
//!
//! The unspent set maps `(transaction hash, output index)` to an amount and
//! only ever holds outputs addressed to this wallet. Entries are added when a
//! transaction paying this wallet is observed and removed when this wallet
//! spends them.
use crate::crypto::{
    base58_of, generate_rsa_keypair, ripemd160, ripemd160_of, rsa_private_key_usable,
    rsa_public_key_usable, rsa_sha256_sign, rsa_sha256_verify, rsa_sign_of, rsa_verifies, sha256,
    sha256_of,
};
use crate::encoding::{bytes_eq, push_bytes};
use crate::tx::{input_hashable_spec, tx_hash_spec, Transaction, UtxoInput, UtxoOutput};
use vstd::prelude::*;

verus! {

/// The reason a wallet operation failed.
#[derive(Debug, Clone, Copy, PartialEq, Eq, Structural)]
pub enum WalletError {
    /// The amount to send exceeds the current balance.
    InsufficientFunds,
    /// A public key embedded in an input could not be used for verification.
    InvalidKey,
}

/// One unspent output held by the wallet: the transaction that created it,
/// its index among that transaction's outputs, and the output itself.
struct UtxoEntry {
    tx_hash: Vec<u8>,
    output_index: u32,
    output: UtxoOutput,
}

/// The ghost image of one unspent entry: (transaction hash, output index,
/// amount).
pub type UtxoRef = (Seq<u8>, u32, u32);

/// The address derived from a public key: base58 of the RIPEMD-160 digest of
/// the key's SHA-256 digest, followed by a 4-byte checksum taken from the
/// double SHA-256 of that RIPEMD-160 digest.
pub open spec fn address_of_spec(public_key_pem: Seq<u8>) -> Seq<u8> {
    let rip = ripemd160_of(sha256_of(public_key_pem));
    let checksum = sha256_of(sha256_of(rip)).take(4);
    base58_of(rip + checksum)
}

/// The total amount held in a sequence of unspent entries.
pub open spec fn sum_amounts(s: Seq<UtxoRef>) -> int
    decreases s.len(),
{
    if s.len() == 0 {
        0
    } else {
        sum_amounts(s.drop_last()) + s.last().2
    }
}

/// Whether an entry with the given key is present.
pub open spec fn key_present(s: Seq<UtxoRef>, h: Seq<u8>, idx: u32) -> bool {
    exists|i: int| 0 <= i < s.len() && s[i].0 == h && s[i].1 == idx
}

/// No two entries share a key.
pub open spec fn unique_keys(s: Seq<UtxoRef>) -> bool {
    forall|i: int, j: int|
        0 <= i < j < s.len() ==> !(s[i].0 == s[j].0 && s[i].1 == s[j].1)
}

/// The effect of observing one output of a transaction with hash `h`: the
/// output is recorded iff it pays `addr`, its key is fresh, its index is
/// representable, and the set is below capacity.
pub open spec fn observe_step_spec(
    s: Seq<UtxoRef>,
    o: UtxoOutput,
    h: Seq<u8>,
    addr: Seq<u8>,
    idx: int,
) -> Seq<UtxoRef> {
    if o.to_addr@ == addr && 0 <= idx <= u32::MAX && !key_present(s, h, idx as u32) && s.len()
        < u32::MAX {
        s.push((h, idx as u32, o.amount))
    } else {
        s
    }
}

/// The effect of observing the first `k` outputs of a transaction with hash
/// `h`, in order.
pub open spec fn observe_upto_spec(
    s: Seq<UtxoRef>,
    outs: Seq<UtxoOutput>,
    h: Seq<u8>,
    addr: Seq<u8>,
    k: int,
) -> Seq<UtxoRef>
    decreases k,
{
    if k <= 0 {
        s
    } else {
        observe_step_spec(observe_upto_spec(s, outs, h, addr, k - 1), outs[k - 1], h, addr, k - 1)
    }
}

/// What a successful send looks like, with `m` the number of inputs spent:
/// the first `m` unspent entries (in stored order) are consumed, `m` is
/// minimal to cover `amount`, every input is signed over its cleared content
/// with the wallet's key, the first output pays the recipient, and any
/// overshoot returns to the wallet as a change output.
pub open spec fn send_witness_spec(
    pre: Seq<UtxoRef>,
    post: Seq<UtxoRef>,
    tx: Transaction,
    to_addr: Seq<u8>,
    amount: u32,
    addr: Seq<u8>,
    pk: Seq<u8>,
    priv_pem: Seq<u8>,
    m: int,
) -> bool {
    let total = sum_amounts(pre.take(m));
    &&& 0 <= m <= pre.len()
    &&& total >= amount
    &&& (m > 0 ==> sum_amounts(pre.take(m - 1)) < amount)
    &&& post == pre.skip(m)
    &&& tx.inputs@.len() == m
    &&& forall|k: int|
        0 <= k < m ==> {
            let inp = #[trigger] tx.inputs@[k];
            &&& inp.from_addr@ == addr
            &&& inp.public_key@ == pk
            &&& inp.prev_tx_hash@ == pre[k].0
            &&& inp.output_index == pre[k].1
            &&& inp.signature@ == rsa_sign_of(priv_pem, input_hashable_spec(inp))
        }
    &&& tx.outputs@.len() == (if total > amount {
        2int
    } else {
        1int
    })
    &&& tx.outputs@[0].to_addr@ == to_addr
    &&& tx.outputs@[0].amount == amount
    &&& (total > amount ==> tx.outputs@[1].to_addr@ == addr && tx.outputs@[1].amount == total
        - amount)
}

/// A successful send: some minimal input count `m` witnesses
/// `send_witness_spec`.
pub open spec fn send_ok_spec(
    pre: Seq<UtxoRef>,
    post: Seq<UtxoRef>,
    tx: Transaction,
    to_addr: Seq<u8>,
    amount: u32,
    addr: Seq<u8>,
    pk: Seq<u8>,
    priv_pem: Seq<u8>,
) -> bool {
    exists|m: int|
        #[trigger] send_witness_spec(pre, post, tx, to_addr, amount, addr, pk, priv_pem, m)
}

/// Whether every input of `t` carries a signature that verifies, under the
/// key embedded in the input, over the input's cleared content.
pub open spec fn all_inputs_verify_spec(t: Transaction) -> bool {
    forall|k: int|
        0 <= k < t.inputs@.len() ==> {
            let inp = #[trigger] t.inputs@[k];
            rsa_verifies(inp.public_key@, input_hashable_spec(inp), inp.signature@)
        }
}

/// Whether every key embedded in `t`'s inputs is usable for verification.
pub open spec fn tx_keys_usable_spec(t: Transaction) -> bool {
    forall|k: int|
        0 <= k < t.inputs@.len() ==> rsa_public_key_usable(
            (#[trigger] t.inputs@[k]).public_key@,
        )
}

/// Derives the wallet address from a public key.
pub fn compute_address(public_key_pem: &Vec<u8>) -> (r: Vec<u8>)
    ensures
        r@ == address_of_spec(public_key_pem@),
{
    let h1 = sha256(public_key_pem);
    let rip = ripemd160(&h1);
    let c1 = sha256(&rip);
    let c2 = sha256(&c1);
    let mut extended: Vec<u8> = Vec::new();
    push_bytes(&mut extended, &rip);
    let mut i: usize = 0;
    while i < 4
        invariant
            0 <= i <= 4,
            c2@.len() == 32,
            extended@ == ripemd160_of(sha256_of(public_key_pem@)) + c2@.take(i as int),
        decreases 4 - i,
    {
        extended.push(c2[i]);
        proof {
            assert(c2@.take(i + 1) =~= c2@.take(i as int).push(c2@[i as int]));
            assert(extended@ =~= ripemd160_of(sha256_of(public_key_pem@)) + c2@.take(i + 1));
        }
        i = i + 1;
    }
    crate::crypto::base58_encode(&extended)
}

/// A wallet: its address, RSA key pair (as PEM bytes) and unspent set.
pub struct Wallet {
    address: Vec<u8>,
    private_key_pem: Vec<u8>,
    public_key_pem: Vec<u8>,
    utxos: Vec<UtxoEntry>,
}

impl Wallet {
    /// The wallet's address bytes.
    pub closed spec fn address_seq(self) -> Seq<u8> {
        self.address@
    }

    /// The wallet's public key, as PEM bytes.
    pub closed spec fn public_key_seq(self) -> Seq<u8> {
        self.public_key_pem@
    }

    /// The wallet's private key, as PEM bytes.
    pub closed spec fn private_key_seq(self) -> Seq<u8> {
        self.private_key_pem@
    }

    /// The unspent set, in stored order.
    pub closed spec fn utxos_model(self) -> Seq<UtxoRef> {
        self.utxos@.map_values(|e: UtxoEntry| (e.tx_hash@, e.output_index, e.output.amount))
    }

    /// The balance: the sum of all unspent amounts.
    pub open spec fn balance_spec(self) -> int {
        sum_amounts(self.utxos_model())
    }

    /// Wallet well-formedness: the address derives from the public key, the
    /// keys are a usable RSA pair whose signatures verify under the public
    /// key, no unspent key appears twice, and the set is below capacity.
    pub open spec fn wf(self) -> bool {
        &&& self.address_seq() == address_of_spec(self.public_key_seq())
        &&& rsa_private_key_usable(self.private_key_seq())
        &&& rsa_public_key_usable(self.public_key_seq())
        &&& forall|msg: Seq<u8>|
            #[trigger] rsa_verifies(self.public_key_seq(), msg, rsa_sign_of(
                self.private_key_seq(),
                msg,
            ))
        &&& unique_keys(self.utxos_model())
        &&& self.utxos_model().len() <= u32::MAX
    }

    /// Creates a wallet with a fresh RSA key pair and an empty unspent set.
    /// Returns `None` when key generation fails.
    pub fn new() -> (r: Option<Wallet>)
        ensures
            r matches Some(w) ==> w.wf() && w.utxos_model().len() == 0 && w.balance_spec() == 0,
    {
        let (private_key_pem, public_key_pem) = match generate_rsa_keypair() {
            Some(kp) => kp,
            None => return None,
        };
        let address = compute_address(&public_key_pem);
        Some(Wallet { address, private_key_pem, public_key_pem, utxos: Vec::new() })
    }

    /// The wallet's address.
    pub fn get_address(&self) -> (r: Vec<u8>)
        ensures
            r@ == self.address_seq(),
    {
        self.address.clone()
    }

    /// The wallet's public key as PEM bytes.
    pub fn get_public_key(&self) -> (r: Vec<u8>)
        ensures
            r@ == self.public_key_seq(),
    {
        self.public_key_pem.clone()
    }

    /// How many unspent entries the wallet holds.
    pub fn unspent_count(&self) -> (r: usize)
        ensures
            r == self.utxos_model().len(),
    {
        self.utxos.len()
    }

    /// The current balance: the sum of all unspent amounts.
    pub fn get_balance(&self) -> (r: u64)
        requires
            self.wf(),
        ensures
            r == self.balance_spec(),
    {
        proof {
            lemma_sum_amounts_bound(self.utxos_model());
        }
        let n = self.utxos.len();
        let mut total: u64 = 0;
        let mut k: usize = 0;
        while k < n
            invariant
                0 <= k <= n,
                n == self.utxos@.len(),
                self.wf(),
                total == sum_amounts(self.utxos_model().take(k as int)),
            decreases n - k,
        {
            proof {
                lemma_sum_amounts_take_step(self.utxos_model(), k as int);
                lemma_sum_amounts_bound(self.utxos_model().take(k + 1));
                lemma_sum_amounts_nonneg(self.utxos_model().take(k as int));
                assert(self.utxos_model().take(k + 1).len() <= u32::MAX);
                assert((k + 1) * (u32::MAX as int) <= (u32::MAX as int) * (u32::MAX as int))
                    by (nonlinear_arith)
                    requires
                        0 <= k + 1 <= u32::MAX as int,
                ;
                assert(self.utxos_model()[k as int].2 == self.utxos@[k as int].output.amount);
            }
            total = total + (self.utxos[k].output.amount as u64);
            k = k + 1;
        }
        proof {
            assert(self.utxos_model().take(n as int) =~= self.utxos_model());
        }
        total
    }

    /// Builds the air-drop transaction: no inputs and one output paying this
    /// wallet `amount`. Observing it credits the wallet.
    pub fn air_drop(&self, amount: u32) -> (tx: Transaction)
        ensures
            tx.inputs@.len() == 0,
            tx.outputs@.len() == 1,
            tx.outputs@[0].to_addr@ == self.address_seq(),
            tx.outputs@[0].amount == amount,
    {
        let mut outputs: Vec<UtxoOutput> = Vec::new();
        outputs.push(UtxoOutput { to_addr: self.address.clone(), amount });
        Transaction { inputs: Vec::new(), outputs }
    }

    /// Records every output of `tx` that pays this wallet, keyed by the
    /// transaction hash and output index; keys already present are left
    /// unchanged.
    pub fn observe_transaction(&mut self, tx: &Transaction)
        requires
            old(self).wf(),
        ensures
            final(self).wf(),
            final(self).address_seq() == old(self).address_seq(),
            final(self).public_key_seq() == old(self).public_key_seq(),
            final(self).private_key_seq() == old(self).private_key_seq(),
            final(self).utxos_model() == observe_upto_spec(
                old(self).utxos_model(),
                tx.outputs@,
                tx_hash_spec(*tx),
                old(self).address_seq(),
                tx.outputs@.len() as int,
            ),
    {
        let h = tx.hash();
        let n = tx.outputs.len();
        let mut i: usize = 0;
        while i < n
            invariant
                0 <= i <= n,
                n == tx.outputs@.len(),
                h@ == tx_hash_spec(*tx),
                self.wf(),
                self.address_seq() == old(self).address_seq(),
                self.public_key_seq() == old(self).public_key_seq(),
                self.private_key_seq() == old(self).private_key_seq(),
                self.utxos_model() == observe_upto_spec(
                    old(self).utxos_model(),
                    tx.outputs@,
                    tx_hash_spec(*tx),
                    old(self).address_seq(),
                    i as int,
                ),
            decreases n - i,
        {
            let ghost pre_model = self.utxos_model();
            let o = &tx.outputs[i];
            let pays_us = bytes_eq(&o.to_addr, &self.address);
            let fits = i <= (u32::MAX as usize) && self.utxos.len() < (u32::MAX as usize);
            let fresh = if pays_us && fits {
                !self.key_present_exec(&h, i as u32)
            } else {
                false
            };
            if pays_us && fits && fresh {
                let entry = UtxoEntry {
                    tx_hash: h.clone(),
                    output_index: i as u32,
                    output: UtxoOutput { to_addr: o.to_addr.clone(), amount: o.amount },
                };
                self.utxos.push(entry);
                proof {
                    assert(self.utxos_model() =~= pre_model.push(
                        (h@, i as u32, tx.outputs@[i as int].amount),
                    ));
                    assert(self.utxos_model() == observe_step_spec(
                        pre_model,
                        tx.outputs@[i as int],
                        tx_hash_spec(*tx),
                        old(self).address_seq(),
                        i as int,
                    ));
                }
            } else {
                proof {
                    assert(self.utxos_model() == observe_step_spec(
                        pre_model,
                        tx.outputs@[i as int],
                        tx_hash_spec(*tx),
                        old(self).address_seq(),
                        i as int,
                    ));
                }
            }
            i = i + 1;
        }
    }

    /// Signs one input over its cleared content with this wallet's private
    /// key and attaches the signature; every other field is left unchanged.
    /// A well-formed wallet's key always signs, so this never fails.
    pub fn sign_transaction(&self, input: &mut UtxoInput) -> (r: Result<(), WalletError>)
        requires
            self.wf(),
        ensures
            r is Ok,
            final(input).from_addr@ == old(input).from_addr@,
            final(input).public_key@ == old(input).public_key@,
            final(input).prev_tx_hash@ == old(input).prev_tx_hash@,
            final(input).output_index == old(input).output_index,
            final(input).signature@ == rsa_sign_of(
                self.private_key_seq(),
                input_hashable_spec(*final(input)),
            ),
            old(input).public_key@ == self.public_key_seq() ==> rsa_verifies(
                final(input).public_key@,
                input_hashable_spec(*final(input)),
                final(input).signature@,
            ),
    {
        let content = input.hashable_content();
        let sig = rsa_sha256_sign(&self.private_key_pem, &content).unwrap();
        input.set_signature(sig);
        Ok(())
    }

    /// Reacts to one bus event: an observed transaction updates the unspent
    /// set; every other event leaves the wallet unchanged.
    pub fn on_event(&mut self, event: &crate::events::RustchainEvent)
        requires
            old(self).wf(),
        ensures
            final(self).wf(),
            final(self).address_seq() == old(self).address_seq(),
            final(self).public_key_seq() == old(self).public_key_seq(),
            final(self).private_key_seq() == old(self).private_key_seq(),
            event matches crate::events::RustchainEvent::NewTransaction(tx) ==> final(
                self).utxos_model() == observe_upto_spec(
                old(self).utxos_model(),
                tx.outputs@,
                tx_hash_spec(*tx),
                old(self).address_seq(),
                tx.outputs@.len() as int,
            ),
            !(event matches crate::events::RustchainEvent::NewTransaction(_)) ==> *final(self)
                == *old(self),
    {
        match event {
            crate::events::RustchainEvent::NewTransaction(tx) => {
                self.observe_transaction(tx);
            },
            _ => {},
        }
    }

    /// Sends `amount` to `to_addr`: fails with `InsufficientFunds` when, and
    /// only when, the balance is too small, leaving the unspent set
    /// unchanged; otherwise succeeds, consuming a minimal prefix of the
    /// unspent set (in stored order), signing each input individually over
    /// its cleared content, paying the recipient, and returning any overshoot
    /// to this wallet as a change output.
    #[verifier::rlimit(100)]
    #[verifier::spinoff_prover]
    pub fn send_transaction(&mut self, to_addr: &Vec<u8>, amount: u32) -> (r: Result<
        Transaction,
        WalletError,
    >)
        requires
            old(self).wf(),
        ensures
            final(self).wf(),
            final(self).address_seq() == old(self).address_seq(),
            final(self).public_key_seq() == old(self).public_key_seq(),
            final(self).private_key_seq() == old(self).private_key_seq(),
            (old(self).balance_spec() >= amount) <==> (r is Ok),
            r is Err ==> r == Err::<Transaction, WalletError>(WalletError::InsufficientFunds)
                && final(self).utxos_model() == old(self).utxos_model(),
            r matches Ok(tx) ==> send_ok_spec(
                old(self).utxos_model(),
                final(self).utxos_model(),
                tx,
                to_addr@,
                amount,
                old(self).address_seq(),
                old(self).public_key_seq(),
                old(self).private_key_seq(),
            ),
            r matches Ok(tx) ==> all_inputs_verify_spec(tx) && tx_keys_usable_spec(tx),
    {
        let balance = self.get_balance();
        if balance < amount as u64 {
            return Err(WalletError::InsufficientFunds);
        }
        let ghost model = self.utxos_model();
        proof {
            lemma_sum_amounts_bound(model);
        }
        let mut inputs: Vec<UtxoInput> = Vec::new();
        let mut total: u64 = 0;
        let mut k: usize = 0;
        while total < amount as u64
            invariant
                self.wf(),
                model == self.utxos_model(),
                0 <= k <= model.len(),
                k <= u32::MAX,
                sum_amounts(model) == balance,
                balance >= amount,
                total == sum_amounts(model.take(k as int)),
                total < amount ==> k < model.len(),
                k > 0 ==> sum_amounts(model.take(k - 1)) < amount,
                inputs@.len() == k,
                forall|q: int|
                    0 <= q < k ==> {
                        let inp = #[trigger] inputs@[q];
                        &&& inp.from_addr@ == self.address_seq()
                        &&& inp.public_key@ == self.public_key_seq()
                        &&& inp.prev_tx_hash@ == model[q].0
                        &&& inp.output_index == model[q].1
                        &&& inp.signature@ == rsa_sign_of(
                            self.private_key_seq(),
                            input_hashable_spec(inp),
                        )
                    },
            decreases model.len() - k,
        {
            let e = &self.utxos[k];
            let mut inp = UtxoInput {
                from_addr: self.address.clone(),
                public_key: self.public_key_pem.clone(),
                prev_tx_hash: e.tx_hash.clone(),
                output_index: e.output_index,
                signature: Vec::new(),
            };
            let content = inp.hashable_content();
            let sig = rsa_sha256_sign(&self.private_key_pem, &content).unwrap();
            inp.set_signature(sig);
            proof {
                assert(input_hashable_spec(inp) == content@);
                assert(model[k as int] == (e.tx_hash@, e.output_index, e.output.amount));
                lemma_sum_amounts_take_step(model, k as int);
                lemma_sum_amounts_bound(model.take(k + 1));
                lemma_sum_amounts_nonneg(model.take(k as int));
                assert((k + 1) * (u32::MAX as int) <= (u32::MAX as int) * (u32::MAX as int))
                    by (nonlinear_arith)
                    requires
                        0 <= k + 1 <= u32::MAX as int,
                ;
            }
            let amt = self.utxos[k].output.amount;
            inputs.push(inp);
            total = total + (amt as u64);
            k = k + 1;
            proof {
                if total < amount as u64 {
                    lemma_sum_amounts_prefix_monotone(model, k as int);
                }
            }
        }
        let ghost m = k as int;
        let mut outputs: Vec<UtxoOutput> = Vec::new();
        let mut out_addr: Vec<u8> = Vec::new();
        push_bytes(&mut out_addr, to_addr);
        outputs.push(UtxoOutput { to_addr: out_addr, amount });
        if total > amount as u64 {
            proof {
                assert(k > 0);
                lemma_sum_amounts_take_step(model, k - 1);
                lemma_sum_amounts_nonneg(model.take(k - 1));
            }
            let change = (total - amount as u64) as u32;
            outputs.push(UtxoOutput { to_addr: self.address.clone(), amount: change });
        }
        let rest = self.utxos.split_off(k);
        self.utxos = rest;
        let tx = Transaction { inputs, outputs };
        proof {
            assert(self.utxos_model() =~= model.skip(m));
            lemma_unique_keys_skip(model, m);
            assert(send_witness_spec(
                model,
                self.utxos_model(),
                tx,
                to_addr@,
                amount,
                old(self).address_seq(),
                old(self).public_key_seq(),
                old(self).private_key_seq(),
                m,
            ));
            assert(model == old(self).utxos_model());
            assert forall|q: int| 0 <= q < tx.inputs@.len() implies {
                let inp = #[trigger] tx.inputs@[q];
                rsa_verifies(inp.public_key@, input_hashable_spec(inp), inp.signature@)
                    && rsa_public_key_usable(inp.public_key@)
            } by {
                let inp = tx.inputs@[q];
                assert(rsa_verifies(
                    self.public_key_seq(),
                    input_hashable_spec(inp),
                    rsa_sign_of(self.private_key_seq(), input_hashable_spec(inp)),
                ));
            }
            assert(send_ok_spec(
                old(self).utxos_model(),
                self.utxos_model(),
                tx,
                to_addr@,
                amount,
                old(self).address_seq(),
                old(self).public_key_seq(),
                old(self).private_key_seq(),
            ));
        }
        Ok(tx)
    }

    /// Verifies every input of `transaction` against the public key it
    /// embeds, over the input's cleared content. A verdict is owed whenever
    /// every embedded key is usable: `Ok(true)` means every input verifies,
    /// and `Err(InvalidKey)` comes exactly when some embedded key cannot be
    /// used at all.
    pub fn verify_transaction_signature(transaction: &Transaction) -> (r: Result<
        bool,
        WalletError,
    >)
        ensures
            r matches Ok(b) ==> b == all_inputs_verify_spec(*transaction),
            (r is Err) <==> !tx_keys_usable_spec(*transaction),
            r is Err ==> r == Err::<bool, WalletError>(WalletError::InvalidKey),
    {
        let n = transaction.inputs.len();
        let mut all_ok = true;
        let mut k: usize = 0;
        while k < n
            invariant
                0 <= k <= n,
                n == transaction.inputs@.len(),
                forall|q: int|
                    0 <= q < k ==> rsa_public_key_usable(
                        (#[trigger] transaction.inputs@[q]).public_key@,
                    ),
                all_ok == (forall|q: int|
                    0 <= q < k ==> {
                        let inp = #[trigger] transaction.inputs@[q];
                        rsa_verifies(inp.public_key@, input_hashable_spec(inp), inp.signature@)
                    }),
            decreases n - k,
        {
            let inp = &transaction.inputs[k];
            let content = inp.hashable_content();
            let ok = match rsa_sha256_verify(&inp.public_key, &content, &inp.signature) {
                Some(b) => b,
                None => {
                    proof {
                        assert(!rsa_public_key_usable(transaction.inputs@[k as int].public_key@));
                    }
                    return Err(WalletError::InvalidKey);
                },
            };
            all_ok = all_ok && ok;
            k = k + 1;
        }
        Ok(all_ok)
    }

    /// Whether an entry with key `(h, idx)` is already present.
    fn key_present_exec(&self, h: &Vec<u8>, idx: u32) -> (r: bool)
        ensures
            r == key_present(self.utxos_model(), h@, idx),
    {
        let n = self.utxos.len();
        let mut k: usize = 0;
        while k < n
            invariant
                0 <= k <= n,
                n == self.utxos@.len(),
                forall|m: int|
                    0 <= m < k ==> !(self.utxos_model()[m].0 == h@ && self.utxos_model()[m].1
                        == idx),
            decreases n - k,
        {
            proof {
                assert(self.utxos_model()[k as int] == (
                    self.utxos@[k as int].tx_hash@,
                    self.utxos@[k as int].output_index,
                    self.utxos@[k as int].output.amount,
                ));
            }
            if self.utxos[k].output_index == idx && bytes_eq(&self.utxos[k].tx_hash, h) {
                return true;
            }
            k = k + 1;
        }
        false
    }
}

/// The sum over any prefix grows by the element at its end.
proof fn lemma_sum_amounts_take_step(s: Seq<UtxoRef>, k: int)
    requires
        0 <= k < s.len(),
    ensures
        sum_amounts(s.take(k + 1)) == sum_amounts(s.take(k)) + s[k].2,
{
    assert(s.take(k + 1).drop_last() =~= s.take(k));
    assert(s.take(k + 1).last() == s[k]);
}

/// The sum over a concatenation splits.
proof fn lemma_sum_amounts_add(a: Seq<UtxoRef>, b: Seq<UtxoRef>)
    ensures
        sum_amounts(a + b) == sum_amounts(a) + sum_amounts(b),
    decreases b.len(),
{
    if b.len() == 0 {
        assert(a + b =~= a);
    } else {
        assert((a + b).drop_last() =~= a + b.drop_last());
        assert((a + b).last() == b.last());
        lemma_sum_amounts_add(a, b.drop_last());
    }
}

/// The sum splits at any index.
proof fn lemma_sum_amounts_take_skip(s: Seq<UtxoRef>, m: int)
    requires
        0 <= m <= s.len(),
    ensures
        sum_amounts(s) == sum_amounts(s.take(m)) + sum_amounts(s.skip(m)),
{
    assert(s =~= s.take(m) + s.skip(m));
    lemma_sum_amounts_add(s.take(m), s.skip(m));
}

/// Appending one entry adds its amount.
proof fn lemma_sum_amounts_push(s: Seq<UtxoRef>, e: UtxoRef)
    ensures
        sum_amounts(s.push(e)) == sum_amounts(s) + e.2,
{
    assert(s.push(e).drop_last() =~= s);
    assert(s.push(e).last() == e);
}

/// Law (wallet round trip, balance accounting): an air-dropped amount
/// observed by a fresh wallet yields exactly that balance; and after a
/// successful send of `amount`, once both wallets observe the sent
/// transaction, the sender's balance has dropped by exactly `amount` and the
/// recipient's has grown by exactly `amount`. (That the sent transaction's
/// signatures verify is ensured by `send_transaction` itself, from the
/// wallet's key-pair invariant.)
pub proof fn lemma_wallet_round_trip_balances(
    pre: Seq<UtxoRef>,
    mid: Seq<UtxoRef>,
    tx: Transaction,
    to_addr: Seq<u8>,
    amount: u32,
    addr: Seq<u8>,
    pk: Seq<u8>,
    priv_pem: Seq<u8>,
    m: int,
    rec_pre: Seq<UtxoRef>,
    h: Seq<u8>,
)
    requires
        send_witness_spec(pre, mid, tx, to_addr, amount, addr, pk, priv_pem, m),
        addr != to_addr,
        h == tx_hash_spec(tx),
        forall|idx: u32| !key_present(mid, h, idx),
        forall|idx: u32| !key_present(rec_pre, h, idx),
        mid.len() < u32::MAX,
        rec_pre.len() < u32::MAX,
    ensures
        sum_amounts(
            observe_upto_spec(mid, tx.outputs@, h, addr, tx.outputs@.len() as int),
        ) == sum_amounts(pre) - amount,
        sum_amounts(
            observe_upto_spec(rec_pre, tx.outputs@, h, to_addr, tx.outputs@.len() as int),
        ) == sum_amounts(rec_pre) + amount,
{
    reveal_with_fuel(observe_upto_spec, 3);
    let total = sum_amounts(pre.take(m));
    lemma_sum_amounts_take_skip(pre, m);
    let outs = tx.outputs@;
    if total > amount {
        // sender: the recipient output is skipped, the change output credits
        let s1 = observe_upto_spec(mid, outs, h, addr, 1);
        assert(s1 == observe_step_spec(mid, outs[0], h, addr, 0));
        assert(outs[0].to_addr@ != addr);
        assert(s1 == mid);
        let s2 = observe_upto_spec(mid, outs, h, addr, 2);
        assert(s2 == observe_step_spec(s1, outs[1], h, addr, 1));
        assert(outs[1].to_addr@ == addr);
        assert(!key_present(mid, h, 1u32));
        assert(s2 == mid.push((h, 1u32, outs[1].amount)));
        lemma_sum_amounts_push(mid, (h, 1u32, outs[1].amount));
        // recipient: the first output credits, the change output is skipped
        let r1 = observe_upto_spec(rec_pre, outs, h, to_addr, 1);
        assert(r1 == observe_step_spec(rec_pre, outs[0], h, to_addr, 0));
        assert(!key_present(rec_pre, h, 0u32));
        assert(r1 == rec_pre.push((h, 0u32, amount)));
        lemma_sum_amounts_push(rec_pre, (h, 0u32, amount));
        let r2 = observe_upto_spec(rec_pre, outs, h, to_addr, 2);
        assert(r2 == observe_step_spec(r1, outs[1], h, to_addr, 1));
        assert(outs[1].to_addr@ == addr);
        assert(r2 == r1);
    } else {
        // exactly covered: one output, paying the recipient
        let s1 = observe_upto_spec(mid, outs, h, addr, 1);
        assert(s1 == observe_step_spec(mid, outs[0], h, addr, 0));
        assert(outs[0].to_addr@ != addr);
        assert(s1 == mid);
        let r1 = observe_upto_spec(rec_pre, outs, h, to_addr, 1);
        assert(r1 == observe_step_spec(rec_pre, outs[0], h, to_addr, 0));
        assert(!key_present(rec_pre, h, 0u32));
        assert(r1 == rec_pre.push((h, 0u32, amount)));
        lemma_sum_amounts_push(rec_pre, (h, 0u32, amount));
    }
}

/// Law (air-drop credit): a wallet with an empty unspent set that observes an
/// air-drop paying it `amount` ends with balance exactly `amount`.
pub proof fn lemma_air_drop_balance(outs: Seq<UtxoOutput>, h: Seq<u8>, addr: Seq<u8>, amount: u32)
    requires
        outs.len() == 1,
        outs[0].to_addr@ == addr,
        outs[0].amount == amount,
    ensures
        sum_amounts(observe_upto_spec(Seq::<UtxoRef>::empty(), outs, h, addr, 1)) == amount,
{
    reveal_with_fuel(observe_upto_spec, 2);
    let s0 = Seq::<UtxoRef>::empty();
    let s1 = observe_upto_spec(s0, outs, h, addr, 1);
    assert(s1 == observe_step_spec(s0, outs[0], h, addr, 0));
    assert(!key_present(s0, h, 0u32));
    assert(s1 == s0.push((h, 0u32, amount)));
    lemma_sum_amounts_push(s0, (h, 0u32, amount));
}

/// Prefix sums never shrink as the prefix grows by one.
proof fn lemma_sum_amounts_prefix_monotone(s: Seq<UtxoRef>, k: int)
    requires
        0 < k <= s.len(),
    ensures
        sum_amounts(s.take(k)) <= sum_amounts(s),
    decreases s.len() - k,
{
    if k == s.len() {
        assert(s.take(k) =~= s);
    } else {
        lemma_sum_amounts_take_step(s, k);
        lemma_sum_amounts_prefix_monotone(s, k + 1);
    }
}

/// Dropping a prefix keeps the remaining keys unique.
proof fn lemma_unique_keys_skip(s: Seq<UtxoRef>, m: int)
    requires
        0 <= m <= s.len(),
        unique_keys(s),
    ensures
        unique_keys(s.skip(m)),
{
    assert forall|i: int, j: int|
        0 <= i < j < s.skip(m).len() implies !(s.skip(m)[i].0 == s.skip(m)[j].0 && s.skip(m)[i].1
        == s.skip(m)[j].1) by {
        assert(s.skip(m)[i] == s[i + m]);
        assert(s.skip(m)[j] == s[j + m]);
    }
}

/// The sum of amounts is nonnegative.
proof fn lemma_sum_amounts_nonneg(s: Seq<UtxoRef>)
    ensures
        sum_amounts(s) >= 0,
    decreases s.len(),
{
    if s.len() > 0 {
        lemma_sum_amounts_nonneg(s.drop_last());
    }
}

/// The sum of amounts is at most one u32 maximum per entry.
proof fn lemma_sum_amounts_bound(s: Seq<UtxoRef>)
    ensures
        sum_amounts(s) <= s.len() * (u32::MAX as int),
    decreases s.len(),
{
    if s.len() > 0 {
        lemma_sum_amounts_bound(s.drop_last());
        assert(s.len() * (u32::MAX as int) == (s.len() - 1) * (u32::MAX as int) + (
        u32::MAX as int)) by (nonlinear_arith);
    }
}

} // verus!
