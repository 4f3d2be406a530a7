//! Transactions: typed inputs and outputs, hashing, the reward (coinbase)
//! form, miner-fee attachment, and the two-phase signing builder.

use vstd::prelude::*;
use crate::hash::{sha256, sha256_of};
use crate::script::{Script, OpView, p2pkh_locking, p2pkh_unlocking, spec_sig_hash, compute_sig_hash, lemma_sig_hash_ignores_unlocking_scripts};
use crate::keys::{sign_message, signature_of, valid_signing_key, public_key_of, sig_verifies};
use crate::codec::{enc_transaction, write_transaction};
use crate::timestamp::get_timestamp;

verus! {

/// A reference to a spendable output, with the script that unlocks it.
pub struct TxInput {
    pub prev: Vec<u8>,
    pub output_index: u64,
    pub unlocking_script: Script,
}

#[verifier::ext_equal]
pub struct TxInputV {
    pub prev: Seq<u8>,
    pub output_index: u64,
    pub unlocking_script: Seq<OpView>,
}

impl View for TxInput {
    type V = TxInputV;

    open spec fn view(&self) -> TxInputV {
        TxInputV {
            prev: self.prev@,
            output_index: self.output_index,
            unlocking_script: self.unlocking_script@,
        }
    }
}

impl Clone for TxInput {
    fn clone(&self) -> (res: Self)
        ensures
            res@ == self@,
    {
        let prev = self.prev.clone();
        assert(prev@ =~= self.prev@);
        TxInput {
            prev,
            output_index: self.output_index,
            unlocking_script: self.unlocking_script.clone(),
        }
    }
}

/// A value locked behind a script.
pub struct TxOutput {
    pub value: u64,
    pub locking_script: Script,
}

#[verifier::ext_equal]
pub struct TxOutputV {
    pub value: u64,
    pub locking_script: Seq<OpView>,
}

impl View for TxOutput {
    type V = TxOutputV;

    open spec fn view(&self) -> TxOutputV {
        TxOutputV { value: self.value, locking_script: self.locking_script@ }
    }
}

impl Clone for TxOutput {
    fn clone(&self) -> (res: Self)
        ensures
            res@ == self@,
    {
        TxOutput { value: self.value, locking_script: self.locking_script.clone() }
    }
}

/// A value transfer: inputs consume outputs of earlier transactions, outputs
/// create new spendable values.
pub struct Transaction {
    pub timestamp: u64,
    pub version: u64,
    pub inputs: Vec<TxInput>,
    pub outputs: Vec<TxOutput>,
}

#[verifier::ext_equal]
pub struct TransactionV {
    pub timestamp: u64,
    pub version: u64,
    pub inputs: Seq<TxInputV>,
    pub outputs: Seq<TxOutputV>,
}

impl View for Transaction {
    type V = TransactionV;

    open spec fn view(&self) -> TransactionV {
        TransactionV {
            timestamp: self.timestamp,
            version: self.version,
            inputs: self.inputs@.map_values(|i: TxInput| i@),
            outputs: self.outputs@.map_values(|o: TxOutput| o@),
        }
    }
}

pub fn clone_inputs(inputs: &Vec<TxInput>) -> (res: Vec<TxInput>)
    ensures
        res@.map_values(|i: TxInput| i@) == inputs@.map_values(|i: TxInput| i@),
{
    let mut out: Vec<TxInput> = Vec::new();
    let mut k: usize = 0;
    while k < inputs.len()
        invariant
            k <= inputs.len(),
            out@.len() == k,
            forall|j: int| 0 <= j < k ==> out@[j]@ == inputs@[j]@,
        decreases inputs.len() - k,
    {
        out.push(inputs[k].clone());
        k = k + 1;
    }
    assert(out@.map_values(|i: TxInput| i@) =~= inputs@.map_values(|i: TxInput| i@));
    out
}

pub fn clone_outputs(outputs: &Vec<TxOutput>) -> (res: Vec<TxOutput>)
    ensures
        res@.map_values(|o: TxOutput| o@) == outputs@.map_values(|o: TxOutput| o@),
{
    let mut out: Vec<TxOutput> = Vec::new();
    let mut k: usize = 0;
    while k < outputs.len()
        invariant
            k <= outputs.len(),
            out@.len() == k,
            forall|j: int| 0 <= j < k ==> out@[j]@ == outputs@[j]@,
        decreases outputs.len() - k,
    {
        out.push(outputs[k].clone());
        k = k + 1;
    }
    assert(out@.map_values(|o: TxOutput| o@) =~= outputs@.map_values(|o: TxOutput| o@));
    out
}

/// The views of a list of transactions.
pub open spec fn txs_view(v: Seq<Transaction>) -> Seq<TransactionV> {
    v.map_values(|t: Transaction| t@)
}

pub fn clone_transactions(txs: &Vec<Transaction>) -> (res: Vec<Transaction>)
    ensures
        txs_view(res@) == txs_view(txs@),
{
    let mut out: Vec<Transaction> = Vec::new();
    let mut k: usize = 0;
    while k < txs.len()
        invariant
            k <= txs.len(),
            out@.len() == k,
            forall|j: int| 0 <= j < k ==> out@[j]@ == txs@[j]@,
        decreases txs.len() - k,
    {
        out.push(txs[k].clone());
        k = k + 1;
    }
    assert(txs_view(out@) =~= txs_view(txs@));
    out
}

impl Clone for Transaction {
    fn clone(&self) -> (res: Self)
        ensures
            res@ == self@,
    {
        Transaction {
            timestamp: self.timestamp,
            version: self.version,
            inputs: clone_inputs(&self.inputs),
            outputs: clone_outputs(&self.outputs),
        }
    }
}

/// The transaction identity: the SHA-256 digest of the canonical encoding.
pub open spec fn spec_tx_hash(t: TransactionV) -> Seq<u8> {
    sha256_of(enc_transaction(t))
}

/// The view of a coinbase (reward) transaction.
pub open spec fn spec_reward_tx(
    timestamp: u64,
    reward: u64,
    pkh: Seq<u8>,
    version: u64,
) -> TransactionV {
    TransactionV {
        timestamp,
        version,
        inputs: Seq::empty(),
        outputs: seq![TxOutputV { value: reward, locking_script: p2pkh_locking(pkh) }],
    }
}

impl Transaction {
    pub fn to_bytes(&self) -> (r: Vec<u8>)
        ensures
            r@ == enc_transaction(self@),
    {
        let mut out: Vec<u8> = Vec::new();
        write_transaction(&mut out, self);
        out
    }

    pub fn get_hash(&self) -> (r: Vec<u8>)
        ensures
            r@ == spec_tx_hash(self@),
            r@.len() == 32,
    {
        sha256(self.to_bytes())
    }

    /// The coinbase transaction: no inputs, a single output paying `reward`
    /// to the holder of `public_key`. Stamped with the current wall-clock
    /// time.
    pub fn reward(reward: u64, public_key: &Vec<u8>, version: u64) -> (r: Self)
        ensures
            r@ == spec_reward_tx(r@.timestamp, reward, sha256_of(public_key@), version),
    {
        let pkh = sha256(public_key.clone());
        let r = Transaction {
            timestamp: get_timestamp(),
            version,
            inputs: Vec::new(),
            outputs: vec![TxOutput { value: reward, locking_script: Script::P2PKHLocking(pkh) }],
        };
        assert(r@.inputs =~= Seq::<TxInputV>::empty());
        assert(r@.outputs =~= seq![
            TxOutputV { value: reward, locking_script: p2pkh_locking(sha256_of(public_key@)) },
        ]);
        r
    }

    /// Prepend an output paying `fee` to the holder of `public_key`: the
    /// form in which the miner collects a transaction's fee.
    pub fn add_fee(&mut self, public_key: &Vec<u8>, fee: u64)
        ensures
            final(self)@.timestamp == old(self)@.timestamp,
            final(self)@.version == old(self)@.version,
            final(self)@.inputs == old(self)@.inputs,
            final(self)@.outputs == seq![
                TxOutputV { value: fee, locking_script: p2pkh_locking(sha256_of(public_key@)) },
            ] + old(self)@.outputs,
    {
        let pkh = sha256(public_key.clone());
        self.outputs.insert(0, TxOutput { value: fee, locking_script: Script::P2PKHLocking(pkh) });
        assert(final(self)@.outputs =~= seq![
            TxOutputV { value: fee, locking_script: p2pkh_locking(sha256_of(public_key@)) },
        ] + old(self)@.outputs);
    }

    /// Drop the fee output attached by `add_fee`.
    pub fn remove_fee(&mut self)
        requires
            old(self)@.outputs.len() > 0,
        ensures
            final(self)@.timestamp == old(self)@.timestamp,
            final(self)@.version == old(self)@.version,
            final(self)@.inputs == old(self)@.inputs,
            final(self)@.outputs == old(self)@.outputs.drop_first(),
    {
        self.outputs.remove(0);
        assert(final(self)@.outputs =~= old(self)@.outputs.drop_first());
    }
}

/// What one planned output says: pay `value` to the holder of the public
/// key whose bytes are `recipient`.
pub struct OutputSpec {
    pub value: u64,
    pub recipient: Vec<u8>,
}

#[verifier::ext_equal]
pub struct OutputSpecV {
    pub value: u64,
    pub recipient: Seq<u8>,
}

impl View for OutputSpec {
    type V = OutputSpecV;

    open spec fn view(&self) -> OutputSpecV {
        OutputSpecV { value: self.value, recipient: self.recipient@ }
    }
}

/// The output an output plan turns into: the value locked to the hash of
/// the recipient's key.
pub open spec fn spec_planned_output(o: OutputSpecV) -> TxOutputV {
    TxOutputV { value: o.value, locking_script: p2pkh_locking(sha256_of(o.recipient)) }
}

impl OutputSpec {
    pub fn new(value: u64, recipient: Vec<u8>) -> (r: Self)
        ensures
            r@ == (OutputSpecV { value, recipient: recipient@ }),
    {
        OutputSpec { value, recipient }
    }

    pub fn to_tx_output(&self) -> (r: TxOutput)
        ensures
            r@ == spec_planned_output(self@),
    {
        TxOutput {
            value: self.value,
            locking_script: Script::P2PKHLocking(sha256(self.recipient.clone())),
        }
    }
}

/// One planned input: the funding output's key, and the output itself for
/// signature hashing.
pub struct InputSpec {
    pub prev: Vec<u8>,
    pub output_index: u64,
    pub utxo: TxOutput,
}

#[verifier::ext_equal]
pub struct InputSpecV {
    pub prev: Seq<u8>,
    pub output_index: u64,
    pub utxo: TxOutputV,
}

impl View for InputSpec {
    type V = InputSpecV;

    open spec fn view(&self) -> InputSpecV {
        InputSpecV { prev: self.prev@, output_index: self.output_index, utxo: self.utxo@ }
    }
}

impl InputSpec {
    pub fn new(prev: Vec<u8>, output_index: u64, utxo: TxOutput) -> (r: Self)
        ensures
            r@ == (InputSpecV { prev: prev@, output_index, utxo: utxo@ }),
    {
        InputSpec { prev, output_index, utxo }
    }

    /// The unsigned form of this input.
    fn to_sig_tx_input(&self) -> (r: TxInput)
        ensures
            r@ == (TxInputV {
                prev: self@.prev,
                output_index: self@.output_index,
                unlocking_script: Seq::empty(),
            }),
    {
        let prev = self.prev.clone();
        assert(prev@ =~= self.prev@);
        TxInput { prev, output_index: self.output_index, unlocking_script: Script::empty() }
    }
}

/// The plan for a transaction: who signs, what is spent, what is paid.
pub struct TransactionSpec {
    pub public_key: Vec<u8>,
    pub private_key: Vec<u8>,
    pub inputs: Vec<InputSpec>,
    pub outputs: Vec<OutputSpec>,
    pub version: u64,
}

/// The unsigned transaction a plan materialises at time `ts`.
pub open spec fn spec_planned_tx(
    inputs: Seq<InputSpecV>,
    outputs: Seq<OutputSpecV>,
    version: u64,
    ts: u64,
) -> TransactionV {
    TransactionV {
        timestamp: ts,
        version,
        inputs: inputs.map(|j: int, i: InputSpecV| TxInputV {
            prev: i.prev,
            output_index: i.output_index,
            unlocking_script: Seq::empty(),
        }),
        outputs: outputs.map_values(|o: OutputSpecV| spec_planned_output(o)),
    }
}

/// The signature for input `j` of `t`, as the plan's key produces it, is
/// one the derived public key accepts.
pub open spec fn spec_input_sig_ok(sk: Seq<u8>, t: TransactionV, j: int, utxo: TxOutputV) -> bool {
    sig_verifies(
        public_key_of(sk),
        spec_sig_hash(t, j, utxo),
        signature_of(sk, spec_sig_hash(t, j, utxo)),
    )
}

/// The plan's transaction, each input signed: input `j` carries the
/// canonical unlocking script over the signature of its signature hash.
pub open spec fn spec_signed_tx(
    t: TransactionV,
    utxos: Seq<TxOutputV>,
    sk: Seq<u8>,
    pk: Seq<u8>,
) -> TransactionV {
    TransactionV {
        timestamp: t.timestamp,
        version: t.version,
        inputs: t.inputs.map(|j: int, inp: TxInputV| TxInputV {
            prev: inp.prev,
            output_index: inp.output_index,
            unlocking_script: p2pkh_unlocking(
                signature_of(sk, spec_sig_hash(t, j, utxos[j])), pk,
            ),
        }),
        outputs: t.outputs,
    }
}

impl TransactionSpec {
    pub fn pre_inputs(
        version: u64,
        outputs: Vec<OutputSpec>,
        public_key: Vec<u8>,
        private_key: Vec<u8>,
    ) -> (r: Self)
        ensures
            r.public_key@ == public_key@,
            r.private_key@ == private_key@,
            r.inputs@.len() == 0,
            r.outputs@.map_values(|o: OutputSpec| o@)
                == outputs@.map_values(|o: OutputSpec| o@),
            r.version == version,
    {
        TransactionSpec { public_key, private_key, inputs: Vec::new(), outputs, version }
    }

    /// The unsigned transaction, stamped now.
    fn to_sig_transaction(&self) -> (r: Transaction)
        ensures
            r@ == spec_planned_tx(
                self.inputs@.map_values(|i: InputSpec| i@),
                self.outputs@.map_values(|o: OutputSpec| o@),
                self.version,
                r@.timestamp,
            ),
    {
        let mut inputs: Vec<TxInput> = Vec::new();
        let mut k: usize = 0;
        while k < self.inputs.len()
            invariant
                k <= self.inputs.len(),
                inputs@.len() == k,
                forall|j: int| 0 <= j < k ==> inputs@[j]@ == (TxInputV {
                    prev: self.inputs@[j]@.prev,
                    output_index: self.inputs@[j]@.output_index,
                    unlocking_script: Seq::<crate::script::OpView>::empty(),
                }),
            decreases self.inputs.len() - k,
        {
            inputs.push(self.inputs[k].to_sig_tx_input());
            k = k + 1;
        }
        let mut outputs: Vec<TxOutput> = Vec::new();
        let mut w: usize = 0;
        while w < self.outputs.len()
            invariant
                w <= self.outputs.len(),
                outputs@.len() == w,
                forall|j: int| 0 <= j < w ==> outputs@[j]@
                    == spec_planned_output(self.outputs@[j]@),
            decreases self.outputs.len() - w,
        {
            outputs.push(self.outputs[w].to_tx_output());
            w = w + 1;
        }
        let r = Transaction { timestamp: get_timestamp(), version: self.version, inputs, outputs };
        assert(r@.inputs =~= spec_planned_tx(
            self.inputs@.map_values(|i: InputSpec| i@),
            self.outputs@.map_values(|o: OutputSpec| o@),
            self.version,
            r@.timestamp,
        ).inputs);
        assert(r@.outputs =~= spec_planned_tx(
            self.inputs@.map_values(|i: InputSpec| i@),
            self.outputs@.map_values(|o: OutputSpec| o@),
            self.version,
            r@.timestamp,
        ).outputs);
        assert(r@ =~= spec_planned_tx(
            self.inputs@.map_values(|i: InputSpec| i@),
            self.outputs@.map_values(|o: OutputSpec| o@),
            self.version,
            r@.timestamp,
        ));
        r
    }

    /// Materialise and sign: first the transaction with empty input
    /// scripts, then each input's signature over a hash that sees all
    /// inputs and outputs but no unlocking script.
    pub fn to_transaction(&self) -> (r: Transaction)
        requires
            valid_signing_key(self.private_key@),
        ensures
            r@ == spec_signed_tx(
                spec_planned_tx(
                    self.inputs@.map_values(|i: InputSpec| i@),
                    self.outputs@.map_values(|o: OutputSpec| o@),
                    self.version,
                    r@.timestamp,
                ),
                self.inputs@.map_values(|i: InputSpec| i@.utxo),
                self.private_key@,
                self.public_key@,
            ),
            forall|j: int| 0 <= j < self.inputs@.len() ==> spec_input_sig_ok(
                self.private_key@,
                spec_planned_tx(
                    self.inputs@.map_values(|i: InputSpec| i@),
                    self.outputs@.map_values(|o: OutputSpec| o@),
                    self.version,
                    r@.timestamp,
                ),
                j,
                (#[trigger] self.inputs@[j])@.utxo,
            ),
    {
        let mut transaction = self.to_sig_transaction();
        let ghost unsigned = transaction@;
        let ghost target = spec_signed_tx(
            unsigned,
            self.inputs@.map_values(|i: InputSpec| i@.utxo),
            self.private_key@,
            self.public_key@,
        );
        let mut index: usize = 0;
        assert(transaction.inputs@.len() == self.inputs@.len());
        while index < transaction.inputs.len()
            invariant
                index <= transaction.inputs@.len(),
                transaction.inputs@.len() == unsigned.inputs.len(),
                transaction.inputs@.len() == self.inputs@.len(),
                valid_signing_key(self.private_key@),
                transaction@.timestamp == unsigned.timestamp,
                transaction@.version == unsigned.version,
                transaction@.outputs == unsigned.outputs,
                unsigned == spec_planned_tx(
                    self.inputs@.map_values(|i: InputSpec| i@),
                    self.outputs@.map_values(|o: OutputSpec| o@),
                    self.version,
                    unsigned.timestamp,
                ),
                target == spec_signed_tx(
                    unsigned,
                    self.inputs@.map_values(|i: InputSpec| i@.utxo),
                    self.private_key@,
                    self.public_key@,
                ),
                forall|j: int| 0 <= j < index ==> transaction@.inputs[j]
                    == (#[trigger] target.inputs[j]),
                forall|j: int| 0 <= j < index ==> spec_input_sig_ok(
                    self.private_key@, unsigned, j, (#[trigger] self.inputs@[j])@.utxo,
                ),
                forall|j: int| index <= j < unsigned.inputs.len()
                    ==> transaction@.inputs[j] == (#[trigger] unsigned.inputs[j]),
            decreases transaction.inputs@.len() - index,
        {
            proof {
                assert forall|j: int| 0 <= j < transaction@.inputs.len()
                    implies #[trigger] transaction@.inputs[j].prev == unsigned.inputs[j].prev
                        && transaction@.inputs[j].output_index
                            == unsigned.inputs[j].output_index by {
                    if j < index {
                        assert(transaction@.inputs[j] == target.inputs[j]);
                        assert(target.inputs[j].prev == unsigned.inputs[j].prev);
                    }
                }
                lemma_sig_hash_ignores_unlocking_scripts(
                    transaction@, unsigned, index as int,
                    self.inputs@[index as int]@.utxo,
                );
            }
            let sig_hash = compute_sig_hash(&transaction, index, &self.inputs[index].utxo);
            assert(sig_hash@ == spec_sig_hash(
                unsigned, index as int, self.inputs@[index as int]@.utxo,
            ));
            let signature = sign_message(&self.private_key, &sig_hash);
            proof {
                assert(spec_input_sig_ok(
                    self.private_key@, unsigned, index as int, self.inputs@[index as int]@.utxo,
                ));
            }
            let pk = self.public_key.clone();
            assert(pk@ =~= self.public_key@);
            let prev = self.inputs[index].prev.clone();
            assert(prev@ =~= self.inputs@[index as int].prev@);
            let new_input = TxInput {
                prev,
                output_index: self.inputs[index].output_index,
                unlocking_script: Script::P2PKHUnlocking(signature, pk),
            };
            assert(new_input@ == target.inputs[index as int]) by {
                assert(target.inputs[index as int] == (TxInputV {
                    prev: unsigned.inputs[index as int].prev,
                    output_index: unsigned.inputs[index as int].output_index,
                    unlocking_script: p2pkh_unlocking(
                        signature_of(
                            self.private_key@,
                            spec_sig_hash(unsigned, index as int,
                                self.inputs@.map_values(|i: InputSpec| i@.utxo)[index as int]),
                        ),
                        self.public_key@,
                    ),
                }));
                assert(self.inputs@.map_values(|i: InputSpec| i@.utxo)[index as int]
                    == self.inputs@[index as int]@.utxo);
            }
            transaction.inputs[index] = new_input;
            index = index + 1;
        }
        assert(transaction@ =~= target);
        transaction
    }
}

} // verus!
