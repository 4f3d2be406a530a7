//! The unspent-output ledger: a keyed set of spendable outputs, the
//! validators that gate transactions and blocks, and the update a block
//! application makes.

use vstd::prelude::*;
use crate::hash::bytes_eq;
use crate::transaction::{
    Transaction, TransactionV, TxInput, TxInputV, TxOutput, TxOutputV, spec_tx_hash,
};
use crate::script::{Script, spec_script_validates};
use crate::block::{Block, BlockV};

verus! {

/// One unspent output: the producing transaction's hash, the output's
/// position in it, and the output itself.
pub struct UtxoEntry {
    pub tx_hash: Vec<u8>,
    pub output_index: u64,
    pub output: TxOutput,
}

#[verifier::ext_equal]
pub struct UtxoEntryV {
    pub tx_hash: Seq<u8>,
    pub output_index: u64,
    pub output: TxOutputV,
}

impl View for UtxoEntry {
    type V = UtxoEntryV;

    open spec fn view(&self) -> UtxoEntryV {
        UtxoEntryV {
            tx_hash: self.tx_hash@,
            output_index: self.output_index,
            output: self.output@,
        }
    }
}

impl Clone for UtxoEntry {
    fn clone(&self) -> (res: Self)
        ensures
            res@ == self@,
    {
        let tx_hash = self.tx_hash.clone();
        assert(tx_hash@ =~= self.tx_hash@);
        UtxoEntry { tx_hash, output_index: self.output_index, output: self.output.clone() }
    }
}

/// The unspent-output set. The entry list carries no duplicate keys; its
/// order carries no meaning.
pub struct UTXOS(pub Vec<UtxoEntry>);

impl View for UTXOS {
    type V = Seq<UtxoEntryV>;

    open spec fn view(&self) -> Seq<UtxoEntryV> {
        self.0@.map_values(|e: UtxoEntry| e@)
    }
}

impl Clone for UTXOS {
    fn clone(&self) -> (res: Self)
        ensures
            res@ == self@,
    {
        let mut entries: Vec<UtxoEntry> = Vec::new();
        let mut k: usize = 0;
        while k < self.0.len()
            invariant
                k <= self.0.len(),
                entries@.len() == k,
                forall|j: int| 0 <= j < k ==> entries@[j]@ == self.0@[j]@,
            decreases self.0.len() - k,
        {
            entries.push(self.0[k].clone());
            k = k + 1;
        }
        let res = UTXOS(entries);
        assert(res@ =~= self@);
        res
    }
}

pub open spec fn key_matches(e: UtxoEntryV, hash: Seq<u8>, index: u64) -> bool {
    e.tx_hash == hash && e.output_index == index
}

/// No two entries share a key.
pub open spec fn wf_utxos(s: Seq<UtxoEntryV>) -> bool {
    forall|k1: int, k2: int| 0 <= k1 < k2 < s.len()
        ==> !key_matches(#[trigger] s[k1], #[trigger] s[k2].tx_hash, s[k2].output_index)
}

pub open spec fn spec_has_key(s: Seq<UtxoEntryV>, hash: Seq<u8>, index: u64) -> bool {
    exists|k: int| 0 <= k < s.len() && key_matches(#[trigger] s[k], hash, index)
}

/// The output stored under a key: the first entry that carries it.
pub open spec fn spec_get(s: Seq<UtxoEntryV>, hash: Seq<u8>, index: u64) -> Option<TxOutputV>
    decreases s.len(),
{
    if s.len() == 0 {
        None
    } else if key_matches(s[0], hash, index) {
        Some(s[0].output)
    } else {
        spec_get(s.drop_first(), hash, index)
    }
}

/// The set without a key: every entry that carries it is dropped.
pub open spec fn spec_remove(s: Seq<UtxoEntryV>, hash: Seq<u8>, index: u64) -> Seq<UtxoEntryV>
    decreases s.len(),
{
    if s.len() == 0 {
        Seq::empty()
    } else if key_matches(s[0], hash, index) {
        spec_remove(s.drop_first(), hash, index)
    } else {
        seq![s[0]] + spec_remove(s.drop_first(), hash, index)
    }
}

/// Insertion overwrites: the key is removed, then the entry appended.
pub open spec fn spec_insert(s: Seq<UtxoEntryV>, e: UtxoEntryV) -> Seq<UtxoEntryV> {
    spec_remove(s, e.tx_hash, e.output_index).push(e)
}

pub proof fn lemma_get_has_key(s: Seq<UtxoEntryV>, hash: Seq<u8>, index: u64)
    ensures
        spec_get(s, hash, index) is Some <==> spec_has_key(s, hash, index),
    decreases s.len(),
{
    if s.len() > 0 && !key_matches(s[0], hash, index) {
        lemma_get_has_key(s.drop_first(), hash, index);
        assert forall|k: int| 0 <= k < s.len() && key_matches(s[k], hash, index)
            implies spec_has_key(s.drop_first(), hash, index) by {
            assert(k > 0);
            assert(key_matches(s.drop_first()[k - 1], hash, index));
        }
    }
}

/// Removal answers every lookup: the removed key is gone, every other key
/// unchanged.
pub proof fn lemma_remove_get(
    s: Seq<UtxoEntryV>,
    hash: Seq<u8>,
    index: u64,
    h2: Seq<u8>,
    i2: u64,
)
    ensures
        spec_get(spec_remove(s, hash, index), h2, i2) == if h2 == hash && i2 == index {
            None::<TxOutputV>
        } else {
            spec_get(s, h2, i2)
        },
    decreases s.len(),
{
    if s.len() > 0 {
        lemma_remove_get(s.drop_first(), hash, index, h2, i2);
        if !key_matches(s[0], hash, index) {
            let rest = spec_remove(s.drop_first(), hash, index);
            assert((seq![s[0]] + rest).drop_first() =~= rest);
        }
    }
}

pub proof fn lemma_remove_has_key(
    s: Seq<UtxoEntryV>,
    hash: Seq<u8>,
    index: u64,
    h2: Seq<u8>,
    i2: u64,
)
    ensures
        spec_has_key(spec_remove(s, hash, index), h2, i2) ==> spec_has_key(s, h2, i2),
        spec_has_key(spec_remove(s, hash, index), h2, i2) == if h2 == hash && i2 == index {
            false
        } else {
            spec_has_key(s, h2, i2)
        },
{
    lemma_remove_get(s, hash, index, h2, i2);
    lemma_get_has_key(s, h2, i2);
    lemma_get_has_key(spec_remove(s, hash, index), h2, i2);
}

/// Every entry that survives a removal is one of the old entries.
pub proof fn lemma_remove_element(s: Seq<UtxoEntryV>, hash: Seq<u8>, index: u64, k: int)
    requires
        0 <= k < spec_remove(s, hash, index).len(),
    ensures
        exists|w: int| 0 <= w < s.len() && s[w] == spec_remove(s, hash, index)[k],
    decreases s.len(),
{
    let out = spec_remove(s, hash, index);
    if s.len() > 0 {
        if key_matches(s[0], hash, index) {
            lemma_remove_element(s.drop_first(), hash, index, k);
            let w = choose|w: int| 0 <= w < s.drop_first().len()
                && s.drop_first()[w] == spec_remove(s.drop_first(), hash, index)[k];
            assert(s[w + 1] == s.drop_first()[w]);
        } else {
            if k == 0 {
                assert(out[0] == s[0]);
            } else {
                let rest = spec_remove(s.drop_first(), hash, index);
                assert(out[k] == rest[k - 1]);
                lemma_remove_element(s.drop_first(), hash, index, k - 1);
                let w = choose|w: int| 0 <= w < s.drop_first().len()
                    && s.drop_first()[w] == rest[k - 1];
                assert(s[w + 1] == s.drop_first()[w]);
            }
        }
    }
}

pub proof fn lemma_remove_wf(s: Seq<UtxoEntryV>, hash: Seq<u8>, index: u64)
    requires
        wf_utxos(s),
    ensures
        wf_utxos(spec_remove(s, hash, index)),
    decreases s.len(),
{
    if s.len() > 0 {
        assert(wf_utxos(s.drop_first())) by {
            assert forall|k1: int, k2: int| 0 <= k1 < k2 < s.drop_first().len()
                implies !key_matches(
                    #[trigger] s.drop_first()[k1],
                    #[trigger] s.drop_first()[k2].tx_hash,
                    s.drop_first()[k2].output_index,
                ) by {
                assert(s[k1 + 1] == s.drop_first()[k1]);
                assert(s[k2 + 1] == s.drop_first()[k2]);
            }
        }
        lemma_remove_wf(s.drop_first(), hash, index);
        if !key_matches(s[0], hash, index) {
            let rest = spec_remove(s.drop_first(), hash, index);
            let whole = seq![s[0]] + rest;
            assert forall|k1: int, k2: int| 0 <= k1 < k2 < whole.len()
                implies !key_matches(
                    #[trigger] whole[k1],
                    #[trigger] whole[k2].tx_hash,
                    whole[k2].output_index,
                ) by {
                if k1 == 0 {
                    assert(whole[k2] == rest[k2 - 1]);
                    if key_matches(whole[0], whole[k2].tx_hash, whole[k2].output_index) {
                        lemma_remove_has_key(
                            s.drop_first(), hash, index, whole[k2].tx_hash, whole[k2].output_index,
                        );
                        let w = choose|w: int| 0 <= w < s.drop_first().len()
                            && key_matches(s.drop_first()[w], whole[k2].tx_hash, whole[k2].output_index);
                        assert(key_matches(s[w + 1], s[w + 1].tx_hash, s[w + 1].output_index));
                        assert(key_matches(s[0], s[w + 1].tx_hash, s[w + 1].output_index));
                        assert(false);
                    }
                } else {
                    assert(whole[k1] == rest[k1 - 1]);
                    assert(whole[k2] == rest[k2 - 1]);
                    assert(wf_utxos(rest));
                }
            }
        }
    }
}

pub proof fn lemma_insert_wf(s: Seq<UtxoEntryV>, e: UtxoEntryV)
    requires
        wf_utxos(s),
    ensures
        wf_utxos(spec_insert(s, e)),
{
    lemma_remove_wf(s, e.tx_hash, e.output_index);
    let removed = spec_remove(s, e.tx_hash, e.output_index);
    let whole = removed.push(e);
    assert forall|k1: int, k2: int| 0 <= k1 < k2 < whole.len()
        implies !key_matches(
            #[trigger] whole[k1],
            #[trigger] whole[k2].tx_hash,
            whole[k2].output_index,
        ) by {
        if k2 == whole.len() - 1 {
            assert(whole[k2] == e);
            assert(whole[k1] == removed[k1]);
            if key_matches(whole[k1], e.tx_hash, e.output_index) {
                assert(spec_has_key(removed, e.tx_hash, e.output_index));
                lemma_remove_has_key(s, e.tx_hash, e.output_index, e.tx_hash, e.output_index);
                assert(false);
            }
        } else {
            assert(whole[k1] == removed[k1]);
            assert(whole[k2] == removed[k2]);
        }
    }
}

pub proof fn lemma_insert_get(s: Seq<UtxoEntryV>, e: UtxoEntryV, h2: Seq<u8>, i2: u64)
    ensures
        spec_get(spec_insert(s, e), h2, i2) == if h2 == e.tx_hash && i2 == e.output_index {
            Some(e.output)
        } else {
            spec_get(s, h2, i2)
        },
{
    let removed = spec_remove(s, e.tx_hash, e.output_index);
    lemma_remove_get(s, e.tx_hash, e.output_index, h2, i2);
    lemma_get_push(removed, e, h2, i2);
    if h2 == e.tx_hash && i2 == e.output_index {
        assert(spec_get(removed, h2, i2) is None);
        assert(key_matches(e, h2, i2));
        assert(spec_get(spec_insert(s, e), h2, i2) == Some(e.output));
    } else {
        assert(!key_matches(e, h2, i2));
        assert(spec_get(spec_insert(s, e), h2, i2) == spec_get(s, h2, i2));
    }
}

/// Appending an entry changes a lookup only when the looked-up key found
/// nothing before and the new entry carries it.
pub proof fn lemma_get_push(s: Seq<UtxoEntryV>, e: UtxoEntryV, h2: Seq<u8>, i2: u64)
    ensures
        spec_get(s.push(e), h2, i2) == if spec_get(s, h2, i2) is Some {
            spec_get(s, h2, i2)
        } else if key_matches(e, h2, i2) {
            Some(e.output)
        } else {
            None::<TxOutputV>
        },
    decreases s.len(),
{
    if s.len() == 0 {
        assert(s.push(e)[0] == e);
        assert(s.push(e).drop_first() =~= Seq::<UtxoEntryV>::empty());
        assert(spec_get(Seq::<UtxoEntryV>::empty(), h2, i2) is None);
        assert(s =~= Seq::<UtxoEntryV>::empty());
    } else {
        assert(s.push(e)[0] == s[0]);
        assert(s.push(e).drop_first() =~= s.drop_first().push(e));
        lemma_get_push(s.drop_first(), e, h2, i2);
        if key_matches(s[0], h2, i2) {
            assert(spec_get(s.push(e), h2, i2) == Some(s[0].output));
            assert(spec_get(s, h2, i2) == Some(s[0].output));
        } else {
            assert(spec_get(s.push(e), h2, i2) == spec_get(s.drop_first().push(e), h2, i2));
            assert(spec_get(s, h2, i2) == spec_get(s.drop_first(), h2, i2));
        }
    }
}

/// The greatest value one output can hold.
pub open spec fn max_value() -> int {
    0xFFFF_FFFF_FFFF_FFFF
}

/// The sum of the values of a list of outputs.
pub open spec fn spec_output_total(outputs: Seq<TxOutputV>) -> int
    decreases outputs.len(),
{
    if outputs.len() == 0 {
        0
    } else {
        outputs[0].value + spec_output_total(outputs.drop_first())
    }
}

/// The sum of the values of the outputs a list of inputs spends; an input
/// whose key is absent contributes nothing (validation rejects it anyway).
pub open spec fn spec_input_total(u: Seq<UtxoEntryV>, inputs: Seq<TxInputV>) -> int
    decreases inputs.len(),
{
    if inputs.len() == 0 {
        0
    } else {
        (match spec_get(u, inputs[0].prev, inputs[0].output_index) {
            Some(o) => o.value as int,
            None => 0,
        }) + spec_input_total(u, inputs.drop_first())
    }
}

pub open spec fn spec_all_inputs_present(u: Seq<UtxoEntryV>, inputs: Seq<TxInputV>) -> bool {
    forall|k: int| 0 <= k < inputs.len()
        ==> spec_get(u, (#[trigger] inputs[k]).prev, inputs[k].output_index) is Some
}

/// Every input's funding output exists, and its locking script, preceded by
/// the input's unlocking script, validates for that input position.
pub open spec fn spec_scripts_valid(u: Seq<UtxoEntryV>, t: TransactionV) -> bool {
    forall|k: int| 0 <= k < t.inputs.len()
        ==> match spec_get(u, (#[trigger] t.inputs[k]).prev, t.inputs[k].output_index) {
            Some(o) => spec_script_validates(
                t.inputs[k].unlocking_script + o.locking_script, t, k, o,
            ),
            None => false,
        }
}

/// A transaction fit for the mempool: scripts valid and inputs at least
/// cover outputs.
pub open spec fn spec_validate_pending(u: Seq<UtxoEntryV>, t: TransactionV) -> bool {
    &&& spec_scripts_valid(u, t)
    &&& spec_input_total(u, t.inputs) >= spec_output_total(t.outputs)
}

/// A transaction fit for a block: scripts valid and value conserved
/// exactly, the fee having been redirected to the coinbase.
pub open spec fn spec_validate_confirmed(u: Seq<UtxoEntryV>, t: TransactionV) -> bool {
    &&& spec_scripts_valid(u, t)
    &&& spec_input_total(u, t.inputs) == spec_output_total(t.outputs)
}

pub open spec fn spec_is_coinbase(t: TransactionV, reward: u64) -> bool {
    &&& t.inputs.len() == 0
    &&& t.outputs.len() == 1
    &&& t.outputs[0].value == reward
}

/// A block's transactions against a pre-block ledger: a coinbase paying
/// exactly the reward first, every later transaction confirmed-valid.
pub open spec fn spec_validate_block(u: Seq<UtxoEntryV>, b: BlockV, reward: u64) -> bool {
    &&& b.transactions.len() > 0
    &&& spec_is_coinbase(b.transactions[0], reward)
    &&& forall|k: int| 1 <= k < b.transactions.len()
        ==> spec_validate_confirmed(u, #[trigger] b.transactions[k])
}

/// What the miner may claim: inputs minus outputs.
pub open spec fn spec_calculate_fee(u: Seq<UtxoEntryV>, t: TransactionV) -> int {
    spec_input_total(u, t.inputs) - spec_output_total(t.outputs)
}

/// The ledger with a list of inputs' keys removed, in order.
pub open spec fn spec_remove_inputs(u: Seq<UtxoEntryV>, inputs: Seq<TxInputV>) -> Seq<UtxoEntryV>
    decreases inputs.len(),
{
    if inputs.len() == 0 {
        u
    } else {
        spec_remove_inputs(
            spec_remove(u, inputs[0].prev, inputs[0].output_index),
            inputs.drop_first(),
        )
    }
}

/// The ledger with a transaction's outputs inserted under its hash, the
/// first at `idx`.
pub open spec fn spec_insert_outputs(
    u: Seq<UtxoEntryV>,
    hash: Seq<u8>,
    outputs: Seq<TxOutputV>,
    idx: int,
) -> Seq<UtxoEntryV>
    decreases outputs.len(),
{
    if outputs.len() == 0 {
        u
    } else {
        spec_insert_outputs(
            spec_insert(u, UtxoEntryV { tx_hash: hash, output_index: idx as u64, output: outputs[0] }),
            hash,
            outputs.drop_first(),
            idx + 1,
        )
    }
}

/// One transaction's effect: its inputs' keys leave, its outputs enter.
pub open spec fn spec_apply_tx(u: Seq<UtxoEntryV>, t: TransactionV) -> Seq<UtxoEntryV> {
    spec_insert_outputs(spec_remove_inputs(u, t.inputs), spec_tx_hash(t), t.outputs, 0)
}

/// A block's effect: each transaction applied in order.
pub open spec fn spec_apply_block(u: Seq<UtxoEntryV>, txs: Seq<TransactionV>) -> Seq<UtxoEntryV>
    decreases txs.len(),
{
    if txs.len() == 0 {
        u
    } else {
        spec_apply_block(spec_apply_tx(u, txs[0]), txs.drop_first())
    }
}

pub proof fn lemma_output_total_bound(outputs: Seq<TxOutputV>)
    ensures
        0 <= spec_output_total(outputs) <= outputs.len() * max_value(),
    decreases outputs.len(),
{
    if outputs.len() > 0 {
        lemma_output_total_bound(outputs.drop_first());
        assert((outputs.len() - 1) * max_value() + max_value() == outputs.len() * max_value())
            by (nonlinear_arith);
    }
}

pub proof fn lemma_input_total_bound(u: Seq<UtxoEntryV>, inputs: Seq<TxInputV>)
    ensures
        0 <= spec_input_total(u, inputs) <= inputs.len() * max_value(),
    decreases inputs.len(),
{
    if inputs.len() > 0 {
        lemma_input_total_bound(u, inputs.drop_first());
        assert((inputs.len() - 1) * max_value() + max_value() == inputs.len() * max_value())
            by (nonlinear_arith);
    }
}

/// Valid scripts need every input's funding output to exist.
pub proof fn lemma_scripts_valid_inputs_present(u: Seq<UtxoEntryV>, t: TransactionV)
    requires
        spec_scripts_valid(u, t),
    ensures
        spec_all_inputs_present(u, t.inputs),
{
}

/// Every entry of a pool validates as pending and carries its exact fee.
pub open spec fn spec_validate_mempool(u: Seq<UtxoEntryV>, s: Seq<crate::mempool::TxWithFeeV>) -> bool {
    forall|k: int| 0 <= k < s.len() ==> spec_validate_pending(u, (#[trigger] s[k]).transaction)
        && s[k].fee == spec_calculate_fee(u, s[k].transaction)
}

/// Removing inputs keeps keys unique.
pub proof fn lemma_remove_inputs_wf(u: Seq<UtxoEntryV>, inputs: Seq<TxInputV>)
    requires
        wf_utxos(u),
    ensures
        wf_utxos(spec_remove_inputs(u, inputs)),
    decreases inputs.len(),
{
    if inputs.len() > 0 {
        lemma_remove_wf(u, inputs[0].prev, inputs[0].output_index);
        lemma_remove_inputs_wf(
            spec_remove(u, inputs[0].prev, inputs[0].output_index), inputs.drop_first(),
        );
    }
}

/// Inserting outputs keeps keys unique.
pub proof fn lemma_insert_outputs_wf(
    u: Seq<UtxoEntryV>,
    hash: Seq<u8>,
    outputs: Seq<TxOutputV>,
    idx: int,
)
    requires
        wf_utxos(u),
    ensures
        wf_utxos(spec_insert_outputs(u, hash, outputs, idx)),
    decreases outputs.len(),
{
    if outputs.len() > 0 {
        let e = UtxoEntryV { tx_hash: hash, output_index: idx as u64, output: outputs[0] };
        lemma_insert_wf(u, e);
        lemma_insert_outputs_wf(spec_insert(u, e), hash, outputs.drop_first(), idx + 1);
    }
}

/// A transaction's application keeps keys unique.
pub proof fn lemma_apply_tx_wf(u: Seq<UtxoEntryV>, t: TransactionV)
    requires
        wf_utxos(u),
    ensures
        wf_utxos(spec_apply_tx(u, t)),
{
    lemma_remove_inputs_wf(u, t.inputs);
    lemma_insert_outputs_wf(spec_remove_inputs(u, t.inputs), spec_tx_hash(t), t.outputs, 0);
}

/// A block's application keeps keys unique.
pub proof fn lemma_apply_block_wf(u: Seq<UtxoEntryV>, txs: Seq<TransactionV>)
    requires
        wf_utxos(u),
    ensures
        wf_utxos(spec_apply_block(u, txs)),
    decreases txs.len(),
{
    if txs.len() > 0 {
        lemma_apply_tx_wf(u, txs[0]);
        lemma_apply_block_wf(spec_apply_tx(u, txs[0]), txs.drop_first());
    }
}

/// Some input of the list spends this key.
pub open spec fn spec_spends(inputs: Seq<TxInputV>, hash: Seq<u8>, index: u64) -> bool {
    exists|k: int| 0 <= k < inputs.len() && (#[trigger] inputs[k]).prev == hash
        && inputs[k].output_index == index
}

/// What removing a list of inputs leaves under any key: nothing for a
/// spent key, the old answer for any other.
pub proof fn lemma_remove_inputs_get(
    u: Seq<UtxoEntryV>,
    inputs: Seq<TxInputV>,
    hash: Seq<u8>,
    index: u64,
)
    ensures
        spec_get(spec_remove_inputs(u, inputs), hash, index) == if spec_spends(
            inputs, hash, index,
        ) {
            None::<TxOutputV>
        } else {
            spec_get(u, hash, index)
        },
    decreases inputs.len(),
{
    if inputs.len() > 0 {
        let u2 = spec_remove(u, inputs[0].prev, inputs[0].output_index);
        lemma_remove_get(u, inputs[0].prev, inputs[0].output_index, hash, index);
        lemma_remove_inputs_get(u2, inputs.drop_first(), hash, index);
        if spec_spends(inputs, hash, index) {
            let k = choose|k: int| 0 <= k < inputs.len() && inputs[k].prev == hash
                && inputs[k].output_index == index;
            if k > 0 {
                assert(inputs.drop_first()[k - 1] == inputs[k]);
                assert(spec_spends(inputs.drop_first(), hash, index));
            }
        } else {
            assert(!spec_spends(inputs.drop_first(), hash, index)) by {
                if spec_spends(inputs.drop_first(), hash, index) {
                    let k = choose|k: int| 0 <= k < inputs.drop_first().len()
                        && inputs.drop_first()[k].prev == hash
                        && inputs.drop_first()[k].output_index == index;
                    assert(inputs[k + 1] == inputs.drop_first()[k]);
                }
            }
            assert(!(inputs[0].prev == hash && inputs[0].output_index == index));
        }
    }
}

/// What inserting a transaction's outputs answers under any key: the
/// output at the key's position for the transaction's own hash, the old
/// answer otherwise.
pub proof fn lemma_insert_outputs_get(
    u: Seq<UtxoEntryV>,
    hash: Seq<u8>,
    outputs: Seq<TxOutputV>,
    base: int,
    h: Seq<u8>,
    index: u64,
)
    requires
        0 <= base,
        base + outputs.len() <= 0x1_0000_0000_0000_0000,
    ensures
        spec_get(spec_insert_outputs(u, hash, outputs, base), h, index) == if h == hash
            && base <= index < base + outputs.len() {
            Some(outputs[index - base])
        } else {
            spec_get(u, h, index)
        },
    decreases outputs.len(),
{
    if outputs.len() > 0 {
        let e = UtxoEntryV { tx_hash: hash, output_index: base as u64, output: outputs[0] };
        let u2 = spec_insert(u, e);
        lemma_insert_get(u, e, h, index);
        lemma_insert_outputs_get(u2, hash, outputs.drop_first(), base + 1, h, index);
        if h == hash && base <= index < base + outputs.len() {
            if index == base {
                assert(outputs[0] == outputs[index - base]);
            } else {
                assert(outputs.drop_first()[index - base - 1] == outputs[index - base]);
            }
        }
    }
}

/// What one applied transaction answers under any key.
pub proof fn lemma_apply_tx_get(u: Seq<UtxoEntryV>, t: TransactionV, h: Seq<u8>, index: u64)
    requires
        t.outputs.len() <= 0x1_0000_0000_0000_0000,
    ensures
        spec_get(spec_apply_tx(u, t), h, index) == if h == spec_tx_hash(t)
            && index < t.outputs.len() {
            Some(t.outputs[index as int])
        } else if h == spec_tx_hash(t) || !spec_spends(t.inputs, h, index) {
            if spec_spends(t.inputs, h, index) {
                None::<TxOutputV>
            } else {
                spec_get(u, h, index)
            }
        } else {
            None::<TxOutputV>
        },
{
    lemma_remove_inputs_get(u, t.inputs, h, index);
    lemma_insert_outputs_get(
        spec_remove_inputs(u, t.inputs), spec_tx_hash(t), t.outputs, 0, h, index,
    );
}

/// A key that is no transaction's hash and that no input spends keeps its
/// answer through a block.
pub proof fn lemma_apply_block_get_preserved(
    u: Seq<UtxoEntryV>,
    txs: Seq<TransactionV>,
    h: Seq<u8>,
    index: u64,
)
    requires
        forall|m: int| 0 <= m < txs.len() ==> h != spec_tx_hash(#[trigger] txs[m]),
        forall|m: int| 0 <= m < txs.len() ==> !spec_spends((#[trigger] txs[m]).inputs, h, index),
        forall|m: int| 0 <= m < txs.len() ==> (#[trigger] txs[m]).outputs.len()
            <= 0x1_0000_0000_0000_0000,
    ensures
        spec_get(spec_apply_block(u, txs), h, index) == spec_get(u, h, index),
    decreases txs.len(),
{
    if txs.len() > 0 {
        lemma_apply_tx_get(u, txs[0], h, index);
        assert forall|m: int| 0 <= m < txs.drop_first().len()
            implies h != spec_tx_hash(#[trigger] txs.drop_first()[m])
                && !spec_spends(txs.drop_first()[m].inputs, h, index)
                && txs.drop_first()[m].outputs.len() <= 0x1_0000_0000_0000_0000 by {
            assert(txs.drop_first()[m] == txs[m + 1]);
        }
        lemma_apply_block_get_preserved(spec_apply_tx(u, txs[0]), txs.drop_first(), h, index);
    }
}

/// A key that is no transaction's hash, once empty, stays empty through a
/// block: removals cannot revive it and every insertion carries some
/// transaction's hash.
pub proof fn lemma_apply_block_keeps_none(
    u: Seq<UtxoEntryV>,
    txs: Seq<TransactionV>,
    h: Seq<u8>,
    index: u64,
)
    requires
        spec_get(u, h, index) is None,
        forall|m: int| 0 <= m < txs.len() ==> h != spec_tx_hash(#[trigger] txs[m]),
        forall|m: int| 0 <= m < txs.len() ==> (#[trigger] txs[m]).outputs.len()
            <= 0x1_0000_0000_0000_0000,
    ensures
        spec_get(spec_apply_block(u, txs), h, index) is None,
    decreases txs.len(),
{
    if txs.len() > 0 {
        lemma_apply_tx_get(u, txs[0], h, index);
        assert forall|m: int| 0 <= m < txs.drop_first().len()
            implies h != spec_tx_hash(#[trigger] txs.drop_first()[m])
                && txs.drop_first()[m].outputs.len() <= 0x1_0000_0000_0000_0000 by {
            assert(txs.drop_first()[m] == txs[m + 1]);
        }
        lemma_apply_block_keeps_none(spec_apply_tx(u, txs[0]), txs.drop_first(), h, index);
    }
}

/// No transaction of the block carries another's hash, and no input
/// references any of the block's own hashes: what holds of hashes drawn
/// from a collision-resistant digest.
pub open spec fn spec_fresh_block_hashes(txs: Seq<TransactionV>) -> bool {
    &&& forall|i: int, j: int| 0 <= i < txs.len() && 0 <= j < txs.len() && i != j
        ==> spec_tx_hash(#[trigger] txs[i]) != spec_tx_hash(#[trigger] txs[j])
    &&& forall|i: int, m: int, k: int| 0 <= i < txs.len() && 0 <= m < txs.len()
        && 0 <= k < txs[i].inputs.len()
        ==> (#[trigger] txs[i].inputs[k]).prev != spec_tx_hash(#[trigger] txs[m])
}

/// After a block is applied, every input key its transactions spent is
/// gone, and every output of every transaction sits in the ledger under
/// the transaction's hash — as long as the block's transaction hashes are
/// fresh.
pub proof fn lemma_apply_block_spends_and_creates(u: Seq<UtxoEntryV>, txs: Seq<TransactionV>)
    requires
        spec_fresh_block_hashes(txs),
        forall|m: int| 0 <= m < txs.len() ==> (#[trigger] txs[m]).outputs.len()
            <= 0x1_0000_0000_0000_0000,
    ensures
        forall|i: int, k: int| 0 <= i < txs.len() && 0 <= k < (#[trigger] txs[i]).inputs.len()
            ==> spec_get(
                spec_apply_block(u, txs),
                (#[trigger] txs[i].inputs[k]).prev,
                txs[i].inputs[k].output_index,
            ) is None,
        forall|i: int, j: int| 0 <= i < txs.len() && 0 <= j < txs[i].outputs.len()
            ==> spec_get(spec_apply_block(u, txs), spec_tx_hash(txs[i]), j as u64) == Some(
                #[trigger] txs[i].outputs[j],
            ),
    decreases txs.len(),
{
    if txs.len() > 0 {
        let head = txs[0];
        let rest = txs.drop_first();
        let u1 = spec_apply_tx(u, head);
        assert forall|m: int| 0 <= m < rest.len() implies rest[m] == txs[m + 1] by {}
        assert(spec_fresh_block_hashes(rest)) by {
            assert forall|i: int, j: int| 0 <= i < rest.len() && 0 <= j < rest.len() && i != j
                implies spec_tx_hash(#[trigger] rest[i]) != spec_tx_hash(#[trigger] rest[j]) by {
                assert(rest[i] == txs[i + 1]);
                assert(rest[j] == txs[j + 1]);
            }
            assert forall|i: int, m: int, k: int| 0 <= i < rest.len() && 0 <= m < rest.len()
                && 0 <= k < rest[i].inputs.len()
                implies (#[trigger] rest[i].inputs[k]).prev
                    != spec_tx_hash(#[trigger] rest[m]) by {
                assert(rest[i] == txs[i + 1]);
                assert(rest[m] == txs[m + 1]);
                assert(txs[i + 1].inputs[k].prev != spec_tx_hash(txs[m + 1]));
            }
        }
        assert forall|m: int| 0 <= m < rest.len()
            implies (#[trigger] rest[m]).outputs.len() <= 0x1_0000_0000_0000_0000 by {
            assert(rest[m] == txs[m + 1]);
        }
        lemma_apply_block_spends_and_creates(u1, rest);

        // the head's own spent keys stay gone and its outputs stay present
        assert forall|k: int| 0 <= k < head.inputs.len()
            implies spec_get(
                spec_apply_block(u, txs),
                (#[trigger] head.inputs[k]).prev,
                head.inputs[k].output_index,
            ) is None by {
            lemma_apply_tx_get(u, head, head.inputs[k].prev, head.inputs[k].output_index);
            assert(spec_spends(head.inputs, head.inputs[k].prev, head.inputs[k].output_index));
            assert(head.inputs[k].prev != spec_tx_hash(head));
            assert(spec_get(u1, head.inputs[k].prev, head.inputs[k].output_index) is None);
            assert forall|m: int| 0 <= m < rest.len()
                implies head.inputs[k].prev != spec_tx_hash(#[trigger] rest[m]) by {
                assert(rest[m] == txs[m + 1]);
            }
            lemma_apply_block_keeps_none(
                u1, rest, head.inputs[k].prev, head.inputs[k].output_index,
            );
        }
        assert forall|j: int| 0 <= j < head.outputs.len()
            implies spec_get(spec_apply_block(u, txs), spec_tx_hash(head), j as u64) == Some(
                head.outputs[j],
            ) by {
            lemma_apply_tx_get(u, head, spec_tx_hash(head), j as u64);
            assert(spec_get(u1, spec_tx_hash(head), j as u64) == Some(head.outputs[j]));
            assert forall|m: int| 0 <= m < rest.len()
                implies spec_tx_hash(head) != spec_tx_hash(#[trigger] rest[m]) by {
                assert(rest[m] == txs[m + 1]);
            }
            assert forall|m: int| 0 <= m < rest.len()
                implies !spec_spends((#[trigger] rest[m]).inputs, spec_tx_hash(head), j as u64) by {
                assert(rest[m] == txs[m + 1]);
                if spec_spends(rest[m].inputs, spec_tx_hash(head), j as u64) {
                    let k = choose|k: int| 0 <= k < rest[m].inputs.len()
                        && rest[m].inputs[k].prev == spec_tx_hash(head)
                        && rest[m].inputs[k].output_index == j as u64;
                    assert(txs[m + 1].inputs[k].prev != spec_tx_hash(txs[0]));
                }
            }
            lemma_apply_block_get_preserved(u1, rest, spec_tx_hash(head), j as u64);
        }
        // restate the two conclusions over the whole list
        assert forall|i: int, k: int| 0 <= i < txs.len()
            && 0 <= k < (#[trigger] txs[i]).inputs.len()
            implies spec_get(
                spec_apply_block(u, txs),
                (#[trigger] txs[i].inputs[k]).prev,
                txs[i].inputs[k].output_index,
            ) is None by {
            if i > 0 {
                assert(rest[i - 1] == txs[i]);
                assert(spec_apply_block(u, txs) == spec_apply_block(u1, rest));
            }
        }
        assert forall|i: int, j: int| 0 <= i < txs.len()
            && 0 <= j < txs[i].outputs.len()
            implies spec_get(spec_apply_block(u, txs), spec_tx_hash(txs[i]), j as u64) == Some(
                #[trigger] txs[i].outputs[j],
            ) by {
            if i > 0 {
                assert(rest[i - 1] == txs[i]);
                assert(spec_apply_block(u, txs) == spec_apply_block(u1, rest));
            }
        }
    }
}

impl UTXOS {
    /// Every entry of a mempool validates against this ledger with its
    /// recorded fee.
    pub fn validate_mempool(&self, mempool: &crate::mempool::Mempool) -> (r: bool)
        ensures
            r == spec_validate_mempool(self@, mempool@),
    {
        let mut k: usize = 0;
        while k < mempool.0.len()
            invariant
                k <= mempool.0.len(),
                mempool@.len() == mempool.0@.len(),
                forall|j: int| 0 <= j < mempool.0@.len() ==> mempool@[j] == mempool.0@[j]@,
                forall|j: int| 0 <= j < k ==> spec_validate_pending(
                    self@, (#[trigger] mempool@[j]).transaction,
                ) && mempool@[j].fee == spec_calculate_fee(self@, mempool@[j].transaction),
            decreases mempool.0.len() - k,
        {
            let entry = &mempool.0[k];
            assert(entry@ == mempool@[k as int]);
            if !self.validate_pending_transaction(&entry.transaction) {
                assert(!spec_validate_pending(self@, mempool@[k as int].transaction));
                return false;
            }
            let fee = self.calculate_fee(&entry.transaction);
            if fee != entry.fee {
                assert(mempool@[k as int].fee != spec_calculate_fee(
                    self@, mempool@[k as int].transaction,
                ));
                return false;
            }
            k = k + 1;
        }
        true
    }

    /// The sum of a list of outputs' values; it cannot overflow.
    pub fn get_output_value(outputs: &Vec<TxOutput>) -> (r: u128)
        ensures
            r == spec_output_total(outputs@.map_values(|o: TxOutput| o@)),
    {
        let ghost full = outputs@.map_values(|o: TxOutput| o@);
        proof {
            lemma_output_total_bound(full);
            assert(full.skip(0) =~= full);
        }
        let mut acc: u128 = 0;
        let mut k: usize = 0;
        while k < outputs.len()
            invariant
                k <= outputs.len(),
                full == outputs@.map_values(|o: TxOutput| o@),
                full.len() == outputs@.len(),
                forall|j: int| 0 <= j < outputs@.len() ==> full[j] == outputs@[j]@,
                spec_output_total(full) == acc + spec_output_total(full.skip(k as int)),
                0 <= acc <= spec_output_total(full),
                spec_output_total(full) <= full.len() * max_value(),
            decreases outputs.len() - k,
        {
            let ghost rest = full.skip(k as int);
            proof {
                assert(rest[0] == full[k as int]);
                assert(rest.drop_first() =~= full.skip(k + 1));
                lemma_output_total_bound(full.skip(k + 1));
                lemma_output_total_bound(rest);
            }
            acc = acc + outputs[k].value as u128;
            k = k + 1;
        }
        proof {
            assert(full.skip(full.len() as int) =~= Seq::<TxOutputV>::empty());
        }
        acc
    }

    /// The sum of the outputs a list of inputs spends; every input must be
    /// present.
    pub fn get_input_value(&self, inputs: &Vec<TxInput>) -> (r: u128)
        requires
            spec_all_inputs_present(self@, inputs@.map_values(|i: TxInput| i@)),
        ensures
            r == spec_input_total(self@, inputs@.map_values(|i: TxInput| i@)),
    {
        let ghost full = inputs@.map_values(|i: TxInput| i@);
        proof {
            lemma_input_total_bound(self@, full);
            assert(full.skip(0) =~= full);
        }
        let mut acc: u128 = 0;
        let mut k: usize = 0;
        while k < inputs.len()
            invariant
                k <= inputs.len(),
                full == inputs@.map_values(|i: TxInput| i@),
                full.len() == inputs@.len(),
                forall|j: int| 0 <= j < inputs@.len() ==> full[j] == inputs@[j]@,
                spec_all_inputs_present(self@, full),
                spec_input_total(self@, full) == acc + spec_input_total(self@, full.skip(k as int)),
                0 <= acc <= spec_input_total(self@, full),
                spec_input_total(self@, full) <= full.len() * max_value(),
            decreases inputs.len() - k,
        {
            let ghost rest = full.skip(k as int);
            proof {
                assert(rest[0] == full[k as int]);
                assert(rest.drop_first() =~= full.skip(k + 1));
                lemma_input_total_bound(self@, full.skip(k + 1));
                lemma_input_total_bound(self@, rest);
            }
            let utxo = self.get(&inputs[k].prev, inputs[k].output_index);
            match utxo {
                Some(o) => {
                    acc = acc + o.value as u128;
                }
                None => {
                    proof {
                        assert(spec_get(self@, full[k as int].prev, full[k as int].output_index)
                            is Some);
                        assert(false);
                    }
                }
            }
            k = k + 1;
        }
        proof {
            assert(full.skip(full.len() as int) =~= Seq::<TxInputV>::empty());
        }
        acc
    }

    /// Every input exists and unlocks the output it spends.
    pub fn validate_scripts(&self, tx: &Transaction) -> (r: bool)
        ensures
            r == spec_scripts_valid(self@, tx@),
    {
        let mut k: usize = 0;
        while k < tx.inputs.len()
            invariant
                k <= tx.inputs.len(),
                tx@.inputs.len() == tx.inputs@.len(),
                forall|j: int| 0 <= j < tx.inputs@.len() ==> tx@.inputs[j] == tx.inputs@[j]@,
                forall|j: int| 0 <= j < k
                    ==> match spec_get(self@, (#[trigger] tx@.inputs[j]).prev,
                        tx@.inputs[j].output_index) {
                        Some(o) => spec_script_validates(
                            tx@.inputs[j].unlocking_script + o.locking_script, tx@, j, o,
                        ),
                        None => false,
                    },
            decreases tx.inputs.len() - k,
        {
            let input = &tx.inputs[k];
            assert(input@ == tx@.inputs[k as int]);
            match self.get(&input.prev, input.output_index) {
                None => {
                    assert(spec_get(self@, tx@.inputs[k as int].prev,
                        tx@.inputs[k as int].output_index) is None);
                    assert(!spec_scripts_valid(self@, tx@));
                    return false;
                }
                Some(utxo) => {
                    let script = Script::concat(&input.unlocking_script, &utxo.locking_script);
                    if !script.validate(tx, k, &utxo) {
                        assert(spec_get(self@, tx@.inputs[k as int].prev,
                            tx@.inputs[k as int].output_index) == Some(utxo@));
                        assert(!spec_script_validates(
                            tx@.inputs[k as int].unlocking_script + utxo@.locking_script,
                            tx@, k as int, utxo@));
                        assert(!spec_scripts_valid(self@, tx@));
                        return false;
                    }
                }
            }
            k = k + 1;
        }
        true
    }

    /// Scripts valid and inputs at least cover outputs.
    pub fn validate_pending_transaction(&self, tx: &Transaction) -> (r: bool)
        ensures
            r == spec_validate_pending(self@, tx@),
    {
        if !self.validate_scripts(tx) {
            return false;
        }
        proof {
            lemma_scripts_valid_inputs_present(self@, tx@);
        }
        let input_total = self.get_input_value(&tx.inputs);
        let output_total = Self::get_output_value(&tx.outputs);
        input_total >= output_total
    }

    /// Scripts valid and value conserved exactly.
    pub fn validate_confirmed_transaction(&self, tx: &Transaction) -> (r: bool)
        ensures
            r == spec_validate_confirmed(self@, tx@),
    {
        if !self.validate_scripts(tx) {
            return false;
        }
        proof {
            lemma_scripts_valid_inputs_present(self@, tx@);
        }
        let input_total = self.get_input_value(&tx.inputs);
        let output_total = Self::get_output_value(&tx.outputs);
        input_total == output_total
    }

    pub fn is_coinbase(transaction: &Transaction, reward: u64) -> (r: bool)
        ensures
            r == spec_is_coinbase(transaction@, reward),
    {
        proof {
            assert(transaction@.inputs.len() == transaction.inputs@.len());
            assert(transaction@.outputs.len() == transaction.outputs@.len());
            if transaction.outputs@.len() > 0 {
                assert(transaction@.outputs[0] == transaction.outputs@[0]@);
            }
        }
        transaction.inputs.len() == 0 && transaction.outputs.len() == 1
            && transaction.outputs[0].value == reward
    }

    /// Validate a block's body against this (pre-block) ledger.
    pub fn validate_block(&self, block: &Block, reward: u64) -> (r: bool)
        ensures
            r == spec_validate_block(self@, block@, reward),
    {
        proof {
            assert(block@.transactions.len() == block.transactions@.len());
            if block.transactions@.len() > 0 {
                assert(block@.transactions[0] == block.transactions@[0]@);
            }
        }
        if block.transactions.len() == 0 {
            return false;
        }
        if !Self::is_coinbase(&block.transactions[0], reward) {
            return false;
        }
        let mut k: usize = 1;
        while k < block.transactions.len()
            invariant
                1 <= k <= block.transactions.len(),
                block@.transactions.len() == block.transactions@.len(),
                forall|j: int| 0 <= j < block.transactions@.len()
                    ==> block@.transactions[j] == block.transactions@[j]@,
                forall|j: int| 1 <= j < k
                    ==> spec_validate_confirmed(self@, #[trigger] block@.transactions[j]),
            decreases block.transactions.len() - k,
        {
            if !self.validate_confirmed_transaction(&block.transactions[k]) {
                assert(block@.transactions[k as int] == block.transactions@[k as int]@);
                assert(!spec_validate_confirmed(self@, block@.transactions[k as int]));
                return false;
            }
            k = k + 1;
        }
        true
    }

    /// The miner's fee for a pending-valid transaction.
    pub fn calculate_fee(&self, transaction: &Transaction) -> (r: u128)
        requires
            spec_validate_pending(self@, transaction@),
        ensures
            r == spec_calculate_fee(self@, transaction@),
    {
        proof {
            lemma_scripts_valid_inputs_present(self@, transaction@);
        }
        let input_total = self.get_input_value(&transaction.inputs);
        let output_total = Self::get_output_value(&transaction.outputs);
        input_total - output_total
    }

    /// Spend a list of input keys, in order.
    pub fn remove_inputs(&mut self, inputs: &Vec<TxInput>)
        ensures
            final(self)@ == spec_remove_inputs(
                old(self)@, inputs@.map_values(|i: TxInput| i@),
            ),
    {
        let ghost views = inputs@.map_values(|i: TxInput| i@);
        let mut k: usize = 0;
        proof {
            assert(views.skip(0) =~= views);
        }
        while k < inputs.len()
            invariant
                k <= inputs.len(),
                views == inputs@.map_values(|i: TxInput| i@),
                views.len() == inputs@.len(),
                forall|j: int| 0 <= j < inputs@.len() ==> views[j] == inputs@[j]@,
                spec_remove_inputs(old(self)@, views) == spec_remove_inputs(
                    self@, views.skip(k as int),
                ),
            decreases inputs.len() - k,
        {
            let ghost rest = views.skip(k as int);
            proof {
                assert(rest[0] == views[k as int]);
                assert(rest.drop_first() =~= views.skip(k + 1));
            }
            self.remove(&inputs[k].prev, inputs[k].output_index);
            k = k + 1;
        }
        proof {
            assert(views.skip(views.len() as int) =~= Seq::<TxInputV>::empty());
        }
    }

    /// Spend a transaction's inputs and add its outputs.
    pub fn add_transaction(&mut self, tx: &Transaction)
        ensures
            final(self)@ == spec_apply_tx(old(self)@, tx@),
    {
        let hash = tx.get_hash();
        self.remove_inputs(&tx.inputs);
        proof {
            assert(self@ == spec_remove_inputs(old(self)@, tx@.inputs));
        }
        let ghost removed = self@;
        let ghost outputs = tx@.outputs;
        let mut i: usize = 0;
        proof {
            assert(outputs.skip(0) =~= outputs);
        }
        while i < tx.outputs.len()
            invariant
                i <= tx.outputs.len(),
                hash@ == spec_tx_hash(tx@),
                outputs == tx@.outputs,
                outputs.len() == tx.outputs@.len(),
                forall|j: int| 0 <= j < tx.outputs@.len() ==> outputs[j] == tx.outputs@[j]@,
                spec_insert_outputs(removed, spec_tx_hash(tx@), outputs, 0) == spec_insert_outputs(
                    self@, spec_tx_hash(tx@), outputs.skip(i as int), i as int,
                ),
            decreases tx.outputs.len() - i,
        {
            let ghost rest = outputs.skip(i as int);
            proof {
                assert(rest[0] == outputs[i as int]);
                assert(rest.drop_first() =~= outputs.skip(i + 1));
            }
            let h = hash.clone();
            assert(h@ =~= hash@);
            self.insert(h, i as u64, tx.outputs[i].clone());
            i = i + 1;
        }
        proof {
            assert(outputs.skip(outputs.len() as int) =~= Seq::<TxOutputV>::empty());
        }
    }

    /// Apply every transaction of a block, in order. The caller has already
    /// judged the block valid.
    pub fn add_block(&mut self, block: &Block)
        ensures
            final(self)@ == spec_apply_block(old(self)@, block@.transactions),
    {
        let ghost txs = block@.transactions;
        let mut k: usize = 0;
        proof {
            assert(txs.skip(0) =~= txs);
        }
        while k < block.transactions.len()
            invariant
                k <= block.transactions.len(),
                txs == block@.transactions,
                txs.len() == block.transactions@.len(),
                forall|j: int| 0 <= j < block.transactions@.len()
                    ==> txs[j] == block.transactions@[j]@,
                spec_apply_block(old(self)@, txs) == spec_apply_block(self@, txs.skip(k as int)),
            decreases block.transactions.len() - k,
        {
            let ghost rest = txs.skip(k as int);
            proof {
                assert(rest[0] == txs[k as int]);
                assert(rest.drop_first() =~= txs.skip(k + 1));
            }
            self.add_transaction(&block.transactions[k]);
            k = k + 1;
        }
        proof {
            assert(txs.skip(txs.len() as int) =~= Seq::<TransactionV>::empty());
        }
    }

    pub fn new() -> (r: Self)
        ensures
            r@ == Seq::<UtxoEntryV>::empty(),
            wf_utxos(r@),
    {
        let r = UTXOS(Vec::new());
        assert(r@ =~= Seq::<UtxoEntryV>::empty());
        r
    }

    /// Look a key up; the stored output is cloned out.
    pub fn get(&self, hash: &Vec<u8>, index: u64) -> (r: Option<TxOutput>)
        ensures
            match r {
                Some(o) => spec_get(self@, hash@, index) == Some(o@),
                None => spec_get(self@, hash@, index) is None,
            },
    {
        let ghost full = self@;
        let mut k: usize = 0;
        assert(full.skip(0) =~= full);
        while k < self.0.len()
            invariant
                k <= self.0.len(),
                full == self@,
                full.len() == self.0@.len(),
                forall|j: int| 0 <= j < self.0@.len() ==> full[j] == self.0@[j]@,
                spec_get(full, hash@, index) == spec_get(full.skip(k as int), hash@, index),
            decreases self.0.len() - k,
        {
            let ghost rest = full.skip(k as int);
            proof {
                assert(rest[0] == full[k as int]);
                assert(rest.drop_first() =~= full.skip(k + 1));
            }
            let matches_key = bytes_eq(&self.0[k].tx_hash, hash) && self.0[k].output_index == index;
            if matches_key {
                assert(key_matches(rest[0], hash@, index));
                return Some(self.0[k].output.clone());
            }
            assert(!key_matches(rest[0], hash@, index));
            k = k + 1;
        }
        proof {
            assert(full.skip(full.len() as int) =~= Seq::<UtxoEntryV>::empty());
        }
        None
    }

    pub fn contains_key(&self, hash: &Vec<u8>, index: u64) -> (r: bool)
        ensures
            r == spec_has_key(self@, hash@, index),
    {
        proof {
            lemma_get_has_key(self@, hash@, index);
        }
        match self.get(hash, index) {
            Some(_) => true,
            None => false,
        }
    }

    /// Drop a key from the set.
    pub fn remove(&mut self, hash: &Vec<u8>, index: u64)
        ensures
            final(self)@ == spec_remove(old(self)@, hash@, index),
    {
        let ghost full = self@;
        let mut kept: Vec<UtxoEntry> = Vec::new();
        let mut k: usize = 0;
        assert(full.skip(0) =~= full);
        assert(kept@.map_values(|e: UtxoEntry| e@) + spec_remove(full.skip(0), hash@, index)
            =~= spec_remove(full, hash@, index));
        while k < self.0.len()
            invariant
                k <= self.0.len(),
                full == self@,
                full.len() == self.0@.len(),
                forall|j: int| 0 <= j < self.0@.len() ==> full[j] == self.0@[j]@,
                spec_remove(full, hash@, index) == kept@.map_values(|e: UtxoEntry| e@)
                    + spec_remove(full.skip(k as int), hash@, index),
            decreases self.0.len() - k,
        {
            let ghost acc = kept@.map_values(|e: UtxoEntry| e@);
            let ghost rest = full.skip(k as int);
            proof {
                assert(rest[0] == full[k as int]);
                assert(rest.drop_first() =~= full.skip(k + 1));
            }
            let matches_key = bytes_eq(&self.0[k].tx_hash, hash) && self.0[k].output_index == index;
            if !matches_key {
                kept.push(self.0[k].clone());
                proof {
                    assert(kept@.map_values(|e: UtxoEntry| e@) =~= acc + seq![rest[0]]);
                    assert(acc + (seq![rest[0]] + spec_remove(full.skip(k + 1), hash@, index))
                        =~= (acc + seq![rest[0]]) + spec_remove(full.skip(k + 1), hash@, index));
                }
            }
            k = k + 1;
        }
        proof {
            assert(full.skip(full.len() as int) =~= Seq::<UtxoEntryV>::empty());
        }
        self.0 = kept;
        proof {
            assert(final(self)@ =~= kept@.map_values(|e: UtxoEntry| e@)
                + Seq::<UtxoEntryV>::empty());
        }
    }

    /// Store an output under a key, overwriting any entry with that key.
    pub fn insert(&mut self, hash: Vec<u8>, index: u64, utxo: TxOutput)
        ensures
            final(self)@ == spec_insert(
                old(self)@,
                UtxoEntryV { tx_hash: hash@, output_index: index, output: utxo@ },
            ),
    {
        let ghost e = UtxoEntryV { tx_hash: hash@, output_index: index, output: utxo@ };
        self.remove(&hash, index);
        self.0.push(UtxoEntry { tx_hash: hash, output_index: index, output: utxo });
        assert(final(self)@ =~= spec_remove(old(self)@, e.tx_hash, e.output_index).push(e));
    }
}

} // verus!
