//! The wallet: a key pair held as plain bytes, the owned subset of the
//! unspent outputs, a cached funds total, and the transaction builder that
//! spends from it.

use vstd::prelude::*;
use crate::hash::{sha256, sha256_of, bytes_eq};
use crate::keys::{generate_keypair, valid_signing_key, public_key_of};
use crate::script::Script;
use crate::transaction::{
    Transaction, TransactionV, TxInputV, TxOutput, TxOutputV, OutputSpec, OutputSpecV, InputSpec,
    InputSpecV, TransactionSpec, spec_signed_tx, spec_planned_tx, spec_planned_output,
    spec_input_sig_ok,
};
use crate::utxos::{
    UTXOS, UtxoEntry, UtxoEntryV, wf_utxos, spec_get, spec_remove, spec_insert,
    spec_remove_inputs, lemma_remove_wf, lemma_insert_wf, lemma_remove_get, lemma_insert_get,
    lemma_get_has_key, spec_has_key, max_value,
};
use crate::block::{Block, BlockV};

verus! {

/// A wallet: the signing key and its public key, the outputs locked to the
/// key's hash, and their cached total.
pub struct Wallet {
    pub utxos: UTXOS,
    pub funds: u128,
    pub public_key: Vec<u8>,
    pub private_key: Vec<u8>,
}

#[verifier::ext_equal]
pub struct WalletV {
    pub utxos: Seq<UtxoEntryV>,
    pub funds: u128,
    pub public_key: Seq<u8>,
    pub private_key: Seq<u8>,
}

impl View for Wallet {
    type V = WalletV;

    open spec fn view(&self) -> WalletV {
        WalletV {
            utxos: self.utxos@,
            funds: self.funds,
            public_key: self.public_key@,
            private_key: self.private_key@,
        }
    }
}

/// The sum of the values of the owned outputs.
pub open spec fn spec_owned_total(s: Seq<UtxoEntryV>) -> int
    decreases s.len(),
{
    if s.len() == 0 {
        0
    } else {
        s[0].output.value + spec_owned_total(s.drop_first())
    }
}

/// A wallet in good standing: keys match, every owned output's locking
/// script commits to the wallet's public-key hash, keys are unique, and
/// the cached funds equal the owned total.
pub open spec fn wf_wallet(w: WalletV) -> bool {
    &&& valid_signing_key(w.private_key)
    &&& w.public_key == public_key_of(w.private_key)
    &&& wf_utxos(w.utxos)
    &&& w.funds == spec_owned_total(w.utxos)
    &&& forall|k: int| 0 <= k < w.utxos.len()
        ==> Script::spec_locking_pkh((#[trigger] w.utxos[k]).output.locking_script)
            == Some(sha256_of(w.public_key))
}

pub proof fn lemma_owned_total_nonneg(s: Seq<UtxoEntryV>)
    ensures
        0 <= spec_owned_total(s) <= s.len() * max_value(),
    decreases s.len(),
{
    if s.len() > 0 {
        lemma_owned_total_nonneg(s.drop_first());
        assert((s.len() - 1) * max_value() + max_value() == s.len() * max_value())
            by (nonlinear_arith);
    }
}

/// Appending an entry raises the total by its value.
pub proof fn lemma_owned_total_push(s: Seq<UtxoEntryV>, e: UtxoEntryV)
    ensures
        spec_owned_total(s.push(e)) == spec_owned_total(s) + e.output.value,
    decreases s.len(),
{
    if s.len() == 0 {
        assert(s.push(e)[0] == e);
        assert(s.push(e).drop_first() =~= Seq::<UtxoEntryV>::empty());
        assert(spec_owned_total(Seq::<UtxoEntryV>::empty()) == 0);
        assert(s =~= Seq::<UtxoEntryV>::empty());
    } else {
        assert(s.push(e)[0] == s[0]);
        assert(s.push(e).drop_first() =~= s.drop_first().push(e));
        lemma_owned_total_push(s.drop_first(), e);
        assert(spec_owned_total(s.push(e))
            == s[0].output.value + spec_owned_total(s.drop_first().push(e)));
        assert(spec_owned_total(s) == s[0].output.value + spec_owned_total(s.drop_first()));
    }
}

/// With unique keys, removing a key lowers the total by exactly the stored
/// value, or not at all when the key is absent.
pub proof fn lemma_owned_total_remove(s: Seq<UtxoEntryV>, hash: Seq<u8>, index: u64)
    requires
        wf_utxos(s),
    ensures
        spec_owned_total(spec_remove(s, hash, index)) == spec_owned_total(s) - (
        match spec_get(s, hash, index) {
            Some(o) => o.value as int,
            None => 0,
        }),
    decreases s.len(),
{
    if s.len() > 0 {
        assert(wf_utxos(s.drop_first())) by {
            assert forall|k1: int, k2: int| 0 <= k1 < k2 < s.drop_first().len()
                implies !crate::utxos::key_matches(
                    #[trigger] s.drop_first()[k1],
                    #[trigger] s.drop_first()[k2].tx_hash,
                    s.drop_first()[k2].output_index,
                ) by {
                assert(s[k1 + 1] == s.drop_first()[k1]);
                assert(s[k2 + 1] == s.drop_first()[k2]);
            }
        }
        lemma_owned_total_remove(s.drop_first(), hash, index);
        if crate::utxos::key_matches(s[0], hash, index) {
            // no later entry carries the key, so the tail's removal is the tail
            assert(!spec_has_key(s.drop_first(), hash, index)) by {
                if spec_has_key(s.drop_first(), hash, index) {
                    let k = choose|k: int| 0 <= k < s.drop_first().len()
                        && crate::utxos::key_matches(s.drop_first()[k], hash, index);
                    assert(s[k + 1] == s.drop_first()[k]);
                    assert(crate::utxos::key_matches(s[0], s[k + 1].tx_hash,
                        s[k + 1].output_index));
                    assert(false);
                }
            }
            lemma_get_has_key(s.drop_first(), hash, index);
            lemma_remove_absent(s.drop_first(), hash, index);
        } else {
            let rest = spec_remove(s.drop_first(), hash, index);
            assert((seq![s[0]] + rest)[0] == s[0]);
            assert((seq![s[0]] + rest).drop_first() =~= rest);
        }
    }
}

/// Removing an absent key changes nothing.
pub proof fn lemma_remove_absent(s: Seq<UtxoEntryV>, hash: Seq<u8>, index: u64)
    requires
        !spec_has_key(s, hash, index),
    ensures
        spec_remove(s, hash, index) == s,
    decreases s.len(),
{
    if s.len() > 0 {
        assert(!crate::utxos::key_matches(s[0], hash, index));
        assert(!spec_has_key(s.drop_first(), hash, index)) by {
            if spec_has_key(s.drop_first(), hash, index) {
                let k = choose|k: int| 0 <= k < s.drop_first().len()
                    && crate::utxos::key_matches(s.drop_first()[k], hash, index);
                assert(s[k + 1] == s.drop_first()[k]);
            }
        }
        lemma_remove_absent(s.drop_first(), hash, index);
        assert(seq![s[0]] + s.drop_first() =~= s);
    }
}

/// The owned set an accepted transaction leaves: spent keys out, then each
/// of the transaction's outputs whose script commits to `pkh` in.
pub open spec fn spec_wallet_insert_outputs(
    s: Seq<UtxoEntryV>,
    hash: Seq<u8>,
    outputs: Seq<TxOutputV>,
    idx: int,
    pkh: Seq<u8>,
) -> Seq<UtxoEntryV>
    decreases outputs.len(),
{
    if outputs.len() == 0 {
        s
    } else {
        let s2 = if Script::spec_locking_pkh(outputs[0].locking_script) == Some(pkh) {
            spec_insert(s, UtxoEntryV {
                tx_hash: hash,
                output_index: idx as u64,
                output: outputs[0],
            })
        } else {
            s
        };
        spec_wallet_insert_outputs(s2, hash, outputs.drop_first(), idx + 1, pkh)
    }
}

pub open spec fn spec_wallet_apply_tx(s: Seq<UtxoEntryV>, t: TransactionV, pkh: Seq<u8>)
    -> Seq<UtxoEntryV> {
    spec_wallet_insert_outputs(
        spec_remove_inputs(s, t.inputs),
        crate::transaction::spec_tx_hash(t),
        t.outputs,
        0,
        pkh,
    )
}

pub open spec fn spec_wallet_apply_block(
    s: Seq<UtxoEntryV>,
    txs: Seq<TransactionV>,
    pkh: Seq<u8>,
) -> Seq<UtxoEntryV>
    decreases txs.len(),
{
    if txs.len() == 0 {
        s
    } else {
        spec_wallet_apply_block(spec_wallet_apply_tx(s, txs[0], pkh), txs.drop_first(), pkh)
    }
}

impl Wallet {
    /// A fresh wallet: a newly drawn key pair, nothing owned.
    pub fn new() -> (r: Self)
        ensures
            wf_wallet(r@),
            r@.utxos.len() == 0,
            r@.funds == 0,
    {
        let (private_key, public_key) = generate_keypair();
        let r = Wallet { utxos: UTXOS::new(), funds: 0, public_key, private_key };
        r
    }

    pub fn get_funds(&self) -> (r: u128)
        ensures
            r == self@.funds,
    {
        self.funds
    }

    pub fn get_public_key(&self) -> (r: Vec<u8>)
        ensures
            r@ == self@.public_key,
    {
        let r = self.public_key.clone();
        assert(r@ =~= self.public_key@);
        r
    }

    /// Forget an owned output, adjusting the cached funds.
    fn remove(&mut self, hash: &Vec<u8>, index: u64)
        requires
            wf_wallet(old(self)@),
        ensures
            wf_wallet(final(self)@),
            final(self)@.utxos == spec_remove(old(self)@.utxos, hash@, index),
            final(self)@.public_key == old(self)@.public_key,
            final(self)@.private_key == old(self)@.private_key,
    {
        proof {
            lemma_owned_total_remove(self@.utxos, hash@, index);
            lemma_remove_wf(self@.utxos, hash@, index);
            lemma_owned_total_nonneg(spec_remove(self@.utxos, hash@, index));
        }
        match self.utxos.get(hash, index) {
            Some(output) => {
                self.funds = self.funds - output.value as u128;
                self.utxos.remove(hash, index);
            }
            None => {
                self.utxos.remove(hash, index);
            }
        }
        proof {
            let s = final(self)@.utxos;
            assert forall|k: int| 0 <= k < s.len()
                implies Script::spec_locking_pkh((#[trigger] s[k]).output.locking_script)
                    == Some(sha256_of(final(self)@.public_key)) by {
                crate::utxos::lemma_remove_element(old(self)@.utxos, hash@, index, k);
                let w = choose|w: int| 0 <= w < old(self)@.utxos.len()
                    && old(self)@.utxos[w] == s[k];
                assert(Script::spec_locking_pkh(old(self)@.utxos[w].output.locking_script)
                    == Some(sha256_of(old(self)@.public_key)));
            }
        }
    }

    /// Record a freshly owned output, adjusting the cached funds.
    fn insert(&mut self, hash: Vec<u8>, index: u64, utxo: TxOutput)
        requires
            wf_wallet(old(self)@),
            Script::spec_locking_pkh(utxo@.locking_script)
                == Some(sha256_of(old(self)@.public_key)),
        ensures
            wf_wallet(final(self)@),
            final(self)@.utxos == spec_insert(old(self)@.utxos, UtxoEntryV {
                tx_hash: hash@,
                output_index: index,
                output: utxo@,
            }),
            final(self)@.public_key == old(self)@.public_key,
            final(self)@.private_key == old(self)@.private_key,
    {
        let ghost e = UtxoEntryV { tx_hash: hash@, output_index: index, output: utxo@ };
        proof {
            lemma_owned_total_remove(self@.utxos, hash@, index);
            lemma_remove_wf(self@.utxos, hash@, index);
            lemma_insert_wf(self@.utxos, e);
            lemma_owned_total_push(spec_remove(self@.utxos, hash@, index), e);
            lemma_owned_total_nonneg(self@.utxos);
            lemma_owned_total_nonneg(spec_remove(self@.utxos, hash@, index));
        }
        match self.utxos.get(&hash, index) {
            Some(prior) => {
                self.funds = self.funds - prior.value as u128;
            }
            None => {
            }
        }
        let n = self.utxos.0.len();
        proof {
            assert(self@.utxos.len() == n as int);
            assert(self@.utxos.len() * max_value()
                <= 0xFFFF_FFFF_FFFF_FFFF * max_value()) by (nonlinear_arith)
                requires self@.utxos.len() <= 0xFFFF_FFFF_FFFF_FFFF;
        }
        self.funds = self.funds + utxo.value as u128;
        self.utxos.insert(hash, index, utxo);
        proof {
            let s = final(self)@.utxos;
            assert forall|k: int| 0 <= k < s.len()
                implies Script::spec_locking_pkh((#[trigger] s[k]).output.locking_script)
                    == Some(sha256_of(final(self)@.public_key)) by {
                if k < s.len() - 1 {
                    crate::utxos::lemma_remove_element(old(self)@.utxos, hash@, index, k);
                    let w = choose|w: int| 0 <= w < old(self)@.utxos.len()
                        && old(self)@.utxos[w] == s[k];
                    assert(Script::spec_locking_pkh(old(self)@.utxos[w].output.locking_script)
                        == Some(sha256_of(old(self)@.public_key)));
                } else {
                    assert(s[k] == e);
                }
            }
        }
    }
}

/// The sum a list of planned outputs pays.
pub open spec fn spec_out_specs_total(outs: Seq<OutputSpecV>) -> int
    decreases outs.len(),
{
    if outs.len() == 0 {
        0
    } else {
        outs[0].value + spec_out_specs_total(outs.drop_first())
    }
}

/// How many owned outputs, in list order, are needed to cover `target`.
pub open spec fn spec_take_count(s: Seq<UtxoEntryV>, target: int) -> int
    decreases s.len(),
{
    if target <= 0 || s.len() == 0 {
        0
    } else {
        1 + spec_take_count(s.drop_first(), target - s[0].output.value)
    }
}

/// The owned total splits at any point.
pub proof fn lemma_owned_total_split(s: Seq<UtxoEntryV>, i: int)
    requires
        0 <= i <= s.len(),
    ensures
        spec_owned_total(s) == spec_owned_total(s.take(i)) + spec_owned_total(s.skip(i)),
    decreases i,
{
    if i == 0 {
        assert(s.take(0) =~= Seq::<UtxoEntryV>::empty());
        assert(spec_owned_total(Seq::<UtxoEntryV>::empty()) == 0);
        assert(s.skip(0) =~= s);
    } else {
        assert(s.len() > 0);
        assert(s.take(i)[0] == s[0]);
        assert(s.take(i).drop_first() =~= s.drop_first().take(i - 1));
        assert(s.skip(i) =~= s.drop_first().skip(i - 1));
        lemma_owned_total_split(s.drop_first(), i - 1);
        assert(spec_owned_total(s.take(i))
            == s[0].output.value + spec_owned_total(s.drop_first().take(i - 1)));
        assert(spec_owned_total(s) == s[0].output.value + spec_owned_total(s.drop_first()));
    }
}

/// Extending a prefix by one adds that entry's value.
pub proof fn lemma_owned_total_snoc(s: Seq<UtxoEntryV>, i: int)
    requires
        0 <= i < s.len(),
    ensures
        spec_owned_total(s.take(i + 1)) == spec_owned_total(s.take(i)) + s[i].output.value,
{
    assert(s.take(i + 1) =~= s.take(i).push(s[i]));
    lemma_owned_total_push(s.take(i), s[i]);
}

impl Wallet {
    /// Apply one accepted transaction to the owned set: inputs it spends
    /// leave, outputs locked to this wallet's key hash enter, funds follow.
    pub fn add_transaction(&mut self, tx: &Transaction)
        requires
            wf_wallet(old(self)@),
        ensures
            wf_wallet(final(self)@),
            final(self)@.utxos == spec_wallet_apply_tx(
                old(self)@.utxos, tx@, sha256_of(old(self)@.public_key),
            ),
            final(self)@.public_key == old(self)@.public_key,
            final(self)@.private_key == old(self)@.private_key,
    {
        let hash = tx.get_hash();
        let pkh = sha256(self.public_key.clone());
        assert(pkh@ == sha256_of(self@.public_key));
        let ghost my_pkh = pkh@;
        let ghost inputs = tx@.inputs;
        let mut k: usize = 0;
        proof {
            assert(inputs.skip(0) =~= inputs);
        }
        while k < tx.inputs.len()
            invariant
                k <= tx.inputs.len(),
                wf_wallet(self@),
                inputs == tx@.inputs,
                inputs.len() == tx.inputs@.len(),
                forall|j: int| 0 <= j < tx.inputs@.len() ==> inputs[j] == tx.inputs@[j]@,
                self@.public_key == old(self)@.public_key,
                self@.private_key == old(self)@.private_key,
                spec_remove_inputs(old(self)@.utxos, inputs) == spec_remove_inputs(
                    self@.utxos, inputs.skip(k as int),
                ),
            decreases tx.inputs.len() - k,
        {
            let ghost rest = inputs.skip(k as int);
            proof {
                assert(rest[0] == inputs[k as int]);
                assert(rest.drop_first() =~= inputs.skip(k + 1));
            }
            self.remove(&tx.inputs[k].prev, tx.inputs[k].output_index);
            k = k + 1;
        }
        proof {
            assert(inputs.skip(inputs.len() as int) =~= Seq::<crate::transaction::TxInputV>::empty());
            assert(self@.utxos == spec_remove_inputs(old(self)@.utxos, inputs));
        }
        let ghost removed = self@.utxos;
        let ghost outputs = tx@.outputs;
        let mut i: usize = 0;
        proof {
            assert(outputs.skip(0) =~= outputs);
        }
        while i < tx.outputs.len()
            invariant
                i <= tx.outputs.len(),
                wf_wallet(self@),
                hash@ == crate::transaction::spec_tx_hash(tx@),
                my_pkh == sha256_of(old(self)@.public_key),
                pkh@ == my_pkh,
                outputs == tx@.outputs,
                outputs.len() == tx.outputs@.len(),
                forall|j: int| 0 <= j < tx.outputs@.len() ==> outputs[j] == tx.outputs@[j]@,
                self@.public_key == old(self)@.public_key,
                self@.private_key == old(self)@.private_key,
                spec_wallet_insert_outputs(removed, hash@, outputs, 0, my_pkh)
                    == spec_wallet_insert_outputs(
                        self@.utxos, hash@, outputs.skip(i as int), i as int, my_pkh,
                    ),
            decreases tx.outputs.len() - i,
        {
            let ghost rest = outputs.skip(i as int);
            proof {
                assert(rest[0] == outputs[i as int]);
                assert(rest.drop_first() =~= outputs.skip(i + 1));
            }
            let keep = match tx.outputs[i].locking_script.P2PKHLocking_get_public_key_hash() {
                Some(h) => bytes_eq(&h, &pkh),
                None => false,
            };
            if keep {
                assert(Script::spec_locking_pkh(rest[0].locking_script) == Some(my_pkh));
                let h = hash.clone();
                assert(h@ =~= hash@);
                self.insert(h, i as u64, tx.outputs[i].clone());
            } else {
                assert(Script::spec_locking_pkh(rest[0].locking_script) != Some(my_pkh));
            }
            i = i + 1;
        }
        proof {
            assert(outputs.skip(outputs.len() as int) =~= Seq::<TxOutputV>::empty());
        }
    }

    /// Apply every transaction of an accepted block, in order.
    pub fn add_block(&mut self, block: &Block)
        requires
            wf_wallet(old(self)@),
        ensures
            wf_wallet(final(self)@),
            final(self)@.utxos == spec_wallet_apply_block(
                old(self)@.utxos, block@.transactions, sha256_of(old(self)@.public_key),
            ),
            final(self)@.public_key == old(self)@.public_key,
            final(self)@.private_key == old(self)@.private_key,
    {
        let ghost txs = block@.transactions;
        let ghost my_pkh = sha256_of(self@.public_key);
        let mut k: usize = 0;
        proof {
            assert(txs.skip(0) =~= txs);
        }
        while k < block.transactions.len()
            invariant
                k <= block.transactions.len(),
                wf_wallet(self@),
                txs == block@.transactions,
                txs.len() == block.transactions@.len(),
                forall|j: int| 0 <= j < block.transactions@.len()
                    ==> txs[j] == block.transactions@[j]@,
                self@.public_key == old(self)@.public_key,
                self@.private_key == old(self)@.private_key,
                my_pkh == sha256_of(old(self)@.public_key),
                spec_wallet_apply_block(old(self)@.utxos, txs, my_pkh)
                    == spec_wallet_apply_block(self@.utxos, txs.skip(k as int), my_pkh),
            decreases block.transactions.len() - k,
        {
            let ghost rest = txs.skip(k as int);
            proof {
                assert(rest[0] == txs[k as int]);
                assert(rest.drop_first() =~= txs.skip(k + 1));
            }
            self.add_transaction(&block.transactions[k]);
            k = k + 1;
        }
        proof {
            assert(txs.skip(txs.len() as int) =~= Seq::<TransactionV>::empty());
        }
    }

    /// Build and sign a transaction paying `outputs`, spending owned
    /// outputs in list order until they cover the payments and the fee,
    /// with any remainder returned to this wallet as change. The caller
    /// has checked the funds.
    pub fn new_transaction(&self, version: u64, outputs: Vec<OutputSpec>, fee: u64) -> (r: Transaction)
        requires
            wf_wallet(self@),
            spec_out_specs_total(outputs@.map_values(|o: OutputSpec| o@)) + fee <= self@.funds,
            spec_out_specs_total(outputs@.map_values(|o: OutputSpec| o@)) >= 0,
        ensures
            ({
                let outs = outputs@.map_values(|o: OutputSpec| o@);
                let target = spec_out_specs_total(outs) + fee;
                let n = spec_take_count(self@.utxos, target);
                let spent = spec_owned_total(self@.utxos.take(n));
                let ins = self@.utxos.take(n).map(|j: int, e: UtxoEntryV| InputSpecV {
                    prev: e.tx_hash,
                    output_index: e.output_index,
                    utxo: e.output,
                });
                let all_outs = if spent > target {
                    outs.push(OutputSpecV {
                        value: (spent - target) as u64,
                        recipient: self@.public_key,
                    })
                } else {
                    outs
                };
                r@ == spec_signed_tx(
                    spec_planned_tx(ins, all_outs, version, r@.timestamp),
                    ins.map_values(|i: InputSpecV| i.utxo),
                    self@.private_key,
                    self@.public_key,
                )
            }),
    {
        let ghost owned = self@.utxos;
        let ghost outs = outputs@.map_values(|o: OutputSpec| o@);
        let mut spend_total: u128 = 0;
        let mut w: usize = 0;
        proof {
            assert(outs.skip(0) =~= outs);
            crate::utxos::lemma_output_total_bound(Seq::<TxOutputV>::empty());
        }
        while w < outputs.len()
            invariant
                w <= outputs.len(),
                outs == outputs@.map_values(|o: OutputSpec| o@),
                outs.len() == outputs@.len(),
                forall|j: int| 0 <= j < outputs@.len() ==> outs[j] == outputs@[j]@,
                spec_out_specs_total(outs) == spend_total
                    + spec_out_specs_total(outs.skip(w as int)),
                spec_out_specs_total(outs) >= 0,
                spend_total >= 0,
                spec_out_specs_total(outs.skip(w as int)) >= 0 ==> spend_total
                    <= spec_out_specs_total(outs),
                spend_total <= 0xFFFF_FFFF_FFFF_FFFF_FFFF_FFFF_FFFF_FFFF
                    - 0xFFFF_FFFF_FFFF_FFFF,
            decreases outputs.len() - w,
        {
            let ghost rest = outs.skip(w as int);
            proof {
                assert(rest[0] == outs[w as int]);
                assert(rest.drop_first() =~= outs.skip(w + 1));
                lemma_out_specs_total_nonneg(outs.skip(w + 1));
                lemma_out_specs_total_nonneg(outs);
                lemma_out_specs_total_bound(outs);
            }
            spend_total = spend_total + outputs[w].value as u128;
            w = w + 1;
        }
        proof {
            assert(outs.skip(outs.len() as int) =~= Seq::<OutputSpecV>::empty());
            assert(spec_out_specs_total(Seq::<OutputSpecV>::empty()) == 0);
        }
        let target: u128 = spend_total + fee as u128;
        assert(target == spec_out_specs_total(outs) + fee);

        let mut tx_inputs: Vec<InputSpec> = Vec::new();
        let mut spent: u128 = 0;
        let mut i: usize = 0;
        let owned_len = self.utxos.0.len();
        proof {
            assert(owned.len() == owned_len as int);
            assert(owned.len() <= 0xFFFF_FFFF_FFFF_FFFF);
            assert(owned.take(0) =~= Seq::<UtxoEntryV>::empty());
            assert(spec_owned_total(Seq::<UtxoEntryV>::empty()) == 0);
            assert(owned.skip(0) =~= owned);
        }
        while spent < target
            invariant
                0 <= i <= owned.len(),
                owned == self@.utxos,
                wf_wallet(self@),
                target == spec_out_specs_total(outs) + fee,
                target <= self@.funds,
                spent == spec_owned_total(owned.take(i as int)),
                owned.len() == self.utxos.0@.len(),
                forall|j: int| 0 <= j < self.utxos.0@.len() ==> owned[j] == self.utxos.0@[j]@,
                tx_inputs@.len() == i,
                forall|j: int| 0 <= j < i ==> tx_inputs@[j]@ == (InputSpecV {
                    prev: owned[j].tx_hash,
                    output_index: owned[j].output_index,
                    utxo: owned[j].output,
                }),
                spent < target ==> spec_take_count(owned, target as int) == i
                    + spec_take_count(owned.skip(i as int), target - spent),
                spent >= target ==> spec_take_count(owned, target as int) == i,
                spent < target + 0x1_0000_0000_0000_0000,
                owned.len() <= 0xFFFF_FFFF_FFFF_FFFF,
            decreases owned.len() - i,
        {
            proof {
                lemma_owned_total_split(owned, i as int);
                if i == owned.len() {
                    assert(owned.take(i as int) =~= owned);
                    assert(spent == spec_owned_total(owned));
                    assert(false);
                }
                assert(owned.skip(i as int)[0] == owned[i as int]);
                assert(owned.skip(i as int).drop_first() =~= owned.skip(i + 1));
                lemma_owned_total_snoc(owned, i as int);
                lemma_owned_total_nonneg(owned.take(i as int));
            }
            let n_entries = self.utxos.0.len();
            assert(i < n_entries);
            let entry_hash = self.utxos.0[i].tx_hash.clone();
            assert(entry_hash@ =~= owned[i as int].tx_hash);
            let value = self.utxos.0[i].output.value;
            tx_inputs.push(InputSpec::new(
                entry_hash,
                self.utxos.0[i].output_index,
                self.utxos.0[i].output.clone(),
            ));
            proof {
                lemma_owned_total_nonneg(owned);
                vstd::arithmetic::mul::lemma_mul_upper_bound(
                    owned.len() as int, 0xFFFF_FFFF_FFFF_FFFF, max_value(), max_value(),
                );
                assert(self@.funds <= 0x1_0000_0000_0000_0000_0000_0000_0000_0000
                    - 0x2_0000_0000_0000_0000 + 1);
            }
            spent = spent + value as u128;
            proof {
                if spent >= target {
                    assert(spec_take_count(owned.skip(i + 1), target - spent) == 0);
                }
            }
            i = i + 1;
        }
        proof {
            assert(spec_take_count(owned, target as int) == i);
        }

        let mut all_outputs = outputs;
        if spent > target {
            let change = (spent - target) as u64;
            let my_key = self.public_key.clone();
            assert(my_key@ =~= self@.public_key);
            all_outputs.push(OutputSpec::new(change, my_key));
            assert(all_outputs@.map_values(|o: OutputSpec| o@) =~= outs.push(OutputSpecV {
                value: ((spec_owned_total(owned.take(spec_take_count(owned, target as int))))
                    - (spec_out_specs_total(outs) + fee)) as u64,
                recipient: self@.public_key,
            }));
        } else {
            assert(all_outputs@.map_values(|o: OutputSpec| o@) =~= outs);
        }
        let my_pk = self.public_key.clone();
        assert(my_pk@ =~= self@.public_key);
        let my_sk = self.private_key.clone();
        assert(my_sk@ =~= self@.private_key);
        let tx_spec = TransactionSpec {
            public_key: my_pk,
            private_key: my_sk,
            inputs: tx_inputs,
            outputs: all_outputs,
            version,
        };
        let r = tx_spec.to_transaction();
        proof {
            let n = spec_take_count(self@.utxos, target as int);
            assert(tx_spec.inputs@.map_values(|x: InputSpec| x@) =~= self@.utxos.take(n).map(
                |j: int, e: UtxoEntryV| InputSpecV {
                    prev: e.tx_hash,
                    output_index: e.output_index,
                    utxo: e.output,
                },
            ));
        }
        r
    }
}

/// Every output the wallet owns sits in the ledger, with the same value
/// and script.
pub open spec fn spec_owned_subset(w: Seq<UtxoEntryV>, u: Seq<UtxoEntryV>) -> bool {
    forall|h: Seq<u8>, i: u64| #[trigger] spec_get(w, h, i) is Some
        ==> spec_get(u, h, i) == spec_get(w, h, i)
}

/// What the wallet's selective insertion answers under any key: the output
/// at the key's position when it is the transaction's hash and the output
/// commits to the wallet's key hash, the old answer otherwise.
pub proof fn lemma_wallet_insert_outputs_get(
    s: Seq<UtxoEntryV>,
    hash: Seq<u8>,
    outputs: Seq<TxOutputV>,
    base: int,
    pkh: Seq<u8>,
    h: Seq<u8>,
    index: u64,
)
    requires
        0 <= base,
        base + outputs.len() <= 0x1_0000_0000_0000_0000,
    ensures
        spec_get(spec_wallet_insert_outputs(s, hash, outputs, base, pkh), h, index) == if h == hash
            && base <= index < base + outputs.len()
            && Script::spec_locking_pkh(outputs[index - base].locking_script) == Some(pkh) {
            Some(outputs[index - base])
        } else {
            spec_get(s, h, index)
        },
    decreases outputs.len(),
{
    if outputs.len() > 0 {
        let e = UtxoEntryV { tx_hash: hash, output_index: base as u64, output: outputs[0] };
        let s2 = if Script::spec_locking_pkh(outputs[0].locking_script) == Some(pkh) {
            spec_insert(s, e)
        } else {
            s
        };
        if Script::spec_locking_pkh(outputs[0].locking_script) == Some(pkh) {
            lemma_insert_get(s, e, h, index);
        }
        lemma_wallet_insert_outputs_get(s2, hash, outputs.drop_first(), base + 1, pkh, h, index);
        if h == hash && base <= index < base + outputs.len() {
            if index == base {
                assert(outputs[0] == outputs[index - base]);
            } else {
                assert(outputs.drop_first()[index - base - 1] == outputs[index - base]);
            }
        }
    }
}

/// One applied transaction keeps the wallet's owned set a subset of the
/// ledger, as long as the transaction's hash keys nothing the wallet
/// already owns.
pub proof fn lemma_wallet_subset_apply_tx(
    w: Seq<UtxoEntryV>,
    u: Seq<UtxoEntryV>,
    t: TransactionV,
    pkh: Seq<u8>,
)
    requires
        spec_owned_subset(w, u),
        t.outputs.len() <= 0x1_0000_0000_0000_0000,
        forall|i: u64| spec_get(w, crate::transaction::spec_tx_hash(t), i) is None,
    ensures
        spec_owned_subset(
            spec_wallet_apply_tx(w, t, pkh),
            crate::utxos::spec_apply_tx(u, t),
        ),
{
    let hash = crate::transaction::spec_tx_hash(t);
    let w1 = spec_wallet_apply_tx(w, t, pkh);
    let u1 = crate::utxos::spec_apply_tx(u, t);
    assert forall|h: Seq<u8>, i: u64| #[trigger] spec_get(w1, h, i) is Some
        implies spec_get(u1, h, i) == spec_get(w1, h, i) by {
        lemma_wallet_insert_outputs_get(
            spec_remove_inputs(w, t.inputs), hash, t.outputs, 0, pkh, h, i,
        );
        crate::utxos::lemma_remove_inputs_get(w, t.inputs, h, i);
        crate::utxos::lemma_apply_tx_get(u, t, h, i);
        if h == hash && 0 <= i < t.outputs.len()
            && Script::spec_locking_pkh(t.outputs[i as int].locking_script) == Some(pkh) {
        } else {
            // the wallet's answer is an old one, so the key is neither the
            // transaction's hash nor spent by it
            assert(spec_get(w1, h, i) == spec_get(spec_remove_inputs(w, t.inputs), h, i));
            assert(!crate::utxos::spec_spends(t.inputs, h, i));
            assert(spec_get(w1, h, i) == spec_get(w, h, i));
            assert(h != hash);
        }
    }
}

/// A key under a hash that is no block transaction's hash answers in the
/// wallet after the block what it answered before.
pub proof fn lemma_wallet_apply_block_fresh(
    w: Seq<UtxoEntryV>,
    txs: Seq<TransactionV>,
    pkh: Seq<u8>,
    h: Seq<u8>,
    index: u64,
)
    requires
        forall|m: int| 0 <= m < txs.len()
            ==> h != crate::transaction::spec_tx_hash(#[trigger] txs[m]),
        forall|m: int| 0 <= m < txs.len() ==> (#[trigger] txs[m]).outputs.len()
            <= 0x1_0000_0000_0000_0000,
        spec_get(w, h, index) is None,
    ensures
        spec_get(spec_wallet_apply_block(w, txs, pkh), h, index) is None,
    decreases txs.len(),
{
    if txs.len() > 0 {
        let head = txs[0];
        let hash = crate::transaction::spec_tx_hash(head);
        let w1 = spec_wallet_apply_tx(w, head, pkh);
        lemma_wallet_insert_outputs_get(
            spec_remove_inputs(w, head.inputs), hash, head.outputs, 0, pkh, h, index,
        );
        crate::utxos::lemma_remove_inputs_get(w, head.inputs, h, index);
        assert(spec_get(w1, h, index) is None);
        assert forall|m: int| 0 <= m < txs.drop_first().len()
            implies h != crate::transaction::spec_tx_hash(#[trigger] txs.drop_first()[m])
                && txs.drop_first()[m].outputs.len() <= 0x1_0000_0000_0000_0000 by {
            assert(txs.drop_first()[m] == txs[m + 1]);
        }
        lemma_wallet_apply_block_fresh(w1, txs.drop_first(), pkh, h, index);
    }
}

/// An applied block keeps the wallet's owned set a subset of the ledger:
/// what the wallet keeps, the ledger keeps too — as long as the block's
/// transaction hashes are fresh for the wallet as well.
pub proof fn lemma_wallet_subset_apply_block(
    w: Seq<UtxoEntryV>,
    u: Seq<UtxoEntryV>,
    txs: Seq<TransactionV>,
    pkh: Seq<u8>,
)
    requires
        spec_owned_subset(w, u),
        crate::utxos::spec_fresh_block_hashes(txs),
        forall|m: int| 0 <= m < txs.len() ==> (#[trigger] txs[m]).outputs.len()
            <= 0x1_0000_0000_0000_0000,
        forall|m: int, i: u64| 0 <= m < txs.len()
            ==> #[trigger] spec_get(w, crate::transaction::spec_tx_hash(txs[m]), i) is None,
    ensures
        spec_owned_subset(
            spec_wallet_apply_block(w, txs, pkh),
            crate::utxos::spec_apply_block(u, txs),
        ),
    decreases txs.len(),
{
    if txs.len() > 0 {
        let head = txs[0];
        let hash = crate::transaction::spec_tx_hash(head);
        let rest = txs.drop_first();
        let w1 = spec_wallet_apply_tx(w, head, pkh);
        let u1 = crate::utxos::spec_apply_tx(u, head);
        assert forall|i: u64| true implies spec_get(w, hash, i) is None by {}
        lemma_wallet_subset_apply_tx(w, u, head, pkh);
        assert forall|m: int| 0 <= m < rest.len() implies rest[m] == txs[m + 1] by {}
        assert(crate::utxos::spec_fresh_block_hashes(rest)) by {
            assert forall|i: int, j: int| 0 <= i < rest.len() && 0 <= j < rest.len() && i != j
                implies crate::transaction::spec_tx_hash(#[trigger] rest[i])
                    != crate::transaction::spec_tx_hash(#[trigger] rest[j]) by {
                assert(rest[i] == txs[i + 1]);
                assert(rest[j] == txs[j + 1]);
            }
            assert forall|i: int, m: int, k: int| 0 <= i < rest.len() && 0 <= m < rest.len()
                && 0 <= k < rest[i].inputs.len()
                implies (#[trigger] rest[i].inputs[k]).prev
                    != crate::transaction::spec_tx_hash(#[trigger] rest[m]) by {
                assert(rest[i] == txs[i + 1]);
                assert(rest[m] == txs[m + 1]);
                assert(txs[i + 1].inputs[k].prev
                    != crate::transaction::spec_tx_hash(txs[m + 1]));
            }
        }
        assert forall|m: int| 0 <= m < rest.len()
            implies (#[trigger] rest[m]).outputs.len() <= 0x1_0000_0000_0000_0000 by {
            assert(rest[m] == txs[m + 1]);
        }
        assert forall|m: int, i: u64| 0 <= m < rest.len()
            implies #[trigger] spec_get(
                w1, crate::transaction::spec_tx_hash(rest[m]), i,
            ) is None by {
            assert(rest[m] == txs[m + 1]);
            let rh = crate::transaction::spec_tx_hash(txs[m + 1]);
            lemma_wallet_insert_outputs_get(
                spec_remove_inputs(w, head.inputs), hash, head.outputs, 0, pkh, rh, i,
            );
            crate::utxos::lemma_remove_inputs_get(w, head.inputs, rh, i);
            assert(rh != hash);
            assert(spec_get(w, rh, i) is None);
        }
        lemma_wallet_subset_apply_block(w1, u1, rest, pkh);
    }
}

/// Appending one planned output raises the total by its value.
pub proof fn lemma_out_specs_total_push(outs: Seq<OutputSpecV>, e: OutputSpecV)
    ensures
        spec_out_specs_total(outs.push(e)) == spec_out_specs_total(outs) + e.value,
    decreases outs.len(),
{
    if outs.len() == 0 {
        assert(outs.push(e)[0] == e);
        assert(outs.push(e).drop_first() =~= Seq::<OutputSpecV>::empty());
        assert(spec_out_specs_total(Seq::<OutputSpecV>::empty()) == 0);
        assert(outs =~= Seq::<OutputSpecV>::empty());
    } else {
        assert(outs.push(e)[0] == outs[0]);
        assert(outs.push(e).drop_first() =~= outs.drop_first().push(e));
        lemma_out_specs_total_push(outs.drop_first(), e);
        assert(spec_out_specs_total(outs.push(e))
            == outs[0].value + spec_out_specs_total(outs.drop_first().push(e)));
        assert(spec_out_specs_total(outs)
            == outs[0].value + spec_out_specs_total(outs.drop_first()));
    }
}

/// When every input's key answers with its recorded funding output, the
/// funded total is the sum of those outputs' values.
pub proof fn lemma_input_total_from_gets(
    u: Seq<UtxoEntryV>,
    inputs: Seq<TxInputV>,
    funded: Seq<TxOutputV>,
)
    requires
        inputs.len() == funded.len(),
        forall|k: int| 0 <= k < inputs.len() ==> spec_get(
            u, (#[trigger] inputs[k]).prev, inputs[k].output_index,
        ) == Some(funded[k]),
    ensures
        crate::utxos::spec_input_total(u, inputs)
            == crate::utxos::spec_output_total(funded),
    decreases inputs.len(),
{
    if inputs.len() > 0 {
        assert forall|k: int| 0 <= k < inputs.drop_first().len()
            implies spec_get(
                u, (#[trigger] inputs.drop_first()[k]).prev,
                inputs.drop_first()[k].output_index,
            ) == Some(funded.drop_first()[k]) by {
            assert(inputs.drop_first()[k] == inputs[k + 1]);
            assert(funded.drop_first()[k] == funded[k + 1]);
        }
        lemma_input_total_from_gets(u, inputs.drop_first(), funded.drop_first());
        assert(spec_get(u, inputs[0].prev, inputs[0].output_index) == Some(funded[0]));
    }
}

/// Materialising planned outputs keeps the values: the payment total is
/// the plan's total.
pub proof fn lemma_planned_outputs_total(outs: Seq<OutputSpecV>)
    ensures
        crate::utxos::spec_output_total(
            outs.map_values(|o: OutputSpecV| spec_planned_output(o)),
        ) == spec_out_specs_total(outs),
    decreases outs.len(),
{
    let mapped = outs.map_values(|o: OutputSpecV| spec_planned_output(o));
    if outs.len() == 0 {
        assert(mapped =~= Seq::<TxOutputV>::empty());
        assert(crate::utxos::spec_output_total(Seq::<TxOutputV>::empty()) == 0);
    } else {
        assert(mapped.drop_first()
            =~= outs.drop_first().map_values(|o: OutputSpecV| spec_planned_output(o)));
        lemma_planned_outputs_total(outs.drop_first());
        assert(mapped[0] == spec_planned_output(outs[0]));
        assert(crate::utxos::spec_output_total(mapped)
            == mapped[0].value + crate::utxos::spec_output_total(mapped.drop_first()));
    }
}

/// What the builder signs, validates: against any ledger that answers each
/// planned input's key with its recorded funding output, a transaction
/// signed by `sk` over canonically locked outputs of `sk`'s own key passes
/// pending validation, as long as the plan does not pay out more than it
/// funds.
pub proof fn lemma_built_transaction_validates(
    u: Seq<UtxoEntryV>,
    ins: Seq<InputSpecV>,
    outs: Seq<OutputSpecV>,
    version: u64,
    ts: u64,
    sk: Seq<u8>,
)
    requires
        forall|j: int| 0 <= j < ins.len() ==> (#[trigger] ins[j]).utxo.locking_script
            == crate::script::p2pkh_locking(sha256_of(public_key_of(sk))),
        forall|j: int| 0 <= j < ins.len() ==> spec_input_sig_ok(
            sk, spec_planned_tx(ins, outs, version, ts), j, (#[trigger] ins[j]).utxo,
        ),
        forall|j: int| 0 <= j < ins.len() ==> spec_get(
            u, (#[trigger] ins[j]).prev, ins[j].output_index,
        ) == Some(ins[j].utxo),
        spec_out_specs_total(outs) <= crate::utxos::spec_output_total(
            ins.map_values(|i: InputSpecV| i.utxo),
        ),
    ensures
        crate::utxos::spec_validate_pending(
            u,
            spec_signed_tx(
                spec_planned_tx(ins, outs, version, ts),
                ins.map_values(|i: InputSpecV| i.utxo),
                sk,
                public_key_of(sk),
            ),
        ),
{
    let pk = public_key_of(sk);
    let planned = spec_planned_tx(ins, outs, version, ts);
    let funded = ins.map_values(|i: InputSpecV| i.utxo);
    let signed = spec_signed_tx(planned, funded, sk, pk);
    assert(signed.inputs.len() == ins.len());
    assert(signed.outputs == planned.outputs);

    // every input's script validates
    assert forall|k: int| 0 <= k < signed.inputs.len()
        implies match spec_get(u, (#[trigger] signed.inputs[k]).prev,
            signed.inputs[k].output_index) {
            Some(o) => crate::script::spec_script_validates(
                signed.inputs[k].unlocking_script + o.locking_script, signed, k, o,
            ),
            None => false,
        } by {
        let utxo = ins[k].utxo;
        assert(signed.inputs[k].prev == ins[k].prev);
        assert(signed.inputs[k].output_index == ins[k].output_index);
        assert(spec_get(u, signed.inputs[k].prev, signed.inputs[k].output_index)
            == Some(utxo));
        let sig = crate::keys::signature_of(
            sk, crate::script::spec_sig_hash(planned, k, funded[k]),
        );
        assert(signed.inputs[k].unlocking_script
            == crate::script::p2pkh_unlocking(sig, pk));
        assert(funded[k] == utxo);
        // the signature hash sees no unlocking script, so the planned and
        // the signed transaction hash alike
        assert forall|j: int| 0 <= j < planned.inputs.len()
            implies #[trigger] planned.inputs[j].prev == signed.inputs[j].prev
                && planned.inputs[j].output_index == signed.inputs[j].output_index by {}
        crate::script::lemma_sig_hash_ignores_unlocking_scripts(planned, signed, k, utxo);
        assert(crate::keys::sig_verifies(
            pk, crate::script::spec_sig_hash(signed, k, utxo), sig,
        ));
        crate::script::lemma_p2pkh_spend_validates(sig, pk, signed, k, utxo);
    }
    assert(crate::utxos::spec_scripts_valid(u, signed));

    // the funded total covers the paid total
    assert forall|k: int| 0 <= k < signed.inputs.len()
        implies spec_get(u, (#[trigger] signed.inputs[k]).prev,
            signed.inputs[k].output_index) == Some(funded[k]) by {
        assert(signed.inputs[k].prev == ins[k].prev);
        assert(signed.inputs[k].output_index == ins[k].output_index);
    }
    lemma_input_total_from_gets(u, signed.inputs, funded);
    assert(planned.outputs =~= outs.map_values(|o: OutputSpecV| spec_planned_output(o)));
    lemma_planned_outputs_total(outs);
}

pub proof fn lemma_out_specs_total_nonneg(outs: Seq<OutputSpecV>)
    ensures
        spec_out_specs_total(outs) >= 0,
    decreases outs.len(),
{
    if outs.len() > 0 {
        lemma_out_specs_total_nonneg(outs.drop_first());
    }
}

pub proof fn lemma_out_specs_total_bound(outs: Seq<OutputSpecV>)
    ensures
        spec_out_specs_total(outs) <= outs.len() * max_value(),
    decreases outs.len(),
{
    if outs.len() > 0 {
        lemma_out_specs_total_bound(outs.drop_first());
        assert((outs.len() - 1) * max_value() + max_value() == outs.len() * max_value())
            by (nonlinear_arith);
    }
}

} // verus!
