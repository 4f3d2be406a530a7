//! The mempool: pending transactions with their fees, kept in descending
//! fee order, one entry per transaction hash.

use vstd::prelude::*;
use vstd::multiset::Multiset;
use crate::hash::bytes_eq;
use crate::transaction::{Transaction, TransactionV, TxOutputV, spec_tx_hash, txs_view};
use crate::script::p2pkh_locking;
use crate::hash::sha256_of;
use crate::utxos::{
    UTXOS, UtxoEntryV, spec_validate_pending, spec_calculate_fee, spec_remove_inputs,
    spec_has_key, spec_spends, lemma_remove_inputs_get, lemma_get_has_key,
};
use crate::block::Block;

verus! {

/// The number of transactions a mined block may carry, coinbase included.
pub const TRANSACTIONS_PER_BLOCK: usize = 10;

/// A pending transaction in its pre-fee form, with the fee the miner may
/// claim for including it.
pub struct TransactionWithFee {
    pub transaction: Transaction,
    pub fee: u128,
}

#[verifier::ext_equal]
pub struct TxWithFeeV {
    pub transaction: TransactionV,
    pub fee: u128,
}

impl View for TransactionWithFee {
    type V = TxWithFeeV;

    open spec fn view(&self) -> TxWithFeeV {
        TxWithFeeV { transaction: self.transaction@, fee: self.fee }
    }
}

impl Clone for TransactionWithFee {
    fn clone(&self) -> (res: Self)
        ensures
            res@ == self@,
    {
        TransactionWithFee { transaction: self.transaction.clone(), fee: self.fee }
    }
}

/// The fee-ordered pool. Entries descend by fee; no two entries share a
/// transaction hash.
pub struct Mempool(pub Vec<TransactionWithFee>);

impl View for Mempool {
    type V = Seq<TxWithFeeV>;

    open spec fn view(&self) -> Seq<TxWithFeeV> {
        self.0@.map_values(|e: TransactionWithFee| e@)
    }
}

pub open spec fn spec_mp_contains(s: Seq<TxWithFeeV>, hash: Seq<u8>) -> bool {
    exists|k: int| 0 <= k < s.len() && spec_tx_hash((#[trigger] s[k]).transaction) == hash
}

pub open spec fn spec_sorted_desc(s: Seq<TxWithFeeV>) -> bool {
    forall|k1: int, k2: int| 0 <= k1 < k2 < s.len()
        ==> (#[trigger] s[k1]).fee >= (#[trigger] s[k2]).fee
}

pub open spec fn spec_unique_hashes(s: Seq<TxWithFeeV>) -> bool {
    forall|k1: int, k2: int| 0 <= k1 < k2 < s.len()
        ==> spec_tx_hash((#[trigger] s[k1]).transaction)
            != spec_tx_hash((#[trigger] s[k2]).transaction)
}

pub open spec fn wf_mempool(s: Seq<TxWithFeeV>) -> bool {
    &&& spec_sorted_desc(s)
    &&& spec_unique_hashes(s)
}

/// Where a new entry lands: before the first entry with a strictly smaller
/// fee, after every entry with an equal or greater one.
pub open spec fn spec_mp_insert(s: Seq<TxWithFeeV>, e: TxWithFeeV) -> Seq<TxWithFeeV>
    decreases s.len(),
{
    if s.len() == 0 {
        seq![e]
    } else if e.fee > s[0].fee {
        seq![e] + s
    } else {
        seq![s[0]] + spec_mp_insert(s.drop_first(), e)
    }
}

/// Insertion is idempotent on the transaction hash: a hash already pooled
/// leaves the pool unchanged.
pub open spec fn spec_mp_add(s: Seq<TxWithFeeV>, e: TxWithFeeV) -> Seq<TxWithFeeV> {
    if spec_mp_contains(s, spec_tx_hash(e.transaction)) {
        s
    } else {
        spec_mp_insert(s, e)
    }
}

/// The pool without every entry whose transaction hash is listed.
pub open spec fn spec_mp_remove(s: Seq<TxWithFeeV>, hashes: Seq<Seq<u8>>) -> Seq<TxWithFeeV>
    decreases s.len(),
{
    if s.len() == 0 {
        Seq::empty()
    } else if hashes.contains(spec_tx_hash(s[0].transaction)) {
        spec_mp_remove(s.drop_first(), hashes)
    } else {
        seq![s[0]] + spec_mp_remove(s.drop_first(), hashes)
    }
}

/// What insertion holds: the new entry once, every old entry once, in
/// descending fee order.
pub proof fn lemma_mp_insert_multiset(s: Seq<TxWithFeeV>, e: TxWithFeeV)
    ensures
        spec_mp_insert(s, e).to_multiset() == s.to_multiset().insert(e),
    decreases s.len(),
{
    broadcast use vstd::seq_lib::group_to_multiset_ensures;

    if s.len() == 0 {
        assert(seq![e] =~= Seq::<TxWithFeeV>::empty().push(e));
        assert(s.to_multiset() =~= Seq::<TxWithFeeV>::empty().to_multiset());
    } else if e.fee > s[0].fee {
        assert(seq![e] + s =~= s.insert(0, e));
        vstd::seq_lib::lemma_multiset_commutative(seq![e], s);
        assert(seq![e].to_multiset() =~= Multiset::<TxWithFeeV>::empty().insert(e));
        assert(s.to_multiset().insert(e) =~= seq![e].to_multiset().add(s.to_multiset()));
    } else {
        lemma_mp_insert_multiset(s.drop_first(), e);
        let rest = spec_mp_insert(s.drop_first(), e);
        vstd::seq_lib::lemma_multiset_commutative(seq![s[0]], rest);
        vstd::seq_lib::lemma_multiset_commutative(seq![s[0]], s.drop_first());
        assert(seq![s[0]] + s.drop_first() =~= s);
        assert((seq![s[0]] + rest).to_multiset()
            =~= seq![s[0]].to_multiset().add(s.drop_first().to_multiset().insert(e)));
        assert((seq![s[0]] + s.drop_first()).to_multiset()
            =~= seq![s[0]].to_multiset().add(s.drop_first().to_multiset()));
        assert(seq![s[0]].to_multiset().add(s.drop_first().to_multiset().insert(e))
            =~= (seq![s[0]].to_multiset().add(s.drop_first().to_multiset())).insert(e));
    }
}

pub proof fn lemma_mp_insert_contains(s: Seq<TxWithFeeV>, e: TxWithFeeV, h: Seq<u8>)
    ensures
        spec_mp_contains(spec_mp_insert(s, e), h)
            == (spec_mp_contains(s, h) || spec_tx_hash(e.transaction) == h),
    decreases s.len(),
{
    let out = spec_mp_insert(s, e);
    if s.len() == 0 {
        assert(out[0] == e);
        assert forall|k: int| 0 <= k < out.len() implies out[k] == e by {}
    } else if e.fee > s[0].fee {
        assert forall|k: int| 0 <= k < s.len() implies (seq![e] + s)[k + 1] == s[k] by {}
        if spec_mp_contains(out, h) {
            let k = choose|k: int| 0 <= k < out.len() && spec_tx_hash(out[k].transaction) == h;
            if k == 0 {
            } else {
                assert(out[k] == s[k - 1]);
            }
        }
        if spec_mp_contains(s, h) {
            let k = choose|k: int| 0 <= k < s.len() && spec_tx_hash(s[k].transaction) == h;
            assert(out[k + 1] == s[k]);
        }
        if spec_tx_hash(e.transaction) == h {
            assert(out[0] == e);
        }
    } else {
        lemma_mp_insert_contains(s.drop_first(), e, h);
        let rest = spec_mp_insert(s.drop_first(), e);
        assert(out == seq![s[0]] + rest);
        assert forall|k: int| 0 <= k < rest.len() implies out[k + 1] == rest[k] by {}
        assert(out[0] == s[0]);
        if spec_mp_contains(out, h) {
            let k = choose|k: int| 0 <= k < out.len() && spec_tx_hash(out[k].transaction) == h;
            if k == 0 {
                assert(spec_tx_hash(s[0].transaction) == h);
            } else {
                assert(out[k] == rest[k - 1]);
                assert(spec_mp_contains(rest, h));
            }
        }
        if spec_mp_contains(s, h) {
            let k = choose|k: int| 0 <= k < s.len() && spec_tx_hash(s[k].transaction) == h;
            if k == 0 {
                assert(out[0] == s[0]);
            } else {
                assert(s.drop_first()[k - 1] == s[k]);
                assert(spec_mp_contains(s.drop_first(), h));
                assert(spec_mp_contains(rest, h));
                let w = choose|w: int| 0 <= w < rest.len()
                    && spec_tx_hash(rest[w].transaction) == h;
                assert(out[w + 1] == rest[w]);
            }
        }
        if spec_tx_hash(e.transaction) == h {
            assert(spec_mp_contains(rest, h));
            let w = choose|w: int| 0 <= w < rest.len() && spec_tx_hash(rest[w].transaction) == h;
            assert(out[w + 1] == rest[w]);
        }
    }
}

pub proof fn lemma_mp_insert_wf(s: Seq<TxWithFeeV>, e: TxWithFeeV)
    requires
        wf_mempool(s),
        !spec_mp_contains(s, spec_tx_hash(e.transaction)),
    ensures
        wf_mempool(spec_mp_insert(s, e)),
    decreases s.len(),
{
    let out = spec_mp_insert(s, e);
    if s.len() == 0 {
        assert(out.len() == 1);
    } else if e.fee > s[0].fee {
        assert forall|k: int| 0 <= k < s.len() implies (seq![e] + s)[k + 1] == s[k] by {}
        assert forall|k1: int, k2: int| 0 <= k1 < k2 < out.len()
            implies (#[trigger] out[k1]).fee >= (#[trigger] out[k2]).fee
                && spec_tx_hash(out[k1].transaction) != spec_tx_hash(out[k2].transaction) by {
            if k1 == 0 {
                assert(out[k2] == s[k2 - 1]);
                if spec_tx_hash(e.transaction) == spec_tx_hash(s[k2 - 1].transaction) {
                    assert(spec_mp_contains(s, spec_tx_hash(e.transaction)));
                }
            } else {
                assert(out[k1] == s[k1 - 1]);
                assert(out[k2] == s[k2 - 1]);
            }
        }
    } else {
        assert(wf_mempool(s.drop_first())) by {
            assert forall|k1: int, k2: int| 0 <= k1 < k2 < s.drop_first().len()
                implies (#[trigger] s.drop_first()[k1]).fee >= (#[trigger] s.drop_first()[k2]).fee
                    && spec_tx_hash(s.drop_first()[k1].transaction)
                        != spec_tx_hash(s.drop_first()[k2].transaction) by {
                assert(s.drop_first()[k1] == s[k1 + 1]);
                assert(s.drop_first()[k2] == s[k2 + 1]);
            }
        }
        assert(!spec_mp_contains(s.drop_first(), spec_tx_hash(e.transaction))) by {
            if spec_mp_contains(s.drop_first(), spec_tx_hash(e.transaction)) {
                let k = choose|k: int| 0 <= k < s.drop_first().len()
                    && spec_tx_hash(s.drop_first()[k].transaction) == spec_tx_hash(e.transaction);
                assert(s[k + 1] == s.drop_first()[k]);
                assert(spec_mp_contains(s, spec_tx_hash(e.transaction)));
            }
        }
        lemma_mp_insert_wf(s.drop_first(), e);
        let rest = spec_mp_insert(s.drop_first(), e);
        lemma_mp_insert_contains(s.drop_first(), e, spec_tx_hash(s[0].transaction));
        assert forall|k: int| 0 <= k < rest.len() implies out[k + 1] == rest[k] by {}
        assert(out[0] == s[0]);
        assert forall|k1: int, k2: int| 0 <= k1 < k2 < out.len()
            implies (#[trigger] out[k1]).fee >= (#[trigger] out[k2]).fee
                && spec_tx_hash(out[k1].transaction) != spec_tx_hash(out[k2].transaction) by {
            if k1 == 0 {
                assert(out[k2] == rest[k2 - 1]);
                // every entry of rest is either e or an entry of s.drop_first()
                lemma_mp_insert_element(s.drop_first(), e, k2 - 1);
                if rest[k2 - 1] == e {
                    assert(out[k1].fee >= out[k2].fee);
                    if spec_tx_hash(s[0].transaction) == spec_tx_hash(e.transaction) {
                        assert(spec_mp_contains(s, spec_tx_hash(e.transaction)));
                    }
                } else {
                    let w = choose|w: int| 0 <= w < s.drop_first().len()
                        && s.drop_first()[w] == rest[k2 - 1];
                    assert(s[w + 1] == s.drop_first()[w]);
                    if spec_tx_hash(s[0].transaction) == spec_tx_hash(rest[k2 - 1].transaction) {
                        assert(spec_tx_hash(s[0].transaction)
                            == spec_tx_hash(s[w + 1].transaction));
                    }
                }
            } else {
                assert(out[k1] == rest[k1 - 1]);
                assert(out[k2] == rest[k2 - 1]);
            }
        }
    }
}

/// Every entry of an insertion result is the inserted entry or one of the
/// old ones.
pub proof fn lemma_mp_insert_element(s: Seq<TxWithFeeV>, e: TxWithFeeV, k: int)
    requires
        0 <= k < spec_mp_insert(s, e).len(),
    ensures
        spec_mp_insert(s, e)[k] == e || exists|w: int| 0 <= w < s.len() && s[w]
            == spec_mp_insert(s, e)[k],
    decreases s.len(),
{
    let out = spec_mp_insert(s, e);
    if s.len() == 0 {
        assert(out[0] == e);
    } else if e.fee > s[0].fee {
        if k == 0 {
        } else {
            assert(out[k] == s[k - 1]);
        }
    } else {
        if k == 0 {
            assert(out[0] == s[0]);
        } else {
            let rest = spec_mp_insert(s.drop_first(), e);
            assert(out[k] == rest[k - 1]);
            lemma_mp_insert_element(s.drop_first(), e, k - 1);
            if rest[k - 1] == e {
            } else {
                let w = choose|w: int| 0 <= w < s.drop_first().len()
                    && s.drop_first()[w] == rest[k - 1];
                assert(s[w + 1] == s.drop_first()[w]);
            }
        }
    }
}

/// Inserting the same transaction twice leaves the pool as one insertion
/// left it: the second add sees the hash and does nothing.
pub proof fn lemma_mp_add_idempotent(s: Seq<TxWithFeeV>, e: TxWithFeeV)
    ensures
        spec_mp_add(spec_mp_add(s, e), e) == spec_mp_add(s, e),
        spec_mp_add(spec_mp_add(s, e), e).len() == spec_mp_add(s, e).len(),
{
    let h = spec_tx_hash(e.transaction);
    if !spec_mp_contains(s, h) {
        lemma_mp_insert_contains(s, e, h);
    }
}

impl Mempool {
    pub fn new() -> (r: Self)
        ensures
            r@ == Seq::<TxWithFeeV>::empty(),
            wf_mempool(r@),
    {
        let r = Mempool(Vec::new());
        assert(r@ =~= Seq::<TxWithFeeV>::empty());
        r
    }

    pub fn size(&self) -> (r: usize)
        ensures
            r == self@.len(),
    {
        self.0.len()
    }

    /// Whether a transaction with this one's hash is pooled.
    pub fn contains(&self, transaction: &Transaction) -> (r: bool)
        ensures
            r == spec_mp_contains(self@, spec_tx_hash(transaction@)),
    {
        let h = transaction.get_hash();
        let mut k: usize = 0;
        while k < self.0.len()
            invariant
                k <= self.0.len(),
                h@ == spec_tx_hash(transaction@),
                self@.len() == self.0@.len(),
                forall|j: int| 0 <= j < self.0@.len() ==> self@[j] == self.0@[j]@,
                forall|j: int| 0 <= j < k
                    ==> spec_tx_hash((#[trigger] self@[j]).transaction) != h@,
            decreases self.0.len() - k,
        {
            let eh = self.0[k].transaction.get_hash();
            if bytes_eq(&eh, &h) {
                assert(spec_tx_hash(self@[k as int].transaction) == h@);
                return true;
            }
            k = k + 1;
        }
        false
    }

    /// Pool a transaction under its fee; a duplicate hash is silently
    /// dropped.
    pub fn add_transaction(&mut self, transaction: Transaction, fee: u128)
        requires
            wf_mempool(old(self)@),
        ensures
            final(self)@ == spec_mp_add(
                old(self)@,
                TxWithFeeV { transaction: transaction@, fee },
            ),
            wf_mempool(final(self)@),
    {
        let ghost e = TxWithFeeV { transaction: transaction@, fee };
        if self.contains(&transaction) {
            return;
        }
        proof {
            lemma_mp_insert_wf(self@, e);
        }
        let mut k: usize = 0;
        while k < self.0.len() && fee <= self.0[k].fee
            invariant
                k <= self.0.len(),
                self@.len() == self.0@.len(),
                forall|j: int| 0 <= j < self.0@.len() ==> self@[j] == self.0@[j]@,
                forall|j: int| 0 <= j < k ==> !(e.fee > (#[trigger] self@[j]).fee),
                e == (TxWithFeeV { transaction: transaction@, fee }),
            decreases self.0.len() - k,
        {
            k = k + 1;
        }
        proof {
            lemma_mp_insert_at(self@, e, k as int);
        }
        self.0.insert(k, TransactionWithFee { transaction, fee });
        assert(final(self)@ =~= old(self)@.insert(k as int, e));
    }

    /// Merge another pool's entries into this one, hash-uniqueness kept.
    pub fn update(&mut self, mempool: Mempool)
        requires
            wf_mempool(old(self)@),
        ensures
            final(self)@ == spec_mp_update(old(self)@, mempool@, 0),
            wf_mempool(final(self)@),
    {
        let ghost other = mempool@;
        let entries = mempool.0;
        let mut k: usize = 0;
        while k < entries.len()
            invariant
                k <= entries.len(),
                other.len() == entries@.len(),
                forall|j: int| 0 <= j < entries@.len() ==> other[j] == entries@[j]@,
                wf_mempool(self@),
                spec_mp_update(old(self)@, other, 0) == spec_mp_update(self@, other, k as int),
            decreases entries.len() - k,
        {
            let entry = entries[k].clone();
            self.add_transaction(entry.transaction, entry.fee);
            k = k + 1;
        }
    }
}

/// A transaction as the miner includes it: a fee output paying the miner
/// prepended to its outputs.
pub open spec fn spec_with_fee(t: TransactionV, pkh: Seq<u8>, fee: u64) -> TransactionV {
    TransactionV {
        timestamp: t.timestamp,
        version: t.version,
        inputs: t.inputs,
        outputs: seq![TxOutputV { value: fee, locking_script: p2pkh_locking(pkh) }] + t.outputs,
    }
}

/// An entry assembly can take: it validates against the working ledger
/// and its fee fits the 64-bit output that will carry it.
pub open spec fn spec_assembly_takes(u: Seq<UtxoEntryV>, e: TxWithFeeV) -> bool {
    &&& spec_validate_pending(u, e.transaction)
    &&& e.fee <= 0xFFFF_FFFF_FFFF_FFFF
}

/// Block assembly over a fee-ordered pool: walk the entries from the
/// highest fee down while there is room, keeping those that validate
/// against a working ledger and collecting the rest. Each selection spends
/// its inputs from the working ledger, so a later entry that conflicts
/// with an earlier selection fails validation and is collected.
pub open spec fn spec_assemble(
    s: Seq<TxWithFeeV>,
    u: Seq<UtxoEntryV>,
    room: nat,
) -> (Seq<TxWithFeeV>, Seq<TxWithFeeV>)
    decreases s.len(),
{
    if room == 0 || s.len() == 0 {
        (Seq::empty(), Seq::empty())
    } else if spec_assembly_takes(u, s[0]) {
        let rec = spec_assemble(
            s.drop_first(), spec_remove_inputs(u, s[0].transaction.inputs), (room - 1) as nat,
        );
        (seq![s[0]] + rec.0, rec.1)
    } else {
        let rec = spec_assemble(s.drop_first(), u, room);
        (rec.0, seq![s[0]] + rec.1)
    }
}

/// Every selected entry's fee fits its output, and every key a selected
/// entry spends is present in the ledger assembly started from.
pub proof fn lemma_assemble_selected_sound(s: Seq<TxWithFeeV>, u: Seq<UtxoEntryV>, room: nat)
    ensures
        forall|j: int| 0 <= j < spec_assemble(s, u, room).0.len()
            ==> (#[trigger] spec_assemble(s, u, room).0[j]).fee <= 0xFFFF_FFFF_FFFF_FFFF,
        forall|j: int, k: int| 0 <= j < spec_assemble(s, u, room).0.len()
            && 0 <= k < spec_assemble(s, u, room).0[j].transaction.inputs.len()
            ==> spec_has_key(
                u,
                (#[trigger] spec_assemble(s, u, room).0[j].transaction.inputs[k]).prev,
                spec_assemble(s, u, room).0[j].transaction.inputs[k].output_index,
            ),
    decreases s.len(),
{
    let sel = spec_assemble(s, u, room).0;
    if room == 0 || s.len() == 0 {
    } else if spec_assembly_takes(u, s[0]) {
        let u2 = spec_remove_inputs(u, s[0].transaction.inputs);
        lemma_assemble_selected_sound(s.drop_first(), u2, (room - 1) as nat);
        let rec = spec_assemble(s.drop_first(), u2, (room - 1) as nat);
        assert forall|j: int| 0 <= j < sel.len()
            implies (#[trigger] sel[j]).fee <= 0xFFFF_FFFF_FFFF_FFFF by {
            if j > 0 {
                assert(sel[j] == rec.0[j - 1]);
            }
        }
        assert forall|j: int, k: int| 0 <= j < sel.len()
            && 0 <= k < sel[j].transaction.inputs.len()
            implies spec_has_key(
                u,
                (#[trigger] sel[j].transaction.inputs[k]).prev,
                sel[j].transaction.inputs[k].output_index,
            ) by {
            if j == 0 {
                crate::utxos::lemma_scripts_valid_inputs_present(u, s[0].transaction);
                lemma_get_has_key(
                    u, s[0].transaction.inputs[k].prev,
                    s[0].transaction.inputs[k].output_index,
                );
            } else {
                assert(sel[j] == rec.0[j - 1]);
                assert(spec_has_key(
                    u2, sel[j].transaction.inputs[k].prev,
                    sel[j].transaction.inputs[k].output_index,
                ));
                lemma_remove_inputs_get(
                    u, s[0].transaction.inputs, sel[j].transaction.inputs[k].prev,
                    sel[j].transaction.inputs[k].output_index,
                );
                lemma_get_has_key(
                    u2, sel[j].transaction.inputs[k].prev,
                    sel[j].transaction.inputs[k].output_index,
                );
                lemma_get_has_key(
                    u, sel[j].transaction.inputs[k].prev,
                    sel[j].transaction.inputs[k].output_index,
                );
            }
        }
    } else {
        lemma_assemble_selected_sound(s.drop_first(), u, room);
        let rec = spec_assemble(s.drop_first(), u, room);
        assert forall|j: int| 0 <= j < sel.len()
            implies (#[trigger] sel[j]).fee <= 0xFFFF_FFFF_FFFF_FFFF by {
            assert(sel[j] == rec.0[j]);
        }
        assert forall|j: int, k: int| 0 <= j < sel.len()
            && 0 <= k < sel[j].transaction.inputs.len()
            implies spec_has_key(
                u,
                (#[trigger] sel[j].transaction.inputs[k]).prev,
                sel[j].transaction.inputs[k].output_index,
            ) by {
            assert(sel[j] == rec.0[j]);
        }
    }
}

/// Double-spend rejection: no two entries assembly selects spend the same
/// output. A later conflicting entry fails validation against the working
/// ledger, from which the earlier selection's spends are gone.
pub proof fn lemma_assemble_excludes_double_spends(
    s: Seq<TxWithFeeV>,
    u: Seq<UtxoEntryV>,
    room: nat,
)
    ensures
        forall|j1: int, j2: int, k1: int, k2: int|
            0 <= j1 < j2 < spec_assemble(s, u, room).0.len()
                && 0 <= k1 < spec_assemble(s, u, room).0[j1].transaction.inputs.len()
                && 0 <= k2 < spec_assemble(s, u, room).0[j2].transaction.inputs.len()
            ==> !((#[trigger] spec_assemble(s, u, room).0[j1].transaction.inputs[k1]).prev
                    == (#[trigger] spec_assemble(s, u, room).0[j2].transaction.inputs[k2]).prev
                && spec_assemble(s, u, room).0[j1].transaction.inputs[k1].output_index
                    == spec_assemble(s, u, room).0[j2].transaction.inputs[k2].output_index),
    decreases s.len(),
{
    let sel = spec_assemble(s, u, room).0;
    if room == 0 || s.len() == 0 {
    } else if spec_assembly_takes(u, s[0]) {
        let u2 = spec_remove_inputs(u, s[0].transaction.inputs);
        lemma_assemble_excludes_double_spends(s.drop_first(), u2, (room - 1) as nat);
        lemma_assemble_selected_sound(s.drop_first(), u2, (room - 1) as nat);
        let rec = spec_assemble(s.drop_first(), u2, (room - 1) as nat);
        assert forall|j1: int, j2: int, k1: int, k2: int|
            0 <= j1 < j2 < sel.len()
                && 0 <= k1 < sel[j1].transaction.inputs.len()
                && 0 <= k2 < sel[j2].transaction.inputs.len()
            implies !((#[trigger] sel[j1].transaction.inputs[k1]).prev
                    == (#[trigger] sel[j2].transaction.inputs[k2]).prev
                && sel[j1].transaction.inputs[k1].output_index
                    == sel[j2].transaction.inputs[k2].output_index) by {
            assert(sel[j2] == rec.0[j2 - 1]);
            if j1 == 0 {
                // the later entry's key is present in the working ledger,
                // from which every key the head spends was removed
                let h = sel[j2].transaction.inputs[k2].prev;
                let i = sel[j2].transaction.inputs[k2].output_index;
                assert(spec_has_key(u2, h, i));
                if sel[0].transaction.inputs[k1].prev == h
                    && sel[0].transaction.inputs[k1].output_index == i {
                    assert(spec_spends(s[0].transaction.inputs, h, i));
                    lemma_remove_inputs_get(u, s[0].transaction.inputs, h, i);
                    lemma_get_has_key(u2, h, i);
                    assert(false);
                }
            } else {
                assert(sel[j1] == rec.0[j1 - 1]);
            }
        }
    } else {
        lemma_assemble_excludes_double_spends(s.drop_first(), u, room);
        let rec = spec_assemble(s.drop_first(), u, room);
        assert forall|j1: int, j2: int, k1: int, k2: int|
            0 <= j1 < j2 < sel.len()
                && 0 <= k1 < sel[j1].transaction.inputs.len()
                && 0 <= k2 < sel[j2].transaction.inputs.len()
            implies !((#[trigger] sel[j1].transaction.inputs[k1]).prev
                    == (#[trigger] sel[j2].transaction.inputs[k2]).prev
                && sel[j1].transaction.inputs[k1].output_index
                    == sel[j2].transaction.inputs[k2].output_index) by {
            assert(sel[j1] == rec.0[j1]);
            assert(sel[j2] == rec.0[j2]);
        }
    }
}

/// Entries found stale during assembly are gone from the pool assembly
/// leaves behind.
pub proof fn lemma_assembly_evicts_stale(s: Seq<TxWithFeeV>, u: Seq<UtxoEntryV>, room: nat)
    requires
        wf_mempool(s),
    ensures
        forall|j: int| 0 <= j < spec_assemble(s, u, room).1.len() ==> !spec_mp_contains(
            spec_mp_remove(s, hashes_of(spec_assemble(s, u, room).1)),
            spec_tx_hash((#[trigger] spec_assemble(s, u, room).1[j]).transaction),
        ),
{
    let stale = spec_assemble(s, u, room).1;
    assert forall|j: int| 0 <= j < stale.len() implies !spec_mp_contains(
        spec_mp_remove(s, hashes_of(stale)),
        spec_tx_hash((#[trigger] stale[j]).transaction),
    ) by {
        lemma_mp_remove_contains(s, hashes_of(stale), spec_tx_hash(stale[j].transaction));
        assert(hashes_of(stale)[j] == spec_tx_hash(stale[j].transaction));
        assert(hashes_of(stale).contains(spec_tx_hash(stale[j].transaction)));
    }
}

/// The hashes of a list of pool entries' transactions.
pub open spec fn hashes_of(s: Seq<TxWithFeeV>) -> Seq<Seq<u8>> {
    s.map_values(|e: TxWithFeeV| spec_tx_hash(e.transaction))
}

/// Every entry that survives a removal is one of the old entries.
pub proof fn lemma_mp_remove_element(s: Seq<TxWithFeeV>, hashes: Seq<Seq<u8>>, k: int)
    requires
        0 <= k < spec_mp_remove(s, hashes).len(),
    ensures
        exists|w: int| 0 <= w < s.len() && s[w] == spec_mp_remove(s, hashes)[k],
    decreases s.len(),
{
    let out = spec_mp_remove(s, hashes);
    if s.len() > 0 {
        if hashes.contains(spec_tx_hash(s[0].transaction)) {
            lemma_mp_remove_element(s.drop_first(), hashes, k);
            let w = choose|w: int| 0 <= w < s.drop_first().len()
                && s.drop_first()[w] == spec_mp_remove(s.drop_first(), hashes)[k];
            assert(s[w + 1] == s.drop_first()[w]);
        } else {
            if k == 0 {
                assert(out[0] == s[0]);
            } else {
                let rest = spec_mp_remove(s.drop_first(), hashes);
                assert(out[k] == rest[k - 1]);
                lemma_mp_remove_element(s.drop_first(), hashes, k - 1);
                let w = choose|w: int| 0 <= w < s.drop_first().len()
                    && s.drop_first()[w] == rest[k - 1];
                assert(s[w + 1] == s.drop_first()[w]);
            }
        }
    }
}

/// A removal keeps exactly the entries whose hashes are not listed.
pub proof fn lemma_mp_remove_contains(s: Seq<TxWithFeeV>, hashes: Seq<Seq<u8>>, h: Seq<u8>)
    ensures
        spec_mp_contains(spec_mp_remove(s, hashes), h)
            == (spec_mp_contains(s, h) && !hashes.contains(h)),
    decreases s.len(),
{
    let out = spec_mp_remove(s, hashes);
    if s.len() == 0 {
    } else {
        lemma_mp_remove_contains(s.drop_first(), hashes, h);
        let rest = spec_mp_remove(s.drop_first(), hashes);
        if hashes.contains(spec_tx_hash(s[0].transaction)) {
            if spec_mp_contains(s, h) && !hashes.contains(h) {
                let k = choose|k: int| 0 <= k < s.len() && spec_tx_hash(s[k].transaction) == h;
                assert(k > 0);
                assert(s.drop_first()[k - 1] == s[k]);
                assert(spec_mp_contains(s.drop_first(), h));
            }
            if spec_mp_contains(out, h) {
                assert(spec_mp_contains(s.drop_first(), h));
                let k = choose|k: int| 0 <= k < s.drop_first().len()
                    && spec_tx_hash(s.drop_first()[k].transaction) == h;
                assert(s[k + 1] == s.drop_first()[k]);
            }
        } else {
            assert(out == seq![s[0]] + rest);
            assert(out[0] == s[0]);
            assert forall|k: int| 0 <= k < rest.len() implies out[k + 1] == rest[k] by {}
            if spec_mp_contains(out, h) {
                let k = choose|k: int| 0 <= k < out.len() && spec_tx_hash(out[k].transaction) == h;
                if k == 0 {
                    assert(spec_tx_hash(s[0].transaction) == h);
                    assert(!hashes.contains(h));
                } else {
                    assert(out[k] == rest[k - 1]);
                    assert(spec_mp_contains(rest, h));
                    let w = choose|w: int| 0 <= w < s.drop_first().len()
                        && spec_tx_hash(s.drop_first()[w].transaction) == h;
                    assert(s[w + 1] == s.drop_first()[w]);
                }
            }
            if spec_mp_contains(s, h) && !hashes.contains(h) {
                let k = choose|k: int| 0 <= k < s.len() && spec_tx_hash(s[k].transaction) == h;
                if k == 0 {
                } else {
                    assert(s.drop_first()[k - 1] == s[k]);
                    assert(spec_mp_contains(rest, h));
                    let w = choose|w: int| 0 <= w < rest.len()
                        && spec_tx_hash(rest[w].transaction) == h;
                    assert(out[w + 1] == rest[w]);
                }
            }
        }
    }
}

/// Removal keeps the order and the uniqueness of what stays.
pub proof fn lemma_mp_remove_wf(s: Seq<TxWithFeeV>, hashes: Seq<Seq<u8>>)
    requires
        wf_mempool(s),
    ensures
        wf_mempool(spec_mp_remove(s, hashes)),
    decreases s.len(),
{
    let out = spec_mp_remove(s, hashes);
    if s.len() > 0 {
        assert(wf_mempool(s.drop_first())) by {
            assert forall|k1: int, k2: int| 0 <= k1 < k2 < s.drop_first().len()
                implies (#[trigger] s.drop_first()[k1]).fee >= (#[trigger] s.drop_first()[k2]).fee
                    && spec_tx_hash(s.drop_first()[k1].transaction)
                        != spec_tx_hash(s.drop_first()[k2].transaction) by {
                assert(s.drop_first()[k1] == s[k1 + 1]);
                assert(s.drop_first()[k2] == s[k2 + 1]);
            }
        }
        lemma_mp_remove_wf(s.drop_first(), hashes);
        if !hashes.contains(spec_tx_hash(s[0].transaction)) {
            let rest = spec_mp_remove(s.drop_first(), hashes);
            assert forall|k1: int, k2: int| 0 <= k1 < k2 < out.len()
                implies (#[trigger] out[k1]).fee >= (#[trigger] out[k2]).fee
                    && spec_tx_hash(out[k1].transaction) != spec_tx_hash(out[k2].transaction) by {
                if k1 == 0 {
                    assert(out[k2] == rest[k2 - 1]);
                    lemma_mp_remove_element(s.drop_first(), hashes, k2 - 1);
                    let w = choose|w: int| 0 <= w < s.drop_first().len()
                        && s.drop_first()[w] == rest[k2 - 1];
                    assert(s[w + 1] == s.drop_first()[w]);
                } else {
                    assert(out[k1] == rest[k1 - 1]);
                    assert(out[k2] == rest[k2 - 1]);
                    assert(wf_mempool(rest));
                }
            }
        }
    }
}

/// A transaction with its fee output dropped: the pre-fee form the pool
/// stores.
pub open spec fn spec_strip_fee(t: TransactionV) -> TransactionV {
    TransactionV {
        timestamp: t.timestamp,
        version: t.version,
        inputs: t.inputs,
        outputs: t.outputs.drop_first(),
    }
}

/// The hashes a block's acceptance removes from the pool: each of its
/// transactions in pre-fee form. A transaction with no outputs is passed
/// over: it cannot be pooled.
pub open spec fn spec_block_hashes(txs: Seq<TransactionV>) -> Seq<Seq<u8>>
    decreases txs.len(),
{
    if txs.len() == 0 {
        Seq::empty()
    } else if txs[0].outputs.len() > 0 {
        seq![spec_tx_hash(spec_strip_fee(txs[0]))] + spec_block_hashes(txs.drop_first())
    } else {
        spec_block_hashes(txs.drop_first())
    }
}

impl Mempool {
    /// A copy of the entries, highest fee first.
    pub fn to_vec(&self) -> (r: Vec<TransactionWithFee>)
        ensures
            r@.map_values(|e: TransactionWithFee| e@) == self@,
    {
        let mut out: Vec<TransactionWithFee> = Vec::new();
        let mut k: usize = 0;
        while k < self.0.len()
            invariant
                k <= self.0.len(),
                out@.len() == k,
                forall|j: int| 0 <= j < k ==> out@[j]@ == self.0@[j]@,
            decreases self.0.len() - k,
        {
            out.push(self.0[k].clone());
            k = k + 1;
        }
        assert(out@.map_values(|e: TransactionWithFee| e@) =~= self@);
        out
    }

    /// Drop every entry whose transaction hash is listed.
    fn remove_hashes(&mut self, hashes: &Vec<Vec<u8>>)
        ensures
            final(self)@ == spec_mp_remove(old(self)@, hashes@.map_values(|h: Vec<u8>| h@)),
    {
        let ghost full = self@;
        let ghost hs = hashes@.map_values(|h: Vec<u8>| h@);
        let mut kept: Vec<TransactionWithFee> = Vec::new();
        let mut k: usize = 0;
        proof {
            assert(full.skip(0) =~= full);
            assert(kept@.map_values(|e: TransactionWithFee| e@)
                + spec_mp_remove(full.skip(0), hs) =~= spec_mp_remove(full, hs));
        }
        while k < self.0.len()
            invariant
                k <= self.0.len(),
                full == self@,
                full.len() == self.0@.len(),
                hs == hashes@.map_values(|h: Vec<u8>| h@),
                hs.len() == hashes@.len(),
                forall|j: int| 0 <= j < self.0@.len() ==> full[j] == self.0@[j]@,
                forall|j: int| 0 <= j < hashes@.len() ==> hs[j] == hashes@[j]@,
                spec_mp_remove(full, hs) == kept@.map_values(|e: TransactionWithFee| e@)
                    + spec_mp_remove(full.skip(k as int), hs),
            decreases self.0.len() - k,
        {
            let ghost acc = kept@.map_values(|e: TransactionWithFee| e@);
            let ghost rest = full.skip(k as int);
            proof {
                assert(rest[0] == full[k as int]);
                assert(rest.drop_first() =~= full.skip(k + 1));
            }
            let eh = self.0[k].transaction.get_hash();
            let mut listed = false;
            let mut w: usize = 0;
            while w < hashes.len()
                invariant
                    w <= hashes.len(),
                    eh@ == spec_tx_hash(full[k as int].transaction),
                    k < full.len(),
                    hs == hashes@.map_values(|h: Vec<u8>| h@),
                    hs.len() == hashes@.len(),
                    forall|j: int| 0 <= j < hashes@.len() ==> hs[j] == hashes@[j]@,
                    listed == exists|j: int| 0 <= j < w && hs[j] == eh@,
                decreases hashes.len() - w,
            {
                if bytes_eq(&hashes[w], &eh) {
                    listed = true;
                    assert(hs[w as int] == eh@);
                } else {
                    assert(hs[w as int] != eh@);
                }
                w = w + 1;
            }
            proof {
                if listed {
                    let j = choose|j: int| 0 <= j < hs.len() && hs[j] == eh@;
                    assert(hs.contains(eh@));
                } else {
                    if hs.contains(eh@) {
                        let j = choose|j: int| 0 <= j < hs.len() && hs[j] == eh@;
                        assert(false);
                    }
                }
            }
            if !listed {
                kept.push(self.0[k].clone());
                proof {
                    assert(kept@.map_values(|e: TransactionWithFee| e@) =~= acc + seq![rest[0]]);
                    assert(acc + (seq![rest[0]] + spec_mp_remove(full.skip(k + 1), hs))
                        =~= (acc + seq![rest[0]]) + spec_mp_remove(full.skip(k + 1), hs));
                }
            }
            k = k + 1;
        }
        proof {
            assert(full.skip(full.len() as int) =~= Seq::<TxWithFeeV>::empty());
        }
        self.0 = kept;
        proof {
            assert(final(self)@ =~= kept@.map_values(|e: TransactionWithFee| e@)
                + Seq::<TxWithFeeV>::empty());
        }
    }

    /// A block was accepted: its transactions, stripped of their fee
    /// outputs, leave the pool.
    pub fn add_block(&mut self, block: &Block)
        ensures
            final(self)@ == spec_mp_remove(old(self)@, spec_block_hashes(block@.transactions)),
    {
        let ghost txs = block@.transactions;
        let mut hashes: Vec<Vec<u8>> = Vec::new();
        let mut k: usize = 0;
        proof {
            assert(txs.skip(0) =~= txs);
            assert(hashes@.map_values(|h: Vec<u8>| h@) + spec_block_hashes(txs.skip(0))
                =~= spec_block_hashes(txs));
        }
        while k < block.transactions.len()
            invariant
                k <= block.transactions.len(),
                txs == block@.transactions,
                txs.len() == block.transactions@.len(),
                forall|j: int| 0 <= j < block.transactions@.len()
                    ==> txs[j] == block.transactions@[j]@,
                spec_block_hashes(txs) == hashes@.map_values(|h: Vec<u8>| h@)
                    + spec_block_hashes(txs.skip(k as int)),
            decreases block.transactions.len() - k,
        {
            let ghost acc = hashes@.map_values(|h: Vec<u8>| h@);
            let ghost rest = txs.skip(k as int);
            proof {
                assert(rest[0] == txs[k as int]);
                assert(rest.drop_first() =~= txs.skip(k + 1));
            }
            if block.transactions[k].outputs.len() > 0 {
                let mut tx = block.transactions[k].clone();
                tx.remove_fee();
                assert(tx@ =~= spec_strip_fee(rest[0]));
                hashes.push(tx.get_hash());
                proof {
                    assert(hashes@.map_values(|h: Vec<u8>| h@)
                        =~= acc + seq![spec_tx_hash(spec_strip_fee(rest[0]))]);
                    assert(acc + (seq![spec_tx_hash(spec_strip_fee(rest[0]))]
                        + spec_block_hashes(txs.skip(k + 1)))
                        =~= (acc + seq![spec_tx_hash(spec_strip_fee(rest[0]))])
                            + spec_block_hashes(txs.skip(k + 1)));
                }
            }
            k = k + 1;
        }
        proof {
            assert(txs.skip(txs.len() as int) =~= Seq::<TransactionV>::empty());
            assert(hashes@.map_values(|h: Vec<u8>| h@) + Seq::<Seq<u8>>::empty()
                =~= hashes@.map_values(|h: Vec<u8>| h@));
        }
        self.remove_hashes(&hashes);
    }

    /// Assemble the transaction list for the next block: a coinbase paying
    /// `reward`, then the highest-fee pending transactions that validate
    /// against a working ledger from which each selection's spends are
    /// removed, each carrying its fee output for the miner, at most
    /// `TRANSACTIONS_PER_BLOCK` in all. A conflicting or stale entry fails
    /// against the working ledger and is evicted from the pool.
    pub fn get_next_transactions(
        &mut self,
        utxos: &UTXOS,
        public_key: &Vec<u8>,
        reward: u64,
        version: u64,
    ) -> (r: Vec<Transaction>)
        ensures
            ({
                let picked = spec_assemble(
                    old(self)@, utxos@, (TRANSACTIONS_PER_BLOCK - 1) as nat,
                );
                &&& r@.len() == picked.0.len() + 1
                &&& txs_view(r@)[0] == crate::transaction::spec_reward_tx(
                    txs_view(r@)[0].timestamp, reward, sha256_of(public_key@), version,
                )
                &&& forall|j: int| 0 <= j < picked.0.len() ==> txs_view(r@)[j + 1]
                    == spec_with_fee(
                        (#[trigger] picked.0[j]).transaction, sha256_of(public_key@),
                        picked.0[j].fee as u64,
                    )
                &&& final(self)@ == spec_mp_remove(old(self)@, hashes_of(picked.1))
                &&& old(self)@.len() == 0 ==> r@.len() == 1
            }),
    {
        let ghost full = self@;
        let ghost u0 = utxos@;
        let mut working = utxos.clone();
        let ghost mut u_cur = utxos@;
        let mut txs: Vec<Transaction> = Vec::new();
        txs.push(Transaction::reward(reward, public_key, version));
        let mut invalid_hashes: Vec<Vec<u8>> = Vec::new();
        let ghost mut sel_seen: Seq<TxWithFeeV> = Seq::empty();
        let ghost mut inv_seen: Seq<TxWithFeeV> = Seq::empty();
        let mut k: usize = 0;
        proof {
            assert(full.skip(0) =~= full);
            assert(sel_seen + spec_assemble(full, u0, (TRANSACTIONS_PER_BLOCK - 1) as nat).0
                =~= spec_assemble(full, u0, (TRANSACTIONS_PER_BLOCK - 1) as nat).0);
            assert(inv_seen + spec_assemble(full, u0, (TRANSACTIONS_PER_BLOCK - 1) as nat).1
                =~= spec_assemble(full, u0, (TRANSACTIONS_PER_BLOCK - 1) as nat).1);
        }
        while k < self.0.len() && txs.len() < TRANSACTIONS_PER_BLOCK
            invariant
                k <= self.0.len(),
                full == self@,
                u0 == utxos@,
                working@ == u_cur,
                full.len() == self.0@.len(),
                forall|j: int| 0 <= j < self.0@.len() ==> full[j] == self.0@[j]@,
                1 <= txs@.len() <= TRANSACTIONS_PER_BLOCK,
                txs@.len() == sel_seen.len() + 1,
                txs_view(txs@)[0] == crate::transaction::spec_reward_tx(
                    txs_view(txs@)[0].timestamp, reward, sha256_of(public_key@), version,
                ),
                forall|j: int| 0 <= j < sel_seen.len() ==> txs_view(txs@)[j + 1]
                    == spec_with_fee(
                        (#[trigger] sel_seen[j]).transaction, sha256_of(public_key@),
                        sel_seen[j].fee as u64,
                    ),
                invalid_hashes@.len() == inv_seen.len(),
                forall|j: int| 0 <= j < inv_seen.len() ==> invalid_hashes@[j]@
                    == spec_tx_hash((#[trigger] inv_seen[j]).transaction),
                spec_assemble(full, u0, (TRANSACTIONS_PER_BLOCK - 1) as nat).0 == sel_seen
                    + spec_assemble(
                        full.skip(k as int), u_cur, (TRANSACTIONS_PER_BLOCK - txs@.len()) as nat,
                    ).0,
                spec_assemble(full, u0, (TRANSACTIONS_PER_BLOCK - 1) as nat).1 == inv_seen
                    + spec_assemble(
                        full.skip(k as int), u_cur, (TRANSACTIONS_PER_BLOCK - txs@.len()) as nat,
                    ).1,
            decreases self.0.len() - k,
        {
            let ghost rest = full.skip(k as int);
            let ghost room = (TRANSACTIONS_PER_BLOCK - txs@.len()) as nat;
            proof {
                assert(rest[0] == full[k as int]);
                assert(rest.drop_first() =~= full.skip(k + 1));
            }
            let entry = &self.0[k];
            assert(entry@ == rest[0]);
            let takes = working.validate_pending_transaction(&entry.transaction)
                && entry.fee <= 0xFFFF_FFFF_FFFF_FFFF;
            assert(takes == spec_assembly_takes(u_cur, rest[0]));
            if takes {
                let mut tx = entry.transaction.clone();
                tx.add_fee(public_key, entry.fee as u64);
                proof {
                    assert(tx@ =~= spec_with_fee(rest[0].transaction, sha256_of(public_key@),
                        rest[0].fee as u64));
                }
                let ghost old_txs = txs@;
                txs.push(tx);
                working.remove_inputs(&self.0[k].transaction.inputs);
                proof {
                    let u_next = spec_remove_inputs(u_cur, rest[0].transaction.inputs);
                    assert(working@ == u_next);
                    sel_seen = sel_seen.push(rest[0]);
                    assert(spec_assemble(rest, u_cur, room).0
                        == seq![rest[0]]
                            + spec_assemble(full.skip(k + 1), u_next, (room - 1) as nat).0);
                    assert(sel_seen.drop_last() + (seq![rest[0]]
                        + spec_assemble(full.skip(k + 1), u_next, (room - 1) as nat).0)
                        =~= sel_seen + spec_assemble(full.skip(k + 1), u_next, (room - 1) as nat).0);
                    u_cur = u_next;
                    assert forall|j: int| 0 <= j < sel_seen.len() implies txs_view(txs@)[j + 1]
                        == spec_with_fee(
                            (#[trigger] sel_seen[j]).transaction, sha256_of(public_key@),
                            sel_seen[j].fee as u64,
                        ) by {
                        if j < sel_seen.len() - 1 {
                            assert(txs_view(old_txs)[j + 1] == txs_view(txs@)[j + 1]);
                        }
                    }
                }
            } else {
                invalid_hashes.push(entry.transaction.get_hash());
                proof {
                    inv_seen = inv_seen.push(rest[0]);
                    assert(spec_assemble(rest, u_cur, room).1
                        == seq![rest[0]] + spec_assemble(full.skip(k + 1), u_cur, room).1);
                    assert(inv_seen.drop_last() + (seq![rest[0]]
                        + spec_assemble(full.skip(k + 1), u_cur, room).1)
                        =~= inv_seen + spec_assemble(full.skip(k + 1), u_cur, room).1);
                }
            }
            k = k + 1;
        }
        proof {
            let ghost room = (TRANSACTIONS_PER_BLOCK - txs@.len()) as nat;
            if k == self.0.len() {
                assert(full.skip(full.len() as int) =~= Seq::<TxWithFeeV>::empty());
                assert(spec_assemble(Seq::<TxWithFeeV>::empty(), u_cur, room)
                    == (Seq::<TxWithFeeV>::empty(), Seq::<TxWithFeeV>::empty()));
            } else {
                assert(txs@.len() == TRANSACTIONS_PER_BLOCK);
                assert(spec_assemble(full.skip(k as int), u_cur, 0)
                    == (Seq::<TxWithFeeV>::empty(), Seq::<TxWithFeeV>::empty()));
            }
            assert(sel_seen + Seq::<TxWithFeeV>::empty() =~= sel_seen);
            assert(inv_seen + Seq::<TxWithFeeV>::empty() =~= inv_seen);
            assert(invalid_hashes@.map_values(|h: Vec<u8>| h@) =~= hashes_of(inv_seen));
        }
        self.remove_hashes(&invalid_hashes);
        proof {
            if full.len() == 0 {
                assert(spec_assemble(full, u0, (TRANSACTIONS_PER_BLOCK - 1) as nat).0
                    =~= Seq::<TxWithFeeV>::empty());
            }
        }
        txs
    }
}

/// Admitting a transaction that validates, under its exact fee, keeps the
/// pool consistent with the ledger: every entry still validates and still
/// carries its exact fee.
pub proof fn lemma_mp_add_keeps_consistency(
    u: Seq<UtxoEntryV>,
    s: Seq<TxWithFeeV>,
    t: TransactionV,
)
    requires
        crate::utxos::spec_validate_mempool(u, s),
        spec_validate_pending(u, t),
        spec_calculate_fee(u, t) < 0x1_0000_0000_0000_0000_0000_0000_0000_0000,
    ensures
        crate::utxos::spec_validate_mempool(u, spec_mp_add(s, TxWithFeeV {
            transaction: t,
            fee: spec_calculate_fee(u, t) as u128,
        })),
{
    let e = TxWithFeeV { transaction: t, fee: spec_calculate_fee(u, t) as u128 };
    let out = spec_mp_add(s, e);
    if !spec_mp_contains(s, spec_tx_hash(e.transaction)) {
        crate::utxos::lemma_output_total_bound(t.outputs);
        assert(0 <= spec_calculate_fee(u, t));
        assert forall|k: int| 0 <= k < out.len()
            implies spec_validate_pending(u, (#[trigger] out[k]).transaction)
                && out[k].fee == spec_calculate_fee(u, out[k].transaction) by {
            lemma_mp_insert_element(s, e, k);
            if out[k] == e {
            } else {
                let w = choose|w: int| 0 <= w < s.len() && s[w] == out[k];
            }
        }
    }
}

/// Where an insertion lands, named by position: all of the first `k` fees
/// at least the new fee, the entry before position `k + 1`'s old occupant.
pub proof fn lemma_mp_insert_at(s: Seq<TxWithFeeV>, e: TxWithFeeV, k: int)
    requires
        0 <= k <= s.len(),
        forall|j: int| 0 <= j < k ==> !(e.fee > (#[trigger] s[j]).fee),
        k < s.len() ==> e.fee > s[k].fee,
    ensures
        spec_mp_insert(s, e) == s.insert(k, e),
    decreases s.len(),
{
    if s.len() == 0 {
        assert(s.insert(0, e) =~= seq![e]);
    } else if e.fee > s[0].fee {
        assert(k == 0);
        assert(s.insert(0, e) =~= seq![e] + s);
    } else {
        assert(k >= 1);
        assert forall|j: int| 0 <= j < k - 1 implies !(e.fee > (#[trigger] s.drop_first()[j]).fee) by {
            assert(s.drop_first()[j] == s[j + 1]);
        }
        if k - 1 < s.drop_first().len() {
            assert(s.drop_first()[k - 1] == s[k]);
        }
        lemma_mp_insert_at(s.drop_first(), e, k - 1);
        assert(seq![s[0]] + s.drop_first().insert(k - 1, e) =~= s.insert(k, e));
    }
}

/// The result of merging the entries of `other` from position `k` on into
/// `s`, one idempotent add at a time.
pub open spec fn spec_mp_update(s: Seq<TxWithFeeV>, other: Seq<TxWithFeeV>, k: int) -> Seq<TxWithFeeV>
    decreases other.len() - k,
{
    if k < 0 || k >= other.len() {
        s
    } else {
        spec_mp_update(spec_mp_add(s, other[k]), other, k + 1)
    }
}

} // verus!
