//! Locking and unlocking scripts: a closed opcode set sufficient for
//! pay-to-public-key-hash, and the stack machine that validates them.

use vstd::prelude::*;
use crate::hash::{sha256, sha256_of, bytes_eq};
use crate::keys::{verify_signature, sig_verifies};
use crate::transaction::{Transaction, TransactionV, TxInput, TxInputV, TxOutput, TxOutputV, clone_outputs};
use crate::codec::enc_transaction;

verus! {

/// One operation of a script.
pub enum OpCode {
    PushBytes(Vec<u8>),
    Dup,
    Sha256,
    CheckSig,
    EqualVerify,
}

/// The mathematical form of an opcode: payloads become sequences.
pub enum OpView {
    Push(Seq<u8>),
    Dup,
    Sha256,
    CheckSig,
    EqualVerify,
}

impl View for OpCode {
    type V = OpView;

    open spec fn view(&self) -> OpView {
        match self {
            OpCode::PushBytes(b) => OpView::Push(b@),
            OpCode::Dup => OpView::Dup,
            OpCode::Sha256 => OpView::Sha256,
            OpCode::CheckSig => OpView::CheckSig,
            OpCode::EqualVerify => OpView::EqualVerify,
        }
    }
}

impl Clone for OpCode {
    fn clone(&self) -> (res: Self)
        ensures
            res@ == self@,
    {
        match self {
            OpCode::PushBytes(b) => {
                let b2 = b.clone();
                assert(b2@ =~= b@);
                OpCode::PushBytes(b2)
            }
            OpCode::Dup => OpCode::Dup,
            OpCode::Sha256 => OpCode::Sha256,
            OpCode::CheckSig => OpCode::CheckSig,
            OpCode::EqualVerify => OpCode::EqualVerify,
        }
    }
}

/// An ordered sequence of opcodes.
pub struct Script(pub Vec<OpCode>);

impl View for Script {
    type V = Seq<OpView>;

    open spec fn view(&self) -> Seq<OpView> {
        self.0@.map_values(|op: OpCode| op@)
    }
}

impl Clone for Script {
    fn clone(&self) -> (res: Self)
        ensures
            res@ == self@,
    {
        let mut ops: Vec<OpCode> = Vec::new();
        let mut i: usize = 0;
        while i < self.0.len()
            invariant
                i <= self.0.len(),
                ops@.len() == i,
                forall|j: int| 0 <= j < i ==> ops@[j]@ == self.0@[j]@,
            decreases self.0.len() - i,
        {
            ops.push(self.0[i].clone());
            i = i + 1;
        }
        let res = Script(ops);
        assert(res@ =~= self@);
        res
    }
}

/// One step of the stack machine at a time: run the remaining opcodes
/// against a stack of byte vectors. `None` is failure; `CHECKSIG` verifies
/// against the given signature hash.
pub open spec fn spec_run_script(
    ops: Seq<OpView>,
    stack: Seq<Seq<u8>>,
    sig_hash: Seq<u8>,
) -> Option<Seq<Seq<u8>>>
    decreases ops.len(),
{
    if ops.len() == 0 {
        Some(stack)
    } else {
        let rest = ops.drop_first();
        match ops[0] {
            OpView::Push(b) => spec_run_script(rest, stack.push(b), sig_hash),
            OpView::Dup => if stack.len() > 0 {
                spec_run_script(rest, stack.push(stack.last()), sig_hash)
            } else {
                None
            },
            OpView::Sha256 => if stack.len() > 0 {
                spec_run_script(rest, stack.drop_last().push(sha256_of(stack.last())), sig_hash)
            } else {
                None
            },
            OpView::EqualVerify => if stack.len() >= 2 && stack.last() == stack[stack.len() - 2] {
                spec_run_script(rest, stack.drop_last().drop_last(), sig_hash)
            } else {
                None
            },
            OpView::CheckSig => if stack.len() >= 2
                && sig_verifies(stack.last(), sig_hash, stack[stack.len() - 2]) {
                spec_run_script(rest, stack.drop_last().drop_last().push(seq![1u8]), sig_hash)
            } else {
                None
            },
        }
    }
}

/// Post-execution success: a non-empty stack whose top holds some non-zero
/// byte.
pub open spec fn spec_stack_true(stack: Seq<Seq<u8>>) -> bool {
    &&& stack.len() > 0
    &&& exists|k: int| 0 <= k < stack.last().len() && stack.last()[k] != 0
}

/// The transaction form that is hashed for signing input `input_index`:
/// every input's unlocking script zeroed, then the spent output's locking
/// script written into the signed input's slot.
pub open spec fn spec_sig_hash_form(
    t: TransactionV,
    input_index: int,
    utxo_locking: Seq<OpView>,
) -> TransactionV {
    TransactionV {
        timestamp: t.timestamp,
        version: t.version,
        inputs: t.inputs.map(|j: int, inp: TxInputV| TxInputV {
            prev: inp.prev,
            output_index: inp.output_index,
            unlocking_script: if j == input_index { utxo_locking } else { Seq::empty() },
        }),
        outputs: t.outputs,
    }
}

/// The signature hash couples the signature to the outputs, the spent
/// output's script and the input's position, but to no sibling unlocking
/// script.
pub open spec fn spec_sig_hash(t: TransactionV, input_index: int, utxo: TxOutputV) -> Seq<u8> {
    sha256_of(enc_transaction(spec_sig_hash_form(t, input_index, utxo.locking_script)))
}

/// What `Script::validate` decides: run the script on an empty stack and
/// test the top of what remains.
pub open spec fn spec_script_validates(
    script: Seq<OpView>,
    t: TransactionV,
    input_index: int,
    utxo: TxOutputV,
) -> bool {
    match spec_run_script(script, Seq::empty(), spec_sig_hash(t, input_index, utxo)) {
        Some(stack) => spec_stack_true(stack),
        None => false,
    }
}

/// Tampering with one input's unlocking script never changes another
/// input's signature hash: the hashed form zeroes every unlocking script
/// before the spent output's script is written in.
pub proof fn lemma_sig_hash_ignores_unlocking_scripts(
    t1: TransactionV,
    t2: TransactionV,
    input_index: int,
    utxo: TxOutputV,
)
    requires
        t1.timestamp == t2.timestamp,
        t1.version == t2.version,
        t1.outputs == t2.outputs,
        t1.inputs.len() == t2.inputs.len(),
        forall|j: int| 0 <= j < t1.inputs.len() ==> #[trigger] t1.inputs[j].prev == t2.inputs[j].prev
            && t1.inputs[j].output_index == t2.inputs[j].output_index,
    ensures
        spec_sig_hash(t1, input_index, utxo) == spec_sig_hash(t2, input_index, utxo),
{
    let f1 = spec_sig_hash_form(t1, input_index, utxo.locking_script);
    let f2 = spec_sig_hash_form(t2, input_index, utxo.locking_script);
    assert(f1.inputs =~= f2.inputs);
    assert(f1 =~= f2);
}

/// A canonical P2PKH spend validates: with the unlocking script pushing a
/// signature the key accepts and the key itself, against a locking script
/// committed to that key's hash, the stack machine ends on `[1]`.
pub proof fn lemma_p2pkh_spend_validates(
    sig: Seq<u8>,
    pk: Seq<u8>,
    t: TransactionV,
    input_index: int,
    utxo: TxOutputV,
)
    requires
        utxo.locking_script == p2pkh_locking(sha256_of(pk)),
        sig_verifies(pk, spec_sig_hash(t, input_index, utxo), sig),
    ensures
        spec_script_validates(p2pkh_unlocking(sig, pk) + utxo.locking_script, t, input_index, utxo),
{
    let sh = spec_sig_hash(t, input_index, utxo);
    let script = p2pkh_unlocking(sig, pk) + utxo.locking_script;
    assert(script.len() == 7);
    assert(script[0] == OpView::Push(sig));
    assert(script[1] == OpView::Push(pk));
    assert(script[2] == OpView::Dup);
    assert(script[3] == OpView::Sha256);
    assert(script[4] == OpView::Push(sha256_of(pk)));
    assert(script[5] == OpView::EqualVerify);
    assert(script[6] == OpView::CheckSig);
    let s0 = Seq::<Seq<u8>>::empty();
    let s1 = s0.push(sig);
    let s2 = s1.push(pk);
    let s3 = s2.push(pk);
    let s4 = s3.drop_last().push(sha256_of(pk));
    let s5 = s4.push(sha256_of(pk));
    let s6 = s5.drop_last().drop_last();
    let s7 = s6.drop_last().drop_last().push(seq![1u8]);
    assert(script.skip(1) =~= script.drop_first());
    assert(script.skip(2) =~= script.skip(1).drop_first());
    assert(script.skip(3) =~= script.skip(2).drop_first());
    assert(script.skip(4) =~= script.skip(3).drop_first());
    assert(script.skip(5) =~= script.skip(4).drop_first());
    assert(script.skip(6) =~= script.skip(5).drop_first());
    assert(script.skip(7) =~= script.skip(6).drop_first());
    assert(script.skip(1)[0] == script[1]);
    assert(script.skip(2)[0] == script[2]);
    assert(script.skip(3)[0] == script[3]);
    assert(script.skip(4)[0] == script[4]);
    assert(script.skip(5)[0] == script[5]);
    assert(script.skip(6)[0] == script[6]);
    assert(script.skip(0) =~= script);
    assert(spec_run_script(script, s0, sh) == spec_run_script(script.skip(1), s1, sh));
    assert(spec_run_script(script.skip(1), s1, sh) == spec_run_script(script.skip(2), s2, sh));
    // DUP copies the key
    assert(s2.len() > 0 && s2.last() == pk);
    assert(spec_run_script(script.skip(2), s2, sh) == spec_run_script(script.skip(3), s3, sh));
    // SHA256 replaces the copy with its digest
    assert(s3.len() > 0 && s3.last() == pk);
    assert(spec_run_script(script.skip(3), s3, sh) == spec_run_script(script.skip(4), s4, sh));
    assert(spec_run_script(script.skip(4), s4, sh) == spec_run_script(script.skip(5), s5, sh));
    // EQUALVERIFY compares the pushed hash with the computed one
    assert(s5.len() >= 2);
    assert(s5.last() == sha256_of(pk));
    assert(s5[s5.len() - 2] == s4.last());
    assert(s4.last() == sha256_of(pk));
    assert(spec_run_script(script.skip(5), s5, sh) == spec_run_script(script.skip(6), s6, sh));
    // CHECKSIG pops the key and the signature and verifies
    assert(s6 =~= s2);
    assert(s6.len() >= 2);
    assert(s6.last() == pk);
    assert(s6[s6.len() - 2] == sig);
    assert(spec_run_script(script.skip(6), s6, sh) == spec_run_script(script.skip(7), s7, sh));
    assert(script.skip(7) =~= Seq::<OpView>::empty());
    assert(spec_run_script(script.skip(7), s7, sh) == Some(s7));
    assert(s7.last() == seq![1u8]);
    assert(s7.last()[0] != 0);
    assert(spec_stack_true(s7));
}

/// The deterministic signature hash for one input of a transaction.
pub fn compute_sig_hash(tx: &Transaction, input_index: usize, utxo: &TxOutput) -> (r: Vec<u8>)
    requires
        input_index < tx@.inputs.len(),
    ensures
        r@ == spec_sig_hash(tx@, input_index as int, utxo@),
        r@.len() == 32,
{
    let mut inputs: Vec<TxInput> = Vec::new();
    let mut k: usize = 0;
    while k < tx.inputs.len()
        invariant
            k <= tx.inputs.len(),
            input_index < tx@.inputs.len(),
            tx@.inputs.len() == tx.inputs@.len(),
            forall|j: int| 0 <= j < tx.inputs@.len() ==> tx@.inputs[j] == tx.inputs@[j]@,
            inputs@.len() == k,
            forall|j: int| 0 <= j < k ==> inputs@[j]@ == (TxInputV {
                prev: tx@.inputs[j].prev,
                output_index: tx@.inputs[j].output_index,
                unlocking_script: if j == input_index { utxo@.locking_script } else {
                    Seq::<OpView>::empty()
                },
            }),
        decreases tx.inputs.len() - k,
    {
        let prev = tx.inputs[k].prev.clone();
        assert(prev@ =~= tx.inputs@[k as int].prev@);
        let script = if k == input_index {
            utxo.locking_script.clone()
        } else {
            Script::empty()
        };
        inputs.push(TxInput {
            prev,
            output_index: tx.inputs[k].output_index,
            unlocking_script: script,
        });
        k = k + 1;
    }
    let modified = Transaction {
        timestamp: tx.timestamp,
        version: tx.version,
        inputs,
        outputs: clone_outputs(&tx.outputs),
    };
    assert(modified@ =~= spec_sig_hash_form(tx@, input_index as int, utxo@.locking_script)) by {
        assert(modified@.inputs =~= spec_sig_hash_form(
            tx@, input_index as int, utxo@.locking_script).inputs);
    }
    sha256(modified.to_bytes())
}

/// The canonical P2PKH locking script for a public-key hash:
/// `DUP, SHA256, PUSH(pkh), EQUALVERIFY, CHECKSIG`.
pub open spec fn p2pkh_locking(pkh: Seq<u8>) -> Seq<OpView> {
    seq![
        OpView::Dup,
        OpView::Sha256,
        OpView::Push(pkh),
        OpView::EqualVerify,
        OpView::CheckSig,
    ]
}

/// The canonical P2PKH unlocking script: `PUSH(sig), PUSH(pubkey)`.
pub open spec fn p2pkh_unlocking(sig: Seq<u8>, public_key: Seq<u8>) -> Seq<OpView> {
    seq![OpView::Push(sig), OpView::Push(public_key)]
}

#[allow(non_snake_case)]
impl Script {
    pub fn empty() -> (r: Self)
        ensures
            r@ == Seq::<OpView>::empty(),
    {
        let r = Script(Vec::new());
        assert(r@ =~= Seq::<OpView>::empty());
        r
    }

    /// Run this script against an empty stack; true exactly when execution
    /// succeeds and leaves a top element with a non-zero byte.
    pub fn validate(&self, tx: &Transaction, input_index: usize, utxo: &TxOutput) -> (r: bool)
        requires
            input_index < tx@.inputs.len(),
        ensures
            r == spec_script_validates(self@, tx@, input_index as int, utxo@),
    {
        let sig_hash = compute_sig_hash(tx, input_index, utxo);
        let ghost sh = sig_hash@;
        let mut stack: Vec<Vec<u8>> = Vec::new();
        assert(stack@.map_values(|v: Vec<u8>| v@) =~= Seq::<Seq<u8>>::empty());
        assert(self@.skip(0) =~= self@);
        let mut i: usize = 0;
        while i < self.0.len()
            invariant
                i <= self.0.len(),
                sig_hash@ == sh,
                sh == spec_sig_hash(tx@, input_index as int, utxo@),
                self@.len() == self.0@.len(),
                forall|j: int| 0 <= j < self.0@.len() ==> self@[j] == self.0@[j]@,
                spec_run_script(self@, Seq::empty(), sh) == spec_run_script(
                    self@.skip(i as int),
                    stack@.map_values(|v: Vec<u8>| v@),
                    sh,
                ),
            decreases self.0.len() - i,
        {
            let ghost pre = stack@.map_values(|v: Vec<u8>| v@);
            let ghost rest = self@.skip(i as int);
            proof {
                assert(rest.len() > 0);
                assert(rest[0] == self@[i as int]);
                assert(rest.drop_first() =~= self@.skip(i + 1));
            }
            match &self.0[i] {
                OpCode::PushBytes(data) => {
                    let d = data.clone();
                    assert(d@ =~= data@);
                    stack.push(d);
                    proof {
                        assert(stack@.map_values(|v: Vec<u8>| v@) =~= pre.push(data@));
                    }
                }
                OpCode::Dup => {
                    if stack.len() == 0 {
                        assert(spec_run_script(rest, pre, sh) is None);
                        return false;
                    }
                    let top = stack[stack.len() - 1].clone();
                    assert(top@ =~= pre.last());
                    stack.push(top);
                    proof {
                        assert(stack@.map_values(|v: Vec<u8>| v@) =~= pre.push(pre.last()));
                    }
                }
                OpCode::Sha256 => {
                    let Some(top) = stack.pop() else {
                        assert(pre.len() == 0);
                        assert(spec_run_script(rest, pre, sh) is None);
                        return false;
                    };
                    assert(top@ == pre.last());
                    stack.push(sha256(top));
                    proof {
                        assert(stack@.map_values(|v: Vec<u8>| v@)
                            =~= pre.drop_last().push(sha256_of(pre.last())));
                    }
                }
                OpCode::EqualVerify => {
                    if stack.len() < 2 {
                        assert(spec_run_script(rest, pre, sh) is None);
                        return false;
                    }
                    let x1 = stack.pop().unwrap();
                    let x2 = stack.pop().unwrap();
                    assert(x1@ == pre.last());
                    assert(x2@ == pre[pre.len() - 2]);
                    if !bytes_eq(&x1, &x2) {
                        assert(spec_run_script(rest, pre, sh) is None);
                        return false;
                    }
                    proof {
                        assert(stack@.map_values(|v: Vec<u8>| v@)
                            =~= pre.drop_last().drop_last());
                    }
                }
                OpCode::CheckSig => {
                    if stack.len() < 2 {
                        assert(spec_run_script(rest, pre, sh) is None);
                        return false;
                    }
                    let pubkey = stack.pop().unwrap();
                    let signature = stack.pop().unwrap();
                    assert(pubkey@ == pre.last());
                    assert(signature@ == pre[pre.len() - 2]);
                    if !verify_signature(&pubkey, &sig_hash, &signature) {
                        assert(spec_run_script(rest, pre, sh) is None);
                        return false;
                    }
                    let mut one: Vec<u8> = Vec::new();
                    one.push(1);
                    assert(one@ =~= seq![1u8]);
                    stack.push(one);
                    proof {
                        assert(stack@.map_values(|v: Vec<u8>| v@)
                            =~= pre.drop_last().drop_last().push(seq![1u8]));
                    }
                }
            }
            i = i + 1;
        }
        proof {
            assert(self@.skip(self@.len() as int) =~= Seq::<OpView>::empty());
        }
        let ghost fin = stack@.map_values(|v: Vec<u8>| v@);
        assert(spec_run_script(self@, Seq::empty(), sh) == Some(fin));
        if stack.len() == 0 {
            return false;
        }
        let top = &stack[stack.len() - 1];
        assert(top@ == fin.last());
        let mut j: usize = 0;
        let mut found = false;
        while j < top.len()
            invariant
                j <= top@.len(),
                found == exists|k: int| 0 <= k < j && top@[k] != 0,
            decreases top@.len() - j,
        {
            if top[j] != 0 {
                found = true;
            }
            j = j + 1;
        }
        found
    }

    pub fn concat(s1: &Script, s2: &Script) -> (r: Self)
        ensures
            r@ == s1@ + s2@,
    {
        let mut ops = s1.clone().0;
        let mut rest = s2.clone().0;
        ops.append(&mut rest);
        let r = Script(ops);
        assert(r@ =~= s1@ + s2@);
        r
    }

    pub fn P2PKHUnlocking(sig: Vec<u8>, public_key: Vec<u8>) -> (r: Self)
        ensures
            r@ == p2pkh_unlocking(sig@, public_key@),
    {
        let r = Script(vec![OpCode::PushBytes(sig), OpCode::PushBytes(public_key)]);
        assert(r@ =~= p2pkh_unlocking(sig@, public_key@));
        r
    }

    pub fn P2PKHLocking(public_key_hash: Vec<u8>) -> (r: Self)
        ensures
            r@ == p2pkh_locking(public_key_hash@),
    {
        let r = Script(vec![
            OpCode::Dup,
            OpCode::Sha256,
            OpCode::PushBytes(public_key_hash),
            OpCode::EqualVerify,
            OpCode::CheckSig,
        ]);
        assert(r@ =~= p2pkh_locking(public_key_hash@));
        r
    }

    /// The public-key hash committed to by a P2PKH locking script: the
    /// payload of its third opcode, if that opcode is a push.
    pub open spec fn spec_locking_pkh(s: Seq<OpView>) -> Option<Seq<u8>> {
        if s.len() > 2 {
            match s[2] {
                OpView::Push(h) => Some(h),
                _ => None,
            }
        } else {
            None
        }
    }

    pub fn P2PKHLocking_get_public_key_hash(&self) -> (r: Option<Vec<u8>>)
        ensures
            match r {
                Some(h) => Script::spec_locking_pkh(self@) == Some(h@),
                None => Script::spec_locking_pkh(self@) is None,
            },
    {
        if self.0.len() > 2 {
            match &self.0[2] {
                OpCode::PushBytes(h) => {
                    let h2 = h.clone();
                    assert(h2@ =~= h@);
                    Some(h2)
                }
                _ => None,
            }
        } else {
            None
        }
    }
}

} // verus!
