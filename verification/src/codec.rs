//! Canonical binary encoding.
//!
//! Every value that is hashed, sent to a peer, or persisted is turned into
//! bytes by the functions in this module and in the codecs built on top of
//! it. The format is deterministic: integers are 64-bit little-endian,
//! byte strings and lists carry a 64-bit count prefix, and tagged unions
//! carry a one-byte tag. Decoding is the exact inverse on every encoded
//! input; arbitrary input that is not a valid encoding decodes to `None`.

use vstd::prelude::*;
use crate::script::{OpCode, OpView, Script};
use crate::transaction::{TxInput, TxInputV, TxOutput, TxOutputV, Transaction, TransactionV};
use crate::block::{Block, BlockV, BlockHeader, BlockHeaderV};
use crate::connection::NetAddress;
use crate::protocol::{NetMessage, NetMessageV, Verack, VerackV};
use crate::mempool::{Mempool, TransactionWithFee, TxWithFeeV};
use crate::connection::IpOctets;
use crate::node::{Node, NodeV, Config};
use crate::utxos::{UtxoEntry, UtxoEntryV};
use crate::wallet::{Wallet, WalletV};
use vstd::bytes::{
    spec_u64_to_le_bytes, spec_u64_from_le_bytes, lemma_auto_spec_u64_to_from_le_bytes,
    u64_to_le_bytes, u64_from_le_bytes,
};
use vstd::slice::{slice_subrange, slice_to_vec, slice_index_get};

verus! {

/// 2^64, the first length that a 64-bit count prefix cannot hold.
pub open spec fn u64_bound() -> int {
    0x1_0000_0000_0000_0000
}

/// `part` occurs in `b` starting at `pos`.
pub open spec fn bytes_at(b: Seq<u8>, pos: int, part: Seq<u8>) -> bool {
    &&& 0 <= pos
    &&& pos + part.len() <= b.len()
    &&& b.subrange(pos, pos + part.len() as int) == part
}

// ---------------------------------------------------------------------------
// Specification: encoders
// ---------------------------------------------------------------------------

pub open spec fn enc_u64(x: u64) -> Seq<u8> {
    spec_u64_to_le_bytes(x)
}

pub open spec fn enc_u8(x: u8) -> Seq<u8> {
    seq![x]
}

pub open spec fn enc_bytes(s: Seq<u8>) -> Seq<u8> {
    enc_u64(s.len() as u64) + s
}

/// The items of a list, one encoding after the other, without a count.
pub open spec fn enc_items<T>(s: Seq<T>, fe: spec_fn(T) -> Seq<u8>) -> Seq<u8>
    decreases s.len(),
{
    if s.len() == 0 {
        Seq::empty()
    } else {
        fe(s[0]) + enc_items(s.drop_first(), fe)
    }
}

/// A list: a 64-bit count followed by the items.
pub open spec fn enc_seq_of<T>(s: Seq<T>, fe: spec_fn(T) -> Seq<u8>) -> Seq<u8> {
    enc_u64(s.len() as u64) + enc_items(s, fe)
}

pub open spec fn enc_opt_u64(x: Option<u64>) -> Seq<u8> {
    match x {
        None => seq![0u8],
        Some(v) => seq![1u8] + enc_u64(v),
    }
}

// ---------------------------------------------------------------------------
// Specification: decoders
//
// A decoder takes the whole buffer and a cursor, and returns the decoded
// value with the new cursor, or `None` when the input at the cursor is not
// a valid encoding.
// ---------------------------------------------------------------------------

pub open spec fn dec_u64(b: Seq<u8>, pos: int) -> Option<(u64, int)> {
    if 0 <= pos && pos + 8 <= b.len() {
        Some((spec_u64_from_le_bytes(b.subrange(pos, pos + 8)), pos + 8))
    } else {
        None
    }
}

pub open spec fn dec_u8(b: Seq<u8>, pos: int) -> Option<(u8, int)> {
    if 0 <= pos && pos + 1 <= b.len() {
        Some((b[pos], pos + 1))
    } else {
        None
    }
}

pub open spec fn dec_bytes(b: Seq<u8>, pos: int) -> Option<(Seq<u8>, int)> {
    match dec_u64(b, pos) {
        None => None,
        Some((n, p)) => if p + n <= b.len() {
            Some((b.subrange(p, p + n), p + n))
        } else {
            None
        },
    }
}

pub open spec fn dec_items<T>(
    b: Seq<u8>,
    pos: int,
    n: nat,
    fd: spec_fn(Seq<u8>, int) -> Option<(T, int)>,
) -> Option<(Seq<T>, int)>
    decreases n,
{
    if n == 0 {
        Some((Seq::empty(), pos))
    } else {
        match fd(b, pos) {
            None => None,
            Some((v, p)) => match dec_items(b, p, (n - 1) as nat, fd) {
                None => None,
                Some((vs, q)) => Some((seq![v] + vs, q)),
            },
        }
    }
}

pub open spec fn dec_seq_of<T>(
    b: Seq<u8>,
    pos: int,
    fd: spec_fn(Seq<u8>, int) -> Option<(T, int)>,
) -> Option<(Seq<T>, int)> {
    match dec_u64(b, pos) {
        None => None,
        Some((n, p)) => dec_items(b, p, n as nat, fd),
    }
}

pub open spec fn dec_opt_u64(b: Seq<u8>, pos: int) -> Option<(Option<u64>, int)> {
    match dec_u8(b, pos) {
        None => None,
        Some((tag, p)) => if tag == 0 {
            Some((None, p))
        } else if tag == 1 {
            match dec_u64(b, p) {
                None => None,
                Some((v, q)) => Some((Some(v), q)),
            }
        } else {
            None
        },
    }
}

// ---------------------------------------------------------------------------
// Round trips: decoding an encoding, wherever it sits in a buffer, yields
// the encoded value and moves the cursor past it.
// ---------------------------------------------------------------------------

/// A buffer that holds a concatenation holds each part, one after the other.
pub proof fn lemma_bytes_at_split(b: Seq<u8>, pos: int, x: Seq<u8>, y: Seq<u8>)
    requires
        bytes_at(b, pos, x + y),
    ensures
        bytes_at(b, pos, x),
        bytes_at(b, pos + x.len(), y),
{
    let whole = b.subrange(pos, pos + x.len() + y.len());
    assert(b.subrange(pos, pos + x.len() as int) =~= x) by {
        assert forall|j: int| 0 <= j < x.len()
            implies b.subrange(pos, pos + x.len() as int)[j] == x[j] by {
            assert(whole[j] == (x + y)[j]);
        }
    }
    assert(b.subrange(pos + x.len(), pos + x.len() + y.len()) =~= y) by {
        assert forall|j: int| 0 <= j < y.len()
            implies b.subrange(pos + x.len(), pos + x.len() + y.len())[j] == y[j] by {
            assert(whole[x.len() + j] == (x + y)[x.len() + j]);
        }
    }
}

pub proof fn lemma_dec_enc_u64(b: Seq<u8>, pos: int, x: u64)
    requires
        bytes_at(b, pos, enc_u64(x)),
    ensures
        dec_u64(b, pos) == Some((x, pos + 8)),
{
    lemma_auto_spec_u64_to_from_le_bytes();
    assert(b.subrange(pos, pos + 8) == enc_u64(x));
}

pub proof fn lemma_dec_enc_u8(b: Seq<u8>, pos: int, x: u8)
    requires
        bytes_at(b, pos, enc_u8(x)),
    ensures
        dec_u8(b, pos) == Some((x, pos + 1)),
{
    assert(b[pos] == b.subrange(pos, pos + 1)[0]);
}

pub proof fn lemma_dec_enc_bytes(b: Seq<u8>, pos: int, s: Seq<u8>)
    requires
        bytes_at(b, pos, enc_bytes(s)),
        s.len() < u64_bound(),
    ensures
        dec_bytes(b, pos) == Some((s, pos + enc_bytes(s).len())),
{
    lemma_auto_spec_u64_to_from_le_bytes();
    let n = s.len() as u64;
    lemma_bytes_at_split(b, pos, enc_u64(n), s);
    lemma_dec_enc_u64(b, pos, n);
    assert(b.subrange(pos + 8, pos + 8 + s.len() as int) == s);
}

pub proof fn lemma_dec_enc_opt_u64(b: Seq<u8>, pos: int, x: Option<u64>)
    requires
        bytes_at(b, pos, enc_opt_u64(x)),
    ensures
        dec_opt_u64(b, pos) == Some((x, pos + enc_opt_u64(x).len())),
{
    lemma_auto_spec_u64_to_from_le_bytes();
    match x {
        None => {
            lemma_dec_enc_u8(b, pos, 0);
        }
        Some(v) => {
            lemma_bytes_at_split(b, pos, enc_u8(1), enc_u64(v));
            lemma_dec_enc_u8(b, pos, 1);
            lemma_dec_enc_u64(b, pos + 1, v);
        }
    }
}

/// An item decoder `fd` inverts an item encoder `fe` on every item of `s`,
/// wherever the encoding sits in `b`.
pub open spec fn inverts_on<T>(
    b: Seq<u8>,
    s: Seq<T>,
    fe: spec_fn(T) -> Seq<u8>,
    fd: spec_fn(Seq<u8>, int) -> Option<(T, int)>,
) -> bool {
    forall|i: int, p: int|
        0 <= i < s.len() && #[trigger] bytes_at(b, p, fe(s[i]))
            ==> fd(b, p) == Some((s[i], p + fe(s[i]).len()))
}

pub proof fn lemma_dec_enc_items<T>(
    b: Seq<u8>,
    pos: int,
    s: Seq<T>,
    fe: spec_fn(T) -> Seq<u8>,
    fd: spec_fn(Seq<u8>, int) -> Option<(T, int)>,
)
    requires
        bytes_at(b, pos, enc_items(s, fe)),
        inverts_on(b, s, fe, fd),
    ensures
        dec_items(b, pos, s.len(), fd) == Some((s, pos + enc_items(s, fe).len())),
    decreases s.len(),
{
    if s.len() == 0 {
        assert(dec_items(b, pos, 0, fd) == Some((Seq::<T>::empty(), pos)));
        assert(s =~= Seq::<T>::empty());
    } else {
        let head = fe(s[0]);
        let tail = enc_items(s.drop_first(), fe);
        assert(enc_items(s, fe) == head + tail);
        lemma_bytes_at_split(b, pos, head, tail);
        assert(bytes_at(b, pos, fe(s[0])));
        assert(fd(b, pos) == Some((s[0], pos + head.len())));
        let p2 = pos + head.len() as int;
        assert(inverts_on(b, s.drop_first(), fe, fd)) by {
            assert forall|i: int, p: int|
                0 <= i < s.drop_first().len() && #[trigger] bytes_at(b, p, fe(s.drop_first()[i]))
                implies fd(b, p) == Some((s.drop_first()[i], p + fe(s.drop_first()[i]).len())) by {
                assert(s.drop_first()[i] == s[i + 1]);
            }
        }
        lemma_dec_enc_items(b, p2, s.drop_first(), fe, fd);
        assert(seq![s[0]] + s.drop_first() =~= s);
    }
}

pub proof fn lemma_dec_enc_seq_of<T>(
    b: Seq<u8>,
    pos: int,
    s: Seq<T>,
    fe: spec_fn(T) -> Seq<u8>,
    fd: spec_fn(Seq<u8>, int) -> Option<(T, int)>,
)
    requires
        bytes_at(b, pos, enc_seq_of(s, fe)),
        inverts_on(b, s, fe, fd),
        s.len() < u64_bound(),
    ensures
        dec_seq_of(b, pos, fd) == Some((s, pos + enc_seq_of(s, fe).len())),
{
    lemma_auto_spec_u64_to_from_le_bytes();
    let n = s.len() as u64;
    lemma_bytes_at_split(b, pos, enc_u64(n), enc_items(s, fe));
    lemma_dec_enc_u64(b, pos, n);
    lemma_dec_enc_items(b, pos + 8, s, fe, fd);
}

/// Item runs concatenate: encoding a concatenation of lists is the
/// concatenation of the encodings.
pub proof fn lemma_enc_items_app<T>(s1: Seq<T>, s2: Seq<T>, fe: spec_fn(T) -> Seq<u8>)
    ensures
        enc_items(s1 + s2, fe) == enc_items(s1, fe) + enc_items(s2, fe),
    decreases s1.len(),
{
    if s1.len() == 0 {
        assert(s1 + s2 =~= s2);
        assert(enc_items(s1, fe) + enc_items(s2, fe) =~= enc_items(s2, fe));
    } else {
        assert((s1 + s2).drop_first() =~= s1.drop_first() + s2);
        assert((s1 + s2)[0] == s1[0]);
        assert((s1 + s2).len() > 0);
        lemma_enc_items_app(s1.drop_first(), s2, fe);
        assert(fe(s1[0]) + (enc_items(s1.drop_first(), fe) + enc_items(s2, fe))
            =~= (fe(s1[0]) + enc_items(s1.drop_first(), fe)) + enc_items(s2, fe));
    }
}

/// Appending one item's encoding extends the encoded item run.
pub proof fn lemma_enc_items_snoc<T>(s: Seq<T>, i: int, fe: spec_fn(T) -> Seq<u8>)
    requires
        0 <= i < s.len(),
    ensures
        enc_items(s.take(i + 1), fe) == enc_items(s.take(i), fe) + fe(s[i]),
{
    assert(s.take(i + 1) =~= s.take(i) + seq![s[i]]);
    lemma_enc_items_app(s.take(i), seq![s[i]], fe);
    assert(enc_items(seq![s[i]], fe) == fe(s[i])) by {
        assert(seq![s[i]].drop_first() =~= Seq::<T>::empty());
        assert(enc_items(Seq::<T>::empty(), fe) == Seq::<u8>::empty());
        assert(fe(s[i]) + Seq::<u8>::empty() =~= fe(s[i]));
    }
}

/// Every decoder in this crate leaves the cursor inside the buffer; for the
/// primitives this is immediate from their definitions.
pub proof fn lemma_dec_items_unfold<T>(
    b: Seq<u8>,
    pos: int,
    n: nat,
    fd: spec_fn(Seq<u8>, int) -> Option<(T, int)>,
)
    requires
        n > 0,
    ensures
        dec_items(b, pos, n, fd) == match fd(b, pos) {
            None => None::<(Seq<T>, int)>,
            Some((v, p)) => match dec_items(b, p, (n - 1) as nat, fd) {
                None => None,
                Some((vs, q)) => Some((seq![v] + vs, q)),
            },
        },
{
}

// ---------------------------------------------------------------------------
// Executable encoders and decoders for the primitives.
// ---------------------------------------------------------------------------

pub fn write_u64(out: &mut Vec<u8>, x: u64)
    ensures
        final(out)@ == old(out)@ + enc_u64(x),
{
    let mut bs = u64_to_le_bytes(x);
    out.append(&mut bs);
}

pub fn write_u8(out: &mut Vec<u8>, x: u8)
    ensures
        final(out)@ == old(out)@ + enc_u8(x),
{
    out.push(x);
    assert(final(out)@ =~= old(out)@ + enc_u8(x));
}

pub fn write_bytes(out: &mut Vec<u8>, s: &Vec<u8>)
    ensures
        final(out)@ == old(out)@ + enc_bytes(s@),
{
    write_u64(out, s.len() as u64);
    let mut copy = s.clone();
    out.append(&mut copy);
    assert(final(out)@ =~= old(out)@ + enc_bytes(s@));
}

pub fn write_opt_u64(out: &mut Vec<u8>, x: &Option<u64>)
    ensures
        final(out)@ == old(out)@ + enc_opt_u64(*x),
{
    match x {
        None => {
            write_u8(out, 0);
        }
        Some(v) => {
            write_u8(out, 1);
            write_u64(out, *v);
            assert(final(out)@ =~= old(out)@ + enc_opt_u64(*x));
        }
    }
}

pub fn read_u64(b: &[u8], pos: usize) -> (r: Option<(u64, usize)>)
    ensures
        match r {
            Some((v, p)) => dec_u64(b@, pos as int) == Some((v, p as int)) && p <= b@.len(),
            None => dec_u64(b@, pos as int) is None,
        },
{
    let n = b.len();
    if pos <= n && n - pos >= 8 {
        let x = u64_from_le_bytes(slice_subrange(b, pos, pos + 8));
        Some((x, pos + 8))
    } else {
        None
    }
}

pub fn read_u8(b: &[u8], pos: usize) -> (r: Option<(u8, usize)>)
    ensures
        match r {
            Some((v, p)) => dec_u8(b@, pos as int) == Some((v, p as int)) && p <= b@.len(),
            None => dec_u8(b@, pos as int) is None,
        },
{
    if pos < b.len() {
        Some((*slice_index_get(b, pos), pos + 1))
    } else {
        None
    }
}

pub fn read_bytes(b: &[u8], pos: usize) -> (r: Option<(Vec<u8>, usize)>)
    ensures
        match r {
            Some((v, p)) => dec_bytes(b@, pos as int) == Some((v@, p as int)) && p <= b@.len(),
            None => dec_bytes(b@, pos as int) is None,
        },
{
    match read_u64(b, pos) {
        None => None,
        Some((n, p)) => {
            if n <= (b.len() - p) as u64 {
                let end = p + n as usize;
                let v = slice_to_vec(slice_subrange(b, p, end));
                Some((v, end))
            } else {
                None
            }
        }
    }
}

// ---------------------------------------------------------------------------
// Scripts and transactions.
// ---------------------------------------------------------------------------

pub open spec fn wf_bytes(s: Seq<u8>) -> bool {
    s.len() < u64_bound()
}

pub open spec fn wf_op(op: OpView) -> bool {
    match op {
        OpView::Push(b) => wf_bytes(b),
        _ => true,
    }
}

pub open spec fn wf_script(s: Seq<OpView>) -> bool {
    &&& s.len() < u64_bound()
    &&& forall|i: int| 0 <= i < s.len() ==> wf_op(#[trigger] s[i])
}

pub open spec fn wf_tx_input(i: TxInputV) -> bool {
    &&& wf_bytes(i.prev)
    &&& wf_script(i.unlocking_script)
}

pub open spec fn wf_tx_output(o: TxOutputV) -> bool {
    wf_script(o.locking_script)
}

pub open spec fn wf_transaction(t: TransactionV) -> bool {
    &&& t.inputs.len() < u64_bound()
    &&& t.outputs.len() < u64_bound()
    &&& forall|i: int| 0 <= i < t.inputs.len() ==> wf_tx_input(#[trigger] t.inputs[i])
    &&& forall|i: int| 0 <= i < t.outputs.len() ==> wf_tx_output(#[trigger] t.outputs[i])
}

pub open spec fn enc_op(op: OpView) -> Seq<u8> {
    match op {
        OpView::Push(b) => enc_u8(0) + enc_bytes(b),
        OpView::Dup => enc_u8(1),
        OpView::Sha256 => enc_u8(2),
        OpView::CheckSig => enc_u8(3),
        OpView::EqualVerify => enc_u8(4),
    }
}

pub open spec fn op_e() -> spec_fn(OpView) -> Seq<u8> {
    |op: OpView| enc_op(op)
}

pub open spec fn enc_script(s: Seq<OpView>) -> Seq<u8> {
    enc_seq_of(s, op_e())
}

pub open spec fn enc_tx_input(i: TxInputV) -> Seq<u8> {
    enc_bytes(i.prev) + enc_u64(i.output_index) + enc_script(i.unlocking_script)
}

pub open spec fn tx_input_e() -> spec_fn(TxInputV) -> Seq<u8> {
    |i: TxInputV| enc_tx_input(i)
}

pub open spec fn enc_tx_output(o: TxOutputV) -> Seq<u8> {
    enc_u64(o.value) + enc_script(o.locking_script)
}

pub open spec fn tx_output_e() -> spec_fn(TxOutputV) -> Seq<u8> {
    |o: TxOutputV| enc_tx_output(o)
}

pub open spec fn enc_transaction(t: TransactionV) -> Seq<u8> {
    enc_u64(t.timestamp) + enc_u64(t.version) + enc_seq_of(t.inputs, tx_input_e())
        + enc_seq_of(t.outputs, tx_output_e())
}

pub open spec fn dec_op(b: Seq<u8>, pos: int) -> Option<(OpView, int)> {
    match dec_u8(b, pos) {
        None => None,
        Some((tag, p)) => if tag == 0 {
            match dec_bytes(b, p) {
                None => None,
                Some((payload, q)) => Some((OpView::Push(payload), q)),
            }
        } else if tag == 1 {
            Some((OpView::Dup, p))
        } else if tag == 2 {
            Some((OpView::Sha256, p))
        } else if tag == 3 {
            Some((OpView::CheckSig, p))
        } else if tag == 4 {
            Some((OpView::EqualVerify, p))
        } else {
            None
        },
    }
}

pub open spec fn op_d() -> spec_fn(Seq<u8>, int) -> Option<(OpView, int)> {
    |b: Seq<u8>, pos: int| dec_op(b, pos)
}

pub open spec fn dec_script(b: Seq<u8>, pos: int) -> Option<(Seq<OpView>, int)> {
    dec_seq_of(b, pos, op_d())
}

pub open spec fn dec_tx_input(b: Seq<u8>, pos: int) -> Option<(TxInputV, int)> {
    match dec_bytes(b, pos) {
        None => None,
        Some((prev, p1)) => match dec_u64(b, p1) {
            None => None,
            Some((idx, p2)) => match dec_script(b, p2) {
                None => None,
                Some((script, p3)) => Some(
                    (TxInputV { prev, output_index: idx, unlocking_script: script }, p3),
                ),
            },
        },
    }
}

pub open spec fn tx_input_d() -> spec_fn(Seq<u8>, int) -> Option<(TxInputV, int)> {
    |b: Seq<u8>, pos: int| dec_tx_input(b, pos)
}

pub open spec fn dec_tx_output(b: Seq<u8>, pos: int) -> Option<(TxOutputV, int)> {
    match dec_u64(b, pos) {
        None => None,
        Some((value, p1)) => match dec_script(b, p1) {
            None => None,
            Some((script, p2)) => Some((TxOutputV { value, locking_script: script }, p2)),
        },
    }
}

pub open spec fn tx_output_d() -> spec_fn(Seq<u8>, int) -> Option<(TxOutputV, int)> {
    |b: Seq<u8>, pos: int| dec_tx_output(b, pos)
}

pub open spec fn dec_transaction(b: Seq<u8>, pos: int) -> Option<(TransactionV, int)> {
    match dec_u64(b, pos) {
        None => None,
        Some((timestamp, p1)) => match dec_u64(b, p1) {
            None => None,
            Some((version, p2)) => match dec_seq_of(b, p2, tx_input_d()) {
                None => None,
                Some((inputs, p3)) => match dec_seq_of(b, p3, tx_output_d()) {
                    None => None,
                    Some((outputs, p4)) => Some(
                        (TransactionV { timestamp, version, inputs, outputs }, p4),
                    ),
                },
            },
        },
    }
}

pub proof fn lemma_dec_enc_op(b: Seq<u8>, pos: int, op: OpView)
    requires
        bytes_at(b, pos, enc_op(op)),
        wf_op(op),
    ensures
        dec_op(b, pos) == Some((op, pos + enc_op(op).len())),
{
    lemma_auto_spec_u64_to_from_le_bytes();
    match op {
        OpView::Push(payload) => {
            lemma_bytes_at_split(b, pos, enc_u8(0), enc_bytes(payload));
            lemma_dec_enc_u8(b, pos, 0);
            lemma_dec_enc_bytes(b, pos + 1, payload);
        }
        OpView::Dup => { lemma_dec_enc_u8(b, pos, 1); }
        OpView::Sha256 => { lemma_dec_enc_u8(b, pos, 2); }
        OpView::CheckSig => { lemma_dec_enc_u8(b, pos, 3); }
        OpView::EqualVerify => { lemma_dec_enc_u8(b, pos, 4); }
    }
}

pub proof fn lemma_dec_enc_script(b: Seq<u8>, pos: int, s: Seq<OpView>)
    requires
        bytes_at(b, pos, enc_script(s)),
        wf_script(s),
    ensures
        dec_script(b, pos) == Some((s, pos + enc_script(s).len())),
{
    assert(inverts_on(b, s, op_e(), op_d())) by {
        assert forall|i: int, p: int|
            0 <= i < s.len() && #[trigger] bytes_at(b, p, op_e()(s[i]))
            implies op_d()(b, p) == Some((s[i], p + op_e()(s[i]).len())) by {
            lemma_dec_enc_op(b, p, s[i]);
        }
    }
    lemma_dec_enc_seq_of(b, pos, s, op_e(), op_d());
}

pub proof fn lemma_dec_enc_tx_input(b: Seq<u8>, pos: int, i: TxInputV)
    requires
        bytes_at(b, pos, enc_tx_input(i)),
        wf_tx_input(i),
    ensures
        dec_tx_input(b, pos) == Some((i, pos + enc_tx_input(i).len())),
{
    lemma_auto_spec_u64_to_from_le_bytes();
    assert(enc_tx_input(i) =~= enc_bytes(i.prev) + (enc_u64(i.output_index) + enc_script(i.unlocking_script)));
    lemma_bytes_at_split(b, pos, enc_bytes(i.prev), enc_u64(i.output_index) + enc_script(i.unlocking_script));
    let p1 = pos + enc_bytes(i.prev).len() as int;
    lemma_bytes_at_split(b, p1, enc_u64(i.output_index), enc_script(i.unlocking_script));
    lemma_dec_enc_bytes(b, pos, i.prev);
    lemma_dec_enc_u64(b, p1, i.output_index);
    lemma_dec_enc_script(b, p1 + 8, i.unlocking_script);
}

pub proof fn lemma_dec_enc_tx_output(b: Seq<u8>, pos: int, o: TxOutputV)
    requires
        bytes_at(b, pos, enc_tx_output(o)),
        wf_tx_output(o),
    ensures
        dec_tx_output(b, pos) == Some((o, pos + enc_tx_output(o).len())),
{
    lemma_auto_spec_u64_to_from_le_bytes();
    lemma_bytes_at_split(b, pos, enc_u64(o.value), enc_script(o.locking_script));
    lemma_dec_enc_u64(b, pos, o.value);
    lemma_dec_enc_script(b, pos + 8, o.locking_script);
}

pub proof fn lemma_dec_enc_transaction(b: Seq<u8>, pos: int, t: TransactionV)
    requires
        bytes_at(b, pos, enc_transaction(t)),
        wf_transaction(t),
    ensures
        dec_transaction(b, pos) == Some((t, pos + enc_transaction(t).len())),
{
    lemma_auto_spec_u64_to_from_le_bytes();
    let e_in = enc_seq_of(t.inputs, tx_input_e());
    let e_out = enc_seq_of(t.outputs, tx_output_e());
    assert(enc_transaction(t) =~= enc_u64(t.timestamp) + (enc_u64(t.version) + (e_in + e_out)));
    lemma_bytes_at_split(b, pos, enc_u64(t.timestamp), enc_u64(t.version) + (e_in + e_out));
    lemma_bytes_at_split(b, pos + 8, enc_u64(t.version), e_in + e_out);
    lemma_bytes_at_split(b, pos + 16, e_in, e_out);
    lemma_dec_enc_u64(b, pos, t.timestamp);
    lemma_dec_enc_u64(b, pos + 8, t.version);
    assert(inverts_on(b, t.inputs, tx_input_e(), tx_input_d())) by {
        assert forall|i: int, p: int|
            0 <= i < t.inputs.len() && #[trigger] bytes_at(b, p, tx_input_e()(t.inputs[i]))
            implies tx_input_d()(b, p) == Some((t.inputs[i], p + tx_input_e()(t.inputs[i]).len())) by {
            lemma_dec_enc_tx_input(b, p, t.inputs[i]);
        }
    }
    lemma_dec_enc_seq_of(b, pos + 16, t.inputs, tx_input_e(), tx_input_d());
    assert(inverts_on(b, t.outputs, tx_output_e(), tx_output_d())) by {
        assert forall|i: int, p: int|
            0 <= i < t.outputs.len() && #[trigger] bytes_at(b, p, tx_output_e()(t.outputs[i]))
            implies tx_output_d()(b, p) == Some((t.outputs[i], p + tx_output_e()(t.outputs[i]).len())) by {
            lemma_dec_enc_tx_output(b, p, t.outputs[i]);
        }
    }
    lemma_dec_enc_seq_of(b, pos + 16 + e_in.len(), t.outputs, tx_output_e(), tx_output_d());
}

// Executable forms.

pub fn write_op(out: &mut Vec<u8>, op: &OpCode)
    ensures
        final(out)@ == old(out)@ + enc_op(op@),
{
    match op {
        OpCode::PushBytes(b) => {
            write_u8(out, 0);
            write_bytes(out, b);
            assert(final(out)@ =~= old(out)@ + enc_op(op@));
        }
        OpCode::Dup => { write_u8(out, 1); }
        OpCode::Sha256 => { write_u8(out, 2); }
        OpCode::CheckSig => { write_u8(out, 3); }
        OpCode::EqualVerify => { write_u8(out, 4); }
    }
}

pub fn write_script(out: &mut Vec<u8>, s: &Script)
    ensures
        final(out)@ == old(out)@ + enc_script(s@),
{
    write_u64(out, s.0.len() as u64);
    let ghost base = out@;
    let mut i: usize = 0;
    while i < s.0.len()
        invariant
            i <= s.0.len(),
            s@.len() == s.0@.len(),
            forall|j: int| 0 <= j < s.0@.len() ==> s@[j] == s.0@[j]@,
            out@ == base + enc_items(s@.take(i as int), op_e()),
        decreases s.0.len() - i,
    {
        proof {
            lemma_enc_items_snoc(s@, i as int, op_e());
        }
        write_op(out, &s.0[i]);
        proof {
            assert(out@ =~= base + enc_items(s@.take(i + 1), op_e()));
        }
        i = i + 1;
    }
    proof {
        assert(s@.take(s@.len() as int) =~= s@);
        assert(final(out)@ =~= old(out)@ + enc_script(s@));
    }
}

pub fn write_tx_input(out: &mut Vec<u8>, i: &TxInput)
    ensures
        final(out)@ == old(out)@ + enc_tx_input(i@),
{
    write_bytes(out, &i.prev);
    write_u64(out, i.output_index);
    write_script(out, &i.unlocking_script);
    assert(final(out)@ =~= old(out)@ + enc_tx_input(i@));
}

pub fn write_tx_output(out: &mut Vec<u8>, o: &TxOutput)
    ensures
        final(out)@ == old(out)@ + enc_tx_output(o@),
{
    write_u64(out, o.value);
    write_script(out, &o.locking_script);
    assert(final(out)@ =~= old(out)@ + enc_tx_output(o@));
}

pub fn write_transaction(out: &mut Vec<u8>, t: &Transaction)
    ensures
        final(out)@ == old(out)@ + enc_transaction(t@),
{
    write_u64(out, t.timestamp);
    write_u64(out, t.version);

    write_u64(out, t.inputs.len() as u64);
    let ghost base_in = out@;
    let mut i: usize = 0;
    while i < t.inputs.len()
        invariant
            i <= t.inputs.len(),
            t@.inputs.len() == t.inputs@.len(),
            forall|j: int| 0 <= j < t.inputs@.len() ==> t@.inputs[j] == t.inputs@[j]@,
            out@ == base_in + enc_items(t@.inputs.take(i as int), tx_input_e()),
        decreases t.inputs.len() - i,
    {
        proof {
            lemma_enc_items_snoc(t@.inputs, i as int, tx_input_e());
        }
        write_tx_input(out, &t.inputs[i]);
        proof {
            assert(out@ =~= base_in + enc_items(t@.inputs.take(i + 1), tx_input_e()));
        }
        i = i + 1;
    }
    proof {
        assert(t@.inputs.take(t@.inputs.len() as int) =~= t@.inputs);
    }

    write_u64(out, t.outputs.len() as u64);
    let ghost base_out = out@;
    let mut k: usize = 0;
    while k < t.outputs.len()
        invariant
            k <= t.outputs.len(),
            t@.outputs.len() == t.outputs@.len(),
            forall|j: int| 0 <= j < t.outputs@.len() ==> t@.outputs[j] == t.outputs@[j]@,
            out@ == base_out + enc_items(t@.outputs.take(k as int), tx_output_e()),
        decreases t.outputs.len() - k,
    {
        proof {
            lemma_enc_items_snoc(t@.outputs, k as int, tx_output_e());
        }
        write_tx_output(out, &t.outputs[k]);
        proof {
            assert(out@ =~= base_out + enc_items(t@.outputs.take(k + 1), tx_output_e()));
        }
        k = k + 1;
    }
    proof {
        assert(t@.outputs.take(t@.outputs.len() as int) =~= t@.outputs);
        assert(final(out)@ =~= old(out)@ + enc_transaction(t@));
    }
}

pub fn read_op(b: &[u8], pos: usize) -> (r: Option<(OpCode, usize)>)
    ensures
        match r {
            Some((v, p)) => dec_op(b@, pos as int) == Some((v@, p as int)) && p <= b@.len(),
            None => dec_op(b@, pos as int) is None,
        },
{
    match read_u8(b, pos) {
        None => None,
        Some((tag, p)) => {
            if tag == 0 {
                match read_bytes(b, p) {
                    None => None,
                    Some((payload, q)) => Some((OpCode::PushBytes(payload), q)),
                }
            } else if tag == 1 {
                Some((OpCode::Dup, p))
            } else if tag == 2 {
                Some((OpCode::Sha256, p))
            } else if tag == 3 {
                Some((OpCode::CheckSig, p))
            } else if tag == 4 {
                Some((OpCode::EqualVerify, p))
            } else {
                None
            }
        }
    }
}

pub fn read_script(b: &[u8], pos: usize) -> (r: Option<(Script, usize)>)
    ensures
        match r {
            Some((v, p)) => dec_script(b@, pos as int) == Some((v@, p as int)) && p <= b@.len(),
            None => dec_script(b@, pos as int) is None,
        },
{
    match read_u64(b, pos) {
        None => {
            assert(dec_script(b@, pos as int) is None);
            None
        }
        Some((n, p0)) => {
            let mut ops: Vec<OpCode> = Vec::new();
            let mut pos_cur: usize = p0;
            let mut i: u64 = 0;
            loop
                invariant
                    i <= n,
                    pos_cur <= b@.len(),
                    ops@.len() == i,
                    dec_seq_of(b@, pos as int, op_d()) == match dec_items(
                        b@, pos_cur as int, (n - i) as nat, op_d(),
                    ) {
                        None => None::<(Seq<OpView>, int)>,
                        Some((vs, q)) => Some((ops@.map_values(|op: OpCode| op@) + vs, q)),
                    },
                decreases n - i,
            {
                if i == n {
                    proof {
                        assert(dec_items(b@, pos_cur as int, 0nat, op_d())
                            == Some((Seq::<OpView>::empty(), pos_cur as int)));
                        assert(ops@.map_values(|op: OpCode| op@) + Seq::<OpView>::empty()
                            =~= ops@.map_values(|op: OpCode| op@));
                    }
                    let r = Script(ops);
                    return Some((r, pos_cur));
                }
                proof {
                    lemma_dec_items_unfold(b@, pos_cur as int, (n - i) as nat, op_d());
                }
                match read_op(b, pos_cur) {
                    None => {
                        return None;
                    }
                    Some((op, p2)) => {
                        proof {
                            let ghost old_ops = ops@;
                            assert(old_ops.push(op).map_values(|o: OpCode| o@)
                                =~= old_ops.map_values(|o: OpCode| o@) + seq![op@]);
                        }
                        let ghost old_view = ops@.map_values(|o: OpCode| o@);
                        ops.push(op);
                        proof {
                            assert(ops@.map_values(|o: OpCode| o@) =~= old_view + seq![op@]);
                            assert forall|vs: Seq<OpView>|
                                true implies (old_view + (seq![op@] + vs))
                                    =~= ((old_view + seq![op@]) + vs) by {}
                        }
                        pos_cur = p2;
                        i = i + 1;
                    }
                }
            }
        }
    }
}

pub fn read_tx_input(b: &[u8], pos: usize) -> (r: Option<(TxInput, usize)>)
    ensures
        match r {
            Some((v, p)) => dec_tx_input(b@, pos as int) == Some((v@, p as int)) && p <= b@.len(),
            None => dec_tx_input(b@, pos as int) is None,
        },
{
    match read_bytes(b, pos) {
        None => None,
        Some((prev, p1)) => match read_u64(b, p1) {
            None => None,
            Some((idx, p2)) => match read_script(b, p2) {
                None => None,
                Some((script, p3)) => Some(
                    (TxInput { prev, output_index: idx, unlocking_script: script }, p3),
                ),
            },
        },
    }
}

pub fn read_tx_output(b: &[u8], pos: usize) -> (r: Option<(TxOutput, usize)>)
    ensures
        match r {
            Some((v, p)) => dec_tx_output(b@, pos as int) == Some((v@, p as int)) && p <= b@.len(),
            None => dec_tx_output(b@, pos as int) is None,
        },
{
    match read_u64(b, pos) {
        None => None,
        Some((value, p1)) => match read_script(b, p1) {
            None => None,
            Some((script, p2)) => Some((TxOutput { value, locking_script: script }, p2)),
        },
    }
}

pub fn read_transaction(b: &[u8], pos: usize) -> (r: Option<(Transaction, usize)>)
    ensures
        match r {
            Some((v, p)) => dec_transaction(b@, pos as int) == Some((v@, p as int)) && p <= b@.len(),
            None => dec_transaction(b@, pos as int) is None,
        },
{
    let Some((timestamp, p1)) = read_u64(b, pos) else { return None; };
    let Some((version, p2)) = read_u64(b, p1) else { return None; };
    let Some((inputs, p3)) = read_tx_inputs(b, p2) else { return None; };
    let Some((outputs, p4)) = read_tx_outputs(b, p3) else { return None; };
    Some((Transaction { timestamp, version, inputs, outputs }, p4))
}

pub fn read_tx_inputs(b: &[u8], pos: usize) -> (r: Option<(Vec<TxInput>, usize)>)
    ensures
        match r {
            Some((v, p)) => dec_seq_of(b@, pos as int, tx_input_d())
                == Some((v@.map_values(|x: TxInput| x@), p as int)) && p <= b@.len(),
            None => dec_seq_of(b@, pos as int, tx_input_d()) is None,
        },
{
    match read_u64(b, pos) {
        None => None,
        Some((n, p0)) => {
            let mut items: Vec<TxInput> = Vec::new();
            let mut pos_cur: usize = p0;
            let mut i: u64 = 0;
            loop
                invariant
                    i <= n,
                    pos_cur <= b@.len(),
                    items@.len() == i,
                    dec_seq_of(b@, pos as int, tx_input_d()) == match dec_items(
                        b@, pos_cur as int, (n - i) as nat, tx_input_d(),
                    ) {
                        None => None::<(Seq<TxInputV>, int)>,
                        Some((vs, q)) => Some((items@.map_values(|x: TxInput| x@) + vs, q)),
                    },
                decreases n - i,
            {
                if i == n {
                    proof {
                        assert(items@.map_values(|x: TxInput| x@) + Seq::<TxInputV>::empty()
                            =~= items@.map_values(|x: TxInput| x@));
                    }
                    return Some((items, pos_cur));
                }
                proof {
                    lemma_dec_items_unfold(b@, pos_cur as int, (n - i) as nat, tx_input_d());
                }
                match read_tx_input(b, pos_cur) {
                    None => {
                        return None;
                    }
                    Some((item, p2)) => {
                        let ghost old_view = items@.map_values(|x: TxInput| x@);
                        items.push(item);
                        proof {
                            assert(items@.map_values(|x: TxInput| x@) =~= old_view + seq![item@]);
                            assert forall|vs: Seq<TxInputV>|
                                true implies (old_view + (seq![item@] + vs))
                                    =~= ((old_view + seq![item@]) + vs) by {}
                        }
                        pos_cur = p2;
                        i = i + 1;
                    }
                }
            }
        }
    }
}

pub fn read_tx_outputs(b: &[u8], pos: usize) -> (r: Option<(Vec<TxOutput>, usize)>)
    ensures
        match r {
            Some((v, p)) => dec_seq_of(b@, pos as int, tx_output_d())
                == Some((v@.map_values(|x: TxOutput| x@), p as int)) && p <= b@.len(),
            None => dec_seq_of(b@, pos as int, tx_output_d()) is None,
        },
{
    match read_u64(b, pos) {
        None => None,
        Some((n, p0)) => {
            let mut items: Vec<TxOutput> = Vec::new();
            let mut pos_cur: usize = p0;
            let mut i: u64 = 0;
            loop
                invariant
                    i <= n,
                    pos_cur <= b@.len(),
                    items@.len() == i,
                    dec_seq_of(b@, pos as int, tx_output_d()) == match dec_items(
                        b@, pos_cur as int, (n - i) as nat, tx_output_d(),
                    ) {
                        None => None::<(Seq<TxOutputV>, int)>,
                        Some((vs, q)) => Some((items@.map_values(|x: TxOutput| x@) + vs, q)),
                    },
                decreases n - i,
            {
                if i == n {
                    proof {
                        assert(items@.map_values(|x: TxOutput| x@) + Seq::<TxOutputV>::empty()
                            =~= items@.map_values(|x: TxOutput| x@));
                    }
                    return Some((items, pos_cur));
                }
                proof {
                    lemma_dec_items_unfold(b@, pos_cur as int, (n - i) as nat, tx_output_d());
                }
                match read_tx_output(b, pos_cur) {
                    None => {
                        return None;
                    }
                    Some((item, p2)) => {
                        let ghost old_view = items@.map_values(|x: TxOutput| x@);
                        items.push(item);
                        proof {
                            assert(items@.map_values(|x: TxOutput| x@) =~= old_view + seq![item@]);
                            assert forall|vs: Seq<TxOutputV>|
                                true implies (old_view + (seq![item@] + vs))
                                    =~= ((old_view + seq![item@]) + vs) by {}
                        }
                        pos_cur = p2;
                        i = i + 1;
                    }
                }
            }
        }
    }
}

// ---------------------------------------------------------------------------
// Blocks.
// ---------------------------------------------------------------------------

pub open spec fn wf_block_header(h: BlockHeaderV) -> bool {
    &&& wf_bytes(h.prev_hash)
    &&& wf_bytes(h.merkle_root)
    &&& wf_bytes(h.nonce)
}

pub open spec fn wf_block(b: BlockV) -> bool {
    &&& wf_block_header(b.header)
    &&& b.transactions.len() < u64_bound()
    &&& forall|i: int| 0 <= i < b.transactions.len() ==> wf_transaction(#[trigger] b.transactions[i])
}

pub open spec fn enc_block_header(h: BlockHeaderV) -> Seq<u8> {
    enc_bytes(h.prev_hash) + enc_bytes(h.merkle_root) + enc_u64(h.timestamp)
        + enc_u64(h.difficulty) + enc_bytes(h.nonce) + enc_u64(h.version) + enc_u64(h.height)
}

pub open spec fn transaction_e() -> spec_fn(TransactionV) -> Seq<u8> {
    |t: TransactionV| enc_transaction(t)
}

pub open spec fn enc_block(b: BlockV) -> Seq<u8> {
    enc_block_header(b.header) + enc_seq_of(b.transactions, transaction_e())
}

pub open spec fn dec_block_header(b: Seq<u8>, pos: int) -> Option<(BlockHeaderV, int)> {
    match dec_bytes(b, pos) {
        None => None,
        Some((prev_hash, p1)) => match dec_bytes(b, p1) {
            None => None,
            Some((merkle_root, p2)) => match dec_u64(b, p2) {
                None => None,
                Some((timestamp, p3)) => match dec_u64(b, p3) {
                    None => None,
                    Some((difficulty, p4)) => match dec_bytes(b, p4) {
                        None => None,
                        Some((nonce, p5)) => match dec_u64(b, p5) {
                            None => None,
                            Some((version, p6)) => match dec_u64(b, p6) {
                                None => None,
                                Some((height, p7)) => Some((
                                    BlockHeaderV {
                                        prev_hash, merkle_root, timestamp, difficulty,
                                        nonce, version, height,
                                    },
                                    p7,
                                )),
                            },
                        },
                    },
                },
            },
        },
    }
}

pub open spec fn transaction_d() -> spec_fn(Seq<u8>, int) -> Option<(TransactionV, int)> {
    |b: Seq<u8>, pos: int| dec_transaction(b, pos)
}

pub open spec fn dec_block(b: Seq<u8>, pos: int) -> Option<(BlockV, int)> {
    match dec_block_header(b, pos) {
        None => None,
        Some((header, p1)) => match dec_seq_of(b, p1, transaction_d()) {
            None => None,
            Some((transactions, p2)) => Some((BlockV { header, transactions }, p2)),
        },
    }
}

pub proof fn lemma_dec_enc_block_header(b: Seq<u8>, pos: int, h: BlockHeaderV)
    requires
        bytes_at(b, pos, enc_block_header(h)),
        wf_block_header(h),
    ensures
        dec_block_header(b, pos) == Some((h, pos + enc_block_header(h).len())),
{
    lemma_auto_spec_u64_to_from_le_bytes();
    let e1 = enc_bytes(h.prev_hash);
    let e2 = enc_bytes(h.merkle_root);
    let e5 = enc_bytes(h.nonce);
    let tail2 = enc_u64(h.timestamp) + (enc_u64(h.difficulty) + (e5 + (enc_u64(h.version)
        + enc_u64(h.height))));
    assert(enc_block_header(h) =~= e1 + (e2 + tail2));
    lemma_bytes_at_split(b, pos, e1, e2 + tail2);
    let p1 = pos + e1.len() as int;
    lemma_bytes_at_split(b, p1, e2, tail2);
    let p2 = p1 + e2.len() as int;
    lemma_bytes_at_split(b, p2, enc_u64(h.timestamp), enc_u64(h.difficulty) + (e5 + (enc_u64(
        h.version) + enc_u64(h.height))));
    let p3 = p2 + 8;
    lemma_bytes_at_split(b, p3, enc_u64(h.difficulty), e5 + (enc_u64(h.version) + enc_u64(
        h.height)));
    let p4 = p3 + 8;
    lemma_bytes_at_split(b, p4, e5, enc_u64(h.version) + enc_u64(h.height));
    let p5 = p4 + e5.len() as int;
    lemma_bytes_at_split(b, p5, enc_u64(h.version), enc_u64(h.height));
    lemma_dec_enc_bytes(b, pos, h.prev_hash);
    lemma_dec_enc_bytes(b, p1, h.merkle_root);
    lemma_dec_enc_u64(b, p2, h.timestamp);
    lemma_dec_enc_u64(b, p3, h.difficulty);
    lemma_dec_enc_bytes(b, p4, h.nonce);
    lemma_dec_enc_u64(b, p5, h.version);
    lemma_dec_enc_u64(b, p5 + 8, h.height);
}

pub proof fn lemma_dec_enc_block(b: Seq<u8>, pos: int, blk: BlockV)
    requires
        bytes_at(b, pos, enc_block(blk)),
        wf_block(blk),
    ensures
        dec_block(b, pos) == Some((blk, pos + enc_block(blk).len())),
{
    let eh = enc_block_header(blk.header);
    let et = enc_seq_of(blk.transactions, transaction_e());
    lemma_bytes_at_split(b, pos, eh, et);
    lemma_dec_enc_block_header(b, pos, blk.header);
    assert(inverts_on(b, blk.transactions, transaction_e(), transaction_d())) by {
        assert forall|i: int, p: int|
            0 <= i < blk.transactions.len()
                && #[trigger] bytes_at(b, p, transaction_e()(blk.transactions[i]))
            implies transaction_d()(b, p) == Some(
                (blk.transactions[i], p + transaction_e()(blk.transactions[i]).len()),
            ) by {
            lemma_dec_enc_transaction(b, p, blk.transactions[i]);
        }
    }
    lemma_dec_enc_seq_of(b, pos + eh.len(), blk.transactions, transaction_e(), transaction_d());
}

pub fn write_block_header(out: &mut Vec<u8>, h: &BlockHeader)
    ensures
        final(out)@ == old(out)@ + enc_block_header(h@),
{
    write_bytes(out, &h.prev_hash);
    write_bytes(out, &h.merkle_root);
    write_u64(out, h.timestamp);
    write_u64(out, h.difficulty);
    write_bytes(out, &h.nonce);
    write_u64(out, h.version);
    write_u64(out, h.height);
    assert(final(out)@ =~= old(out)@ + enc_block_header(h@));
}

pub fn write_block(out: &mut Vec<u8>, blk: &Block)
    ensures
        final(out)@ == old(out)@ + enc_block(blk@),
{
    write_block_header(out, &blk.header);
    write_u64(out, blk.transactions.len() as u64);
    let ghost base = out@;
    let mut i: usize = 0;
    while i < blk.transactions.len()
        invariant
            i <= blk.transactions.len(),
            blk@.transactions.len() == blk.transactions@.len(),
            forall|j: int| 0 <= j < blk.transactions@.len()
                ==> blk@.transactions[j] == blk.transactions@[j]@,
            out@ == base + enc_items(blk@.transactions.take(i as int), transaction_e()),
        decreases blk.transactions.len() - i,
    {
        proof {
            lemma_enc_items_snoc(blk@.transactions, i as int, transaction_e());
        }
        write_transaction(out, &blk.transactions[i]);
        proof {
            assert(out@ =~= base + enc_items(blk@.transactions.take(i + 1), transaction_e()));
        }
        i = i + 1;
    }
    proof {
        assert(blk@.transactions.take(blk@.transactions.len() as int) =~= blk@.transactions);
        assert(final(out)@ =~= old(out)@ + enc_block(blk@));
    }
}

pub fn read_block_header(b: &[u8], pos: usize) -> (r: Option<(BlockHeader, usize)>)
    ensures
        match r {
            Some((v, p)) => dec_block_header(b@, pos as int) == Some((v@, p as int))
                && p <= b@.len(),
            None => dec_block_header(b@, pos as int) is None,
        },
{
    let Some((prev_hash, p1)) = read_bytes(b, pos) else { return None; };
    let Some((merkle_root, p2)) = read_bytes(b, p1) else { return None; };
    let Some((timestamp, p3)) = read_u64(b, p2) else { return None; };
    let Some((difficulty, p4)) = read_u64(b, p3) else { return None; };
    let Some((nonce, p5)) = read_bytes(b, p4) else { return None; };
    let Some((version, p6)) = read_u64(b, p5) else { return None; };
    let Some((height, p7)) = read_u64(b, p6) else { return None; };
    Some((BlockHeader { prev_hash, merkle_root, timestamp, difficulty, nonce, version, height }, p7))
}

pub fn read_transactions(b: &[u8], pos: usize) -> (r: Option<(Vec<Transaction>, usize)>)
    ensures
        match r {
            Some((v, p)) => dec_seq_of(b@, pos as int, transaction_d())
                == Some((v@.map_values(|x: Transaction| x@), p as int)) && p <= b@.len(),
            None => dec_seq_of(b@, pos as int, transaction_d()) is None,
        },
{
    match read_u64(b, pos) {
        None => None,
        Some((n, p0)) => {
            let mut items: Vec<Transaction> = Vec::new();
            let mut pos_cur: usize = p0;
            let mut i: u64 = 0;
            loop
                invariant
                    i <= n,
                    pos_cur <= b@.len(),
                    items@.len() == i,
                    dec_seq_of(b@, pos as int, transaction_d()) == match dec_items(
                        b@, pos_cur as int, (n - i) as nat, transaction_d(),
                    ) {
                        None => None::<(Seq<TransactionV>, int)>,
                        Some((vs, q)) => Some((items@.map_values(|x: Transaction| x@) + vs, q)),
                    },
                decreases n - i,
            {
                if i == n {
                    proof {
                        assert(items@.map_values(|x: Transaction| x@) + Seq::<TransactionV>::empty()
                            =~= items@.map_values(|x: Transaction| x@));
                    }
                    return Some((items, pos_cur));
                }
                proof {
                    lemma_dec_items_unfold(b@, pos_cur as int, (n - i) as nat, transaction_d());
                }
                match read_transaction(b, pos_cur) {
                    None => {
                        return None;
                    }
                    Some((item, p2)) => {
                        let ghost old_view = items@.map_values(|x: Transaction| x@);
                        items.push(item);
                        proof {
                            assert(items@.map_values(|x: Transaction| x@) =~= old_view + seq![item@]);
                            assert forall|vs: Seq<TransactionV>|
                                true implies (old_view + (seq![item@] + vs))
                                    =~= ((old_view + seq![item@]) + vs) by {}
                        }
                        pos_cur = p2;
                        i = i + 1;
                    }
                }
            }
        }
    }
}

pub fn read_block(b: &[u8], pos: usize) -> (r: Option<(Block, usize)>)
    ensures
        match r {
            Some((v, p)) => dec_block(b@, pos as int) == Some((v@, p as int)) && p <= b@.len(),
            None => dec_block(b@, pos as int) is None,
        },
{
    let Some((header, p1)) = read_block_header(b, pos) else { return None; };
    let Some((transactions, p2)) = read_transactions(b, p1) else { return None; };
    Some((Block { header, transactions }, p2))
}

// ---------------------------------------------------------------------------
// Wire messages.
// ---------------------------------------------------------------------------

pub open spec fn enc_net_address(a: NetAddress) -> Seq<u8> {
    seq![a.ip0, a.ip1, a.ip2, a.ip3] + enc_u64(a.port as u64)
}

pub open spec fn net_address_e() -> spec_fn(NetAddress) -> Seq<u8> {
    |a: NetAddress| enc_net_address(a)
}

pub open spec fn dec_net_address(b: Seq<u8>, pos: int) -> Option<(NetAddress, int)> {
    if 0 <= pos && pos + 4 <= b.len() {
        match dec_u64(b, pos + 4) {
            None => None,
            Some((port, p)) => if port <= 0xFFFF {
                Some((
                    NetAddress {
                        ip0: b[pos], ip1: b[pos + 1], ip2: b[pos + 2], ip3: b[pos + 3],
                        port: port as u16,
                    },
                    p,
                ))
            } else {
                None
            },
        }
    } else {
        None
    }
}

pub open spec fn net_address_d() -> spec_fn(Seq<u8>, int) -> Option<(NetAddress, int)> {
    |b: Seq<u8>, pos: int| dec_net_address(b, pos)
}

pub open spec fn enc_verack(v: VerackV) -> Seq<u8> {
    enc_u64(v.index) + enc_opt_u64(v.height)
}

pub open spec fn dec_verack(b: Seq<u8>, pos: int) -> Option<(VerackV, int)> {
    match dec_u64(b, pos) {
        None => None,
        Some((index, p1)) => match dec_opt_u64(b, p1) {
            None => None,
            Some((height, p2)) => Some((VerackV { index, height }, p2)),
        },
    }
}

pub open spec fn enc_tx_with_fee(e: TxWithFeeV) -> Seq<u8> {
    enc_transaction(e.transaction) + enc_u128(e.fee)
}

pub open spec fn tx_with_fee_e() -> spec_fn(TxWithFeeV) -> Seq<u8> {
    |e: TxWithFeeV| enc_tx_with_fee(e)
}

pub open spec fn dec_tx_with_fee(b: Seq<u8>, pos: int) -> Option<(TxWithFeeV, int)> {
    match dec_transaction(b, pos) {
        None => None,
        Some((transaction, p1)) => match dec_u128(b, p1) {
            None => None,
            Some((fee, p2)) => Some((TxWithFeeV { transaction, fee }, p2)),
        },
    }
}

pub open spec fn tx_with_fee_d() -> spec_fn(Seq<u8>, int) -> Option<(TxWithFeeV, int)> {
    |b: Seq<u8>, pos: int| dec_tx_with_fee(b, pos)
}

pub open spec fn enc_net_message(m: NetMessageV) -> Seq<u8> {
    match m {
        NetMessageV::GetBlock(h) => enc_u8(0) + enc_u64(h),
        NetMessageV::NewBlock(b) => enc_u8(1) + enc_block(b),
        NetMessageV::Verack(v) => enc_u8(2) + enc_verack(v),
        NetMessageV::Transaction(t) => enc_u8(3) + enc_transaction(t),
        NetMessageV::GetInv => enc_u8(4),
        NetMessageV::Inv(entries) => enc_u8(5) + enc_seq_of(entries, tx_with_fee_e()),
        NetMessageV::GetPeers => enc_u8(6),
        NetMessageV::Peers(peers) => enc_u8(7) + enc_seq_of(peers, net_address_e()),
        NetMessageV::Ping => enc_u8(8),
        NetMessageV::Pong => enc_u8(9),
    }
}

pub open spec fn dec_net_message(b: Seq<u8>, pos: int) -> Option<(NetMessageV, int)> {
    match dec_u8(b, pos) {
        None => None,
        Some((tag, p)) => if tag == 0 {
            match dec_u64(b, p) {
                None => None,
                Some((h, q)) => Some((NetMessageV::GetBlock(h), q)),
            }
        } else if tag == 1 {
            match dec_block(b, p) {
                None => None,
                Some((blk, q)) => Some((NetMessageV::NewBlock(blk), q)),
            }
        } else if tag == 2 {
            match dec_verack(b, p) {
                None => None,
                Some((v, q)) => Some((NetMessageV::Verack(v), q)),
            }
        } else if tag == 3 {
            match dec_transaction(b, p) {
                None => None,
                Some((t, q)) => Some((NetMessageV::Transaction(t), q)),
            }
        } else if tag == 4 {
            Some((NetMessageV::GetInv, p))
        } else if tag == 5 {
            match dec_seq_of(b, p, tx_with_fee_d()) {
                None => None,
                Some((entries, q)) => Some((NetMessageV::Inv(entries), q)),
            }
        } else if tag == 6 {
            Some((NetMessageV::GetPeers, p))
        } else if tag == 7 {
            match dec_seq_of(b, p, net_address_d()) {
                None => None,
                Some((peers, q)) => Some((NetMessageV::Peers(peers), q)),
            }
        } else if tag == 8 {
            Some((NetMessageV::Ping, p))
        } else if tag == 9 {
            Some((NetMessageV::Pong, p))
        } else {
            None
        },
    }
}

pub open spec fn wf_tx_with_fee(e: TxWithFeeV) -> bool {
    wf_transaction(e.transaction)
}

pub open spec fn wf_net_message(m: NetMessageV) -> bool {
    match m {
        NetMessageV::NewBlock(b) => wf_block(b),
        NetMessageV::Transaction(t) => wf_transaction(t),
        NetMessageV::Inv(entries) => entries.len() < u64_bound() && forall|i: int|
            0 <= i < entries.len() ==> wf_tx_with_fee(#[trigger] entries[i]),
        NetMessageV::Peers(peers) => peers.len() < u64_bound(),
        _ => true,
    }
}

pub proof fn lemma_dec_enc_net_address(b: Seq<u8>, pos: int, a: NetAddress)
    requires
        bytes_at(b, pos, enc_net_address(a)),
    ensures
        dec_net_address(b, pos) == Some((a, pos + enc_net_address(a).len())),
{
    lemma_auto_spec_u64_to_from_le_bytes();
    lemma_bytes_at_split(b, pos, seq![a.ip0, a.ip1, a.ip2, a.ip3], enc_u64(a.port as u64));
    lemma_dec_enc_u64(b, pos + 4, a.port as u64);
    let quad = b.subrange(pos, pos + 4);
    assert(quad == seq![a.ip0, a.ip1, a.ip2, a.ip3]);
    assert(b[pos] == quad[0]);
    assert(b[pos + 1] == quad[1]);
    assert(b[pos + 2] == quad[2]);
    assert(b[pos + 3] == quad[3]);
}

pub proof fn lemma_dec_enc_verack(b: Seq<u8>, pos: int, v: VerackV)
    requires
        bytes_at(b, pos, enc_verack(v)),
    ensures
        dec_verack(b, pos) == Some((v, pos + enc_verack(v).len())),
{
    lemma_auto_spec_u64_to_from_le_bytes();
    lemma_bytes_at_split(b, pos, enc_u64(v.index), enc_opt_u64(v.height));
    lemma_dec_enc_u64(b, pos, v.index);
    lemma_dec_enc_opt_u64(b, pos + 8, v.height);
}

pub proof fn lemma_dec_enc_tx_with_fee(b: Seq<u8>, pos: int, e: TxWithFeeV)
    requires
        bytes_at(b, pos, enc_tx_with_fee(e)),
        wf_tx_with_fee(e),
    ensures
        dec_tx_with_fee(b, pos) == Some((e, pos + enc_tx_with_fee(e).len())),
{
    lemma_auto_spec_u64_to_from_le_bytes();
    vstd::bytes::lemma_auto_spec_u128_to_from_le_bytes();
    lemma_bytes_at_split(b, pos, enc_transaction(e.transaction), enc_u128(e.fee));
    lemma_dec_enc_transaction(b, pos, e.transaction);
    lemma_dec_enc_u128(b, pos + enc_transaction(e.transaction).len(), e.fee);
}

#[verifier::rlimit(60)]
pub proof fn lemma_dec_enc_net_message(b: Seq<u8>, pos: int, m: NetMessageV)
    requires
        bytes_at(b, pos, enc_net_message(m)),
        wf_net_message(m),
    ensures
        dec_net_message(b, pos) == Some((m, pos + enc_net_message(m).len())),
{
    lemma_auto_spec_u64_to_from_le_bytes();
    match m {
        NetMessageV::GetBlock(h) => {
            lemma_bytes_at_split(b, pos, enc_u8(0), enc_u64(h));
            lemma_dec_enc_u8(b, pos, 0);
            lemma_dec_enc_u64(b, pos + 1, h);
        }
        NetMessageV::NewBlock(blk) => {
            lemma_bytes_at_split(b, pos, enc_u8(1), enc_block(blk));
            lemma_dec_enc_u8(b, pos, 1);
            lemma_dec_enc_block(b, pos + 1, blk);
        }
        NetMessageV::Verack(v) => {
            lemma_bytes_at_split(b, pos, enc_u8(2), enc_verack(v));
            lemma_dec_enc_u8(b, pos, 2);
            lemma_dec_enc_verack(b, pos + 1, v);
        }
        NetMessageV::Transaction(t) => {
            lemma_bytes_at_split(b, pos, enc_u8(3), enc_transaction(t));
            lemma_dec_enc_u8(b, pos, 3);
            lemma_dec_enc_transaction(b, pos + 1, t);
        }
        NetMessageV::GetInv => {
            lemma_dec_enc_u8(b, pos, 4);
        }
        NetMessageV::Inv(entries) => {
            lemma_bytes_at_split(b, pos, enc_u8(5), enc_seq_of(entries, tx_with_fee_e()));
            lemma_dec_enc_u8(b, pos, 5);
            assert(inverts_on(b, entries, tx_with_fee_e(), tx_with_fee_d())) by {
                assert forall|i: int, p: int|
                    0 <= i < entries.len()
                        && #[trigger] bytes_at(b, p, tx_with_fee_e()(entries[i]))
                    implies tx_with_fee_d()(b, p) == Some(
                        (entries[i], p + tx_with_fee_e()(entries[i]).len()),
                    ) by {
                    lemma_dec_enc_tx_with_fee(b, p, entries[i]);
                }
            }
            lemma_dec_enc_seq_of(b, pos + 1, entries, tx_with_fee_e(), tx_with_fee_d());
        }
        NetMessageV::GetPeers => {
            lemma_dec_enc_u8(b, pos, 6);
        }
        NetMessageV::Peers(peers) => {
            lemma_bytes_at_split(b, pos, enc_u8(7), enc_seq_of(peers, net_address_e()));
            lemma_dec_enc_u8(b, pos, 7);
            assert(inverts_on(b, peers, net_address_e(), net_address_d())) by {
                assert forall|i: int, p: int|
                    0 <= i < peers.len() && #[trigger] bytes_at(b, p, net_address_e()(peers[i]))
                    implies net_address_d()(b, p) == Some(
                        (peers[i], p + net_address_e()(peers[i]).len()),
                    ) by {
                    lemma_dec_enc_net_address(b, p, peers[i]);
                }
            }
            lemma_dec_enc_seq_of(b, pos + 1, peers, net_address_e(), net_address_d());
        }
        NetMessageV::Ping => {
            lemma_dec_enc_u8(b, pos, 8);
        }
        NetMessageV::Pong => {
            lemma_dec_enc_u8(b, pos, 9);
        }
    }
}

pub fn write_net_address(out: &mut Vec<u8>, a: &NetAddress)
    ensures
        final(out)@ == old(out)@ + enc_net_address(*a),
{
    out.push(a.ip0);
    out.push(a.ip1);
    out.push(a.ip2);
    out.push(a.ip3);
    write_u64(out, a.port as u64);
    assert(final(out)@ =~= old(out)@ + enc_net_address(*a));
}

pub fn read_net_address(b: &[u8], pos: usize) -> (r: Option<(NetAddress, usize)>)
    ensures
        match r {
            Some((v, p)) => dec_net_address(b@, pos as int) == Some((v, p as int))
                && p <= b@.len(),
            None => dec_net_address(b@, pos as int) is None,
        },
{
    let n = b.len();
    if pos <= n && n - pos >= 4 {
        match read_u64(b, pos + 4) {
            None => None,
            Some((port, p)) => {
                if port <= 0xFFFF {
                    Some((
                        NetAddress {
                            ip0: *vstd::slice::slice_index_get(b, pos),
                            ip1: *vstd::slice::slice_index_get(b, pos + 1),
                            ip2: *vstd::slice::slice_index_get(b, pos + 2),
                            ip3: *vstd::slice::slice_index_get(b, pos + 3),
                            port: port as u16,
                        },
                        p,
                    ))
                } else {
                    None
                }
            }
        }
    } else {
        None
    }
}

pub fn write_verack(out: &mut Vec<u8>, v: &Verack)
    ensures
        final(out)@ == old(out)@ + enc_verack(v@),
{
    write_u64(out, v.index);
    write_opt_u64(out, &v.height);
    assert(final(out)@ =~= old(out)@ + enc_verack(v@));
}

pub fn read_verack(b: &[u8], pos: usize) -> (r: Option<(Verack, usize)>)
    ensures
        match r {
            Some((v, p)) => dec_verack(b@, pos as int) == Some((v@, p as int)) && p <= b@.len(),
            None => dec_verack(b@, pos as int) is None,
        },
{
    let Some((index, p1)) = read_u64(b, pos) else { return None; };
    let Some((height, p2)) = read_opt_u64(b, p1) else { return None; };
    Some((Verack { index, height }, p2))
}

pub fn write_tx_with_fee(out: &mut Vec<u8>, e: &TransactionWithFee)
    ensures
        final(out)@ == old(out)@ + enc_tx_with_fee(e@),
{
    write_transaction(out, &e.transaction);
    write_u128(out, e.fee);
    assert(final(out)@ =~= old(out)@ + enc_tx_with_fee(e@));
}

pub fn read_tx_with_fee(b: &[u8], pos: usize) -> (r: Option<(TransactionWithFee, usize)>)
    ensures
        match r {
            Some((v, p)) => dec_tx_with_fee(b@, pos as int) == Some((v@, p as int))
                && p <= b@.len(),
            None => dec_tx_with_fee(b@, pos as int) is None,
        },
{
    let Some((transaction, p1)) = read_transaction(b, pos) else { return None; };
    let Some((fee, p2)) = read_u128(b, p1) else { return None; };
    Some((TransactionWithFee { transaction, fee }, p2))
}

pub fn write_mempool_entries(out: &mut Vec<u8>, entries: &Vec<TransactionWithFee>)
    ensures
        final(out)@ == old(out)@ + enc_seq_of(
            entries@.map_values(|e: TransactionWithFee| e@), tx_with_fee_e(),
        ),
{
    let ghost views = entries@.map_values(|e: TransactionWithFee| e@);
    write_u64(out, entries.len() as u64);
    let ghost base = out@;
    let mut i: usize = 0;
    while i < entries.len()
        invariant
            i <= entries.len(),
            views == entries@.map_values(|e: TransactionWithFee| e@),
            views.len() == entries@.len(),
            forall|j: int| 0 <= j < entries@.len() ==> views[j] == entries@[j]@,
            out@ == base + enc_items(views.take(i as int), tx_with_fee_e()),
        decreases entries.len() - i,
    {
        proof {
            lemma_enc_items_snoc(views, i as int, tx_with_fee_e());
        }
        write_tx_with_fee(out, &entries[i]);
        proof {
            assert(out@ =~= base + enc_items(views.take(i + 1), tx_with_fee_e()));
        }
        i = i + 1;
    }
    proof {
        assert(views.take(views.len() as int) =~= views);
        assert(final(out)@ =~= old(out)@ + enc_seq_of(views, tx_with_fee_e()));
    }
}

pub fn read_mempool_entries(b: &[u8], pos: usize) -> (r: Option<(Vec<TransactionWithFee>, usize)>)
    ensures
        match r {
            Some((v, p)) => dec_seq_of(b@, pos as int, tx_with_fee_d())
                == Some((v@.map_values(|x: TransactionWithFee| x@), p as int)) && p <= b@.len(),
            None => dec_seq_of(b@, pos as int, tx_with_fee_d()) is None,
        },
{
    match read_u64(b, pos) {
        None => None,
        Some((n, p0)) => {
            let mut items: Vec<TransactionWithFee> = Vec::new();
            let mut pos_cur: usize = p0;
            let mut i: u64 = 0;
            loop
                invariant
                    i <= n,
                    pos_cur <= b@.len(),
                    items@.len() == i,
                    dec_seq_of(b@, pos as int, tx_with_fee_d()) == match dec_items(
                        b@, pos_cur as int, (n - i) as nat, tx_with_fee_d(),
                    ) {
                        None => None::<(Seq<TxWithFeeV>, int)>,
                        Some((vs, q)) => Some(
                            (items@.map_values(|x: TransactionWithFee| x@) + vs, q),
                        ),
                    },
                decreases n - i,
            {
                if i == n {
                    proof {
                        assert(items@.map_values(|x: TransactionWithFee| x@)
                            + Seq::<TxWithFeeV>::empty()
                            =~= items@.map_values(|x: TransactionWithFee| x@));
                    }
                    return Some((items, pos_cur));
                }
                proof {
                    lemma_dec_items_unfold(b@, pos_cur as int, (n - i) as nat, tx_with_fee_d());
                }
                match read_tx_with_fee(b, pos_cur) {
                    None => {
                        return None;
                    }
                    Some((item, p2)) => {
                        let ghost old_view = items@.map_values(|x: TransactionWithFee| x@);
                        items.push(item);
                        proof {
                            assert(items@.map_values(|x: TransactionWithFee| x@)
                                =~= old_view + seq![item@]);
                            match dec_items(b@, p2 as int, (n - i - 1) as nat, tx_with_fee_d()) {
                                Some((vs, q)) => {
                                    assert(old_view + (seq![item@] + vs)
                                        =~= (old_view + seq![item@]) + vs);
                                }
                                None => {}
                            }
                        }
                        pos_cur = p2;
                        i = i + 1;
                    }
                }
            }
        }
    }
}

pub fn read_net_addresses(b: &[u8], pos: usize) -> (r: Option<(Vec<NetAddress>, usize)>)
    ensures
        match r {
            Some((v, p)) => dec_seq_of(b@, pos as int, net_address_d())
                == Some((v@, p as int)) && p <= b@.len(),
            None => dec_seq_of(b@, pos as int, net_address_d()) is None,
        },
{
    match read_u64(b, pos) {
        None => None,
        Some((n, p0)) => {
            let mut items: Vec<NetAddress> = Vec::new();
            let mut pos_cur: usize = p0;
            let mut i: u64 = 0;
            loop
                invariant
                    i <= n,
                    pos_cur <= b@.len(),
                    items@.len() == i,
                    dec_seq_of(b@, pos as int, net_address_d()) == match dec_items(
                        b@, pos_cur as int, (n - i) as nat, net_address_d(),
                    ) {
                        None => None::<(Seq<NetAddress>, int)>,
                        Some((vs, q)) => Some((items@ + vs, q)),
                    },
                decreases n - i,
            {
                if i == n {
                    proof {
                        assert(items@ + Seq::<NetAddress>::empty() =~= items@);
                    }
                    return Some((items, pos_cur));
                }
                proof {
                    lemma_dec_items_unfold(b@, pos_cur as int, (n - i) as nat, net_address_d());
                }
                match read_net_address(b, pos_cur) {
                    None => {
                        return None;
                    }
                    Some((item, p2)) => {
                        let ghost old_view = items@;
                        items.push(item);
                        proof {
                            assert(items@ =~= old_view + seq![item]);
                            match dec_items(b@, p2 as int, (n - i - 1) as nat, net_address_d()) {
                                Some((vs, q)) => {
                                    assert(old_view + (seq![item] + vs)
                                        =~= (old_view + seq![item]) + vs);
                                }
                                None => {}
                            }
                        }
                        pos_cur = p2;
                        i = i + 1;
                    }
                }
            }
        }
    }
}

pub fn write_net_message(out: &mut Vec<u8>, m: &NetMessage)
    ensures
        final(out)@ == old(out)@ + enc_net_message(m@),
{
    match m {
        NetMessage::GetBlock(h) => {
            write_u8(out, 0);
            write_u64(out, *h);
            assert(final(out)@ =~= old(out)@ + enc_net_message(m@));
        }
        NetMessage::NewBlock(blk) => {
            write_u8(out, 1);
            write_block(out, blk);
            assert(final(out)@ =~= old(out)@ + enc_net_message(m@));
        }
        NetMessage::Verack(v) => {
            write_u8(out, 2);
            write_verack(out, v);
            assert(final(out)@ =~= old(out)@ + enc_net_message(m@));
        }
        NetMessage::Transaction(t) => {
            write_u8(out, 3);
            write_transaction(out, t);
            assert(final(out)@ =~= old(out)@ + enc_net_message(m@));
        }
        NetMessage::GetInv => {
            write_u8(out, 4);
        }
        NetMessage::Inv(mp) => {
            write_u8(out, 5);
            write_mempool_entries(out, &mp.0);
            assert(final(out)@ =~= old(out)@ + enc_net_message(m@));
        }
        NetMessage::GetPeers => {
            write_u8(out, 6);
        }
        NetMessage::Peers(peers) => {
            write_u8(out, 7);
            write_u64(out, peers.len() as u64);
            let ghost base = out@;
            let mut i: usize = 0;
            while i < peers.len()
                invariant
                    i <= peers.len(),
                    out@ == base + enc_items(peers@.take(i as int), net_address_e()),
                decreases peers.len() - i,
            {
                proof {
                    lemma_enc_items_snoc(peers@, i as int, net_address_e());
                }
                write_net_address(out, &peers[i]);
                proof {
                    assert(out@ =~= base + enc_items(peers@.take(i + 1), net_address_e()));
                }
                i = i + 1;
            }
            proof {
                assert(peers@.take(peers@.len() as int) =~= peers@);
                assert(final(out)@ =~= old(out)@ + enc_net_message(m@));
            }
        }
        NetMessage::Ping => {
            write_u8(out, 8);
        }
        NetMessage::Pong => {
            write_u8(out, 9);
        }
    }
}

pub fn read_net_message(b: &[u8], pos: usize) -> (r: Option<(NetMessage, usize)>)
    ensures
        match r {
            Some((v, p)) => dec_net_message(b@, pos as int) == Some((v@, p as int))
                && p <= b@.len(),
            None => dec_net_message(b@, pos as int) is None,
        },
{
    match read_u8(b, pos) {
        None => None,
        Some((tag, p)) => {
            if tag == 0 {
                let Some((h, q)) = read_u64(b, p) else { return None; };
                Some((NetMessage::GetBlock(h), q))
            } else if tag == 1 {
                let Some((blk, q)) = read_block(b, p) else { return None; };
                Some((NetMessage::NewBlock(blk), q))
            } else if tag == 2 {
                let Some((v, q)) = read_verack(b, p) else { return None; };
                Some((NetMessage::Verack(v), q))
            } else if tag == 3 {
                let Some((t, q)) = read_transaction(b, p) else { return None; };
                Some((NetMessage::Transaction(t), q))
            } else if tag == 4 {
                Some((NetMessage::GetInv, p))
            } else if tag == 5 {
                let Some((entries, q)) = read_mempool_entries(b, p) else { return None; };
                Some((NetMessage::Inv(Mempool(entries)), q))
            } else if tag == 6 {
                Some((NetMessage::GetPeers, p))
            } else if tag == 7 {
                let Some((peers, q)) = read_net_addresses(b, p) else { return None; };
                Some((NetMessage::Peers(peers), q))
            } else if tag == 8 {
                Some((NetMessage::Ping, p))
            } else if tag == 9 {
                Some((NetMessage::Pong, p))
            } else {
                None
            }
        }
    }
}

// ---------------------------------------------------------------------------
// Persisted node state.
// ---------------------------------------------------------------------------

pub open spec fn enc_u128(x: u128) -> Seq<u8> {
    vstd::bytes::spec_u128_to_le_bytes(x)
}

pub open spec fn dec_u128(b: Seq<u8>, pos: int) -> Option<(u128, int)> {
    if 0 <= pos && pos + 16 <= b.len() {
        Some((vstd::bytes::spec_u128_from_le_bytes(b.subrange(pos, pos + 16)), pos + 16))
    } else {
        None
    }
}

pub proof fn lemma_dec_enc_u128(b: Seq<u8>, pos: int, x: u128)
    requires
        bytes_at(b, pos, enc_u128(x)),
    ensures
        dec_u128(b, pos) == Some((x, pos + 16)),
{
    vstd::bytes::lemma_auto_spec_u128_to_from_le_bytes();
    assert(b.subrange(pos, pos + 16) == enc_u128(x));
}

pub fn write_u128(out: &mut Vec<u8>, x: u128)
    ensures
        final(out)@ == old(out)@ + enc_u128(x),
{
    let mut bs = vstd::bytes::u128_to_le_bytes(x);
    out.append(&mut bs);
}

pub fn read_u128(b: &[u8], pos: usize) -> (r: Option<(u128, usize)>)
    ensures
        match r {
            Some((v, p)) => dec_u128(b@, pos as int) == Some((v, p as int)) && p <= b@.len(),
            None => dec_u128(b@, pos as int) is None,
        },
{
    let n = b.len();
    if pos <= n && n - pos >= 16 {
        let x = vstd::bytes::u128_from_le_bytes(slice_subrange(b, pos, pos + 16));
        Some((x, pos + 16))
    } else {
        None
    }
}

pub open spec fn enc_config(c: Config) -> Seq<u8> {
    enc_u64(c.version) + enc_u64(c.reward) + enc_u64(c.difficulty) + enc_u64(c.port as u64)
        + seq![c.local_ip.o0, c.local_ip.o1, c.local_ip.o2, c.local_ip.o3]
        + seq![c.global_ip.o0, c.global_ip.o1, c.global_ip.o2, c.global_ip.o3]
}

pub open spec fn dec_config(b: Seq<u8>, pos: int) -> Option<(Config, int)> {
    match dec_u64(b, pos) {
        None => None,
        Some((version, p1)) => match dec_u64(b, p1) {
            None => None,
            Some((reward, p2)) => match dec_u64(b, p2) {
                None => None,
                Some((difficulty, p3)) => match dec_u64(b, p3) {
                    None => None,
                    Some((port, p4)) => if port <= 0xFFFF && p4 + 8 <= b.len() {
                        Some((
                            Config {
                                version,
                                reward,
                                difficulty,
                                port: port as u16,
                                local_ip: IpOctets {
                                    o0: b[p4], o1: b[p4 + 1], o2: b[p4 + 2], o3: b[p4 + 3],
                                },
                                global_ip: IpOctets {
                                    o0: b[p4 + 4], o1: b[p4 + 5], o2: b[p4 + 6], o3: b[p4 + 7],
                                },
                            },
                            p4 + 8,
                        ))
                    } else {
                        None
                    },
                },
            },
        },
    }
}

pub proof fn lemma_dec_enc_config(b: Seq<u8>, pos: int, c: Config)
    requires
        bytes_at(b, pos, enc_config(c)),
    ensures
        dec_config(b, pos) == Some((c, pos + enc_config(c).len())),
{
    lemma_auto_spec_u64_to_from_le_bytes();
    let octets = seq![c.local_ip.o0, c.local_ip.o1, c.local_ip.o2, c.local_ip.o3]
        + seq![c.global_ip.o0, c.global_ip.o1, c.global_ip.o2, c.global_ip.o3];
    assert(enc_config(c) =~= enc_u64(c.version) + (enc_u64(c.reward) + (enc_u64(c.difficulty)
        + (enc_u64(c.port as u64) + octets))));
    lemma_bytes_at_split(b, pos, enc_u64(c.version), enc_u64(c.reward) + (enc_u64(c.difficulty)
        + (enc_u64(c.port as u64) + octets)));
    lemma_bytes_at_split(b, pos + 8, enc_u64(c.reward), enc_u64(c.difficulty)
        + (enc_u64(c.port as u64) + octets));
    lemma_bytes_at_split(b, pos + 16, enc_u64(c.difficulty), enc_u64(c.port as u64) + octets);
    lemma_bytes_at_split(b, pos + 24, enc_u64(c.port as u64), octets);
    lemma_dec_enc_u64(b, pos, c.version);
    lemma_dec_enc_u64(b, pos + 8, c.reward);
    lemma_dec_enc_u64(b, pos + 16, c.difficulty);
    lemma_dec_enc_u64(b, pos + 24, c.port as u64);
    let p4 = pos + 32;
    let tail = b.subrange(p4, p4 + 8);
    assert(tail == octets);
    assert(b[p4] == tail[0]);
    assert(b[p4 + 1] == tail[1]);
    assert(b[p4 + 2] == tail[2]);
    assert(b[p4 + 3] == tail[3]);
    assert(b[p4 + 4] == tail[4]);
    assert(b[p4 + 5] == tail[5]);
    assert(b[p4 + 6] == tail[6]);
    assert(b[p4 + 7] == tail[7]);
}

pub fn write_config(out: &mut Vec<u8>, c: &Config)
    ensures
        final(out)@ == old(out)@ + enc_config(*c),
{
    write_u64(out, c.version);
    write_u64(out, c.reward);
    write_u64(out, c.difficulty);
    write_u64(out, c.port as u64);
    out.push(c.local_ip.o0);
    out.push(c.local_ip.o1);
    out.push(c.local_ip.o2);
    out.push(c.local_ip.o3);
    out.push(c.global_ip.o0);
    out.push(c.global_ip.o1);
    out.push(c.global_ip.o2);
    out.push(c.global_ip.o3);
    assert(final(out)@ =~= old(out)@ + enc_config(*c));
}

pub fn read_config(b: &[u8], pos: usize) -> (r: Option<(Config, usize)>)
    ensures
        match r {
            Some((v, p)) => dec_config(b@, pos as int) == Some((v, p as int)) && p <= b@.len(),
            None => dec_config(b@, pos as int) is None,
        },
{
    let Some((version, p1)) = read_u64(b, pos) else { return None; };
    let Some((reward, p2)) = read_u64(b, p1) else { return None; };
    let Some((difficulty, p3)) = read_u64(b, p2) else { return None; };
    let Some((port, p4)) = read_u64(b, p3) else { return None; };
    let n = b.len();
    if port <= 0xFFFF && p4 <= n && n - p4 >= 8 {
        Some((
            Config {
                version,
                reward,
                difficulty,
                port: port as u16,
                local_ip: IpOctets {
                    o0: *slice_index_get(b, p4),
                    o1: *slice_index_get(b, p4 + 1),
                    o2: *slice_index_get(b, p4 + 2),
                    o3: *slice_index_get(b, p4 + 3),
                },
                global_ip: IpOctets {
                    o0: *slice_index_get(b, p4 + 4),
                    o1: *slice_index_get(b, p4 + 5),
                    o2: *slice_index_get(b, p4 + 6),
                    o3: *slice_index_get(b, p4 + 7),
                },
            },
            p4 + 8,
        ))
    } else {
        None
    }
}

pub open spec fn enc_utxo_entry(e: UtxoEntryV) -> Seq<u8> {
    enc_bytes(e.tx_hash) + enc_u64(e.output_index) + enc_tx_output(e.output)
}

pub open spec fn utxo_entry_e() -> spec_fn(UtxoEntryV) -> Seq<u8> {
    |e: UtxoEntryV| enc_utxo_entry(e)
}

pub open spec fn dec_utxo_entry(b: Seq<u8>, pos: int) -> Option<(UtxoEntryV, int)> {
    match dec_bytes(b, pos) {
        None => None,
        Some((tx_hash, p1)) => match dec_u64(b, p1) {
            None => None,
            Some((output_index, p2)) => match dec_tx_output(b, p2) {
                None => None,
                Some((output, p3)) => Some((UtxoEntryV { tx_hash, output_index, output }, p3)),
            },
        },
    }
}

pub open spec fn utxo_entry_d() -> spec_fn(Seq<u8>, int) -> Option<(UtxoEntryV, int)> {
    |b: Seq<u8>, pos: int| dec_utxo_entry(b, pos)
}

pub open spec fn wf_utxo_entry(e: UtxoEntryV) -> bool {
    &&& wf_bytes(e.tx_hash)
    &&& wf_tx_output(e.output)
}

pub proof fn lemma_dec_enc_utxo_entry(b: Seq<u8>, pos: int, e: UtxoEntryV)
    requires
        bytes_at(b, pos, enc_utxo_entry(e)),
        wf_utxo_entry(e),
    ensures
        dec_utxo_entry(b, pos) == Some((e, pos + enc_utxo_entry(e).len())),
{
    lemma_auto_spec_u64_to_from_le_bytes();
    assert(enc_utxo_entry(e) =~= enc_bytes(e.tx_hash) + (enc_u64(e.output_index)
        + enc_tx_output(e.output)));
    lemma_bytes_at_split(b, pos, enc_bytes(e.tx_hash), enc_u64(e.output_index)
        + enc_tx_output(e.output));
    let p1 = pos + enc_bytes(e.tx_hash).len() as int;
    lemma_bytes_at_split(b, p1, enc_u64(e.output_index), enc_tx_output(e.output));
    lemma_dec_enc_bytes(b, pos, e.tx_hash);
    lemma_dec_enc_u64(b, p1, e.output_index);
    lemma_dec_enc_tx_output(b, p1 + 8, e.output);
}

pub fn write_utxo_entry(out: &mut Vec<u8>, e: &UtxoEntry)
    ensures
        final(out)@ == old(out)@ + enc_utxo_entry(e@),
{
    write_bytes(out, &e.tx_hash);
    write_u64(out, e.output_index);
    write_tx_output(out, &e.output);
    assert(final(out)@ =~= old(out)@ + enc_utxo_entry(e@));
}

pub fn read_utxo_entry(b: &[u8], pos: usize) -> (r: Option<(UtxoEntry, usize)>)
    ensures
        match r {
            Some((v, p)) => dec_utxo_entry(b@, pos as int) == Some((v@, p as int))
                && p <= b@.len(),
            None => dec_utxo_entry(b@, pos as int) is None,
        },
{
    let Some((tx_hash, p1)) = read_bytes(b, pos) else { return None; };
    let Some((output_index, p2)) = read_u64(b, p1) else { return None; };
    let Some((output, p3)) = read_tx_output(b, p2) else { return None; };
    Some((UtxoEntry { tx_hash, output_index, output }, p3))
}

pub fn write_utxo_entries(out: &mut Vec<u8>, entries: &Vec<UtxoEntry>)
    ensures
        final(out)@ == old(out)@ + enc_seq_of(
            entries@.map_values(|e: UtxoEntry| e@), utxo_entry_e(),
        ),
{
    let ghost views = entries@.map_values(|e: UtxoEntry| e@);
    write_u64(out, entries.len() as u64);
    let ghost base = out@;
    let mut i: usize = 0;
    while i < entries.len()
        invariant
            i <= entries.len(),
            views == entries@.map_values(|e: UtxoEntry| e@),
            views.len() == entries@.len(),
            forall|j: int| 0 <= j < entries@.len() ==> views[j] == entries@[j]@,
            out@ == base + enc_items(views.take(i as int), utxo_entry_e()),
        decreases entries.len() - i,
    {
        proof {
            lemma_enc_items_snoc(views, i as int, utxo_entry_e());
        }
        write_utxo_entry(out, &entries[i]);
        proof {
            assert(out@ =~= base + enc_items(views.take(i + 1), utxo_entry_e()));
        }
        i = i + 1;
    }
    proof {
        assert(views.take(views.len() as int) =~= views);
        assert(final(out)@ =~= old(out)@ + enc_seq_of(views, utxo_entry_e()));
    }
}

pub fn read_utxo_entries(b: &[u8], pos: usize) -> (r: Option<(Vec<UtxoEntry>, usize)>)
    ensures
        match r {
            Some((v, p)) => dec_seq_of(b@, pos as int, utxo_entry_d())
                == Some((v@.map_values(|x: UtxoEntry| x@), p as int)) && p <= b@.len(),
            None => dec_seq_of(b@, pos as int, utxo_entry_d()) is None,
        },
{
    match read_u64(b, pos) {
        None => None,
        Some((n, p0)) => {
            let mut items: Vec<UtxoEntry> = Vec::new();
            let mut pos_cur: usize = p0;
            let mut i: u64 = 0;
            loop
                invariant
                    i <= n,
                    pos_cur <= b@.len(),
                    items@.len() == i,
                    dec_seq_of(b@, pos as int, utxo_entry_d()) == match dec_items(
                        b@, pos_cur as int, (n - i) as nat, utxo_entry_d(),
                    ) {
                        None => None::<(Seq<UtxoEntryV>, int)>,
                        Some((vs, q)) => Some((items@.map_values(|x: UtxoEntry| x@) + vs, q)),
                    },
                decreases n - i,
            {
                if i == n {
                    proof {
                        assert(items@.map_values(|x: UtxoEntry| x@) + Seq::<UtxoEntryV>::empty()
                            =~= items@.map_values(|x: UtxoEntry| x@));
                    }
                    return Some((items, pos_cur));
                }
                proof {
                    lemma_dec_items_unfold(b@, pos_cur as int, (n - i) as nat, utxo_entry_d());
                }
                match read_utxo_entry(b, pos_cur) {
                    None => {
                        return None;
                    }
                    Some((item, p2)) => {
                        let ghost old_view = items@.map_values(|x: UtxoEntry| x@);
                        items.push(item);
                        proof {
                            assert(items@.map_values(|x: UtxoEntry| x@)
                                =~= old_view + seq![item@]);
                            match dec_items(b@, p2 as int, (n - i - 1) as nat, utxo_entry_d()) {
                                Some((vs, q)) => {
                                    assert(old_view + (seq![item@] + vs)
                                        =~= (old_view + seq![item@]) + vs);
                                }
                                None => {}
                            }
                        }
                        pos_cur = p2;
                        i = i + 1;
                    }
                }
            }
        }
    }
}

pub open spec fn enc_wallet(w: WalletV) -> Seq<u8> {
    enc_seq_of(w.utxos, utxo_entry_e()) + enc_u128(w.funds) + enc_bytes(w.public_key)
        + enc_bytes(w.private_key)
}

pub open spec fn dec_wallet(b: Seq<u8>, pos: int) -> Option<(WalletV, int)> {
    match dec_seq_of(b, pos, utxo_entry_d()) {
        None => None,
        Some((utxos, p1)) => match dec_u128(b, p1) {
            None => None,
            Some((funds, p2)) => match dec_bytes(b, p2) {
                None => None,
                Some((public_key, p3)) => match dec_bytes(b, p3) {
                    None => None,
                    Some((private_key, p4)) => Some(
                        (WalletV { utxos, funds, public_key, private_key }, p4),
                    ),
                },
            },
        },
    }
}

pub open spec fn wf_wallet_bytes(w: WalletV) -> bool {
    &&& w.utxos.len() < u64_bound()
    &&& forall|i: int| 0 <= i < w.utxos.len() ==> wf_utxo_entry(#[trigger] w.utxos[i])
    &&& wf_bytes(w.public_key)
    &&& wf_bytes(w.private_key)
}

pub proof fn lemma_dec_enc_wallet(b: Seq<u8>, pos: int, w: WalletV)
    requires
        bytes_at(b, pos, enc_wallet(w)),
        wf_wallet_bytes(w),
    ensures
        dec_wallet(b, pos) == Some((w, pos + enc_wallet(w).len())),
{
    lemma_auto_spec_u64_to_from_le_bytes();
    vstd::bytes::lemma_auto_spec_u128_to_from_le_bytes();
    let e1 = enc_seq_of(w.utxos, utxo_entry_e());
    let e2 = enc_u128(w.funds);
    let e3 = enc_bytes(w.public_key);
    let e4 = enc_bytes(w.private_key);
    assert(enc_wallet(w) =~= e1 + (e2 + (e3 + e4)));
    lemma_bytes_at_split(b, pos, e1, e2 + (e3 + e4));
    let p1 = pos + e1.len() as int;
    lemma_bytes_at_split(b, p1, e2, e3 + e4);
    let p2 = p1 + 16;
    lemma_bytes_at_split(b, p2, e3, e4);
    assert(inverts_on(b, w.utxos, utxo_entry_e(), utxo_entry_d())) by {
        assert forall|i: int, p: int|
            0 <= i < w.utxos.len() && #[trigger] bytes_at(b, p, utxo_entry_e()(w.utxos[i]))
            implies utxo_entry_d()(b, p) == Some(
                (w.utxos[i], p + utxo_entry_e()(w.utxos[i]).len()),
            ) by {
            lemma_dec_enc_utxo_entry(b, p, w.utxos[i]);
        }
    }
    lemma_dec_enc_seq_of(b, pos, w.utxos, utxo_entry_e(), utxo_entry_d());
    lemma_dec_enc_u128(b, p1, w.funds);
    lemma_dec_enc_bytes(b, p2, w.public_key);
    lemma_dec_enc_bytes(b, p2 + e3.len(), w.private_key);
}

pub fn write_wallet(out: &mut Vec<u8>, w: &Wallet)
    ensures
        final(out)@ == old(out)@ + enc_wallet(w@),
{
    write_utxo_entries(out, &w.utxos.0);
    write_u128(out, w.funds);
    write_bytes(out, &w.public_key);
    write_bytes(out, &w.private_key);
    assert(final(out)@ =~= old(out)@ + enc_wallet(w@));
}

pub fn read_wallet(b: &[u8], pos: usize) -> (r: Option<(Wallet, usize)>)
    ensures
        match r {
            Some((v, p)) => dec_wallet(b@, pos as int) == Some((v@, p as int)) && p <= b@.len(),
            None => dec_wallet(b@, pos as int) is None,
        },
{
    let Some((entries, p1)) = read_utxo_entries(b, pos) else { return None; };
    let Some((funds, p2)) = read_u128(b, p1) else { return None; };
    let Some((public_key, p3)) = read_bytes(b, p2) else { return None; };
    let Some((private_key, p4)) = read_bytes(b, p3) else { return None; };
    Some((Wallet { utxos: crate::utxos::UTXOS(entries), funds, public_key, private_key }, p4))
}

pub open spec fn block_e() -> spec_fn(BlockV) -> Seq<u8> {
    |blk: BlockV| enc_block(blk)
}

pub open spec fn block_d() -> spec_fn(Seq<u8>, int) -> Option<(BlockV, int)> {
    |b: Seq<u8>, pos: int| dec_block(b, pos)
}

/// The whole persisted node: height, chain, mempool, configuration,
/// ledger, wallet.
pub open spec fn enc_node_state(n: NodeV) -> Seq<u8> {
    enc_opt_u64(n.height) + enc_seq_of(n.block_chain, block_e())
        + enc_seq_of(n.mempool, tx_with_fee_e()) + enc_config(n.config)
        + enc_seq_of(n.utxos, utxo_entry_e()) + enc_wallet(n.wallet)
}

pub open spec fn dec_node_state(b: Seq<u8>, pos: int) -> Option<(NodeV, int)> {
    match dec_opt_u64(b, pos) {
        None => None,
        Some((height, p1)) => match dec_seq_of(b, p1, block_d()) {
            None => None,
            Some((chain, p2)) => match dec_seq_of(b, p2, tx_with_fee_d()) {
                None => None,
                Some((mempool, p3)) => match dec_config(b, p3) {
                    None => None,
                    Some((config, p4)) => match dec_seq_of(b, p4, utxo_entry_d()) {
                        None => None,
                        Some((utxos, p5)) => match dec_wallet(b, p5) {
                            None => None,
                            Some((wallet, p6)) => Some((
                                NodeV {
                                    height, mempool, block_chain: chain, config, utxos, wallet,
                                },
                                p6,
                            )),
                        },
                    },
                },
            },
        },
    }
}

pub open spec fn wf_node_bytes(n: NodeV) -> bool {
    &&& n.block_chain.len() < u64_bound()
    &&& forall|i: int| 0 <= i < n.block_chain.len() ==> wf_block(#[trigger] n.block_chain[i])
    &&& n.mempool.len() < u64_bound()
    &&& forall|i: int| 0 <= i < n.mempool.len() ==> wf_tx_with_fee(#[trigger] n.mempool[i])
    &&& n.utxos.len() < u64_bound()
    &&& forall|i: int| 0 <= i < n.utxos.len() ==> wf_utxo_entry(#[trigger] n.utxos[i])
    &&& wf_wallet_bytes(n.wallet)
}

pub proof fn lemma_inverts_blocks(b: Seq<u8>, s: Seq<BlockV>)
    requires
        forall|i: int| 0 <= i < s.len() ==> wf_block(#[trigger] s[i]),
    ensures
        inverts_on(b, s, block_e(), block_d()),
{
    assert forall|i: int, p: int|
        0 <= i < s.len() && #[trigger] bytes_at(b, p, block_e()(s[i]))
        implies block_d()(b, p) == Some((s[i], p + block_e()(s[i]).len())) by {
        lemma_dec_enc_block(b, p, s[i]);
    }
}

pub proof fn lemma_inverts_entries(b: Seq<u8>, s: Seq<TxWithFeeV>)
    requires
        forall|i: int| 0 <= i < s.len() ==> wf_tx_with_fee(#[trigger] s[i]),
    ensures
        inverts_on(b, s, tx_with_fee_e(), tx_with_fee_d()),
{
    assert forall|i: int, p: int|
        0 <= i < s.len() && #[trigger] bytes_at(b, p, tx_with_fee_e()(s[i]))
        implies tx_with_fee_d()(b, p) == Some((s[i], p + tx_with_fee_e()(s[i]).len())) by {
        lemma_dec_enc_tx_with_fee(b, p, s[i]);
    }
}

pub proof fn lemma_inverts_utxo_entries(b: Seq<u8>, s: Seq<UtxoEntryV>)
    requires
        forall|i: int| 0 <= i < s.len() ==> wf_utxo_entry(#[trigger] s[i]),
    ensures
        inverts_on(b, s, utxo_entry_e(), utxo_entry_d()),
{
    assert forall|i: int, p: int|
        0 <= i < s.len() && #[trigger] bytes_at(b, p, utxo_entry_e()(s[i]))
        implies utxo_entry_d()(b, p) == Some((s[i], p + utxo_entry_e()(s[i]).len())) by {
        lemma_dec_enc_utxo_entry(b, p, s[i]);
    }
}

#[verifier::spinoff_prover]
#[verifier::rlimit(100)]
pub proof fn lemma_dec_enc_node_state(b: Seq<u8>, pos: int, n: NodeV)
    requires
        bytes_at(b, pos, enc_node_state(n)),
        wf_node_bytes(n),
    ensures
        dec_node_state(b, pos) == Some((n, pos + enc_node_state(n).len())),
{
    lemma_auto_spec_u64_to_from_le_bytes();
    let e1 = enc_opt_u64(n.height);
    let e2 = enc_seq_of(n.block_chain, block_e());
    let e3 = enc_seq_of(n.mempool, tx_with_fee_e());
    let e4 = enc_config(n.config);
    let e5 = enc_seq_of(n.utxos, utxo_entry_e());
    let e6 = enc_wallet(n.wallet);
    assert(enc_node_state(n) =~= e1 + (e2 + (e3 + (e4 + (e5 + e6)))));
    lemma_bytes_at_split(b, pos, e1, e2 + (e3 + (e4 + (e5 + e6))));
    let p1 = pos + e1.len() as int;
    lemma_bytes_at_split(b, p1, e2, e3 + (e4 + (e5 + e6)));
    let p2 = p1 + e2.len() as int;
    lemma_bytes_at_split(b, p2, e3, e4 + (e5 + e6));
    let p3 = p2 + e3.len() as int;
    lemma_bytes_at_split(b, p3, e4, e5 + e6);
    let p4 = p3 + e4.len() as int;
    lemma_bytes_at_split(b, p4, e5, e6);
    let p5 = p4 + e5.len() as int;
    lemma_dec_enc_opt_u64(b, pos, n.height);
    lemma_inverts_blocks(b, n.block_chain);
    lemma_dec_enc_seq_of(b, p1, n.block_chain, block_e(), block_d());
    lemma_inverts_entries(b, n.mempool);
    lemma_dec_enc_seq_of(b, p2, n.mempool, tx_with_fee_e(), tx_with_fee_d());
    lemma_dec_enc_config(b, p3, n.config);
    lemma_inverts_utxo_entries(b, n.utxos);
    lemma_dec_enc_seq_of(b, p4, n.utxos, utxo_entry_e(), utxo_entry_d());
    lemma_dec_enc_wallet(b, p5, n.wallet);
}

pub fn write_blocks(out: &mut Vec<u8>, blocks: &Vec<Block>)
    ensures
        final(out)@ == old(out)@ + enc_seq_of(
            blocks@.map_values(|blk: Block| blk@), block_e(),
        ),
{
    let ghost views = blocks@.map_values(|blk: Block| blk@);
    write_u64(out, blocks.len() as u64);
    let ghost base = out@;
    let mut i: usize = 0;
    while i < blocks.len()
        invariant
            i <= blocks.len(),
            views == blocks@.map_values(|blk: Block| blk@),
            views.len() == blocks@.len(),
            forall|j: int| 0 <= j < blocks@.len() ==> views[j] == blocks@[j]@,
            out@ == base + enc_items(views.take(i as int), block_e()),
        decreases blocks.len() - i,
    {
        proof {
            lemma_enc_items_snoc(views, i as int, block_e());
        }
        write_block(out, &blocks[i]);
        proof {
            assert(out@ =~= base + enc_items(views.take(i + 1), block_e()));
        }
        i = i + 1;
    }
    proof {
        assert(views.take(views.len() as int) =~= views);
        assert(final(out)@ =~= old(out)@ + enc_seq_of(views, block_e()));
    }
}

pub fn read_blocks(b: &[u8], pos: usize) -> (r: Option<(Vec<Block>, usize)>)
    ensures
        match r {
            Some((v, p)) => dec_seq_of(b@, pos as int, block_d())
                == Some((v@.map_values(|x: Block| x@), p as int)) && p <= b@.len(),
            None => dec_seq_of(b@, pos as int, block_d()) is None,
        },
{
    match read_u64(b, pos) {
        None => None,
        Some((n, p0)) => {
            let mut items: Vec<Block> = Vec::new();
            let mut pos_cur: usize = p0;
            let mut i: u64 = 0;
            loop
                invariant
                    i <= n,
                    pos_cur <= b@.len(),
                    items@.len() == i,
                    dec_seq_of(b@, pos as int, block_d()) == match dec_items(
                        b@, pos_cur as int, (n - i) as nat, block_d(),
                    ) {
                        None => None::<(Seq<BlockV>, int)>,
                        Some((vs, q)) => Some((items@.map_values(|x: Block| x@) + vs, q)),
                    },
                decreases n - i,
            {
                if i == n {
                    proof {
                        assert(items@.map_values(|x: Block| x@) + Seq::<BlockV>::empty()
                            =~= items@.map_values(|x: Block| x@));
                    }
                    return Some((items, pos_cur));
                }
                proof {
                    lemma_dec_items_unfold(b@, pos_cur as int, (n - i) as nat, block_d());
                }
                match read_block(b, pos_cur) {
                    None => {
                        return None;
                    }
                    Some((item, p2)) => {
                        let ghost old_view = items@.map_values(|x: Block| x@);
                        items.push(item);
                        proof {
                            assert(items@.map_values(|x: Block| x@) =~= old_view + seq![item@]);
                            match dec_items(b@, p2 as int, (n - i - 1) as nat, block_d()) {
                                Some((vs, q)) => {
                                    assert(old_view + (seq![item@] + vs)
                                        =~= (old_view + seq![item@]) + vs);
                                }
                                None => {}
                            }
                        }
                        pos_cur = p2;
                        i = i + 1;
                    }
                }
            }
        }
    }
}

pub fn write_node_state(out: &mut Vec<u8>, n: &Node)
    ensures
        final(out)@ == old(out)@ + enc_node_state(n@),
{
    write_opt_u64(out, &n.height);
    write_blocks(out, &n.block_chain);
    write_mempool_entries(out, &n.mempool.0);
    write_config(out, &n.config);
    write_utxo_entries(out, &n.utxos.0);
    write_wallet(out, &n.wallet);
    assert(final(out)@ =~= old(out)@ + enc_node_state(n@));
}

pub fn read_node_state(b: &[u8], pos: usize) -> (r: Option<(Node, usize)>)
    ensures
        match r {
            Some((v, p)) => dec_node_state(b@, pos as int) == Some((v@, p as int))
                && p <= b@.len(),
            None => dec_node_state(b@, pos as int) is None,
        },
{
    let Some((height, p1)) = read_opt_u64(b, pos) else { return None; };
    let Some((block_chain, p2)) = read_blocks(b, p1) else { return None; };
    let Some((entries, p3)) = read_mempool_entries(b, p2) else { return None; };
    let Some((config, p4)) = read_config(b, p3) else { return None; };
    let Some((utxos, p5)) = read_utxo_entries(b, p4) else { return None; };
    let Some((wallet, p6)) = read_wallet(b, p5) else { return None; };
    Some((
        Node {
            height,
            mempool: Mempool(entries),
            block_chain,
            config,
            utxos: crate::utxos::UTXOS(utxos),
            wallet,
        },
        p6,
    ))
}

pub fn read_opt_u64(b: &[u8], pos: usize) -> (r: Option<(Option<u64>, usize)>)
    ensures
        match r {
            Some((v, p)) => dec_opt_u64(b@, pos as int) == Some((v, p as int)) && p <= b@.len(),
            None => dec_opt_u64(b@, pos as int) is None,
        },
{
    match read_u8(b, pos) {
        None => None,
        Some((tag, p)) => {
            if tag == 0 {
                Some((None, p))
            } else if tag == 1 {
                match read_u64(b, p) {
                    None => None,
                    Some((v, q)) => Some((Some(v), q)),
                }
            } else {
                None
            }
        }
    }
}

} // verus!
