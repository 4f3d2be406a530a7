//! Values exchanged with the operator interface: status reports, the
//! transaction request form, and the address book.

use vstd::prelude::*;
use crate::hash::{from_hex_chars, spec_hex_decode};
use crate::transaction::{OutputSpec, OutputSpecV};

verus! {

/// What the operator sees of the node.
pub struct NodeStatus {
    pub height: u64,
    pub mempool_size: usize,
    pub difficulty: u64,
}

impl NodeStatus {
    pub fn new(height: u64, mempool_size: usize, difficulty: u64) -> (r: Self)
        ensures
            r == (NodeStatus { height, mempool_size, difficulty }),
    {
        NodeStatus { height, mempool_size, difficulty }
    }
}

/// What the operator sees of the wallet.
pub struct UserStatus {
    pub amount: u128,
    pub pk: Vec<char>,
}

impl UserStatus {
    pub fn new(amount: u128, pk: Vec<char>) -> (r: Self)
        ensures
            r.amount == amount,
            r.pk@ == pk@,
    {
        UserStatus { amount, pk }
    }
}

/// A requested payment: recipients as hexadecimal public-key characters
/// with amounts, and the offered fee.
pub struct TransactionRequest {
    pub recipients: Vec<(Vec<char>, u64)>,
    pub fee: u64,
}

/// The values a request asks to move, fee included.
pub open spec fn spec_request_total(recipients: Seq<(Seq<char>, u64)>, fee: u64) -> int
    decreases recipients.len(),
{
    if recipients.len() == 0 {
        fee as int
    } else {
        recipients[0].1 + spec_request_total(recipients.drop_first(), fee)
    }
}

/// The outputs a request plans, each recipient's hex decoded; `None` when
/// some recipient is no hexadecimal string.
pub open spec fn spec_request_outputs(recipients: Seq<(Seq<char>, u64)>) -> Option<Seq<OutputSpecV>>
    decreases recipients.len(),
{
    if recipients.len() == 0 {
        Some(Seq::empty())
    } else {
        match spec_hex_decode(recipients[0].0) {
            None => None,
            Some(key) => match spec_request_outputs(recipients.drop_first()) {
                None => None,
                Some(rest) => Some(
                    seq![OutputSpecV { value: recipients[0].1, recipient: key }] + rest,
                ),
            },
        }
    }
}

pub open spec fn recipients_view(v: Seq<(Vec<char>, u64)>) -> Seq<(Seq<char>, u64)> {
    v.map_values(|r: (Vec<char>, u64)| (r.0@, r.1))
}

impl TransactionRequest {
    pub fn new(recipients: Vec<(Vec<char>, u64)>, fee: u64) -> (r: Self)
        ensures
            recipients_view(r.recipients@) == recipients_view(recipients@),
            r.fee == fee,
    {
        TransactionRequest { recipients, fee }
    }

    /// Everything the request would spend: all amounts plus the fee.
    pub fn calculate_total_spend(&self) -> (r: u128)
        ensures
            r == spec_request_total(recipients_view(self.recipients@), self.fee),
    {
        let ghost full = recipients_view(self.recipients@);
        let mut total: u128 = self.fee as u128;
        let mut k: usize = 0;
        let n = self.recipients.len();
        proof {
            assert(full.skip(0) =~= full);
            assert(full.len() == n as int);
            lemma_request_total_bound(full, self.fee);
            lemma_request_total_nonneg(full, self.fee);
        }
        while k < self.recipients.len()
            invariant
                k <= self.recipients.len(),
                full == recipients_view(self.recipients@),
                full.len() == self.recipients@.len(),
                forall|j: int| 0 <= j < self.recipients@.len() ==> full[j]
                    == ((#[trigger] self.recipients@[j]).0@, self.recipients@[j].1),
                spec_request_total(full, self.fee) == total
                    + spec_request_total(full.skip(k as int), self.fee) - self.fee,
                total <= spec_request_total(full, self.fee),
                self.fee <= total,
                spec_request_total(full, self.fee)
                    <= full.len() * 0xFFFF_FFFF_FFFF_FFFF + self.fee,
                full.len() <= 0xFFFF_FFFF_FFFF_FFFF,
            decreases self.recipients.len() - k,
        {
            let ghost rest = full.skip(k as int);
            proof {
                assert(rest[0] == full[k as int]);
                assert(rest.drop_first() =~= full.skip(k + 1));
                lemma_request_total_nonneg(full.skip(k + 1), self.fee);
                lemma_request_total_nonneg(rest, self.fee);
                vstd::arithmetic::mul::lemma_mul_upper_bound(
                    full.len() as int, 0xFFFF_FFFF_FFFF_FFFF,
                    0xFFFF_FFFF_FFFF_FFFF, 0xFFFF_FFFF_FFFF_FFFF,
                );
            }
            total = total + self.recipients[k].1 as u128;
            k = k + 1;
        }
        proof {
            assert(full.skip(full.len() as int) =~= Seq::<(Seq<char>, u64)>::empty());
        }
        total
    }

    /// The planned outputs, every recipient's hexadecimal key decoded.
    pub fn get_outputs(&self) -> (r: Option<Vec<OutputSpec>>)
        ensures
            match r {
                Some(outs) => spec_request_outputs(recipients_view(self.recipients@))
                    == Some(outs@.map_values(|o: OutputSpec| o@)),
                None => spec_request_outputs(recipients_view(self.recipients@)) is None,
            },
    {
        let ghost full = recipients_view(self.recipients@);
        let mut outs: Vec<OutputSpec> = Vec::new();
        let mut k: usize = 0;
        proof {
            assert(full.skip(0) =~= full);
        }
        while k < self.recipients.len()
            invariant
                k <= self.recipients.len(),
                full == recipients_view(self.recipients@),
                full.len() == self.recipients@.len(),
                forall|j: int| 0 <= j < self.recipients@.len() ==> full[j]
                    == ((#[trigger] self.recipients@[j]).0@, self.recipients@[j].1),
                spec_request_outputs(full) == match spec_request_outputs(full.skip(k as int)) {
                    None => None::<Seq<OutputSpecV>>,
                    Some(rest) => Some(outs@.map_values(|o: OutputSpec| o@) + rest),
                },
            decreases self.recipients.len() - k,
        {
            let ghost acc = outs@.map_values(|o: OutputSpec| o@);
            let ghost rest = full.skip(k as int);
            proof {
                assert(rest[0] == full[k as int]);
                assert(rest.drop_first() =~= full.skip(k + 1));
            }
            match from_hex_chars(&self.recipients[k].0) {
                None => {
                    return None;
                }
                Some(key) => {
                    outs.push(OutputSpec::new(self.recipients[k].1, key));
                    proof {
                        let e = OutputSpecV {
                            value: rest[0].1,
                            recipient: spec_hex_decode(rest[0].0)->Some_0,
                        };
                        assert(outs@.map_values(|o: OutputSpec| o@) =~= acc + seq![e]);
                        match spec_request_outputs(full.skip(k + 1)) {
                            Some(more) => {
                                assert(acc + (seq![e] + more) =~= (acc + seq![e]) + more);
                            }
                            None => {}
                        }
                    }
                }
            }
            k = k + 1;
        }
        proof {
            assert(full.skip(full.len() as int) =~= Seq::<(Seq<char>, u64)>::empty());
            assert(outs@.map_values(|o: OutputSpec| o@) + Seq::<OutputSpecV>::empty()
                =~= outs@.map_values(|o: OutputSpec| o@));
        }
        Some(outs)
    }
}

pub proof fn lemma_request_total_nonneg(recipients: Seq<(Seq<char>, u64)>, fee: u64)
    ensures
        fee <= spec_request_total(recipients, fee),
    decreases recipients.len(),
{
    if recipients.len() > 0 {
        lemma_request_total_nonneg(recipients.drop_first(), fee);
    }
}

pub proof fn lemma_request_total_bound(recipients: Seq<(Seq<char>, u64)>, fee: u64)
    ensures
        spec_request_total(recipients, fee)
            <= recipients.len() * 0xFFFF_FFFF_FFFF_FFFF + fee,
    decreases recipients.len(),
{
    if recipients.len() > 0 {
        lemma_request_total_bound(recipients.drop_first(), fee);
        assert((recipients.len() - 1) * 0xFFFF_FFFF_FFFF_FFFF + 0xFFFF_FFFF_FFFF_FFFF
            == recipients.len() * 0xFFFF_FFFF_FFFF_FFFF) by (nonlinear_arith);
    }
}

/// The operator's reply to a transaction request.
pub struct TransactionResponse {
    pub success: bool,
    pub message: Vec<char>,
}

/// Named addresses the operator keeps; reading and writing the book's file
/// is the application's business.
pub struct AddressBook(pub Vec<(Vec<char>, Vec<char>)>);

impl AddressBook {
    pub fn new() -> (r: Self)
        ensures
            r.0@.len() == 0,
    {
        AddressBook(Vec::new())
    }
}

} // verus!
