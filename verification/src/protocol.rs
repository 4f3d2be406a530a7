//! The wire protocol: the message union gossiped between peers, and its
//! canonical byte form.

use vstd::prelude::*;
use crate::block::{Block, BlockV};
use crate::transaction::{Transaction, TransactionV};
use crate::mempool::{Mempool, TransactionWithFee, TxWithFeeV};
use crate::connection::NetAddress;
use crate::codec::{
    enc_net_message, dec_net_message, write_net_message, read_net_message,
};

verus! {

/// The handshake message: `index` 0 opens, 1 acknowledges; `height` is the
/// sender's tip height, absent before genesis.
pub struct Verack {
    pub index: u64,
    pub height: Option<u64>,
}

#[verifier::ext_equal]
pub struct VerackV {
    pub index: u64,
    pub height: Option<u64>,
}

impl View for Verack {
    type V = VerackV;

    open spec fn view(&self) -> VerackV {
        VerackV { index: self.index, height: self.height }
    }
}

impl Verack {
    pub fn new(index: u64, height: Option<u64>) -> (r: Self)
        ensures
            r@ == (VerackV { index, height }),
    {
        Verack { index, height }
    }
}

/// One peer-to-peer message.
pub enum NetMessage {
    GetBlock(u64),
    NewBlock(Block),
    Verack(Verack),
    Transaction(Transaction),
    GetInv,
    Inv(Mempool),
    GetPeers,
    Peers(Vec<NetAddress>),
    Ping,
    Pong,
}

pub enum NetMessageV {
    GetBlock(u64),
    NewBlock(BlockV),
    Verack(VerackV),
    Transaction(TransactionV),
    GetInv,
    Inv(Seq<TxWithFeeV>),
    GetPeers,
    Peers(Seq<NetAddress>),
    Ping,
    Pong,
}

impl View for NetMessage {
    type V = NetMessageV;

    open spec fn view(&self) -> NetMessageV {
        match self {
            NetMessage::GetBlock(h) => NetMessageV::GetBlock(*h),
            NetMessage::NewBlock(b) => NetMessageV::NewBlock(b@),
            NetMessage::Verack(v) => NetMessageV::Verack(v@),
            NetMessage::Transaction(t) => NetMessageV::Transaction(t@),
            NetMessage::GetInv => NetMessageV::GetInv,
            NetMessage::Inv(m) => NetMessageV::Inv(m@),
            NetMessage::GetPeers => NetMessageV::GetPeers,
            NetMessage::Peers(p) => NetMessageV::Peers(p@),
            NetMessage::Ping => NetMessageV::Ping,
            NetMessage::Pong => NetMessageV::Pong,
        }
    }
}

/// What decoding a whole buffer yields: the message, when the buffer is
/// exactly one encoded message.
pub open spec fn spec_message_from_bytes(b: Seq<u8>) -> Option<NetMessageV> {
    match dec_net_message(b, 0) {
        Some((m, p)) => if p == b.len() {
            Some(m)
        } else {
            None
        },
        None => None,
    }
}

impl NetMessage {
    pub fn verack(index: u64, height: Option<u64>) -> (r: Self)
        ensures
            r@ == NetMessageV::Verack(VerackV { index, height }),
    {
        NetMessage::Verack(Verack::new(index, height))
    }

    pub fn to_bytes(&self) -> (r: Vec<u8>)
        ensures
            r@ == enc_net_message(self@),
    {
        let mut out: Vec<u8> = Vec::new();
        write_net_message(&mut out, self);
        out
    }

    pub fn from_bytes(bytes: &Vec<u8>) -> (r: Option<Self>)
        ensures
            match r {
                Some(m) => spec_message_from_bytes(bytes@) == Some(m@),
                None => spec_message_from_bytes(bytes@) is None,
            },
    {
        match read_net_message(bytes.as_slice(), 0) {
            Some((m, p)) => {
                if p == bytes.len() {
                    Some(m)
                } else {
                    None
                }
            }
            None => None,
        }
    }
}

/// The wire round trip: decoding an encoded message yields the message.
pub proof fn lemma_wire_round_trip(m: NetMessageV)
    requires
        crate::codec::wf_net_message(m),
    ensures
        spec_message_from_bytes(enc_net_message(m)) == Some(m),
{
    let b = enc_net_message(m);
    assert(crate::codec::bytes_at(b, 0, b)) by {
        assert(b.subrange(0, b.len() as int) =~= b);
    }
    crate::codec::lemma_dec_enc_net_message(b, 0, m);
}

} // verus!
