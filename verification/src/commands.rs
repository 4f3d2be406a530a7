//! The typed commands flowing between tasks: what the dispatcher consumes,
//! what the miner is told, and the effects the decision logic hands back
//! to the transport.

use vstd::prelude::*;
use crate::block::{Block, BlockV};
use crate::transaction::{Transaction, TransactionV};
use crate::connection::NetAddress;
use crate::protocol::{NetMessage, NetMessageV};

verus! {

/// An intent entering the dispatcher: a mined or received block, a new
/// transaction, or a peer to dial.
pub enum NetworkCommand {
    Block(Block),
    Transaction(Transaction),
    Connect(NetAddress),
}

pub enum NetworkCommandV {
    Block(BlockV),
    Transaction(TransactionV),
    Connect(NetAddress),
}

impl View for NetworkCommand {
    type V = NetworkCommandV;

    open spec fn view(&self) -> NetworkCommandV {
        match self {
            NetworkCommand::Block(b) => NetworkCommandV::Block(b@),
            NetworkCommand::Transaction(t) => NetworkCommandV::Transaction(t@),
            NetworkCommand::Connect(a) => NetworkCommandV::Connect(*a),
        }
    }
}

/// What the mining controller is told.
#[derive(PartialEq, Eq, Structural, Clone, Copy, Debug)]
pub enum MineCommand {
    Stop,
    UpdateBlock,
}

/// An effect the decision logic asks the transport to perform.
pub enum NodeAction {
    SendTo(NetAddress, NetMessage),
    Broadcast(NetMessage),
    UpdateMiner,
    Connect(NetAddress),
}

pub enum NodeActionV {
    SendTo(NetAddress, NetMessageV),
    Broadcast(NetMessageV),
    UpdateMiner,
    Connect(NetAddress),
}

impl View for NodeAction {
    type V = NodeActionV;

    open spec fn view(&self) -> NodeActionV {
        match self {
            NodeAction::SendTo(a, m) => NodeActionV::SendTo(*a, m@),
            NodeAction::Broadcast(m) => NodeActionV::Broadcast(m@),
            NodeAction::UpdateMiner => NodeActionV::UpdateMiner,
            NodeAction::Connect(a) => NodeActionV::Connect(*a),
        }
    }
}

/// The views of a list of actions.
pub open spec fn actions_view(v: Seq<NodeAction>) -> Seq<NodeActionV> {
    v.map_values(|a: NodeAction| a@)
}

} // verus!
