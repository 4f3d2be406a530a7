//! The outbound command dispatcher: local intents (a mined block, an
//! operator transaction, a peer to dial) become state changes and
//! transport effects. Dialing itself is the application's work; whether to
//! dial is decided here.

use vstd::prelude::*;
use crate::node::{
    Node, NodeV, wf_node, spec_is_new_block, spec_is_new_transaction, spec_node_apply_block,
};
use crate::peers::{PeerManager, PeerEntry, spec_pm_contains};
use crate::connection::NetAddress;
use crate::protocol::{NetMessage, NetMessageV};
use crate::commands::{NetworkCommand, NetworkCommandV, NodeAction, NodeActionV, actions_view};
use crate::mempool::{spec_mp_add, TxWithFeeV};
use crate::utxos::spec_calculate_fee;

verus! {

/// A dial attempt aimed at the node itself: the address carries the
/// node's own IP and port.
pub open spec fn spec_is_self_dial(n: NodeV, addr: NetAddress) -> bool {
    &&& n.config.local_ip.o0 == addr.ip0
    &&& n.config.local_ip.o1 == addr.ip1
    &&& n.config.local_ip.o2 == addr.ip2
    &&& n.config.local_ip.o3 == addr.ip3
    &&& n.config.port == addr.port
}

/// One command against the node: the state it leaves and the effects to
/// perform.
pub open spec fn spec_handle_command(
    n: NodeV,
    pm: Seq<PeerEntry>,
    cmd: NetworkCommandV,
) -> (NodeV, Seq<NodeActionV>) {
    match cmd {
        NetworkCommandV::Block(b) => if spec_is_new_block(n, b) {
            (
                spec_node_apply_block(n, b),
                seq![
                    NodeActionV::Broadcast(NetMessageV::NewBlock(b)),
                    NodeActionV::UpdateMiner,
                ],
            )
        } else {
            (n, seq![NodeActionV::UpdateMiner])
        },
        NetworkCommandV::Transaction(t) => if spec_is_new_transaction(n, t) {
            (
                NodeV {
                    mempool: spec_mp_add(n.mempool, TxWithFeeV {
                        transaction: t,
                        fee: spec_calculate_fee(n.utxos, t) as u128,
                    }),
                    ..n
                },
                seq![NodeActionV::Broadcast(NetMessageV::Transaction(t))],
            )
        } else {
            (n, Seq::empty())
        },
        NetworkCommandV::Connect(addr) => if !spec_pm_contains(pm, addr)
            && !spec_is_self_dial(n, addr) {
            (n, seq![NodeActionV::Connect(addr)])
        } else {
            (n, Seq::empty())
        },
    }
}

/// A dial aimed at the node itself is a no-op: no state change, no effect.
pub proof fn lemma_self_dial_is_noop(n: NodeV, pm: Seq<PeerEntry>, addr: NetAddress)
    requires
        spec_is_self_dial(n, addr),
    ensures
        spec_handle_command(n, pm, NetworkCommandV::Connect(addr)).0 == n,
        spec_handle_command(n, pm, NetworkCommandV::Connect(addr)).1 == Seq::<NodeActionV>::empty(),
{
}

/// Dispatch one command.
pub fn handle_network_command(
    node: &mut Node,
    peers: &PeerManager,
    command: NetworkCommand,
) -> (actions: Vec<NodeAction>)
    requires
        wf_node(old(node)@),
    ensures
        wf_node(final(node)@),
        final(node)@ == spec_handle_command(old(node)@, peers@, command@).0,
        actions_view(actions@) == spec_handle_command(old(node)@, peers@, command@).1,
{
    let ghost expected = spec_handle_command(old(node)@, peers@, command@);
    let mut actions: Vec<NodeAction> = Vec::new();
    match command {
        NetworkCommand::Block(block) => {
            if node.is_new_block(&block) {
                node.add_block(&block);
                actions.push(NodeAction::Broadcast(NetMessage::NewBlock(block)));
            }
            actions.push(NodeAction::UpdateMiner);
            assert(actions_view(actions@) =~= expected.1);
        }
        NetworkCommand::Transaction(transaction) => {
            if node.is_new_transaction(&transaction) {
                let copy = transaction.clone();
                node.add_transaction(transaction);
                actions.push(NodeAction::Broadcast(NetMessage::Transaction(copy)));
            }
            assert(final(node)@ =~= expected.0);
            assert(actions_view(actions@) =~= expected.1);
        }
        NetworkCommand::Connect(addr) => {
            let mine = node.config.local_ip.o0 == addr.ip0 && node.config.local_ip.o1 == addr.ip1
                && node.config.local_ip.o2 == addr.ip2 && node.config.local_ip.o3 == addr.ip3
                && node.config.port == addr.port;
            if !peers.contains(&addr) && !mine {
                actions.push(NodeAction::Connect(addr));
            }
            assert(actions_view(actions@) =~= expected.1);
        }
    }
    actions
}

} // verus!
