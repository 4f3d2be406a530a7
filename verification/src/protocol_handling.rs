//! The inbound protocol state machine: one connection event in, a state
//! change and a list of transport effects out. The application performs
//! the effects; every decision is made here.

use vstd::prelude::*;
use crate::node::{
    Node, NodeV, wf_node, spec_is_new_block, spec_is_new_transaction, spec_node_apply_block,
    spec_next_height,
};
use crate::peers::{PeerManager, PeerEntry, spec_pm_remove, spec_pm_reset};
use crate::connection::{ConnectionEvent, ConnectionEventV, ConnectionType, ConnectionTypeV, NetAddress};
use crate::protocol::{NetMessage, NetMessageV, VerackV, spec_message_from_bytes};
use crate::commands::{NodeAction, NodeActionV, actions_view};
use crate::mempool::{Mempool, spec_mp_update};
use crate::transaction::{Transaction, spec_tx_hash};
use crate::utxos::{spec_validate_mempool, spec_calculate_fee};
use crate::mempool::{spec_mp_add, TxWithFeeV};
use crate::block::BlockV;

verus! {

/// The `Connect` intents a received peer list turns into.
pub open spec fn spec_connect_actions(peers: Seq<NetAddress>) -> Seq<NodeActionV>
    decreases peers.len(),
{
    if peers.len() == 0 {
        Seq::empty()
    } else {
        seq![NodeActionV::Connect(peers[0])] + spec_connect_actions(peers.drop_first())
    }
}

/// One decoded message against the node: the state both sides of the
/// exchange agree to, and the effects to perform, per message kind.
pub open spec fn spec_handle_message(
    n: NodeV,
    pm: Seq<PeerEntry>,
    peer: NetAddress,
    m: NetMessageV,
) -> (NodeV, Seq<PeerEntry>, Seq<NodeActionV>) {
    match m {
        NetMessageV::GetBlock(h) => if h < n.block_chain.len() {
            (n, pm, seq![NodeActionV::SendTo(peer, NetMessageV::NewBlock(
                n.block_chain[h as int],
            ))])
        } else {
            (n, pm, Seq::empty())
        },
        NetMessageV::NewBlock(b) => if spec_is_new_block(n, b) {
            let applied = spec_node_apply_block(n, b);
            (applied, pm, seq![
                NodeActionV::UpdateMiner,
                NodeActionV::Broadcast(NetMessageV::NewBlock(b)),
                NodeActionV::SendTo(peer, NetMessageV::GetBlock(spec_next_height(applied) as u64)),
            ])
        } else {
            (n, pm, Seq::empty())
        },
        NetMessageV::Verack(v) => {
            let greeting: Seq<NodeActionV> = if v.index == 0 {
                seq![NodeActionV::SendTo(peer, NetMessageV::Verack(VerackV {
                    index: 1,
                    height: n.height,
                }))]
            } else {
                Seq::empty()
            };
            let pull: Seq<NodeActionV> = match (v.height, n.height) {
                (Some(_), None) => seq![
                    NodeActionV::SendTo(peer, NetMessageV::GetBlock(0)),
                ],
                (Some(remote), Some(local)) => if remote > local {
                    seq![NodeActionV::SendTo(peer, NetMessageV::GetBlock(
                        spec_next_height(n) as u64,
                    ))]
                } else {
                    Seq::empty()
                },
                (None, _) => Seq::empty(),
            };
            (n, pm, greeting + pull)
        },
        NetMessageV::Transaction(t) => if spec_is_new_transaction(n, t) {
            let admitted = NodeV {
                mempool: spec_mp_add(n.mempool, TxWithFeeV {
                    transaction: t,
                    fee: spec_calculate_fee(n.utxos, t) as u128,
                }),
                ..n
            };
            (admitted, pm, seq![NodeActionV::Broadcast(NetMessageV::Transaction(t))])
        } else {
            (n, pm, Seq::empty())
        },
        NetMessageV::GetInv => (
            n, pm, seq![NodeActionV::SendTo(peer, NetMessageV::Inv(n.mempool))],
        ),
        NetMessageV::Inv(entries) => if spec_validate_mempool(n.utxos, entries) {
            (NodeV { mempool: spec_mp_update(n.mempool, entries, 0), ..n }, pm, Seq::empty())
        } else {
            (n, pm, Seq::empty())
        },
        NetMessageV::GetPeers => (
            n,
            spec_pm_reset(pm, peer),
            seq![NodeActionV::SendTo(peer, NetMessageV::Peers(
                pm.map_values(|e: PeerEntry| e.addr),
            ))],
        ),
        NetMessageV::Peers(list) => (n, pm, spec_connect_actions(list)),
        NetMessageV::Ping => (n, pm, seq![NodeActionV::SendTo(peer, NetMessageV::Pong)]),
        NetMessageV::Pong => (n, pm, Seq::empty()),
    }
}

/// One connection event against the node. A close, and a frame with an
/// empty payload, both drop the peer; an undecodable payload is dropped
/// and the connection lives on.
pub open spec fn spec_handle_event(
    n: NodeV,
    pm: Seq<PeerEntry>,
    ev: ConnectionEventV,
) -> (NodeV, Seq<PeerEntry>, Seq<NodeActionV>) {
    match ev.event {
        ConnectionTypeV::Close => (n, spec_pm_remove(pm, ev.network_address), Seq::empty()),
        ConnectionTypeV::Message(bytes) => if bytes.len() == 0 {
            (n, spec_pm_remove(pm, ev.network_address), Seq::empty())
        } else {
            match spec_message_from_bytes(bytes) {
                Some(m) => spec_handle_message(n, pm, ev.network_address, m),
                None => (n, pm, Seq::empty()),
            }
        },
    }
}

/// Drive the protocol one event forward.
pub fn handle_connection_event(
    node: &mut Node,
    peers: &mut PeerManager,
    event: ConnectionEvent,
) -> (actions: Vec<NodeAction>)
    requires
        wf_node(old(node)@),
    ensures
        wf_node(final(node)@),
        final(node)@ == spec_handle_event(old(node)@, old(peers)@, event@).0,
        final(peers)@ == spec_handle_event(old(node)@, old(peers)@, event@).1,
        actions_view(actions@) == spec_handle_event(old(node)@, old(peers)@, event@).2,
{
    let peer = event.network_address;
    let ghost expected = spec_handle_event(old(node)@, old(peers)@, event@);
    match event.event {
        ConnectionType::Close => {
            peers.remove(&peer);
            let r: Vec<NodeAction> = Vec::new();
            assert(actions_view(r@) =~= expected.2);
            r
        }
        ConnectionType::Message(msg) => {
            if msg.len() == 0 {
                peers.remove(&peer);
                let r: Vec<NodeAction> = Vec::new();
                assert(actions_view(r@) =~= expected.2);
                return r;
            }
            match NetMessage::from_bytes(&msg) {
                None => {
                    let r: Vec<NodeAction> = Vec::new();
                    assert(actions_view(r@) =~= expected.2);
                    r
                }
                Some(message) => handle_message(node, peers, peer, message),
            }
        }
    }
}

/// Dispatch one decoded message.
pub fn handle_message(
    node: &mut Node,
    peers: &mut PeerManager,
    peer: NetAddress,
    message: NetMessage,
) -> (actions: Vec<NodeAction>)
    requires
        wf_node(old(node)@),
    ensures
        wf_node(final(node)@),
        final(node)@ == spec_handle_message(old(node)@, old(peers)@, peer, message@).0,
        final(peers)@ == spec_handle_message(old(node)@, old(peers)@, peer, message@).1,
        actions_view(actions@) == spec_handle_message(old(node)@, old(peers)@, peer, message@).2,
{
    let ghost expected = spec_handle_message(old(node)@, old(peers)@, peer, message@);
    let mut actions: Vec<NodeAction> = Vec::new();
    match message {
        NetMessage::GetBlock(h) => {
            if h < node.block_chain.len() as u64 {
                let block = node.block_chain[h as usize].clone();
                assert(block@ == old(node)@.block_chain[h as int]);
                actions.push(NodeAction::SendTo(peer, NetMessage::NewBlock(block)));
            }
            assert(actions_view(actions@) =~= expected.2);
        }
        NetMessage::NewBlock(block) => {
            if node.is_new_block(&block) {
                node.add_block(&block);
                actions.push(NodeAction::UpdateMiner);
                actions.push(NodeAction::Broadcast(NetMessage::NewBlock(block)));
                let next = node.get_next_height();
                actions.push(NodeAction::SendTo(peer, NetMessage::GetBlock(next)));
            }
            assert(actions_view(actions@) =~= expected.2);
        }
        NetMessage::Verack(verack) => {
            if verack.index == 0 {
                actions.push(NodeAction::SendTo(
                    peer, NetMessage::verack(1, node.get_height()),
                ));
            }
            match (verack.height, node.get_height()) {
                (Some(_), None) => {
                    actions.push(NodeAction::SendTo(peer, NetMessage::GetBlock(0)));
                }
                (Some(remote), Some(local)) => {
                    if remote > local {
                        let next = node.get_next_height();
                        actions.push(NodeAction::SendTo(peer, NetMessage::GetBlock(next)));
                    }
                }
                (None, _) => {}
            }
            assert(actions_view(actions@) =~= expected.2);
        }
        NetMessage::Transaction(transaction) => {
            if node.is_new_transaction(&transaction) {
                let copy = transaction.clone();
                node.add_transaction(transaction);
                actions.push(NodeAction::Broadcast(NetMessage::Transaction(copy)));
            }
            assert(final(node)@ =~= expected.0);
            assert(actions_view(actions@) =~= expected.2);
        }
        NetMessage::GetInv => {
            let entries = node.mempool.to_vec();
            let snapshot = Mempool(entries);
            assert(snapshot@ == old(node)@.mempool);
            actions.push(NodeAction::SendTo(peer, NetMessage::Inv(snapshot)));
            assert(actions_view(actions@) =~= expected.2);
        }
        NetMessage::Inv(mempool) => {
            node.update_mempool(mempool);
            assert(final(node)@ =~= expected.0);
            assert(actions_view(actions@) =~= expected.2);
        }
        NetMessage::GetPeers => {
            let known = peers.get_peers();
            actions.push(NodeAction::SendTo(peer, NetMessage::Peers(known)));
            peers.reset_tick(&peer);
            assert(actions_view(actions@) =~= expected.2);
        }
        NetMessage::Peers(list) => {
            let ghost addrs = list@;
            let mut k: usize = 0;
            proof {
                assert(addrs.skip(0) =~= addrs);
                assert(actions_view(actions@) + spec_connect_actions(addrs.skip(0))
                    =~= spec_connect_actions(addrs));
            }
            while k < list.len()
                invariant
                    k <= list.len(),
                    addrs == list@,
                    spec_connect_actions(addrs) == actions_view(actions@)
                        + spec_connect_actions(addrs.skip(k as int)),
                decreases list.len() - k,
            {
                let ghost acc = actions_view(actions@);
                let ghost rest = addrs.skip(k as int);
                proof {
                    assert(rest[0] == addrs[k as int]);
                    assert(rest.drop_first() =~= addrs.skip(k + 1));
                }
                actions.push(NodeAction::Connect(list[k]));
                proof {
                    assert(actions_view(actions@) =~= acc + seq![NodeActionV::Connect(rest[0])]);
                    assert(acc + (seq![NodeActionV::Connect(rest[0])]
                        + spec_connect_actions(addrs.skip(k + 1)))
                        =~= (acc + seq![NodeActionV::Connect(rest[0])])
                            + spec_connect_actions(addrs.skip(k + 1)));
                }
                k = k + 1;
            }
            proof {
                assert(addrs.skip(addrs.len() as int) =~= Seq::<NetAddress>::empty());
                assert(actions_view(actions@) + Seq::<NodeActionV>::empty()
                    =~= actions_view(actions@));
            }
        }
        NetMessage::Ping => {
            actions.push(NodeAction::SendTo(peer, NetMessage::Pong));
            assert(actions_view(actions@) =~= expected.2);
        }
        NetMessage::Pong => {
            assert(actions_view(actions@) =~= expected.2);
        }
    }
    actions
}

} // verus!
