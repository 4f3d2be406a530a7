//! The peer registry: connected peers and their refresh ticks. The
//! per-peer outbound channels live with the transport, keyed by the same
//! addresses.

use vstd::prelude::*;
use crate::connection::NetAddress;

verus! {

/// How many refresh rounds a peer may stay quiet before it is asked for
/// its peers again.
pub const REFRESH_TICKS: u64 = 3;

#[derive(PartialEq, Eq, Structural, Clone, Copy, Debug)]
pub struct PeerEntry {
    pub addr: NetAddress,
    pub refresh_tick: u64,
}

/// The registry: one entry per connected peer, no address twice.
pub struct PeerManager(pub Vec<PeerEntry>);

impl View for PeerManager {
    type V = Seq<PeerEntry>;

    open spec fn view(&self) -> Seq<PeerEntry> {
        self.0@
    }
}

pub open spec fn spec_pm_contains(s: Seq<PeerEntry>, addr: NetAddress) -> bool {
    exists|k: int| 0 <= k < s.len() && (#[trigger] s[k]).addr == addr
}

/// The registry without an address.
pub open spec fn spec_pm_remove(s: Seq<PeerEntry>, addr: NetAddress) -> Seq<PeerEntry>
    decreases s.len(),
{
    if s.len() == 0 {
        Seq::empty()
    } else if s[0].addr == addr {
        spec_pm_remove(s.drop_first(), addr)
    } else {
        seq![s[0]] + spec_pm_remove(s.drop_first(), addr)
    }
}

/// Registration overwrites: the address is removed, then appended with a
/// zero tick.
pub open spec fn spec_pm_insert(s: Seq<PeerEntry>, addr: NetAddress) -> Seq<PeerEntry> {
    spec_pm_remove(s, addr).push(PeerEntry { addr, refresh_tick: 0 })
}

/// One entry after a refresh round: a due tick resets, any other advances.
pub open spec fn spec_entry_ticked(e: PeerEntry) -> PeerEntry {
    if e.refresh_tick >= REFRESH_TICKS {
        PeerEntry { addr: e.addr, refresh_tick: 0 }
    } else {
        PeerEntry { addr: e.addr, refresh_tick: (e.refresh_tick + 1) as u64 }
    }
}

pub open spec fn spec_pm_ticked(s: Seq<PeerEntry>) -> Seq<PeerEntry> {
    s.map_values(|e: PeerEntry| spec_entry_ticked(e))
}

/// The addresses whose tick came due in a refresh round.
pub open spec fn spec_pm_due(s: Seq<PeerEntry>) -> Seq<NetAddress>
    decreases s.len(),
{
    if s.len() == 0 {
        Seq::empty()
    } else if s[0].refresh_tick >= REFRESH_TICKS {
        seq![s[0].addr] + spec_pm_due(s.drop_first())
    } else {
        spec_pm_due(s.drop_first())
    }
}

/// A zero tick for an address that answered.
pub open spec fn spec_pm_reset(s: Seq<PeerEntry>, addr: NetAddress) -> Seq<PeerEntry> {
    s.map_values(|e: PeerEntry| if e.addr == addr {
        PeerEntry { addr: e.addr, refresh_tick: 0 }
    } else {
        e
    })
}

impl PeerManager {
    pub fn new() -> (r: Self)
        ensures
            r@ == Seq::<PeerEntry>::empty(),
    {
        let r = PeerManager(Vec::new());
        assert(r@ =~= Seq::<PeerEntry>::empty());
        r
    }

    pub fn contains(&self, network_address: &NetAddress) -> (r: bool)
        ensures
            r == spec_pm_contains(self@, *network_address),
    {
        let mut k: usize = 0;
        while k < self.0.len()
            invariant
                k <= self.0.len(),
                forall|j: int| 0 <= j < k ==> (#[trigger] self@[j]).addr != *network_address,
            decreases self.0.len() - k,
        {
            if self.0[k].addr == *network_address {
                return true;
            }
            k = k + 1;
        }
        false
    }

    /// Drop an address from the registry.
    pub fn remove(&mut self, network_address: &NetAddress)
        ensures
            final(self)@ == spec_pm_remove(old(self)@, *network_address),
    {
        let ghost full = self@;
        let mut kept: Vec<PeerEntry> = Vec::new();
        let mut k: usize = 0;
        proof {
            assert(full.skip(0) =~= full);
            assert(kept@ + spec_pm_remove(full.skip(0), *network_address)
                =~= spec_pm_remove(full, *network_address));
        }
        while k < self.0.len()
            invariant
                k <= self.0.len(),
                full == self@,
                spec_pm_remove(full, *network_address) == kept@
                    + spec_pm_remove(full.skip(k as int), *network_address),
            decreases self.0.len() - k,
        {
            let ghost acc = kept@;
            let ghost rest = full.skip(k as int);
            proof {
                assert(rest[0] == full[k as int]);
                assert(rest.drop_first() =~= full.skip(k + 1));
            }
            if !(self.0[k].addr == *network_address) {
                kept.push(self.0[k]);
                proof {
                    assert(kept@ =~= acc + seq![rest[0]]);
                    assert(acc + (seq![rest[0]] + spec_pm_remove(full.skip(k + 1),
                        *network_address))
                        =~= (acc + seq![rest[0]]) + spec_pm_remove(full.skip(k + 1),
                            *network_address));
                }
            }
            k = k + 1;
        }
        proof {
            assert(full.skip(full.len() as int) =~= Seq::<PeerEntry>::empty());
        }
        self.0 = kept;
        proof {
            assert(final(self)@ =~= kept@ + Seq::<PeerEntry>::empty());
        }
    }

    /// Register a peer, tick zeroed; a prior registration is replaced.
    pub fn insert(&mut self, network_address: NetAddress)
        ensures
            final(self)@ == spec_pm_insert(old(self)@, network_address),
    {
        self.remove(&network_address);
        self.0.push(PeerEntry { addr: network_address, refresh_tick: 0 });
    }

    /// Zero the tick of a peer that sent a fresh peers exchange.
    pub fn reset_tick(&mut self, peer: &NetAddress)
        ensures
            final(self)@ == spec_pm_reset(old(self)@, *peer),
    {
        let ghost full = self@;
        let mut k: usize = 0;
        while k < self.0.len()
            invariant
                k <= self.0.len(),
                self@.len() == full.len(),
                forall|j: int| 0 <= j < k ==> self@[j] == spec_pm_reset(full, *peer)[j],
                forall|j: int| k <= j < full.len() ==> self@[j] == full[j],
            decreases self.0.len() - k,
        {
            if self.0[k].addr == *peer {
                let addr = self.0[k].addr;
                self.0[k] = PeerEntry { addr, refresh_tick: 0 };
            }
            k = k + 1;
        }
        assert(final(self)@ =~= spec_pm_reset(full, *peer));
    }

    /// A snapshot of the connected addresses, for gossip.
    pub fn get_peers(&self) -> (r: Vec<NetAddress>)
        ensures
            r@ == self@.map_values(|e: PeerEntry| e.addr),
    {
        let mut out: Vec<NetAddress> = Vec::new();
        let mut k: usize = 0;
        while k < self.0.len()
            invariant
                k <= self.0.len(),
                out@.len() == k,
                forall|j: int| 0 <= j < k ==> out@[j] == (#[trigger] self@[j]).addr,
            decreases self.0.len() - k,
        {
            out.push(self.0[k].addr);
            k = k + 1;
        }
        assert(out@ =~= self@.map_values(|e: PeerEntry| e.addr));
        out
    }

    /// One refresh round: every tick advances, due ones reset; the due
    /// addresses are handed back so a peers request can be sent to each.
    pub fn tick_round(&mut self) -> (due: Vec<NetAddress>)
        ensures
            final(self)@ == spec_pm_ticked(old(self)@),
            due@ == spec_pm_due(old(self)@),
    {
        let ghost full = self@;
        let mut due: Vec<NetAddress> = Vec::new();
        let mut k: usize = 0;
        proof {
            assert(full.skip(0) =~= full);
            assert(due@ + spec_pm_due(full.skip(0)) =~= spec_pm_due(full));
        }
        while k < self.0.len()
            invariant
                k <= self.0.len(),
                self@.len() == full.len(),
                forall|j: int| 0 <= j < k ==> self@[j] == spec_pm_ticked(full)[j],
                forall|j: int| k <= j < full.len() ==> self@[j] == full[j],
                spec_pm_due(full) == due@ + spec_pm_due(full.skip(k as int)),
            decreases self.0.len() - k,
        {
            let ghost acc = due@;
            let ghost rest = full.skip(k as int);
            proof {
                assert(rest[0] == full[k as int]);
                assert(rest.drop_first() =~= full.skip(k + 1));
            }
            let entry = self.0[k];
            if entry.refresh_tick >= REFRESH_TICKS {
                due.push(entry.addr);
                self.0[k] = PeerEntry { addr: entry.addr, refresh_tick: 0 };
                proof {
                    assert(due@ =~= acc + seq![rest[0].addr]);
                    assert(acc + (seq![rest[0].addr] + spec_pm_due(full.skip(k + 1)))
                        =~= (acc + seq![rest[0].addr]) + spec_pm_due(full.skip(k + 1)));
                }
            } else {
                self.0[k] = PeerEntry {
                    addr: entry.addr,
                    refresh_tick: entry.refresh_tick + 1,
                };
            }
            k = k + 1;
        }
        proof {
            assert(full.skip(full.len() as int) =~= Seq::<PeerEntry>::empty());
            assert(due@ + Seq::<NetAddress>::empty() =~= due@);
            assert(final(self)@ =~= spec_pm_ticked(full));
        }
        due
    }
}

} // verus!
