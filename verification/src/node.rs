//! The node's aggregate state: chain, mempool, ledger, wallet and
//! configuration, with the admission gates and update operations that the
//! protocol and command handlers drive.

use vstd::prelude::*;
use crate::hash::{sha256, sha256_of, to_hex_chars, spec_hex_of};
use crate::block::{
    Block, BlockV, spec_block_hash, spec_meets_difficulty,
};
use crate::mempool::{
    Mempool, TxWithFeeV, wf_mempool, spec_mp_add, spec_mp_remove, spec_block_hashes,
    spec_mp_update, spec_assemble, TRANSACTIONS_PER_BLOCK,
};
use crate::transaction::{Transaction, TransactionV, spec_tx_hash};
use crate::utxos::{
    UTXOS, UtxoEntryV, wf_utxos, spec_validate_block, spec_validate_pending, spec_calculate_fee,
    spec_apply_block, spec_validate_mempool, lemma_apply_block_wf,
};
use crate::wallet::{
    Wallet, WalletV, wf_wallet, spec_wallet_apply_block, spec_owned_total,
};
use crate::mempool::spec_mp_contains;
use crate::connection::IpOctets;
use crate::api::{NodeStatus, UserStatus};

verus! {

/// The node's immutable configuration.
#[derive(PartialEq, Eq, Structural, Clone, Copy, Debug)]
pub struct Config {
    pub version: u64,
    pub reward: u64,
    pub difficulty: u64,
    pub port: u16,
    pub local_ip: IpOctets,
    pub global_ip: IpOctets,
}

impl Config {
    pub fn new(
        version: u64,
        reward: u64,
        difficulty: u64,
        port: u16,
        local_ip: IpOctets,
        global_ip: IpOctets,
    ) -> (r: Self)
        ensures
            r == (Config { version, reward, difficulty, port, local_ip, global_ip }),
    {
        Config { version, reward, difficulty, port, local_ip, global_ip }
    }

    pub fn get_port(&self) -> (r: u16)
        ensures
            r == self.port,
    {
        self.port
    }

    pub fn get_local_ip(&self) -> (r: IpOctets)
        ensures
            r == self.local_ip,
    {
        self.local_ip
    }

    pub fn get_global_ip(&self) -> (r: IpOctets)
        ensures
            r == self.global_ip,
    {
        self.global_ip
    }
}

pub struct Node {
    pub height: Option<u64>,
    pub mempool: Mempool,
    pub block_chain: Vec<Block>,
    pub config: Config,
    pub utxos: UTXOS,
    pub wallet: Wallet,
}

#[verifier::ext_equal]
pub struct NodeV {
    pub height: Option<u64>,
    pub mempool: Seq<TxWithFeeV>,
    pub block_chain: Seq<BlockV>,
    pub config: Config,
    pub utxos: Seq<UtxoEntryV>,
    pub wallet: WalletV,
}

impl View for Node {
    type V = NodeV;

    open spec fn view(&self) -> NodeV {
        NodeV {
            height: self.height,
            mempool: self.mempool@,
            block_chain: self.block_chain@.map_values(|b: Block| b@),
            config: self.config,
            utxos: self.utxos@,
            wallet: self.wallet@,
        }
    }
}

/// A node in good standing: the components in good standing, the height
/// tracking the chain, and room to count one more block.
pub open spec fn wf_node(n: NodeV) -> bool {
    &&& wf_mempool(n.mempool)
    &&& wf_utxos(n.utxos)
    &&& wf_wallet(n.wallet)
    &&& n.block_chain.len() <= 0xFFFF_FFFF_FFFF_FFFF
    &&& n.height == if n.block_chain.len() == 0 {
        None::<u64>
    } else {
        Some((n.block_chain.len() - 1) as u64)
    }
}

/// The height the next accepted block must carry.
pub open spec fn spec_next_height(n: NodeV) -> int {
    match n.height {
        None => 0,
        Some(h) => h + 1,
    }
}

/// The bytes of "hello world", whose hash anchors the genesis block.
pub open spec fn spec_genesis_seed() -> Seq<u8> {
    seq![104u8, 101u8, 108u8, 108u8, 111u8, 32u8, 119u8, 111u8, 114u8, 108u8, 100u8]
}

/// What the next block's `prev_hash` must be: the tip's hash, or the
/// genesis anchor on an empty chain.
pub open spec fn spec_prev_hash(n: NodeV) -> Seq<u8> {
    if n.block_chain.len() == 0 {
        sha256_of(spec_genesis_seed())
    } else {
        spec_block_hash(n.block_chain.last())
    }
}

/// The acceptance gate: the body validates against the current ledger, the
/// height extends the tip, and the block hash meets the configured
/// proof-of-work difficulty.
pub open spec fn spec_is_new_block(n: NodeV, b: BlockV) -> bool {
    &&& spec_validate_block(n.utxos, b, n.config.reward)
    &&& b.header.height == spec_next_height(n)
    &&& spec_meets_difficulty(spec_block_hash(b), n.config.difficulty)
}

/// The node after an accepted block: chain extended, ledger and wallet
/// updated, included transactions out of the mempool, height advanced.
pub open spec fn spec_node_apply_block(n: NodeV, b: BlockV) -> NodeV {
    NodeV {
        height: Some(spec_next_height(n) as u64),
        mempool: spec_mp_remove(n.mempool, spec_block_hashes(b.transactions)),
        block_chain: n.block_chain.push(b),
        config: n.config,
        utxos: spec_apply_block(n.utxos, b.transactions),
        wallet: WalletV {
            utxos: spec_wallet_apply_block(
                n.wallet.utxos, b.transactions, sha256_of(n.wallet.public_key),
            ),
            funds: spec_owned_total(spec_wallet_apply_block(
                n.wallet.utxos, b.transactions, sha256_of(n.wallet.public_key),
            )) as u128,
            public_key: n.wallet.public_key,
            private_key: n.wallet.private_key,
        },
    }
}

/// The admission gate for a pending transaction: it validates against the
/// ledger and is not already pooled.
pub open spec fn spec_is_new_transaction(n: NodeV, t: TransactionV) -> bool {
    &&& spec_validate_pending(n.utxos, t)
    &&& !spec_mp_contains(n.mempool, spec_tx_hash(t))
}

impl Node {
    /// A fresh node: empty chain, pool and ledger, a newly drawn wallet.
    pub fn new(config: Config) -> (r: Self)
        ensures
            wf_node(r@),
            r@.height is None,
            r@.mempool.len() == 0,
            r@.block_chain.len() == 0,
            r@.utxos.len() == 0,
            r@.config == config,
            r@.wallet.funds == 0,
    {
        let r = Node {
            height: None,
            mempool: Mempool::new(),
            block_chain: Vec::new(),
            config,
            utxos: UTXOS::new(),
            wallet: Wallet::new(),
        };
        assert(r@.block_chain =~= Seq::<BlockV>::empty());
        r
    }

    pub fn get_height(&self) -> (r: Option<u64>)
        ensures
            r == self@.height,
    {
        self.height
    }

    pub fn get_reward(&self) -> (r: u64)
        ensures
            r == self@.config.reward,
    {
        self.config.reward
    }

    pub fn get_version(&self) -> (r: u64)
        ensures
            r == self@.config.version,
    {
        self.config.version
    }

    pub fn get_difficulty(&self) -> (r: u64)
        ensures
            r == self@.config.difficulty,
    {
        self.config.difficulty
    }

    pub fn get_next_height(&self) -> (r: u64)
        requires
            wf_node(self@),
        ensures
            r == spec_next_height(self@),
    {
        match self.height {
            Some(height) => height + 1,
            None => 0,
        }
    }

    /// The hash the next block must extend.
    pub fn get_prev_hash(&self) -> (r: Vec<u8>)
        ensures
            r@ == spec_prev_hash(self@),
    {
        if self.block_chain.len() == 0 {
            let mut seed: Vec<u8> = Vec::new();
            seed.push(104); seed.push(101); seed.push(108); seed.push(108); seed.push(111);
            seed.push(32); seed.push(119); seed.push(111); seed.push(114); seed.push(108);
            seed.push(100);
            assert(seed@ =~= spec_genesis_seed());
            sha256(seed)
        } else {
            let tip = &self.block_chain[self.block_chain.len() - 1];
            assert(tip@ == self@.block_chain.last());
            tip.calculate_hash()
        }
    }

    /// The acceptance gate for a block arriving from a peer or the miner.
    pub fn is_new_block(&self, block: &Block) -> (r: bool)
        requires
            wf_node(self@),
        ensures
            r == spec_is_new_block(self@, block@),
    {
        if !self.utxos.validate_block(block, self.config.reward) {
            return false;
        }
        if block.get_height() != self.get_next_height() {
            return false;
        }
        let hash = block.calculate_hash();
        Block::meets_diffculty(&hash, self.config.difficulty)
    }

    /// Accept a block the admission check has approved.
    pub fn add_block(&mut self, block: &Block)
        requires
            wf_node(old(self)@),
        ensures
            wf_node(final(self)@),
            final(self)@ == spec_node_apply_block(old(self)@, block@),
    {
        self.block_chain.push(block.clone());
        let chain_len = self.block_chain.len();
        proof {
            assert(self@.block_chain.len() == chain_len as int);
        }
        self.mempool.add_block(block);
        self.wallet.add_block(block);
        self.utxos.add_block(block);
        match self.height {
            Some(height) => {
                self.height = Some(height + 1);
            }
            None => {
                self.height = Some(0);
            }
        }
        proof {
            lemma_apply_block_wf(old(self)@.utxos, block@.transactions);
            crate::mempool::lemma_mp_remove_wf(
                old(self)@.mempool, spec_block_hashes(block@.transactions),
            );
            assert(final(self)@.block_chain =~= old(self)@.block_chain.push(block@));
            assert(final(self)@ =~= spec_node_apply_block(old(self)@, block@));
        }
    }

    /// The admission gate for a transaction arriving from a peer or the
    /// operator.
    pub fn is_new_transaction(&self, transaction: &Transaction) -> (r: bool)
        ensures
            r == spec_is_new_transaction(self@, transaction@),
    {
        if !self.utxos.validate_pending_transaction(transaction) {
            return false;
        }
        !self.mempool.contains(transaction)
    }

    /// Pool a transaction the admission check has approved, under its computed fee.
    pub fn add_transaction(&mut self, transaction: Transaction)
        requires
            wf_node(old(self)@),
            spec_validate_pending(old(self)@.utxos, transaction@),
        ensures
            wf_node(final(self)@),
            final(self)@ == (NodeV {
                mempool: spec_mp_add(old(self)@.mempool, TxWithFeeV {
                    transaction: transaction@,
                    fee: spec_calculate_fee(old(self)@.utxos, transaction@) as u128,
                }),
                ..old(self)@
            }),
    {
        let fee = self.utxos.calculate_fee(&transaction);
        self.mempool.add_transaction(transaction, fee);
        assert(final(self)@ =~= (NodeV {
            mempool: final(self)@.mempool,
            ..old(self)@
        }));
    }

    /// Merge a peer's mempool, if every entry of it validates here.
    pub fn update_mempool(&mut self, mempool: Mempool)
        requires
            wf_node(old(self)@),
        ensures
            wf_node(final(self)@),
            spec_validate_mempool(old(self)@.utxos, mempool@) ==> final(self)@ == (NodeV {
                mempool: spec_mp_update(old(self)@.mempool, mempool@, 0),
                ..old(self)@
            }),
            !spec_validate_mempool(old(self)@.utxos, mempool@) ==> final(self)@ == old(self)@,
    {
        if self.utxos.validate_mempool(&mempool) {
            self.mempool.update(mempool);
            assert(final(self)@ =~= (NodeV {
                mempool: final(self)@.mempool,
                ..old(self)@
            }));
        } else {
            assert(final(self)@ =~= old(self)@);
        }
    }

    /// Assemble the candidate block for the miner: the highest-fee valid
    /// pending transactions behind a coinbase, on top of the current tip.
    pub fn get_next_block(&mut self) -> (r: Block)
        requires
            wf_node(old(self)@),
        ensures
            wf_node(final(self)@),
            final(self)@ == (NodeV { mempool: final(self)@.mempool, ..old(self)@ }),
            final(self)@.mempool == spec_mp_remove(
                old(self)@.mempool,
                crate::mempool::hashes_of(
                    spec_assemble(
                        old(self)@.mempool, old(self)@.utxos, (TRANSACTIONS_PER_BLOCK - 1) as nat,
                    ).1,
                ),
            ),
            r@.header.height == spec_next_height(old(self)@),
            r@.header.difficulty == old(self)@.config.difficulty,
            r@.header.version == old(self)@.config.version,
            r@.header.prev_hash == spec_prev_hash(old(self)@),
            r@.transactions.len() == 1 + spec_assemble(
                old(self)@.mempool, old(self)@.utxos, (TRANSACTIONS_PER_BLOCK - 1) as nat,
            ).0.len(),
            r@.transactions[0] == crate::transaction::spec_reward_tx(
                r@.transactions[0].timestamp,
                old(self)@.config.reward,
                sha256_of(old(self)@.wallet.public_key),
                old(self)@.config.version,
            ),
            forall|j: int| 0 <= j < spec_assemble(
                old(self)@.mempool, old(self)@.utxos, (TRANSACTIONS_PER_BLOCK - 1) as nat,
            ).0.len() ==> r@.transactions[j + 1] == crate::mempool::spec_with_fee(
                (#[trigger] spec_assemble(
                    old(self)@.mempool, old(self)@.utxos, (TRANSACTIONS_PER_BLOCK - 1) as nat,
                ).0[j]).transaction,
                sha256_of(old(self)@.wallet.public_key),
                spec_assemble(
                    old(self)@.mempool, old(self)@.utxos, (TRANSACTIONS_PER_BLOCK - 1) as nat,
                ).0[j].fee as u64,
            ),
            old(self)@.mempool.len() == 0 ==> r@.transactions.len() == 1,
    {
        let public_key = self.wallet.get_public_key();
        let reward = self.config.reward;
        let version = self.config.version;
        let height = self.get_next_height();
        let difficulty = self.config.difficulty;
        let prev_hash = self.get_prev_hash();
        let transactions = self.mempool.get_next_transactions(
            &self.utxos, &public_key, reward, version,
        );
        proof {
            crate::mempool::lemma_mp_remove_wf(
                old(self)@.mempool,
                crate::mempool::hashes_of(
                    spec_assemble(
                        old(self)@.mempool, old(self)@.utxos,
                        (TRANSACTIONS_PER_BLOCK - 1) as nat,
                    ).1,
                ),
            );
            assert(final(self)@ =~= (NodeV { mempool: final(self)@.mempool, ..old(self)@ }));
        }
        let r = Block::new(height, difficulty, version, transactions, prev_hash);
        r
    }

    /// The operator's view of the wallet: funds and the public key in
    /// hexadecimal characters.
    pub fn get_user_status(&self) -> (r: UserStatus)
        ensures
            r.amount == self@.wallet.funds,
            r.pk@ == spec_hex_of(self@.wallet.public_key),
    {
        let pk = to_hex_chars(&self.wallet.public_key);
        UserStatus::new(self.wallet.get_funds(), pk)
    }

    /// The operator's view of the node: tip height (a sentinel before
    /// genesis), pool size, difficulty.
    pub fn get_node_status(&self) -> (r: NodeStatus)
        ensures
            r.height == match self@.height {
                Some(h) => h as int,
                None => 888888,
            },
            r.mempool_size == self@.mempool.len(),
            r.difficulty == self@.config.difficulty,
    {
        let height = match self.height {
            Some(height) => height,
            None => 888888,
        };
        NodeStatus::new(height, self.mempool.size(), self.config.difficulty)
    }
}

/// Every accepted block validates against the ledger as it stood,
/// and extends the chain by exactly one height.
pub proof fn lemma_accepted_block_is_valid(n: NodeV, b: BlockV)
    requires
        spec_is_new_block(n, b),
    ensures
        spec_validate_block(n.utxos, b, n.config.reward),
        b.header.height == spec_next_height(n),
{
}

/// Every accepted block meets the configured proof-of-work
/// difficulty: the leading bytes of its hash are zero.
pub proof fn lemma_accepted_block_meets_difficulty(n: NodeV, b: BlockV)
    requires
        spec_is_new_block(n, b),
    ensures
        spec_meets_difficulty(spec_block_hash(b), n.config.difficulty),
{
}

/// The persisted round trip: decoding an encoded snapshot yields the
/// same node state.
pub proof fn lemma_node_state_round_trip(n: NodeV)
    requires
        crate::codec::wf_node_bytes(n),
    ensures
        crate::codec::dec_node_state(crate::codec::enc_node_state(n), 0) == Some(
            (n, crate::codec::enc_node_state(n).len() as int),
        ),
{
    let b = crate::codec::enc_node_state(n);
    assert(crate::codec::bytes_at(b, 0, b)) by {
        assert(b.subrange(0, b.len() as int) =~= b);
    }
    crate::codec::lemma_dec_enc_node_state(b, 0, n);
}

/// Neighbours in descending order put the whole list in descending order.
proof fn lemma_adjacent_desc(s: Seq<TxWithFeeV>, k1: int, k2: int)
    requires
        forall|j: int| 0 <= j < s.len() - 1 ==> (#[trigger] s[j]).fee >= s[j + 1].fee,
        0 <= k1 <= k2 < s.len(),
    ensures
        s[k1].fee >= s[k2].fee,
    decreases k2 - k1,
{
    if k1 < k2 {
        lemma_adjacent_desc(s, k1, k2 - 1);
        assert(s[k2 - 1].fee >= s[k2].fee);
    }
}

impl Node {
    /// Whether a node state — a loaded snapshot, say — is in good
    /// standing: pool ordered and hash-unique, ledger keys unique, wallet
    /// keys matching and funds adding up, height tracking the chain.
    /// Nothing else may be assumed of bytes read from disk.
    pub fn validate_state(&self) -> (r: bool)
        ensures
            r == wf_node(self@),
    {
        // the pool: fees descend and no hash repeats
        let entries = &self.mempool.0;
        let mut k: usize = 0;
        while entries.len() > 0 && k < entries.len() - 1
            invariant
                self@.mempool.len() == entries@.len(),
                forall|j: int| 0 <= j < entries@.len() ==> self@.mempool[j] == entries@[j]@,
                k <= entries@.len(),
                forall|j: int| 0 <= j < k && j < entries@.len() - 1
                    ==> (#[trigger] self@.mempool[j]).fee >= self@.mempool[j + 1].fee,
            decreases entries.len() - k,
        {
            if entries[k].fee < entries[k + 1].fee {
                assert(self@.mempool[k as int].fee < self@.mempool[k + 1].fee);
                assert(!crate::mempool::spec_sorted_desc(self@.mempool));
                return false;
            }
            k = k + 1;
        }
        proof {
            assert forall|k1: int, k2: int| 0 <= k1 < k2 < self@.mempool.len()
                implies (#[trigger] self@.mempool[k1]).fee
                    >= (#[trigger] self@.mempool[k2]).fee by {
                lemma_adjacent_desc(self@.mempool, k1, k2);
            }
        }
        let mut hashes: Vec<Vec<u8>> = Vec::new();
        let mut i: usize = 0;
        while i < entries.len()
            invariant
                self@.mempool.len() == entries@.len(),
                forall|j: int| 0 <= j < entries@.len() ==> self@.mempool[j] == entries@[j]@,
                i <= entries@.len(),
                hashes@.len() == i,
                forall|j: int| 0 <= j < i ==> hashes@[j]@
                    == spec_tx_hash((#[trigger] self@.mempool[j]).transaction),
                forall|k1: int, k2: int| 0 <= k1 < k2 < i
                    ==> spec_tx_hash((#[trigger] self@.mempool[k1]).transaction)
                        != spec_tx_hash((#[trigger] self@.mempool[k2]).transaction),
            decreases entries.len() - i,
        {
            let h = entries[i].transaction.get_hash();
            let mut w: usize = 0;
            while w < hashes.len()
                invariant
                    w <= hashes@.len(),
                    hashes@.len() == i,
                    h@ == spec_tx_hash(self@.mempool[i as int].transaction),
                    i < self@.mempool.len(),
                    forall|j: int| 0 <= j < i ==> hashes@[j]@
                        == spec_tx_hash((#[trigger] self@.mempool[j]).transaction),
                    forall|j: int| 0 <= j < w
                        ==> spec_tx_hash((#[trigger] self@.mempool[j]).transaction) != h@,
                decreases hashes@.len() - w,
            {
                if crate::hash::bytes_eq(&hashes[w], &h) {
                    assert(spec_tx_hash(self@.mempool[w as int].transaction)
                        == spec_tx_hash(self@.mempool[i as int].transaction));
                    assert(!crate::mempool::spec_unique_hashes(self@.mempool));
                    return false;
                }
                w = w + 1;
            }
            hashes.push(h);
            i = i + 1;
        }

        // the ledger: no key twice
        if !utxo_keys_unique(&self.utxos) {
            assert(!wf_utxos(self@.utxos));
            return false;
        }
        // the wallet: unique keys, matching key pair, scripts committed to
        // the wallet's key hash, funds adding up
        if !utxo_keys_unique(&self.wallet.utxos) {
            assert(!wf_wallet(self@.wallet));
            return false;
        }
        if !crate::keys::keys_match(&self.wallet.private_key, &self.wallet.public_key) {
            assert(!wf_wallet(self@.wallet));
            return false;
        }
        let pkh = sha256(self.wallet.public_key.clone());
        assert(pkh@ == sha256_of(self@.wallet.public_key));
        let owned = &self.wallet.utxos.0;
        let mut t: usize = 0;
        while t < owned.len()
            invariant
                self@.wallet.utxos.len() == owned@.len(),
                forall|j: int| 0 <= j < owned@.len() ==> self@.wallet.utxos[j] == owned@[j]@,
                t <= owned@.len(),
                pkh@ == sha256_of(self@.wallet.public_key),
                forall|j: int| 0 <= j < t ==> crate::script::Script::spec_locking_pkh(
                    (#[trigger] self@.wallet.utxos[j]).output.locking_script,
                ) == Some(sha256_of(self@.wallet.public_key)),
            decreases owned.len() - t,
        {
            match owned[t].output.locking_script.P2PKHLocking_get_public_key_hash() {
                Some(h) => {
                    if !crate::hash::bytes_eq(&h, &pkh) {
                        assert(crate::script::Script::spec_locking_pkh(
                            self@.wallet.utxos[t as int].output.locking_script,
                        ) != Some(sha256_of(self@.wallet.public_key)));
                        assert(!wf_wallet(self@.wallet));
                        return false;
                    }
                }
                None => {
                    assert(crate::script::Script::spec_locking_pkh(
                        self@.wallet.utxos[t as int].output.locking_script,
                    ) != Some(sha256_of(self@.wallet.public_key)));
                    assert(!wf_wallet(self@.wallet));
                    return false;
                }
            }
            t = t + 1;
        }
        let outs = owned_outputs(&self.wallet.utxos);
        let total = crate::utxos::UTXOS::get_output_value(&outs);
        proof {
            lemma_output_total_matches_owned(
                outs@.map_values(|o: crate::transaction::TxOutput| o@),
                self@.wallet.utxos,
            );
        }
        if self.wallet.funds != total {
            assert(self@.wallet.funds != spec_owned_total(self@.wallet.utxos));
            assert(!wf_wallet(self@.wallet));
            return false;
        }
        assert(wf_wallet(self@.wallet));

        // the height tracks the chain
        let len = self.block_chain.len();
        proof {
            assert(self@.block_chain.len() == len as int);
        }
        let height_ok = match self.height {
            None => len == 0,
            Some(h) => len > 0 && (h as u128) == (len as u128) - 1,
        };
        proof {
            if height_ok {
                assert(wf_node(self@));
            } else {
                match self@.height {
                    None => {
                        assert(self@.block_chain.len() != 0);
                    }
                    Some(h) => {
                        if len == 0 {
                            assert(self@.height != None::<u64>);
                        } else {
                            assert(h != (self@.block_chain.len() - 1) as u64);
                        }
                    }
                }
                assert(!wf_node(self@));
            }
        }
        height_ok
    }
}

/// The outputs the wallet owns, in entry order.
fn owned_outputs(utxos: &crate::utxos::UTXOS) -> (r: Vec<crate::transaction::TxOutput>)
    ensures
        r@.map_values(|o: crate::transaction::TxOutput| o@).len() == utxos@.len(),
        spec_output_values_match(
            r@.map_values(|o: crate::transaction::TxOutput| o@), utxos@,
        ),
{
    let mut out: Vec<crate::transaction::TxOutput> = Vec::new();
    let mut k: usize = 0;
    while k < utxos.0.len()
        invariant
            utxos@.len() == utxos.0@.len(),
            forall|j: int| 0 <= j < utxos.0@.len() ==> utxos@[j] == utxos.0@[j]@,
            k <= utxos.0@.len(),
            out@.len() == k,
            forall|j: int| 0 <= j < k ==> out@[j]@ == (#[trigger] utxos@[j]).output,
        decreases utxos.0.len() - k,
    {
        out.push(utxos.0[k].output.clone());
        k = k + 1;
    }
    assert(out@.map_values(|o: crate::transaction::TxOutput| o@).len() == utxos@.len());
    assert forall|j: int| 0 <= j < utxos@.len()
        implies out@.map_values(|o: crate::transaction::TxOutput| o@)[j]
            == (#[trigger] utxos@[j]).output by {}
    out
}

/// Each output in the first list is the corresponding ledger entry's.
pub open spec fn spec_output_values_match(
    outs: Seq<crate::transaction::TxOutputV>,
    entries: Seq<UtxoEntryV>,
) -> bool {
    forall|j: int| 0 <= j < entries.len() && j < outs.len()
        ==> outs[j] == (#[trigger] entries[j]).output
}

/// A list of entry outputs sums to the owned total.
proof fn lemma_output_total_matches_owned(
    outs: Seq<crate::transaction::TxOutputV>,
    entries: Seq<UtxoEntryV>,
)
    requires
        outs.len() == entries.len(),
        spec_output_values_match(outs, entries),
    ensures
        crate::utxos::spec_output_total(outs) == spec_owned_total(entries),
    decreases outs.len(),
{
    if outs.len() > 0 {
        assert(outs.drop_first().len() == entries.drop_first().len());
        assert forall|j: int| 0 <= j < entries.drop_first().len() && j < outs.drop_first().len()
            implies outs.drop_first()[j] == (#[trigger] entries.drop_first()[j]).output by {
            assert(outs.drop_first()[j] == outs[j + 1]);
            assert(entries.drop_first()[j] == entries[j + 1]);
        }
        lemma_output_total_matches_owned(outs.drop_first(), entries.drop_first());
        assert(outs[0] == entries[0].output);
    }
}

/// Whether a ledger's entry list carries a key twice.
fn utxo_keys_unique(utxos: &crate::utxos::UTXOS) -> (r: bool)
    ensures
        r == wf_utxos(utxos@),
{
    let entries = &utxos.0;
    let mut k2: usize = 0;
    while k2 < entries.len()
        invariant
            utxos@.len() == entries@.len(),
            forall|j: int| 0 <= j < entries@.len() ==> utxos@[j] == entries@[j]@,
            k2 <= entries@.len(),
            forall|a: int, b: int| 0 <= a < b < k2 ==> !crate::utxos::key_matches(
                #[trigger] utxos@[a], #[trigger] utxos@[b].tx_hash, utxos@[b].output_index,
            ),
        decreases entries.len() - k2,
    {
        let mut k1: usize = 0;
        while k1 < k2
            invariant
                utxos@.len() == entries@.len(),
                forall|j: int| 0 <= j < entries@.len() ==> utxos@[j] == entries@[j]@,
                k1 <= k2 < entries@.len(),
                forall|a: int| 0 <= a < k1 ==> !crate::utxos::key_matches(
                    #[trigger] utxos@[a], utxos@[k2 as int].tx_hash,
                    utxos@[k2 as int].output_index,
                ),
            decreases k2 - k1,
        {
            if crate::hash::bytes_eq(&entries[k1].tx_hash, &entries[k2].tx_hash)
                && entries[k1].output_index == entries[k2].output_index {
                assert(crate::utxos::key_matches(
                    utxos@[k1 as int], utxos@[k2 as int].tx_hash,
                    utxos@[k2 as int].output_index,
                ));
                assert(!wf_utxos(utxos@));
                return false;
            }
            k1 = k1 + 1;
        }
        k2 = k2 + 1;
    }
    true
}

impl Node {
    /// The whole node state as canonical bytes, for persistence.
    pub fn to_bytes(&self) -> (r: Vec<u8>)
        ensures
            r@ == crate::codec::enc_node_state(self@),
    {
        let mut out: Vec<u8> = Vec::new();
        crate::codec::write_node_state(&mut out, self);
        out
    }

    /// A node state read back from canonical bytes; `None` unless the
    /// buffer is exactly one encoded snapshot.
    pub fn from_bytes(bytes: &Vec<u8>) -> (r: Option<Node>)
        ensures
            match r {
                Some(n) => ({
                    &&& crate::codec::dec_node_state(bytes@, 0) matches Some((v, p))
                    &&& crate::codec::dec_node_state(bytes@, 0)->Some_0.0 == n@
                    &&& crate::codec::dec_node_state(bytes@, 0)->Some_0.1 == bytes@.len()
                }),
                None => !(crate::codec::dec_node_state(bytes@, 0) matches Some((v, p))
                    && p == bytes@.len()),
            },
    {
        match crate::codec::read_node_state(bytes.as_slice(), 0) {
            Some((n, p)) => {
                if p == bytes.len() {
                    Some(n)
                } else {
                    None
                }
            }
            None => None,
        }
    }
}

} // verus!
