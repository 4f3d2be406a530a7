//! Blocks: header and body, Merkle root, hashing, and the proof-of-work
//! test that one mining attempt makes.

use vstd::prelude::*;
use crate::hash::{sha256, sha256_of};
use crate::nonce::generate_nonce;
use crate::timestamp::get_timestamp;
use crate::transaction::{Transaction, TransactionV, txs_view, clone_transactions};
use crate::codec::{enc_transaction, enc_block, write_block};

verus! {

pub struct BlockHeader {
    pub prev_hash: Vec<u8>,
    pub merkle_root: Vec<u8>,
    pub timestamp: u64,
    pub difficulty: u64,
    pub nonce: Vec<u8>,
    pub version: u64,
    pub height: u64,
}

#[verifier::ext_equal]
pub struct BlockHeaderV {
    pub prev_hash: Seq<u8>,
    pub merkle_root: Seq<u8>,
    pub timestamp: u64,
    pub difficulty: u64,
    pub nonce: Seq<u8>,
    pub version: u64,
    pub height: u64,
}

impl View for BlockHeader {
    type V = BlockHeaderV;

    open spec fn view(&self) -> BlockHeaderV {
        BlockHeaderV {
            prev_hash: self.prev_hash@,
            merkle_root: self.merkle_root@,
            timestamp: self.timestamp,
            difficulty: self.difficulty,
            nonce: self.nonce@,
            version: self.version,
            height: self.height,
        }
    }
}

impl Clone for BlockHeader {
    fn clone(&self) -> (res: Self)
        ensures
            res@ == self@,
    {
        let prev_hash = self.prev_hash.clone();
        let merkle_root = self.merkle_root.clone();
        let nonce = self.nonce.clone();
        assert(prev_hash@ =~= self.prev_hash@);
        assert(merkle_root@ =~= self.merkle_root@);
        assert(nonce@ =~= self.nonce@);
        BlockHeader {
            prev_hash,
            merkle_root,
            timestamp: self.timestamp,
            difficulty: self.difficulty,
            nonce,
            version: self.version,
            height: self.height,
        }
    }
}

pub struct Block {
    pub header: BlockHeader,
    pub transactions: Vec<Transaction>,
}

#[verifier::ext_equal]
pub struct BlockV {
    pub header: BlockHeaderV,
    pub transactions: Seq<TransactionV>,
}

impl View for Block {
    type V = BlockV;

    open spec fn view(&self) -> BlockV {
        BlockV { header: self.header@, transactions: txs_view(self.transactions@) }
    }
}

impl Clone for Block {
    fn clone(&self) -> (res: Self)
        ensures
            res@ == self@,
    {
        Block {
            header: self.header.clone(),
            transactions: clone_transactions(&self.transactions),
        }
    }
}

/// The Merkle sentinel: the bytes of "Hello World", hashed when a block has
/// no transactions.
pub open spec fn sentinel_bytes() -> Seq<u8> {
    seq![72u8, 101u8, 108u8, 108u8, 111u8, 32u8, 87u8, 111u8, 114u8, 108u8, 100u8]
}

/// One pairwise-hash reduction level: neighbours are hashed together; an
/// odd leftover is paired with itself.
pub open spec fn spec_merkle_level(leaves: Seq<Seq<u8>>) -> Seq<Seq<u8>>
    decreases leaves.len(),
{
    if leaves.len() == 0 {
        Seq::empty()
    } else if leaves.len() == 1 {
        seq![sha256_of(leaves[0] + leaves[0])]
    } else {
        seq![sha256_of(leaves[0] + leaves[1])] + spec_merkle_level(leaves.skip(2))
    }
}

pub proof fn lemma_merkle_level_len(leaves: Seq<Seq<u8>>)
    ensures
        spec_merkle_level(leaves).len() == (leaves.len() + 1) / 2,
    decreases leaves.len(),
{
    if leaves.len() >= 2 {
        lemma_merkle_level_len(leaves.skip(2));
    }
}

/// The Merkle root of a list of leaves: pairwise reduction to one digest.
pub open spec fn spec_merkle_root(leaves: Seq<Seq<u8>>) -> Seq<u8>
    decreases leaves.len(),
    via spec_merkle_root_decreases
{
    if leaves.len() == 0 {
        sha256_of(sentinel_bytes())
    } else if leaves.len() == 1 {
        sha256_of(leaves[0] + leaves[0])
    } else if leaves.len() == 2 {
        sha256_of(leaves[0] + leaves[1])
    } else {
        spec_merkle_root(spec_merkle_level(leaves))
    }
}

#[via_fn]
proof fn spec_merkle_root_decreases(leaves: Seq<Seq<u8>>) {
    if leaves.len() > 2 {
        lemma_merkle_level_len(leaves);
    }
}

/// The leaves a block's Merkle root is built from: each transaction's
/// hash, in block order.
pub open spec fn spec_block_leaves(txs: Seq<TransactionV>) -> Seq<Seq<u8>> {
    txs.map_values(|t: TransactionV| crate::transaction::spec_tx_hash(t))
}

/// The block identity: the SHA-256 digest of the canonical encoding of the
/// whole block, header and transactions.
pub open spec fn spec_block_hash(b: BlockV) -> Seq<u8> {
    sha256_of(enc_block(b))
}

/// A hash meets difficulty `d` when its first `d` bytes are zero (all of
/// them, if it is shorter than `d`).
pub open spec fn spec_meets_difficulty(hash: Seq<u8>, difficulty: u64) -> bool {
    forall|i: int| 0 <= i < hash.len() && i < difficulty ==> #[trigger] hash[i] == 0
}

/// At difficulty zero every hash qualifies, so the first mining attempt
/// wins.
pub proof fn lemma_difficulty_zero_always_met(hash: Seq<u8>)
    ensures
        spec_meets_difficulty(hash, 0),
{
}

/// Same transaction list, same Merkle root: the root is a function of the
/// ordered list of transaction hashes.
pub proof fn lemma_merkle_root_deterministic(t1: Seq<TransactionV>, t2: Seq<TransactionV>)
    requires
        t1 == t2,
    ensures
        spec_merkle_root(spec_block_leaves(t1)) == spec_merkle_root(spec_block_leaves(t2)),
{
}

fn concat_bytes(a: &Vec<u8>, b: &Vec<u8>) -> (r: Vec<u8>)
    ensures
        r@ == a@ + b@,
{
    let mut r = a.clone();
    let mut tail = b.clone();
    r.append(&mut tail);
    assert(r@ =~= a@ + b@);
    r
}

/// One pairwise reduction pass over the leaves.
fn merkle_pass(leaves: &Vec<Vec<u8>>) -> (r: Vec<Vec<u8>>)
    ensures
        r@.map_values(|v: Vec<u8>| v@) == spec_merkle_level(leaves@.map_values(|v: Vec<u8>| v@)),
{
    let ghost full = leaves@.map_values(|v: Vec<u8>| v@);
    let mut out: Vec<Vec<u8>> = Vec::new();
    let mut i: usize = 0;
    assert(full.skip(0) =~= full);
    assert(out@.map_values(|v: Vec<u8>| v@) + spec_merkle_level(full.skip(0))
        =~= spec_merkle_level(full));
    while i < leaves.len()
        invariant
            i <= leaves.len(),
            full == leaves@.map_values(|v: Vec<u8>| v@),
            full.len() == leaves@.len(),
            spec_merkle_level(full) == out@.map_values(|v: Vec<u8>| v@)
                + spec_merkle_level(full.skip(i as int)),
        decreases leaves.len() - i,
    {
        let ghost acc = out@.map_values(|v: Vec<u8>| v@);
        let ghost rest = full.skip(i as int);
        if i + 1 < leaves.len() {
            let joined = concat_bytes(&leaves[i], &leaves[i + 1]);
            assert(joined@ == rest[0] + rest[1]);
            out.push(sha256(joined));
            proof {
                assert(rest.skip(2) =~= full.skip(i + 2));
                assert(out@.map_values(|v: Vec<u8>| v@) =~= acc + seq![sha256_of(rest[0] + rest[1])]);
                assert(acc + (seq![sha256_of(rest[0] + rest[1])] + spec_merkle_level(full.skip(i + 2)))
                    =~= (acc + seq![sha256_of(rest[0] + rest[1])]) + spec_merkle_level(full.skip(i + 2)));
            }
            i = i + 2;
        } else {
            let joined = concat_bytes(&leaves[i], &leaves[i]);
            assert(joined@ == rest[0] + rest[0]);
            out.push(sha256(joined));
            proof {
                assert(rest.len() == 1);
                assert(out@.map_values(|v: Vec<u8>| v@) =~= acc + seq![sha256_of(rest[0] + rest[0])]);
                assert(full.skip(i + 1) =~= Seq::<Seq<u8>>::empty());
                assert(acc + (seq![sha256_of(rest[0] + rest[0])] + spec_merkle_level(full.skip(i + 1)))
                    =~= (acc + seq![sha256_of(rest[0] + rest[0])]) + spec_merkle_level(full.skip(i + 1)));
            }
            i = i + 1;
        }
    }
    proof {
        assert(full.skip(full.len() as int) =~= Seq::<Seq<u8>>::empty());
        assert(out@.map_values(|v: Vec<u8>| v@) + Seq::<Seq<u8>>::empty()
            =~= out@.map_values(|v: Vec<u8>| v@));
    }
    out
}

impl Block {
    /// Reduce encoded-transaction leaves to the Merkle root.
    pub fn rec_merkle_root(transactions: Vec<Vec<u8>>) -> (r: Vec<u8>)
        ensures
            r@ == spec_merkle_root(transactions@.map_values(|v: Vec<u8>| v@)),
        decreases transactions@.len(),
    {
        let ghost full = transactions@.map_values(|v: Vec<u8>| v@);
        if transactions.len() == 0 {
            let mut sentinel: Vec<u8> = Vec::new();
            sentinel.push(72); sentinel.push(101); sentinel.push(108); sentinel.push(108);
            sentinel.push(111); sentinel.push(32); sentinel.push(87); sentinel.push(111);
            sentinel.push(114); sentinel.push(108); sentinel.push(100);
            assert(sentinel@ =~= sentinel_bytes());
            sha256(sentinel)
        } else if transactions.len() == 1 {
            let joined = concat_bytes(&transactions[0], &transactions[0]);
            assert(joined@ == full[0] + full[0]);
            sha256(joined)
        } else if transactions.len() == 2 {
            let joined = concat_bytes(&transactions[0], &transactions[1]);
            assert(joined@ == full[0] + full[1]);
            sha256(joined)
        } else {
            let next = merkle_pass(&transactions);
            proof {
                lemma_merkle_level_len(full);
            }
            Self::rec_merkle_root(next)
        }
    }

    /// The Merkle root over the canonical encodings of `transactions`.
    pub fn get_merkle_root(transactions: &Vec<Transaction>) -> (r: Vec<u8>)
        ensures
            r@ == spec_merkle_root(spec_block_leaves(txs_view(transactions@))),
    {
        let mut leaves: Vec<Vec<u8>> = Vec::new();
        let mut i: usize = 0;
        while i < transactions.len()
            invariant
                i <= transactions.len(),
                leaves@.len() == i,
                forall|j: int| 0 <= j < i ==> leaves@[j]@
                    == crate::transaction::spec_tx_hash(transactions@[j]@),
            decreases transactions.len() - i,
        {
            leaves.push(transactions[i].get_hash());
            i = i + 1;
        }
        assert(leaves@.map_values(|v: Vec<u8>| v@)
            =~= spec_block_leaves(txs_view(transactions@)));
        Self::rec_merkle_root(leaves)
    }

    /// Assemble a block: compute the Merkle root of `transactions`, stamp
    /// the current time and a fresh random nonce.
    pub fn new(
        height: u64,
        difficulty: u64,
        version: u64,
        transactions: Vec<Transaction>,
        prev_hash: Vec<u8>,
    ) -> (r: Self)
        ensures
            r@.header.height == height,
            r@.header.difficulty == difficulty,
            r@.header.version == version,
            r@.header.prev_hash == prev_hash@,
            r@.header.merkle_root == spec_merkle_root(spec_block_leaves(txs_view(transactions@))),
            r@.header.nonce.len() == 32,
            r@.transactions == txs_view(transactions@),
    {
        let merkle_root = Self::get_merkle_root(&transactions);
        Block {
            header: BlockHeader {
                prev_hash,
                merkle_root,
                timestamp: get_timestamp(),
                difficulty,
                nonce: generate_nonce(),
                version,
                height,
            },
            transactions,
        }
    }

    pub fn get_height(&self) -> (r: u64)
        ensures
            r == self@.header.height,
    {
        self.header.height
    }

    pub fn get_difficulty(&self) -> (r: u64)
        ensures
            r == self@.header.difficulty,
    {
        self.header.difficulty
    }

    pub fn get_transactions(&self) -> (r: Vec<Transaction>)
        ensures
            txs_view(r@) == self@.transactions,
    {
        clone_transactions(&self.transactions)
    }

    /// The first `difficulty` bytes of `hash` are all zero.
    #[allow(non_snake_case)]
    pub fn meets_diffculty(hash: &Vec<u8>, difficulty: u64) -> (r: bool)
        ensures
            r == spec_meets_difficulty(hash@, difficulty),
    {
        let mut i: usize = 0;
        while i < hash.len() && (i as u64) < difficulty
            invariant
                i <= hash@.len(),
                forall|j: int| 0 <= j < i && j < difficulty ==> #[trigger] hash@[j] == 0,
            decreases hash@.len() - i,
        {
            if hash[i] != 0 {
                return false;
            }
            i = i + 1;
        }
        true
    }

    pub fn to_bytes(&self) -> (r: Vec<u8>)
        ensures
            r@ == enc_block(self@),
    {
        let mut out: Vec<u8> = Vec::new();
        write_block(&mut out, self);
        out
    }

    pub fn calculate_hash(&self) -> (r: Vec<u8>)
        ensures
            r@ == spec_block_hash(self@),
            r@.len() == 32,
    {
        sha256(self.to_bytes())
    }

    /// Draw a fresh random nonce into the header.
    pub fn update_nonce(&mut self)
        ensures
            final(self)@.header.prev_hash == old(self)@.header.prev_hash,
            final(self)@.header.merkle_root == old(self)@.header.merkle_root,
            final(self)@.header.timestamp == old(self)@.header.timestamp,
            final(self)@.header.difficulty == old(self)@.header.difficulty,
            final(self)@.header.version == old(self)@.header.version,
            final(self)@.header.height == old(self)@.header.height,
            final(self)@.header.nonce.len() == 32,
            final(self)@.transactions == old(self)@.transactions,
    {
        self.header.nonce = generate_nonce();
    }

    /// A throwaway sample block, for exercising callers by hand: fixed
    /// header fields, one coinbase paying a fresh key.
    pub fn temp_block() -> (r: Self)
        ensures
            r@.header.height == 0,
            r@.header.difficulty == 3,
            r@.transactions.len() == 1,
    {
        let (_, public_key) = crate::keys::generate_keypair();
        let reward_tx = Transaction::reward(100, &public_key, 0);
        let mut prev_hash: Vec<u8> = Vec::new();
        prev_hash.push(104); prev_hash.push(101); prev_hash.push(108); prev_hash.push(108);
        prev_hash.push(111);
        let r = Block {
            header: BlockHeader {
                prev_hash,
                merkle_root: Self::get_merkle_root(&vec![reward_tx.clone()]),
                timestamp: 100,
                difficulty: 3,
                nonce: generate_nonce(),
                version: 0,
                height: 0,
            },
            transactions: vec![reward_tx],
        };
        assert(r@.transactions.len() == 1);
        r
    }

    /// One proof-of-work attempt: draw a nonce, hash the block, test the
    /// difficulty. The caller loops until a stop is requested; at
    /// difficulty zero the first attempt succeeds.
    pub fn mine_attempt(&mut self) -> (found: bool)
        ensures
            found == spec_meets_difficulty(
                spec_block_hash(final(self)@),
                final(self)@.header.difficulty,
            ),
            final(self)@.header.prev_hash == old(self)@.header.prev_hash,
            final(self)@.header.merkle_root == old(self)@.header.merkle_root,
            final(self)@.header.timestamp == old(self)@.header.timestamp,
            final(self)@.header.difficulty == old(self)@.header.difficulty,
            final(self)@.header.version == old(self)@.header.version,
            final(self)@.header.height == old(self)@.header.height,
            final(self)@.transactions == old(self)@.transactions,
    {
        self.update_nonce();
        let hash = self.calculate_hash();
        Self::meets_diffculty(&hash, self.header.difficulty)
    }
}

} // verus!
