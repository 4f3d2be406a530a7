//! Primitives: hashing, hex, keys, scripts, transactions, Merkle roots,
//! framing, and the wire codec.

use comp_coin::block::Block;
use comp_coin::connection::{decode_frame_len, encode_frame, NetAddress};
use comp_coin::hash::{bytes_eq, from_hex_chars, sha256, to_hex_chars};
use comp_coin::keys::{generate_keypair, sign_message, signing_key_is_valid, verify_signature};
use comp_coin::mempool::Mempool;
use comp_coin::numbers::format_number;
use comp_coin::protocol::{NetMessage, Verack};
use comp_coin::script::{compute_sig_hash, Script};
use comp_coin::transaction::{Transaction, TxOutput};

fn hex_string(bytes: &Vec<u8>) -> String {
    to_hex_chars(bytes).into_iter().collect()
}

#[test]
fn sha256_known_vector() {
    // the digest of "hello world": the genesis anchor seed
    let digest = sha256(b"hello world".to_vec());
    assert_eq!(
        hex_string(&digest),
        "b94d27b9934d3e08a52e52d7da7dabfac484efe37a5380ee9088f7ace2efcde9"
    );
}

#[test]
fn sha256_sentinel_vector() {
    // the digest of "Hello World": the Merkle root of an empty block
    let digest = sha256(b"Hello World".to_vec());
    assert_eq!(
        hex_string(&digest),
        "a591a6d40bf420404a011733cfb7b190d62c65bf0bcda32b57b277d9ad9f146e"
    );
}

#[test]
fn empty_merkle_root_is_sentinel_hash() {
    let root = Block::get_merkle_root(&Vec::new());
    assert_eq!(
        hex_string(&root),
        "a591a6d40bf420404a011733cfb7b190d62c65bf0bcda32b57b277d9ad9f146e"
    );
}

#[test]
fn merkle_root_is_deterministic_and_order_sensitive() {
    let (_, pk_a) = generate_keypair();
    let (_, pk_b) = generate_keypair();
    let t1 = Transaction::reward(10, &pk_a, 0);
    let t2 = Transaction::reward(20, &pk_b, 0);
    let r1 = Block::get_merkle_root(&vec![t1.clone(), t2.clone()]);
    let r2 = Block::get_merkle_root(&vec![t1.clone(), t2.clone()]);
    let r3 = Block::get_merkle_root(&vec![t2, t1]);
    assert_eq!(r1, r2);
    assert_ne!(r1, r3);
}

#[test]
fn merkle_root_duplicates_odd_leaf() {
    let (_, pk) = generate_keypair();
    let t1 = Transaction::reward(1, &pk, 0);
    let t2 = Transaction::reward(2, &pk, 0);
    let t3 = Transaction::reward(3, &pk, 0);
    // the leaves are the transaction hashes; with three of them the last
    // pairs with itself, so the reduction hashes [h(1,2), h(3,3)]
    let level0 = {
        let mut a = t1.get_hash();
        a.extend_from_slice(&t2.get_hash());
        let mut b = t3.get_hash();
        b.extend_from_slice(&t3.get_hash());
        vec![sha256(a), sha256(b)]
    };
    let mut joined = level0[0].clone();
    joined.extend_from_slice(&level0[1]);
    let expected = sha256(joined);
    assert_eq!(Block::get_merkle_root(&vec![t1.clone(), t2.clone(), t3.clone()]), expected);
    let leaves = vec![t1.get_hash(), t2.get_hash(), t3.get_hash()];
    assert_eq!(Block::rec_merkle_root(leaves), expected);
}

#[test]
fn hex_round_trip() {
    let bytes = vec![0xdeu8, 0xad, 0xbe, 0xef, 0x00, 0x0f];
    let chars = to_hex_chars(&bytes);
    let rendered: String = chars.iter().collect();
    assert_eq!(rendered, "deadbeef000f");
    let back = from_hex_chars(&chars).expect("valid hex");
    assert_eq!(back, bytes);
}

#[test]
fn hex_rejects_odd_and_stray_characters() {
    assert!(from_hex_chars(&vec!['a']).is_none());
    assert!(from_hex_chars(&vec!['z', 'z']).is_none());
    assert_eq!(from_hex_chars(&vec!['A', 'b']).unwrap(), vec![0xabu8]);
}

#[test]
fn bytes_eq_decides_equality() {
    assert!(bytes_eq(&vec![1, 2, 3], &vec![1, 2, 3]));
    assert!(!bytes_eq(&vec![1, 2, 3], &vec![1, 2, 4]));
    assert!(!bytes_eq(&vec![1, 2], &vec![1, 2, 3]));
}

#[test]
fn signatures_verify_and_tampering_breaks_them() {
    let (sk, pk) = generate_keypair();
    assert!(signing_key_is_valid(&sk));
    let message = b"value transfer".to_vec();
    let signature = sign_message(&sk, &message);
    assert_eq!(signature.len(), 64);
    assert!(verify_signature(&pk, &message, &signature));
    let mut tampered = message.clone();
    tampered[0] ^= 1;
    assert!(!verify_signature(&pk, &tampered, &signature));
    let mut bad_sig = signature.clone();
    bad_sig[5] ^= 1;
    assert!(!verify_signature(&pk, &message, &bad_sig));
}

#[test]
fn p2pkh_script_validates_a_signed_spend() {
    let (sk, pk) = generate_keypair();
    let pkh = sha256(pk.clone());
    let funding = TxOutput {
        value: 50,
        locking_script: Script::P2PKHLocking(pkh),
    };
    // a transaction with one unsigned input spending the funding output
    let mut tx = Transaction {
        timestamp: 7,
        version: 0,
        inputs: vec![comp_coin::transaction::TxInput {
            prev: vec![9u8; 32],
            output_index: 0,
            unlocking_script: Script::empty(),
        }],
        outputs: vec![TxOutput {
            value: 50,
            locking_script: Script::P2PKHLocking(vec![1u8; 32]),
        }],
    };
    let sig_hash = compute_sig_hash(&tx, 0, &funding);
    let signature = sign_message(&sk, &sig_hash);
    tx.inputs[0].unlocking_script = Script::P2PKHUnlocking(signature, pk.clone());
    let script = Script::concat(&tx.inputs[0].unlocking_script, &funding.locking_script);
    assert!(script.validate(&tx, 0, &funding));

    // a wrong key hash in the locking script must fail
    let wrong = TxOutput {
        value: 50,
        locking_script: Script::P2PKHLocking(vec![2u8; 32]),
    };
    let script2 = Script::concat(&tx.inputs[0].unlocking_script, &wrong.locking_script);
    assert!(!script2.validate(&tx, 0, &wrong));
}

#[test]
fn transaction_hash_changes_with_content() {
    let (_, pk) = generate_keypair();
    let t1 = Transaction::reward(10, &pk, 0);
    let mut t2 = t1.clone();
    assert_eq!(t1.get_hash(), t2.get_hash());
    t2.outputs[0].value = 11;
    assert_ne!(t1.get_hash(), t2.get_hash());
}

#[test]
fn add_fee_prepends_and_remove_fee_drops() {
    let (_, pk) = generate_keypair();
    let mut tx = Transaction::reward(10, &pk, 0);
    tx.add_fee(&pk, 3);
    assert_eq!(tx.outputs.len(), 2);
    assert_eq!(tx.outputs[0].value, 3);
    tx.remove_fee();
    assert_eq!(tx.outputs.len(), 1);
    assert_eq!(tx.outputs[0].value, 10);
}

#[test]
fn wire_messages_round_trip() {
    let (_, pk) = generate_keypair();
    let tx = Transaction::reward(42, &pk, 1);
    let block = Block::new(0, 2, 1, vec![tx.clone()], vec![7u8; 32]);
    let mut pool = Mempool::new();
    pool.add_transaction(tx.clone(), 0);
    let peers = vec![
        NetAddress::new(192, 168, 1, 7, 8333),
        NetAddress::new(10, 0, 0, 1, 9000),
    ];
    let messages = vec![
        NetMessage::GetBlock(5),
        NetMessage::NewBlock(block),
        NetMessage::Verack(Verack::new(0, Some(3))),
        NetMessage::Verack(Verack::new(1, None)),
        NetMessage::Transaction(tx),
        NetMessage::GetInv,
        NetMessage::Inv(pool),
        NetMessage::GetPeers,
        NetMessage::Peers(peers),
        NetMessage::Ping,
        NetMessage::Pong,
    ];
    for message in messages {
        let bytes = message.to_bytes();
        let back = NetMessage::from_bytes(&bytes).expect("round trip");
        assert_eq!(back.to_bytes(), bytes);
    }
}

#[test]
fn wire_decode_rejects_garbage_and_trailing_bytes() {
    assert!(NetMessage::from_bytes(&vec![255u8, 0, 1]).is_none());
    let mut bytes = NetMessage::Ping.to_bytes();
    bytes.push(0);
    assert!(NetMessage::from_bytes(&bytes).is_none());
    assert!(NetMessage::from_bytes(&Vec::new()).is_none());
}

#[test]
fn frames_carry_their_length_big_endian() {
    let payload = vec![1u8, 2, 3, 4, 5];
    let frame = encode_frame(&payload);
    assert_eq!(frame.len(), payload.len() + 4);
    assert_eq!(&frame[0..4], &[0, 0, 0, 5]);
    let len = decode_frame_len(&frame[0..4]);
    assert_eq!(len, 5);
    assert_eq!(&frame[4..], &payload[..]);

    let big = vec![0u8; 300];
    let frame2 = encode_frame(&big);
    assert_eq!(&frame2[0..4], &[0, 0, 1, 44]);
}

#[test]
fn format_number_groups_thousands() {
    let small: String = format_number(1_500).into_iter().collect();
    assert_eq!(small, "1,000");
    let large: String = format_number(2_345_678).into_iter().collect();
    assert_eq!(large, "2,345,000");
    let boundary: String = format_number(999_999).into_iter().collect();
    assert_eq!(boundary, "999,000");
}

#[test]
fn difficulty_zero_accepts_any_hash() {
    assert!(Block::meets_diffculty(&vec![0xffu8; 32], 0));
    assert!(Block::meets_diffculty(&vec![0u8, 0, 0xab], 2));
    assert!(!Block::meets_diffculty(&vec![0u8, 1, 0], 2));
    // a difficulty beyond the hash length demands all-zero bytes
    assert!(Block::meets_diffculty(&vec![0u8, 0], 5));
    assert!(!Block::meets_diffculty(&vec![0u8, 7], 5));
}

#[test]
fn nonce_and_timestamp_wrappers_produce_values() {
    let n1 = comp_coin::nonce::generate_nonce();
    let n2 = comp_coin::nonce::generate_nonce();
    assert_eq!(n1.len(), 32);
    assert_eq!(n2.len(), 32);
    // two random draws colliding would mean the generator is constant
    assert_ne!(n1, n2);
    // the clock reads a time after the library was written
    assert!(comp_coin::timestamp::get_timestamp() > 1_600_000_000);
}

#[test]
fn transaction_request_totals_and_outputs() {
    let request = comp_coin::api::TransactionRequest::new(
        vec![
            ("00ff".chars().collect(), 30),
            ("a1b2c3".chars().collect(), 12),
        ],
        5,
    );
    assert_eq!(request.calculate_total_spend(), 47);
    let outputs = request.get_outputs().expect("valid hex recipients");
    assert_eq!(outputs.len(), 2);
    assert_eq!(outputs[0].value, 30);
    assert_eq!(outputs[0].recipient, vec![0x00, 0xff]);
    assert_eq!(outputs[1].recipient, vec![0xa1, 0xb2, 0xc3]);

    let bad = comp_coin::api::TransactionRequest::new(
        vec![("xyz".chars().collect(), 1)],
        0,
    );
    assert!(bad.get_outputs().is_none());
}
