use ed25519_dalek::{Signer, SigningKey};
use multi_threaded_ledger::crypto::{key_file_path, load_private_key, load_public_key, setup, KeyFile};
use multi_threaded_ledger::display::short_id;
use multi_threaded_ledger::error::TransactionError;
use multi_threaded_ledger::protocol::{
    balance_response, encode_frame, frame_header, frame_length, response_for, ServerResponse,
    MAX_FRAME_LEN,
};
use multi_threaded_ledger::transaction::Transaction;
use multi_threaded_ledger::validator::{sign_transfer, transfer_message, verify_tx, VerificationTask};
use multi_threaded_ledger::wal::WalBatcher;

#[test]
fn transaction_new_refuses_zero_and_self_transfers() {
    let a = [1u8; 32];
    let b = [2u8; 32];
    assert!(matches!(Transaction::new(a, b, 0, 5, [0u8; 64], 1), Err(TransactionError::ZeroAmount)));
    assert!(matches!(Transaction::new(a, a, 3, 5, [0u8; 64], 1), Err(TransactionError::SameSenderReceiver)));
    assert!(matches!(Transaction::new(a, a, 0, 5, [0u8; 64], 1), Err(TransactionError::ZeroAmount)));
    let t = Transaction::new(a, b, 3, -5, [9u8; 64], 7).unwrap();
    assert_eq!((t.sender, t.receiver, t.amount, t.timestamp, t.sequence), (a, b, 3, -5, 7));
    assert_eq!(t.signature, [9u8; 64]);
}

#[test]
fn transfer_message_layout() {
    let m = transfer_message("al", "bo", 0x0102, -1, 3);
    let mut expected = b"albo".to_vec();
    expected.extend_from_slice(&0x0102u64.to_le_bytes());
    expected.extend_from_slice(&(-1i64).to_le_bytes());
    expected.extend_from_slice(&3u64.to_le_bytes());
    assert_eq!(m, expected);
    assert_eq!(m.len(), 28);
    assert_eq!(&m[4..6], &[2, 1]);
    assert_eq!(&m[12..20], &[0xff; 8]);
}

fn signed_task(key: &SigningKey, amount: u64) -> VerificationTask {
    let msg = transfer_message("alice", "bob", amount, 123, 4);
    let sig = key.sign(&msg);
    VerificationTask {
        sender_name: "alice".into(),
        receiver_name: "bob".into(),
        amount,
        timestamp: 123,
        signature: sig.to_bytes(),
        sequence: 4,
        sender_pubkey: key.verifying_key().to_bytes(),
    }
}

#[test]
fn verify_tx_accepts_a_good_signature_and_refuses_others() {
    let key = SigningKey::from_bytes(&[5u8; 32]);
    let good = signed_task(&key, 10);
    let ok = verify_tx(good).expect("a signed task verifies");
    assert_eq!(ok.amount, 10);

    let mut tampered = signed_task(&key, 10);
    tampered.amount = 11;
    assert!(matches!(verify_tx(tampered), Err(TransactionError::InvalidSignature)));

    let mut bad_key = signed_task(&key, 10);
    bad_key.sender_pubkey = [0u8; 32];
    bad_key.sender_pubkey[0] = 2;
    assert!(matches!(verify_tx(bad_key), Err(TransactionError::InvalidSignature)));
}

#[test]
fn key_files() {
    assert_eq!(key_file_path("alice"), "alice.key");
    let k = setup("alice").expect("randomness");
    assert_eq!(k.path, "alice.key");
    assert_eq!(k.public, SigningKey::from_bytes(&k.secret).verifying_key().to_bytes());
    assert_ne!(setup("alice").expect("randomness").secret, k.secret);

    assert_eq!(load_private_key("alice", KeyFile::Contents(k.secret.to_vec())), Ok(k.secret));
    assert_eq!(load_public_key("alice", KeyFile::Contents(k.secret.to_vec())), Ok(k.public));
    assert_eq!(
        load_private_key("bob", KeyFile::Missing),
        Err("No wallet found for 'bob'. Did you build your profile?".to_string())
    );
    assert_eq!(
        load_public_key("bob", KeyFile::Unreadable("denied".into())),
        Err("Failed to read key file: denied".to_string())
    );
    assert_eq!(
        load_private_key("bob", KeyFile::Contents(vec![1, 2, 3])),
        Err("Key File is corrupted (not 32 bytes)".to_string())
    );
    let fixed = SigningKey::from_bytes(&[3u8; 32]);
    assert_eq!(
        load_public_key("x", KeyFile::Contents(vec![3u8; 32])),
        Ok(fixed.verifying_key().to_bytes())
    );
}

#[test]
fn short_id_is_hex_of_first_four_bytes() {
    let mut key = [0u8; 32];
    key[0] = 0x01;
    key[1] = 0xab;
    key[2] = 0x00;
    key[3] = 0xff;
    key[4] = 0x77;
    assert_eq!(short_id(&key), "01ab00ff");
}

#[test]
fn frames() {
    assert_eq!(frame_header(0x01020304), [1, 2, 3, 4]);
    assert_eq!(frame_length(&frame_header(300)), Some(300));
    assert_eq!(frame_length(&frame_header(MAX_FRAME_LEN)), Some(MAX_FRAME_LEN));
    assert_eq!(frame_length(&frame_header(MAX_FRAME_LEN + 1)), None);
    assert_eq!(frame_length(&[0xff, 0xff, 0xff, 0xff]), None);
    assert_eq!(encode_frame(&[9, 8]), vec![0, 0, 0, 2, 9, 8]);
    assert_eq!(encode_frame(&[]), vec![0, 0, 0, 0]);
}

#[test]
fn responses() {
    assert!(matches!(response_for(Ok(())), ServerResponse::Success));
    match response_for(Err(TransactionError::QueueFull)) {
        ServerResponse::Error(m) => assert_eq!(m, "\nYour queue of future transactions is full."),
        _ => panic!("expected an error response"),
    }
    assert!(matches!(balance_response(Ok(77)), ServerResponse::Balance(77)));
    assert!(matches!(balance_response(Err(TransactionError::AccountNotFound)), ServerResponse::Error(_)));
}

#[test]
fn error_messages() {
    assert_eq!(TransactionError::ZeroAmount.message(), "\nTransaction amount must be greater than zero.");
    assert_eq!(TransactionError::OldSequence.message(), "\nThe sequence is a Old");
    assert_eq!(TransactionError::WalError.message(), "\nA WAL error occurred while writing to the ledger log.");
}

#[test]
fn wal_batches_in_arrival_order() {
    let mut b: WalBatcher<u32> = WalBatcher::new();
    assert!(b.on_tick().is_none());
    for i in 0..100u32 {
        assert!(b.on_message(vec![i as u8], i).is_none());
    }
    let batch = b.on_message(vec![100], 100).expect("more than a hundred entries are flushed");
    assert_eq!(batch.entries.len(), 101);
    assert_eq!(batch.confirms, (0..101).collect::<Vec<u32>>());
    assert_eq!(batch.entries[100], vec![100]);
    assert!(b.on_tick().is_none());
    assert!(b.on_message(vec![7], 7).is_none());
    let batch = b.on_tick().expect("a tick flushes what waits");
    assert_eq!(batch.entries, vec![vec![7]]);
    assert!(b.on_message(vec![8], 8).is_none());
    let last = b.on_close();
    assert_eq!(last.confirms, vec![8]);
    assert!(b.on_close().entries.is_empty());
}

#[test]
fn derived_public_keys_decode() {
    for _ in 0..4 {
        let k = setup("x").expect("randomness");
        assert!(ed25519_dalek::VerifyingKey::from_bytes(&k.public).is_ok());
    }
}

#[test]
fn a_transfer_signed_with_the_wallet_passes_the_check() {
    let k = setup("alice").expect("randomness");
    let signature = sign_transfer(&k.secret, "alice", "bob", 25, -7, 9);
    let expected = SigningKey::from_bytes(&k.secret).sign(&transfer_message("alice", "bob", 25, -7, 9));
    assert_eq!(signature, expected.to_bytes());
    let task = VerificationTask {
        sender_name: "alice".into(),
        receiver_name: "bob".into(),
        amount: 25,
        timestamp: -7,
        signature,
        sequence: 9,
        sender_pubkey: k.public,
    };
    assert!(verify_tx(task).is_ok());
    let mut other = [0u8; 32];
    other[0] = 1;
    let forged = VerificationTask {
        sender_name: "alice".into(),
        receiver_name: "bob".into(),
        amount: 25,
        timestamp: -7,
        signature: sign_transfer(&other, "alice", "bob", 25, -7, 9),
        sequence: 9,
        sender_pubkey: k.public,
    };
    assert!(matches!(verify_tx(forged), Err(TransactionError::InvalidSignature)));
}
