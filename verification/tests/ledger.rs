use multi_threaded_ledger::crypto::setup;
use multi_threaded_ledger::error::TransactionError;
use multi_threaded_ledger::ledger::{Ledger, LedgerAction, LedgerConfirm, Notice, Step, WalOutcome};
use multi_threaded_ledger::transaction::WalEntry;
use multi_threaded_ledger::validator::VerificationTask;

/// Carries a request to its end, every write succeeding; returns the result
/// and the entries written.
fn drive(ledger: &mut Ledger, mut step: Step, log: &mut Vec<WalEntry>) -> Result<(), TransactionError> {
    loop {
        match step.action {
            LedgerAction::Write(entry) => {
                log.push(entry);
                step = ledger.complete_write(WalOutcome::Written);
            }
            LedgerAction::Done(r) => return r,
        }
    }
}

fn setup_ledger() -> (Ledger, [u8; 32], [u8; 32]) {
    let mut ledger = Ledger::new();
    let alice_key = setup("alice").expect("randomness").public;
    let bob_key = setup("bob").expect("randomness").public;
    ledger.set_test_account("alice".into(), alice_key, 1000);
    ledger.set_test_account("bob".into(), bob_key, 500);
    (ledger, alice_key, bob_key)
}

fn alice_task(ledger: &Ledger, sequence: u64) -> VerificationTask {
    VerificationTask {
        sender_name: "alice".into(),
        receiver_name: "bob".into(),
        amount: 100,
        timestamp: 0,
        signature: [0u8; 64],
        sequence,
        sender_pubkey: ledger.key_of("alice").expect("Alice NO Sender PUB KEY"),
    }
}

fn task(sender_pubkey: [u8; 32], receiver: &str, amount: u64, sequence: u64) -> VerificationTask {
    VerificationTask {
        sender_name: "alice".into(),
        receiver_name: receiver.into(),
        amount,
        timestamp: 0,
        signature: [0u8; 64],
        sequence,
        sender_pubkey,
    }
}

#[test]
fn test_basic_transfer_update_balances() {
    let (mut ledger, _alice, _bob) = setup_ledger();
    let mut log = Vec::new();
    let t = alice_task(&ledger, 1);
    let step = ledger.add(t);
    let _ = drive(&mut ledger, step, &mut log);
    assert_eq!(ledger.get_balance("alice").expect("Alice GET BALANCE ERROR"), 900);
    assert_eq!(ledger.get_balance("bob").expect("BOB GET BALANCE ERROR"), 600);
}

#[test]
fn test_future_sequence_then_applied() {
    let (mut ledger, _alice, _bob) = setup_ledger();
    let mut log = Vec::new();
    let t = alice_task(&ledger, 2);
    let step = ledger.add(t);
    let _ = drive(&mut ledger, step, &mut log);
    assert_eq!(ledger.get_balance("alice").expect("Alice GET BALANCE ERROR"), 1000);
    assert_eq!(ledger.get_balance("bob").expect("BOB GET BALANCE ERROR"), 500);

    let t = alice_task(&ledger, 3);
    let step = ledger.add(t);
    let _ = drive(&mut ledger, step, &mut log);
    assert_eq!(ledger.get_balance("alice").expect("Alice GET BALANCE ERROR"), 1000);
    assert_eq!(ledger.get_balance("bob").expect("BOB GET BALANCE ERROR"), 500);

    let t = alice_task(&ledger, 1);
    let step = ledger.add(t);
    let _ = drive(&mut ledger, step, &mut log);
    assert_eq!(ledger.get_balance("alice").expect("Alice GET BALANCE ERROR"), 700);
    assert_eq!(ledger.get_balance("bob").expect("BOB GET BALANCE ERROR"), 800);
}

#[test]
fn queued_transfer_is_answered_queued_and_later_committed() {
    let (mut ledger, alice, _bob) = setup_ledger();
    let step = ledger.add(task(alice, "bob", 10, 2));
    assert!(matches!(step.notice, Some(Notice::Submitted(Ok(LedgerConfirm::Queued)))));
    assert!(matches!(step.action, LedgerAction::Done(Ok(()))));

    let step = ledger.add(task(alice, "bob", 10, 1));
    assert!(step.notice.is_none());
    assert!(matches!(step.action, LedgerAction::Write(WalEntry::Transfer(tx)) if tx.sequence == 1 && tx.amount == 10));
    let step = ledger.complete_write(WalOutcome::Written);
    assert!(matches!(step.notice, Some(Notice::Submitted(Ok(LedgerConfirm::Committed)))));
    assert!(matches!(step.action, LedgerAction::Write(WalEntry::Transfer(tx)) if tx.sequence == 2));
    let step = ledger.complete_write(WalOutcome::Written);
    assert!(matches!(step.notice, Some(Notice::Committed { sender, sequence: 2 }) if sender == alice));
    assert!(matches!(step.action, LedgerAction::Done(Ok(()))));
    assert_eq!(ledger.get_sequence("alice").unwrap(), 3);
}

#[test]
fn old_sequence_is_refused() {
    let (mut ledger, alice, _bob) = setup_ledger();
    let mut log = Vec::new();
    let step = ledger.add(task(alice, "bob", 10, 1));
    drive(&mut ledger, step, &mut log).unwrap();
    let step = ledger.add(task(alice, "bob", 10, 1));
    assert!(matches!(step.notice, Some(Notice::Submitted(Err(TransactionError::OldSequence)))));
    assert!(matches!(step.action, LedgerAction::Done(Ok(()))));
    assert_eq!(ledger.get_balance("alice").unwrap(), 990);
}

#[test]
fn sequence_too_far_is_refused() {
    let (mut ledger, alice, _bob) = setup_ledger();
    let step = ledger.add(task(alice, "bob", 10, 51));
    assert!(matches!(step.notice, Some(Notice::Submitted(Err(TransactionError::SequenceTooFar)))));
    let step = ledger.add(task(alice, "bob", 10, 50));
    assert!(matches!(step.notice, Some(Notice::Submitted(Ok(LedgerConfirm::Queued)))));
}

#[test]
fn duplicate_pending_sequence_is_refused() {
    let (mut ledger, alice, _bob) = setup_ledger();
    let _ = ledger.add(task(alice, "bob", 10, 5));
    let step = ledger.add(task(alice, "bob", 20, 5));
    assert!(matches!(step.notice, Some(Notice::Submitted(Err(TransactionError::DuplicateSequence)))));
}

#[test]
fn queue_holds_at_most_twenty_per_sender() {
    let (mut ledger, alice, bob) = setup_ledger();
    for s in 3..23u64 {
        let step = ledger.add(task(alice, "bob", 1, s));
        assert!(matches!(step.notice, Some(Notice::Submitted(Ok(LedgerConfirm::Queued)))));
    }
    let step = ledger.add(task(alice, "bob", 1, 23));
    assert!(matches!(step.notice, Some(Notice::Submitted(Err(TransactionError::QueueFull)))));
    let mut from_bob = task(bob, "alice", 1, 3);
    from_bob.sender_name = "bob".into();
    let step = ledger.add(from_bob);
    assert!(matches!(step.notice, Some(Notice::Submitted(Ok(LedgerConfirm::Queued)))));
}

#[test]
fn checks_before_logging() {
    let (mut ledger, alice, _bob) = setup_ledger();
    let step = ledger.add(task(alice, "bob", 1001, 1));
    assert!(matches!(step.action, LedgerAction::Done(Err(TransactionError::NotEnoughBalance))));
    let step = ledger.add(task(alice, "carol", 1, 1));
    assert!(matches!(step.action, LedgerAction::Done(Err(TransactionError::AccountNotFound))));
    let step = ledger.add(task([7u8; 32], "bob", 1, 1));
    assert!(matches!(step.action, LedgerAction::Done(Err(TransactionError::AccountNotFound))));
}

#[test]
fn receiver_key_that_does_not_decode_is_refused() {
    let (mut ledger, alice, _bob) = setup_ledger();
    // The y coordinate 2 has no point on the curve.
    let mut bad = [0u8; 32];
    bad[0] = 2;
    ledger.set_test_account("mallory".into(), bad, 0);
    let step = ledger.add(task(alice, "mallory", 1, 1));
    assert!(matches!(step.action, LedgerAction::Done(Err(TransactionError::InvalidSignature))));
    assert_eq!(ledger.get_balance("alice").unwrap(), 1000);
}

#[test]
fn failed_write_changes_nothing() {
    let (mut ledger, alice, _bob) = setup_ledger();
    let _ = ledger.add(task(alice, "bob", 100, 1));
    let step = ledger.complete_write(WalOutcome::WriteFailed);
    assert!(matches!(step.action, LedgerAction::Done(Err(TransactionError::WalError))));
    assert_eq!(ledger.get_balance("alice").unwrap(), 1000);
    assert_eq!(ledger.get_balance("bob").unwrap(), 500);
    let _ = ledger.add(task(alice, "bob", 100, 1));
    let step = ledger.complete_write(WalOutcome::EncodeFailed);
    assert!(matches!(step.action, LedgerAction::Done(Err(TransactionError::IoError))));
    assert_eq!(ledger.get_sequence("alice").unwrap(), 1);
}

#[test]
fn failed_write_of_a_queued_transfer_ends_the_request_quietly() {
    let (mut ledger, alice, _bob) = setup_ledger();
    let _ = ledger.add(task(alice, "bob", 100, 2));
    let _ = ledger.add(task(alice, "bob", 100, 1));
    let step = ledger.complete_write(WalOutcome::Written);
    assert!(matches!(step.action, LedgerAction::Write(_)));
    let step = ledger.complete_write(WalOutcome::WriteFailed);
    assert!(matches!(step.action, LedgerAction::Done(Ok(()))));
    assert_eq!(ledger.get_balance("alice").unwrap(), 900);
    assert_eq!(ledger.get_sequence("alice").unwrap(), 2);
}

#[test]
fn queued_transfer_that_fails_its_checks_is_dropped() {
    let (mut ledger, alice, _bob) = setup_ledger();
    let _ = ledger.add(task(alice, "bob", 950, 2));
    let mut log = Vec::new();
    let step = ledger.add(task(alice, "bob", 100, 1));
    assert_eq!(drive(&mut ledger, step, &mut log), Ok(()));
    assert_eq!(log.len(), 1);
    assert_eq!(ledger.get_balance("alice").unwrap(), 900);
    // the dropped transfer no longer waits: sequence 2 can be submitted anew
    let step = ledger.add(task(alice, "bob", 50, 2));
    assert_eq!(drive(&mut ledger, step, &mut log), Ok(()));
    assert_eq!(ledger.get_balance("alice").unwrap(), 850);
}

#[test]
fn profile_is_logged_then_created() {
    let mut ledger = Ledger::new();
    let key = setup("carol").expect("randomness").public;
    let step = ledger.profile("carol".into(), 42, key, 0);
    assert!(matches!(&step.action, LedgerAction::Write(WalEntry::CreateProfile { name, balance: 42, last_sequence: 0, .. }) if name == "carol"));
    assert_eq!(ledger.get_balance("carol"), Err(TransactionError::AccountNotFound));
    let step = ledger.complete_write(WalOutcome::Written);
    assert!(matches!(step.action, LedgerAction::Done(Ok(()))));
    assert_eq!(ledger.get_balance("carol"), Ok(42));
    assert_eq!(ledger.get_sequence("carol"), Ok(1));
    let step = ledger.profile("carol".into(), 1, key, 0);
    assert!(matches!(step.action, LedgerAction::Done(Err(TransactionError::AccountAlreadyExists))));
}

#[test]
fn profile_write_failures() {
    let mut ledger = Ledger::new();
    let _ = ledger.profile("carol".into(), 42, [1u8; 32], 0);
    let step = ledger.complete_write(WalOutcome::EncodeFailed);
    assert!(matches!(step.action, LedgerAction::Done(Err(TransactionError::IoError))));
    assert_eq!(ledger.get_balance("carol"), Err(TransactionError::AccountNotFound));
    let _ = ledger.profile("carol".into(), 42, [1u8; 32], 0);
    let step = ledger.complete_write(WalOutcome::WriteFailed);
    assert!(matches!(step.action, LedgerAction::Done(Err(TransactionError::WalError))));
}

#[test]
fn unknown_names_are_not_found() {
    let ledger = Ledger::new();
    assert_eq!(ledger.get_balance("nobody"), Err(TransactionError::AccountNotFound));
    assert_eq!(ledger.get_sequence("nobody"), Err(TransactionError::AccountNotFound));
}

#[test]
fn replaying_the_log_reproduces_the_accounts() {
    let mut ledger = Ledger::new();
    let mut log = Vec::new();
    let a = setup("alice").expect("randomness").public;
    let b = setup("bob").expect("randomness").public;
    let step = ledger.profile("alice".into(), 1000, a, 0);
    drive(&mut ledger, step, &mut log).unwrap();
    let step = ledger.profile("bob".into(), 500, b, 0);
    drive(&mut ledger, step, &mut log).unwrap();
    let _ = ledger.add(task(a, "bob", 30, 3));
    let step = ledger.add(task(a, "bob", 100, 1));
    drive(&mut ledger, step, &mut log).unwrap();
    let step = ledger.add(task(a, "bob", 20, 2));
    drive(&mut ledger, step, &mut log).unwrap();
    assert_eq!(log.len(), 5);

    let mut recovered = Ledger::new();
    recovered.recover(&log);
    for name in ["alice", "bob"] {
        assert_eq!(recovered.get_balance(name), ledger.get_balance(name));
        assert_eq!(recovered.get_sequence(name), ledger.get_sequence(name));
    }
    assert_eq!(recovered.get_balance("alice"), Ok(850));
    assert_eq!(recovered.get_balance("bob"), Ok(650));
}

#[test]
fn replaying_a_transfer_twice_changes_nothing_more() {
    let (mut ledger, alice, bob) = setup_ledger();
    let mut log = Vec::new();
    let step = ledger.add(task(alice, "bob", 100, 1));
    drive(&mut ledger, step, &mut log).unwrap();
    let twice = vec![log[0].clone(), log[0].clone()];
    let mut again = Ledger::new();
    again.set_test_account("alice".into(), alice, 1000);
    again.set_test_account("bob".into(), bob, 500);
    again.recover(&twice);
    assert_eq!(again.get_balance("alice"), Ok(900));
    assert_eq!(again.get_balance("bob"), Ok(600));
}

#[test]
fn lists_and_finds_transfers() {
    let (mut ledger, alice, bob) = setup_ledger();
    let mut log = Vec::new();
    let step = ledger.add(task(alice, "bob", 100, 1));
    drive(&mut ledger, step, &mut log).unwrap();
    let mut t = task(bob, "alice", 7, 1);
    t.sender_name = "bob".into();
    let step = ledger.add(t);
    drive(&mut ledger, step, &mut log).unwrap();

    let all = ledger.list_transactions(&log);
    assert_eq!(all.len(), 2);
    assert_eq!(all[0].amount, 100);
    assert_eq!(all[1].amount, 7);
    let from_bob = ledger.find_by_sender("bob", Some(&log)).unwrap();
    assert_eq!(from_bob.len(), 1);
    assert_eq!(from_bob[0].sender, bob);
    assert_eq!(from_bob[0].receiver, alice);
    assert!(matches!(ledger.find_by_sender("bob", None), Err(TransactionError::IoError)));
    assert!(matches!(ledger.find_by_sender("carol", Some(&log)), Err(TransactionError::AccountNotFound)));
    assert!(ledger.list_transactions(&Vec::new()).is_empty());
}

#[test]
fn saturating_receiver_balance() {
    let mut ledger = Ledger::new();
    let a = setup("alice").expect("randomness").public;
    let b = setup("bob").expect("randomness").public;
    ledger.set_test_account("alice".into(), a, 10);
    ledger.set_test_account("bob".into(), b, u64::MAX - 3);
    let mut log = Vec::new();
    let step = ledger.add(task(a, "bob", 10, 1));
    drive(&mut ledger, step, &mut log).unwrap();
    assert_eq!(ledger.get_balance("alice"), Ok(0));
    assert_eq!(ledger.get_balance("bob"), Ok(u64::MAX));
}

#[test]
fn reset_sequence_and_current_sequence() {
    let (mut ledger, alice, _bob) = setup_ledger();
    let mut log = Vec::new();
    let step = ledger.add(task(alice, "bob", 1, 1));
    drive(&mut ledger, step, &mut log).unwrap();
    assert_eq!(ledger.current_sequence(&alice), 1);
    ledger.reset_test_sequence(&alice);
    assert_eq!(ledger.current_sequence(&alice), 0);
    assert_eq!(ledger.current_sequence(&[9u8; 32]), 0);
    assert!(ledger.in_flight().is_none());
}

#[test]
fn recovering_twice_is_recovering_once() {
    let mut ledger = Ledger::new();
    let mut log = Vec::new();
    let a = setup("alice").expect("randomness").public;
    let b = setup("bob").expect("randomness").public;
    let step = ledger.profile("alice".into(), 1000, a, 0);
    drive(&mut ledger, step, &mut log).unwrap();
    let step = ledger.profile("bob".into(), 500, b, 0);
    drive(&mut ledger, step, &mut log).unwrap();
    let step = ledger.add(task(a, "bob", 100, 1));
    drive(&mut ledger, step, &mut log).unwrap();

    let mut once = Ledger::new();
    once.recover(&log);
    let mut twice = Ledger::new();
    twice.recover(&log);
    twice.recover(&log);
    for name in ["alice", "bob"] {
        assert_eq!(twice.get_balance(name), once.get_balance(name));
        assert_eq!(twice.get_sequence(name), once.get_sequence(name));
        assert_eq!(twice.key_of(name), once.key_of(name));
    }
    assert_eq!(twice.get_balance("alice"), Ok(900));
}

#[test]
fn a_request_keeps_the_total_balance() {
    let (mut ledger, alice, _bob) = setup_ledger();
    let total = |l: &Ledger| l.get_balance("alice").unwrap() + l.get_balance("bob").unwrap();
    let before = total(&ledger);
    let _ = ledger.add(task(alice, "bob", 30, 3));
    let _ = ledger.add(task(alice, "bob", 20, 2));
    let mut log = Vec::new();
    let step = ledger.add(task(alice, "bob", 100, 1));
    drive(&mut ledger, step, &mut log).unwrap();
    assert_eq!(log.len(), 3);
    assert_eq!(total(&ledger), before);
    assert_eq!(ledger.get_balance("alice"), Ok(850));
}

#[test]
fn registered_names_always_have_a_balance_and_sequence() {
    let (mut ledger, alice, _bob) = setup_ledger();
    ledger.reset_test_sequence(&[3u8; 32]);
    assert_eq!(ledger.get_balance("alice"), Ok(1000));
    assert_eq!(ledger.get_sequence("alice"), Ok(1));
    ledger.reset_test_sequence(&alice);
    assert_eq!(ledger.get_sequence("alice"), Ok(1));
    assert_eq!(ledger.get_balance("nobody"), Err(TransactionError::AccountNotFound));
}
