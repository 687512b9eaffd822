use escrow_ledger::EscrowContract;
use escrow_ledger::EscrowError;

#[test]
fn create_and_read_back() {
    let mut c = EscrowContract::new();
    assert_eq!(
        c.create("E1".to_string(), "Alice".to_string(), "Bob".to_string(), 500),
        Ok(())
    );
    let rec = c.get(&"E1".to_string()).unwrap();
    assert_eq!(rec.id, "E1");
    assert_eq!(rec.sender, "Alice");
    assert_eq!(rec.receiver, "Bob");
    assert_eq!(rec.amount, 500);
    assert!(!rec.completed);
}

#[test]
fn duplicate_create_fails_and_changes_nothing() {
    let mut c = EscrowContract::new();
    assert_eq!(
        c.create("E1".to_string(), "Alice".to_string(), "Bob".to_string(), 500),
        Ok(())
    );
    assert_eq!(
        c.create("E1".to_string(), "Alice".to_string(), "Bob".to_string(), 500),
        Err(EscrowError::AlreadyExists)
    );
    let rec = c.get(&"E1".to_string()).unwrap();
    assert_eq!(rec.id, "E1");
    assert_eq!(rec.sender, "Alice");
    assert_eq!(rec.receiver, "Bob");
    assert_eq!(rec.amount, 500);
    assert!(!rec.completed);
}

#[test]
fn duplicate_create_fails_for_any_arguments() {
    let mut c = EscrowContract::new();
    assert_eq!(
        c.create("E1".to_string(), "Alice".to_string(), "Bob".to_string(), 500),
        Ok(())
    );
    assert_eq!(
        c.create("E1".to_string(), "Carol".to_string(), "Dave".to_string(), -7),
        Err(EscrowError::AlreadyExists)
    );
    let rec = c.get(&"E1".to_string()).unwrap();
    assert_eq!(rec.sender, "Alice");
    assert_eq!(rec.receiver, "Bob");
    assert_eq!(rec.amount, 500);
}

#[test]
fn release_by_receiver_is_not_sender() {
    let mut c = EscrowContract::new();
    assert_eq!(
        c.create("E1".to_string(), "Alice".to_string(), "Bob".to_string(), 500),
        Ok(())
    );
    assert_eq!(
        c.release(&"E1".to_string(), &"Bob".to_string()),
        Err(EscrowError::NotSender)
    );
    assert!(!c.get(&"E1".to_string()).unwrap().completed);
}

#[test]
fn refund_by_stranger_is_not_sender() {
    let mut c = EscrowContract::new();
    assert_eq!(
        c.create("E1".to_string(), "Alice".to_string(), "Bob".to_string(), 500),
        Ok(())
    );
    assert_eq!(
        c.refund(&"E1".to_string(), &"Carol".to_string()),
        Err(EscrowError::NotSender)
    );
    assert!(!c.get(&"E1".to_string()).unwrap().completed);
}

#[test]
fn release_by_sender_completes() {
    let mut c = EscrowContract::new();
    assert_eq!(
        c.create("E1".to_string(), "Alice".to_string(), "Bob".to_string(), 500),
        Ok(())
    );
    assert_eq!(c.release(&"E1".to_string(), &"Alice".to_string()), Ok(()));
    assert!(c.get(&"E1".to_string()).unwrap().completed);
}

#[test]
fn refund_after_release_is_already_completed() {
    let mut c = EscrowContract::new();
    assert_eq!(
        c.create("E1".to_string(), "Alice".to_string(), "Bob".to_string(), 500),
        Ok(())
    );
    assert_eq!(c.release(&"E1".to_string(), &"Alice".to_string()), Ok(()));
    assert_eq!(
        c.refund(&"E1".to_string(), &"Alice".to_string()),
        Err(EscrowError::AlreadyCompleted)
    );
}

#[test]
fn settlement_is_terminal_for_any_caller() {
    let mut c = EscrowContract::new();
    assert_eq!(
        c.create("E1".to_string(), "Alice".to_string(), "Bob".to_string(), 500),
        Ok(())
    );
    assert_eq!(c.refund(&"E1".to_string(), &"Alice".to_string()), Ok(()));
    assert_eq!(
        c.release(&"E1".to_string(), &"Alice".to_string()),
        Err(EscrowError::AlreadyCompleted)
    );
    assert_eq!(
        c.release(&"E1".to_string(), &"Bob".to_string()),
        Err(EscrowError::AlreadyCompleted)
    );
    assert_eq!(
        c.refund(&"E1".to_string(), &"Carol".to_string()),
        Err(EscrowError::AlreadyCompleted)
    );
    assert!(c.get(&"E1".to_string()).unwrap().completed);
}

#[test]
fn release_of_missing_record_is_not_found() {
    let mut c = EscrowContract::new();
    assert_eq!(
        c.create("E1".to_string(), "Alice".to_string(), "Bob".to_string(), 500),
        Ok(())
    );
    assert_eq!(
        c.release(&"E2".to_string(), &"Alice".to_string()),
        Err(EscrowError::NotFound)
    );
}

#[test]
fn missing_record_read_and_settlement() {
    let mut c = EscrowContract::new();
    assert!(c.get(&"E9".to_string()).is_none());
    assert_eq!(
        c.release(&"E9".to_string(), &"Alice".to_string()),
        Err(EscrowError::NotFound)
    );
    assert_eq!(
        c.refund(&"E9".to_string(), &"Alice".to_string()),
        Err(EscrowError::NotFound)
    );
}

#[test]
fn repeated_reads_are_identical() {
    let mut c = EscrowContract::new();
    assert_eq!(
        c.create("E1".to_string(), "Alice".to_string(), "Bob".to_string(), 500),
        Ok(())
    );
    let a = c.get(&"E1".to_string()).unwrap();
    let b = c.get(&"E1".to_string()).unwrap();
    assert_eq!(a.id, b.id);
    assert_eq!(a.sender, b.sender);
    assert_eq!(a.receiver, b.receiver);
    assert_eq!(a.amount, b.amount);
    assert_eq!(a.completed, b.completed);
}

#[test]
fn create_after_settlement_is_already_exists() {
    let mut c = EscrowContract::new();
    assert_eq!(
        c.create("E1".to_string(), "Alice".to_string(), "Bob".to_string(), 500),
        Ok(())
    );
    assert_eq!(c.release(&"E1".to_string(), &"Alice".to_string()), Ok(()));
    assert_eq!(
        c.create("E1".to_string(), "Alice".to_string(), "Bob".to_string(), 500),
        Err(EscrowError::AlreadyExists)
    );
    assert!(c.get(&"E1".to_string()).unwrap().completed);
}

#[test]
fn unvalidated_amounts_and_parties_are_accepted() {
    let mut c = EscrowContract::new();
    assert_eq!(
        c.create("Z".to_string(), "Alice".to_string(), "Alice".to_string(), 0),
        Ok(())
    );
    assert_eq!(
        c.create("N".to_string(), "Alice".to_string(), "Bob".to_string(), -500),
        Ok(())
    );
    assert_eq!(
        c.create("M".to_string(), "Alice".to_string(), "Bob".to_string(), i128::MIN),
        Ok(())
    );
    assert_eq!(c.get(&"Z".to_string()).unwrap().amount, 0);
    assert_eq!(c.get(&"N".to_string()).unwrap().amount, -500);
    assert_eq!(c.get(&"M".to_string()).unwrap().amount, i128::MIN);
    assert_eq!(c.release(&"N".to_string(), &"Alice".to_string()), Ok(()));
    assert!(c.get(&"N".to_string()).unwrap().completed);
}

#[test]
fn empty_identifier_is_a_key_like_any_other() {
    let mut c = EscrowContract::new();
    assert_eq!(
        c.create("".to_string(), "Alice".to_string(), "Bob".to_string(), 1),
        Ok(())
    );
    assert_eq!(c.get(&"".to_string()).unwrap().amount, 1);
    assert!(c.get(&"E1".to_string()).is_none());
    assert_eq!(
        c.create("".to_string(), "Carol".to_string(), "Dave".to_string(), 2),
        Err(EscrowError::AlreadyExists)
    );
}

#[test]
fn records_are_independent_across_identifiers() {
    let mut c = EscrowContract::new();
    assert_eq!(
        c.create("E1".to_string(), "Alice".to_string(), "Bob".to_string(), 500),
        Ok(())
    );
    assert_eq!(
        c.create("E2".to_string(), "Carol".to_string(), "Dave".to_string(), 900),
        Ok(())
    );
    assert_eq!(c.release(&"E1".to_string(), &"Alice".to_string()), Ok(()));
    assert!(c.get(&"E1".to_string()).unwrap().completed);
    assert!(!c.get(&"E2".to_string()).unwrap().completed);
    assert_eq!(c.refund(&"E2".to_string(), &"Carol".to_string()), Ok(()));
    assert!(c.get(&"E2".to_string()).unwrap().completed);
    assert_eq!(c.get(&"E2".to_string()).unwrap().sender, "Carol");
}
