use solana_aggregator::codec::encode_record;
use solana_aggregator::record::TransactionData;
use solana_aggregator::store::InMemoryDatabase;

/// A transaction can be added to the database and retrieved.
#[test]
fn test_add_and_get_transaction() {
    let mut db = InMemoryDatabase::new("test_transactions.txt".to_string());

    let transaction = TransactionData {
        signature: "test_sig".to_string(),
        sender: "sender1".to_string(),
        receiver: "receiver1".to_string(),
        amount: 100,
        timestamp: 1628500000,
    };

    db.add_transaction("sender1", transaction.clone());

    let transactions = db.get_transactions("sender1");
    assert_eq!(transactions.len(), 1);
    assert_eq!(transactions[0], transaction);
}

/// Transactions can be loaded from backing-file lines into the database.
#[test]
fn test_load_from_file() {
    let mut db = InMemoryDatabase::new("persistence_test_transactions.txt".to_string());

    let transaction = TransactionData {
        signature: "persist_test_sig".to_string(),
        sender: "persist_sender".to_string(),
        receiver: "persist_receiver".to_string(),
        amount: 600,
        timestamp: 1628500000,
    };

    let lines = vec![encode_record(&transaction)];
    let loaded = db.load_from_lines(&lines);
    assert_eq!(loaded, 1);

    let transactions = db.get_transactions("persist_sender");
    assert_eq!(transactions.len(), 1);
    assert_eq!(transactions[0], transaction);
}

/// The store used by the aggregator holds and returns a stored record.
#[test]
fn test_aggregator_add_and_fetch_transaction() {
    let mut db = InMemoryDatabase::new("test_transactions.txt".to_string());

    let transaction = TransactionData {
        signature: "test_signature".to_string(),
        sender: "sender1".to_string(),
        receiver: "receiver1".to_string(),
        amount: 100,
        timestamp: 1628500000,
    };

    db.add_transaction("sender1", transaction.clone());

    let transactions = db.get_transactions("sender1");
    assert_eq!(transactions.len(), 1);
    assert_eq!(transactions[0], transaction);
}

/// An insert appends at the end of its key's sequence and changes no other
/// key's records.
#[test]
fn insert_appends_and_leaves_other_keys_alone() {
    let mut db = InMemoryDatabase::new("file.txt".to_string());
    let first = TransactionData {
        signature: "sig_a".to_string(),
        sender: "alice".to_string(),
        receiver: "bob".to_string(),
        amount: 1,
        timestamp: 10,
    };
    let second = TransactionData {
        signature: "sig_b".to_string(),
        sender: "alice".to_string(),
        receiver: "carol".to_string(),
        amount: 2,
        timestamp: 20,
    };
    let other = TransactionData {
        signature: "sig_c".to_string(),
        sender: "dave".to_string(),
        receiver: "erin".to_string(),
        amount: 3,
        timestamp: 30,
    };
    db.add_transaction("alice", first.clone());
    db.add_transaction("dave", other.clone());
    let before = db.get_transactions("alice");
    db.add_transaction("alice", second.clone());
    let after = db.get_transactions("alice");
    assert_eq!(after.len(), before.len() + 1);
    assert_eq!(after[0], first);
    assert_eq!(*after.last().unwrap(), second);
    assert_eq!(db.get_transactions("dave"), vec![other]);
    assert!(db.get_transactions("nobody").is_empty());
}

/// Reload files each record under its own sender, not the insertion key,
/// and skips corrupt lines without giving up.
#[test]
fn reload_groups_by_sender_and_skips_corrupt_lines() {
    let mut db = InMemoryDatabase::new("file.txt".to_string());
    let one = TransactionData {
        signature: "s1".to_string(),
        sender: "ka".to_string(),
        receiver: "x".to_string(),
        amount: 5,
        timestamp: 100,
    };
    let two = TransactionData {
        signature: "s2".to_string(),
        sender: "kb".to_string(),
        receiver: "y".to_string(),
        amount: 6,
        timestamp: 200,
    };
    let three = TransactionData {
        signature: "s3".to_string(),
        sender: "ka".to_string(),
        receiver: "z".to_string(),
        amount: 7,
        timestamp: 300,
    };
    let lines = vec![
        encode_record(&one),
        "garbage line".to_string(),
        encode_record(&two),
        "{\"signature\":\"unterminated".to_string(),
        encode_record(&three),
        String::new(),
    ];
    let loaded = db.load_from_lines(&lines);
    assert_eq!(loaded, 3);
    let ka = db.get_transactions("ka");
    assert_eq!(ka, vec![one, three]);
    let kb = db.get_transactions("kb");
    assert_eq!(kb, vec![two]);
}

/// The store remembers the backing file path it was created with.
#[test]
fn store_keeps_its_file_path() {
    let db = InMemoryDatabase::new("transactions.txt".to_string());
    assert_eq!(db.file_path(), "transactions.txt");
}
