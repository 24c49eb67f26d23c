use solana_aggregator::pipeline::{
    epoch_start_from, normalize, step, AggregatorError, FetchEvent, FetchState, NormalizeOutcome,
    TransactionDetail,
};
use solana_aggregator::store::InMemoryDatabase;

// 32 ones decode to the 32 zero bytes: a well-formed account identifier.
const GOOD_ADDRESS: &str = "11111111111111111111111111111111";

// 64 ones decode to the 64 zero bytes: a well-formed signature.
fn good_signature() -> String {
    "1".repeat(64)
}

fn detail(block_time: Option<i64>) -> TransactionDetail {
    TransactionDetail {
        block_time,
        has_meta: true,
        json_encoded: true,
        account_keys: vec!["sender_key".to_string(), "receiver_key".to_string()],
        pre_balances: vec![500, 100],
        post_balances: vec![400, 200],
    }
}

/// The epoch-start estimate subtracts two fifths of a second per slot.
#[test]
fn epoch_start_estimate() {
    assert_eq!(epoch_start_from(0, 1000), 1000);
    assert_eq!(epoch_start_from(25, 1000), 990);
    assert_eq!(epoch_start_from(3, 1000), 999);
    assert_eq!(epoch_start_from(5, -10), -12);
}

/// A transaction at the epoch boundary is kept; one just before is dropped.
#[test]
fn epoch_boundary_is_exact() {
    let before = normalize(&detail(Some(999)), 1000, "sig");
    assert!(matches!(before, NormalizeOutcome::PreEpoch));

    let at = normalize(&detail(Some(1000)), 1000, "sig");
    match at {
        NormalizeOutcome::Accepted(t) => {
            assert_eq!(t.signature, "sig");
            assert_eq!(t.sender, "sender_key");
            assert_eq!(t.receiver, "receiver_key");
            assert_eq!(t.amount, 100);
            assert_eq!(t.timestamp, 1000);
        },
        other => panic!("expected an accepted record, got {:?}", other),
    }
}

/// Missing positional accounts fall back to the sentinel label.
#[test]
fn missing_accounts_become_unknown() {
    let mut d = detail(Some(1000));
    d.account_keys = Vec::new();
    match normalize(&d, 0, "sig") {
        NormalizeOutcome::Accepted(t) => {
            assert_eq!(t.sender, "unknown");
            assert_eq!(t.receiver, "unknown");
        },
        other => panic!("expected an accepted record, got {:?}", other),
    }
}

/// A receiver whose balance decreased is rejected, not wrapped.
#[test]
fn negative_amount_is_rejected() {
    let mut d = detail(Some(1000));
    d.pre_balances = vec![100, 300];
    d.post_balances = vec![150, 250];
    assert!(matches!(normalize(&d, 0, "sig"), NormalizeOutcome::NegativeAmount));
}

/// A transaction without block time or metadata is skipped.
#[test]
fn incomplete_details_are_skipped() {
    assert!(matches!(normalize(&detail(None), 0, "sig"), NormalizeOutcome::NoBlockTime));
    let mut d = detail(Some(5));
    d.has_meta = false;
    assert!(matches!(normalize(&d, 0, "sig"), NormalizeOutcome::NoMeta));
    let mut d2 = detail(Some(5));
    d2.json_encoded = false;
    assert!(matches!(normalize(&d2, 0, "sig"), NormalizeOutcome::NotJsonEncoded));
    let mut d3 = detail(Some(5));
    d3.post_balances = vec![7];
    assert!(matches!(normalize(&d3, 0, "sig"), NormalizeOutcome::NoBalanceSlot));
}

/// One full cycle: epoch metadata, block time, signatures, one detail,
/// done; the accepted record is stored under the queried address and
/// returned.
#[test]
fn full_cycle_stores_and_returns() {
    let mut db = InMemoryDatabase::new("f.txt".to_string());

    let s1 = step(
        FetchState::ResolvingEpoch,
        FetchEvent::EpochInfo { slot_index: 0, absolute_slot: 77 },
        GOOD_ADDRESS,
        &mut db,
    );
    assert!(matches!(s1, FetchState::ResolvingBlockTime { slot_index: 0, absolute_slot: 77 }));

    let s2 = step(s1, FetchEvent::BlockTime { unix_seconds: 1000 }, GOOD_ADDRESS, &mut db);
    assert!(matches!(s2, FetchState::FetchingSignatures { epoch_start: 1000 }));

    let s3 = step(
        s2,
        FetchEvent::Signatures { signatures: vec![good_signature()] },
        GOOD_ADDRESS,
        &mut db,
    );
    assert!(matches!(s3, FetchState::FetchingDetails { next: 0, .. }));

    let s4 = step(
        s3,
        FetchEvent::Detail { detail: Some(detail(Some(1500))) },
        GOOD_ADDRESS,
        &mut db,
    );
    match s4 {
        FetchState::Done { records } => {
            assert_eq!(records.len(), 1);
            assert_eq!(records[0].signature, good_signature());
            assert_eq!(records[0].timestamp, 1500);
        },
        other => panic!("expected a finished cycle, got {:?}", other),
    }
    let stored = db.get_transactions(GOOD_ADDRESS);
    assert_eq!(stored.len(), 1);
    assert_eq!(stored[0].signature, good_signature());
}

/// A dropped pre-epoch transaction is neither returned nor stored.
#[test]
fn pre_epoch_transaction_is_not_stored() {
    let mut db = InMemoryDatabase::new("f.txt".to_string());
    let state = FetchState::FetchingDetails {
        epoch_start: 1000,
        pending: vec![good_signature()],
        next: 0,
        collected: Vec::new(),
    };
    let next = step(
        state,
        FetchEvent::Detail { detail: Some(detail(Some(999))) },
        GOOD_ADDRESS,
        &mut db,
    );
    match next {
        FetchState::Done { records } => assert!(records.is_empty()),
        other => panic!("expected a finished cycle, got {:?}", other),
    }
    assert!(db.get_transactions(GOOD_ADDRESS).is_empty());
}

/// An address the ledger rejects fails the cycle before any signature
/// fetch.
#[test]
fn invalid_address_fails_the_cycle() {
    let mut db = InMemoryDatabase::new("f.txt".to_string());
    let state = FetchState::ResolvingBlockTime { slot_index: 4, absolute_slot: 9 };
    let next = step(
        state,
        FetchEvent::BlockTime { unix_seconds: 55 },
        "this is no base58 key!!",
        &mut db,
    );
    assert!(matches!(next, FetchState::Failed { error: AggregatorError::InvalidPublicKey }));
}

/// One malformed identifier fails the whole batch.
#[test]
fn malformed_signature_fails_the_batch() {
    let mut db = InMemoryDatabase::new("f.txt".to_string());
    let state = FetchState::FetchingSignatures { epoch_start: 0 };
    let bad = "!!!not-base58".to_string();
    let next = step(
        state,
        FetchEvent::Signatures { signatures: vec![good_signature(), bad.clone()] },
        GOOD_ADDRESS,
        &mut db,
    );
    // the first signature is fine, so the batch starts there
    assert!(matches!(next, FetchState::FetchingDetails { next: 0, .. }));
    let after = step(
        next,
        FetchEvent::Detail { detail: None },
        GOOD_ADDRESS,
        &mut db,
    );
    match after {
        FetchState::Failed { error: AggregatorError::ParseSignatureError(s) } => {
            assert_eq!(s, bad);
        },
        other => panic!("expected a signature parse failure, got {:?}", other),
    }
}

/// A fetch failure of one transaction skips that one and goes on.
#[test]
fn one_failed_detail_is_skipped() {
    let mut db = InMemoryDatabase::new("f.txt".to_string());
    let state = FetchState::FetchingDetails {
        epoch_start: 0,
        pending: vec![good_signature(), good_signature()],
        next: 0,
        collected: Vec::new(),
    };
    let mid = step(state, FetchEvent::Detail { detail: None }, GOOD_ADDRESS, &mut db);
    assert!(matches!(mid, FetchState::FetchingDetails { next: 1, .. }));
    let done = step(
        mid,
        FetchEvent::Detail { detail: Some(detail(Some(10))) },
        GOOD_ADDRESS,
        &mut db,
    );
    match done {
        FetchState::Done { records } => assert_eq!(records.len(), 1),
        other => panic!("expected a finished cycle, got {:?}", other),
    }
}

/// A failed remote call for epoch metadata fails the cycle.
#[test]
fn epoch_resolution_failure_fails_the_cycle() {
    let mut db = InMemoryDatabase::new("f.txt".to_string());
    let next = step(
        FetchState::ResolvingEpoch,
        FetchEvent::EpochInfoFailed { cause: "connection refused".to_string() },
        GOOD_ADDRESS,
        &mut db,
    );
    assert!(matches!(
        next,
        FetchState::Failed { error: AggregatorError::FetchTransactionError(_) }
    ));

    let next2 = step(
        FetchState::FetchingSignatures { epoch_start: 0 },
        FetchEvent::SignaturesFailed { cause: "timeout".to_string() },
        GOOD_ADDRESS,
        &mut db,
    );
    assert!(matches!(
        next2,
        FetchState::Failed { error: AggregatorError::FetchSignaturesError(_) }
    ));
}

/// A deadline that fires mid-cycle fails the cycle with the timeout kind,
/// and records stored before it remain queryable.
#[test]
fn deadline_keeps_already_stored_records() {
    let mut db = InMemoryDatabase::new("f.txt".to_string());
    let state = FetchState::FetchingDetails {
        epoch_start: 0,
        pending: vec![good_signature(), good_signature()],
        next: 0,
        collected: Vec::new(),
    };
    // the first detail arrives and is stored
    let mid = step(
        state,
        FetchEvent::Detail { detail: Some(detail(Some(10))) },
        GOOD_ADDRESS,
        &mut db,
    );
    assert!(matches!(mid, FetchState::FetchingDetails { next: 1, .. }));
    assert_eq!(db.get_transactions(GOOD_ADDRESS).len(), 1);

    // then the deadline fires
    let timed_out = step(mid, FetchEvent::DeadlineExceeded, GOOD_ADDRESS, &mut db);
    assert!(matches!(timed_out, FetchState::Failed { error: AggregatorError::Elapsed }));

    // what was stored before the deadline remains
    assert_eq!(db.get_transactions(GOOD_ADDRESS).len(), 1);
}
