use solana_aggregator::query::{
    is_same_day, parse_date, query_transactions, Date, QueryError, TransactionQueryParams,
};
use solana_aggregator::record::TransactionData;
use solana_aggregator::store::InMemoryDatabase;

fn record(signature: &str, sender: &str, receiver: &str, amount: u64, timestamp: u64)
    -> TransactionData {
    TransactionData {
        signature: signature.to_string(),
        sender: sender.to_string(),
        receiver: receiver.to_string(),
        amount,
        timestamp,
    }
}

fn params(pub_key: &str) -> TransactionQueryParams {
    TransactionQueryParams {
        pub_key: pub_key.to_string(),
        day: None,
        limit: None,
        offset: None,
    }
}

/// The read path returns each sender's own records.
#[test]
fn test_api_get_transactions_with_mock_data() {
    let mut db = InMemoryDatabase::new("mock_test_transactions.txt".to_string());

    let transaction1 = record("mock_sig_1", "mock_sender_1", "mock_receiver_1", 1000, 1628500000);
    let transaction2 = record("mock_sig_2", "mock_sender_2", "mock_receiver_2", 2000, 1628501000);

    db.add_transaction("mock_sender_1", transaction1.clone());
    db.add_transaction("mock_sender_2", transaction2.clone());

    let response1 = query_transactions(&db, &params("mock_sender_1"));
    assert!(response1.is_ok());
    let body1 = response1.unwrap();
    assert_eq!(body1.len(), 1);
    assert_eq!(body1[0], transaction1);

    let response2 = query_transactions(&db, &params("mock_sender_2"));
    assert!(response2.is_ok());
    let body2 = response2.unwrap();
    assert_eq!(body2.len(), 1);
    assert_eq!(body2[0], transaction2);
}

/// A record at noon of a day is matched by that day and not the next.
#[test]
fn date_filter_includes_and_excludes() {
    // 2021-08-09T12:00:00Z
    let noon: u64 = 1628510400;
    let mut db = InMemoryDatabase::new("f.txt".to_string());
    db.add_transaction("k", record("sig", "k", "r", 1, noon));

    let mut p = params("k");
    p.day = Some("09/08/2021".to_string());
    let included = query_transactions(&db, &p).unwrap();
    assert_eq!(included.len(), 1);

    p.day = Some("10/08/2021".to_string());
    let excluded = query_transactions(&db, &p).unwrap();
    assert!(excluded.is_empty());
}

/// A malformed day fails with the invalid-date kind and changes nothing.
#[test]
fn malformed_day_is_rejected() {
    let mut db = InMemoryDatabase::new("f.txt".to_string());
    db.add_transaction("k", record("sig", "k", "r", 1, 1628510400));

    let mut p = params("k");
    p.day = Some("2021/08/09".to_string());
    let r = query_transactions(&db, &p);
    assert_eq!(r, Err(QueryError::InvalidDateFormat));

    // the store is untouched: the same key still answers in full
    let all = query_transactions(&db, &params("k")).unwrap();
    assert_eq!(all.len(), 1);
}

/// Pagination returns `min(max(L - offset, 0), limit)` records, sliced in
/// order.
#[test]
fn pagination_slices_in_order() {
    let mut db = InMemoryDatabase::new("f.txt".to_string());
    for i in 0..5u64 {
        db.add_transaction("k", record(&format!("sig{}", i), "k", "r", i, 1000 + i));
    }

    let mut p = params("k");
    p.limit = Some(2);
    p.offset = Some(1);
    let page = query_transactions(&db, &p).unwrap();
    assert_eq!(page.len(), 2);
    assert_eq!(page[0].signature, "sig1");
    assert_eq!(page[1].signature, "sig2");

    p.limit = Some(0);
    p.offset = Some(0);
    assert!(query_transactions(&db, &p).unwrap().is_empty());

    p.limit = Some(3);
    p.offset = Some(7);
    assert!(query_transactions(&db, &p).unwrap().is_empty());

    p.limit = Some(10);
    p.offset = Some(3);
    let tail = query_transactions(&db, &p).unwrap();
    assert_eq!(tail.len(), 2);
    assert_eq!(tail[0].signature, "sig3");
    assert_eq!(tail[1].signature, "sig4");
}

/// With no bounds given, at most five records come back, from the start.
#[test]
fn default_limit_is_five() {
    let mut db = InMemoryDatabase::new("f.txt".to_string());
    for i in 0..7u64 {
        db.add_transaction("k", record(&format!("sig{}", i), "k", "r", i, 1000 + i));
    }
    let page = query_transactions(&db, &params("k")).unwrap();
    assert_eq!(page.len(), 5);
    assert_eq!(page[0].signature, "sig0");
    assert_eq!(page[4].signature, "sig4");
}

/// The date parser accepts exactly the dd/mm/yyyy form, calendar-checked.
#[test]
fn parse_date_is_strict() {
    assert_eq!(parse_date("09/08/2021"), Some(Date { day: 9, month: 8, year: 2021 }));
    assert_eq!(parse_date("29/02/2020"), Some(Date { day: 29, month: 2, year: 2020 }));
    assert_eq!(parse_date("29/02/2021"), None);
    assert_eq!(parse_date("31/04/2021"), None);
    assert_eq!(parse_date("2021/08/09"), None);
    assert_eq!(parse_date("9/8/2021"), None);
    assert_eq!(parse_date("09-08-2021"), None);
    assert_eq!(parse_date(""), None);
    assert_eq!(parse_date("00/08/2021"), None);
    assert_eq!(parse_date("09/13/2021"), None);
}

/// Day boundaries are exact in UTC.
#[test]
fn same_day_boundaries() {
    let day = Date { day: 9, month: 8, year: 2021 };
    // midnight at the start of 2021-08-09
    assert!(is_same_day(1628467200, &day));
    // the last second of 2021-08-09
    assert!(is_same_day(1628553599, &day));
    // one second before and after
    assert!(!is_same_day(1628467199, &day));
    assert!(!is_same_day(1628553600, &day));
    // the Unix epoch falls on 1970-01-01
    assert!(is_same_day(0, &Date { day: 1, month: 1, year: 1970 }));
}
