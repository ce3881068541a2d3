use channel_node::payment::same_hash;
use channel_node::payment::HTLCStatus;
use channel_node::payment::MillisatAmount;
use channel_node::payment::PaymentInfo;
use channel_node::payment::PaymentInfoStorage;

fn info(status: HTLCStatus, amt: Option<u64>) -> PaymentInfo {
    PaymentInfo { preimage: None, secret: None, status, amt_msat: MillisatAmount(amt) }
}

#[test]
fn known_amount_is_written_in_decimal() {
    assert_eq!(MillisatAmount(Some(0)).to_string(), "0");
    assert_eq!(MillisatAmount(Some(123_456)).to_string(), "123456");
    assert_eq!(MillisatAmount(Some(u64::MAX)).to_string(), "18446744073709551615");
}

#[test]
fn missing_amount_is_written_as_unknown() {
    assert_eq!(MillisatAmount(None).to_string(), "unknown");
}

#[test]
fn same_hash_compares_every_byte() {
    let a = [7u8; 32];
    let mut b = [7u8; 32];
    assert!(same_hash(&a, &b));
    b[31] = 8;
    assert!(!same_hash(&a, &b));
    b[31] = 7;
    b[0] = 0;
    assert!(!same_hash(&a, &b));
}

#[test]
fn new_store_is_empty() {
    let store = PaymentInfoStorage::new();
    assert_eq!(store.len(), 0);
    assert_eq!(store.get(&[0u8; 32]), None);
    assert!(!store.contains_key(&[0u8; 32]));
    assert!(store.hashes().is_empty());
}

#[test]
fn insert_puts_and_replaces() {
    let mut store = PaymentInfoStorage::new();
    let first = info(HTLCStatus::Pending, Some(10));
    let second = info(HTLCStatus::Succeeded, Some(10));
    assert_eq!(store.insert([1u8; 32], first), None);
    assert_eq!(store.len(), 1);
    assert_eq!(store.get(&[1u8; 32]), Some(first));
    assert_eq!(store.insert([1u8; 32], second), Some(first));
    assert_eq!(store.len(), 1);
    assert_eq!(store.get(&[1u8; 32]), Some(second));
    assert_eq!(store.insert([2u8; 32], first), None);
    assert_eq!(store.len(), 2);
    assert_eq!(store.get(&[1u8; 32]), Some(second));
    assert_eq!(store.get(&[2u8; 32]), Some(first));
    assert_eq!(store.hashes(), vec![[1u8; 32], [2u8; 32]]);
}

#[test]
fn remove_takes_one_record_out() {
    let mut store = PaymentInfoStorage::new();
    let a = info(HTLCStatus::Pending, Some(1));
    let b = info(HTLCStatus::Failed, None);
    let c = info(HTLCStatus::Succeeded, Some(3));
    store.insert([1u8; 32], a);
    store.insert([2u8; 32], b);
    store.insert([3u8; 32], c);
    assert_eq!(store.remove(&[2u8; 32]), Some(b));
    assert_eq!(store.len(), 2);
    assert!(!store.contains_key(&[2u8; 32]));
    assert_eq!(store.get(&[1u8; 32]), Some(a));
    assert_eq!(store.get(&[3u8; 32]), Some(c));
    assert_eq!(store.remove(&[2u8; 32]), None);
    assert_eq!(store.len(), 2);
    assert_eq!(store.hashes(), vec![[1u8; 32], [3u8; 32]]);
}
