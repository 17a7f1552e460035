//! Tests of the record codec and the lower store and allocator components.

use buysomeoneacoffee::codec::check_record_fits;
use buysomeoneacoffee::codec::decode_record;
use buysomeoneacoffee::codec::encode_record;
use buysomeoneacoffee::ids::IdAllocator;
use buysomeoneacoffee::stable::stable_fresh;
use buysomeoneacoffee::store::MessageStore;
use buysomeoneacoffee::types::CoffeeMessage;

fn fresh_store() -> MessageStore {
    let (_cell, map) = stable_fresh();
    match MessageStore::from_map(map, u64::MAX) {
        Ok(s) => s,
        Err(e) => panic!("fresh store failed validation: {}", e.msg),
    }
}

fn record(id: u64, name: &str, message: &str, receiver: &str, timestamp: u64) -> CoffeeMessage {
    CoffeeMessage {
        id,
        name: name.to_owned(),
        message: message.to_owned(),
        receiver: receiver.to_owned(),
        timestamp,
    }
}

#[test]
fn codec_round_trip_plain_text() {
    let m = record(9, "dan", "thanks for everything", "some-account-id", 123456789);
    let bytes = encode_record(&m);
    let back = decode_record(&bytes).expect("round trip failed");
    assert_eq!(back.id, 9);
    assert_eq!(back.name, "dan");
    assert_eq!(back.message, "thanks for everything");
    assert_eq!(back.receiver, "some-account-id");
    assert_eq!(back.timestamp, 123456789);
}

#[test]
fn codec_round_trip_non_ascii_text() {
    let m = record(3, "Zoë", "café ☕ for you — merci", "compte-reçu", 42);
    let bytes = encode_record(&m);
    let back = decode_record(&bytes).expect("round trip failed");
    assert_eq!(back.name, "Zoë");
    assert_eq!(back.message, "café ☕ for you — merci");
    assert_eq!(back.receiver, "compte-reçu");
}

#[test]
fn codec_exact_bytes_of_empty_record() {
    // Version byte, then id 1, three empty fields, timestamp 2 as five
    // eight-byte little-endian integers.
    let m = record(1, "", "", "", 2);
    let bytes = encode_record(&m);
    let mut expected = vec![0u8; 41];
    expected[0] = 1; // format version
    expected[1] = 1; // id
    expected[33] = 2; // timestamp
    assert_eq!(bytes, expected);
}

#[test]
fn codec_length_formula() {
    // 41 bytes of fixed fields plus four bytes per character.
    let m = record(7, "ab", "cde", "f", 0);
    let bytes = encode_record(&m);
    assert_eq!(bytes.len(), 41 + 4 * (2 + 3 + 1));
    // A two-byte UTF-8 character still takes exactly four bytes here.
    let m2 = record(7, "é", "", "", 0);
    assert_eq!(encode_record(&m2).len(), 45);
}

#[test]
fn decode_rejects_unknown_format_version() {
    let m = record(5, "a", "b", "c", 6);
    let mut bytes = encode_record(&m);
    assert_eq!(bytes[0], 1);
    bytes[0] = 2;
    assert!(decode_record(&bytes).is_none());
}

#[test]
fn decode_rejects_garbage_and_truncation() {
    assert!(decode_record(&vec![1, 2, 3]).is_none());
    let m = record(5, "a", "b", "c", 6);
    let mut bytes = encode_record(&m);
    bytes.pop();
    assert!(decode_record(&bytes).is_none());
    let mut padded = encode_record(&m);
    padded.push(0);
    assert!(decode_record(&padded).is_none());
}

#[test]
fn record_size_bound() {
    let small = record(1, "a", "b", "c", 0);
    assert!(check_record_fits(&small));
    // 41 + 4 * 1013 == 4093 <= 4096: the largest char count still fits.
    let at_bound = record(1, "", &"x".repeat(1013), "", 0);
    assert!(check_record_fits(&at_bound));
    let over = record(1, "", &"x".repeat(1014), "", 0);
    assert!(!check_record_fits(&over));
}

#[test]
fn store_insert_get_remove() {
    let mut store = fresh_store();
    assert!(store._get_message(&1).is_none());
    let m = record(1, "a", "hello", "acc", 10);
    store.do_insert(&m);
    let got = store._get_message(&1).expect("inserted record missing");
    assert_eq!(got.id, 1);
    assert_eq!(got.message, "hello");
    // Upsert overwrites silently.
    let m2 = record(1, "a", "rewritten", "acc", 11);
    store.do_insert(&m2);
    let got2 = store._get_message(&1).expect("overwritten record missing");
    assert_eq!(got2.message, "rewritten");
    assert_eq!(got2.timestamp, 11);
    let removed = store.remove(&1).expect("remove found nothing");
    assert_eq!(removed.message, "rewritten");
    assert!(store.remove(&1).is_none());
    assert!(store._get_message(&1).is_none());
}

#[test]
fn allocator_counts_up_from_one() {
    let (cell, _map) = stable_fresh();
    let mut ids = IdAllocator::new(cell);
    assert_eq!(ids.last_issued(), 0);
    assert_eq!(ids.allocate(), 1);
    assert_eq!(ids.allocate(), 2);
    assert_eq!(ids.allocate(), 3);
    assert_eq!(ids.last_issued(), 3);
}
