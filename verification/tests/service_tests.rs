//! End-to-end tests of the service: the send workflow, reads, deletes, and
//! the id-consumption behaviour of failed transfers.

use buysomeoneacoffee::service::CoffeeService;
use buysomeoneacoffee::service::settle_balance;
use buysomeoneacoffee::types::BalanceOutcome;
use buysomeoneacoffee::types::CoffeeMessage;
use buysomeoneacoffee::types::ErrorKind;
use buysomeoneacoffee::types::MessagePayload;
use buysomeoneacoffee::types::TransferOutcome;
use candid::Nat;

fn payload(name: &str, message: &str, receiver: &str, amount: u64) -> MessagePayload {
    MessagePayload {
        name: name.to_owned(),
        message: message.to_owned(),
        amount: Nat::from(amount),
        receiver: receiver.to_owned(),
    }
}

fn ok_send(svc: &mut CoffeeService, name: &str, message: &str, receiver: &str, ts: u64) -> Nat {
    let r = svc.send_message(
        payload(name, message, receiver, 10),
        TransferOutcome::Transferred(Nat::from(ts + 100)),
        ts,
    );
    match r {
        Ok(n) => n,
        Err(e) => panic!("send unexpectedly failed: {}", e.msg),
    }
}

fn get_ok(svc: &CoffeeService, id: u64) -> CoffeeMessage {
    match svc.get_message(id) {
        Ok(m) => m,
        Err(e) => panic!("get_message({}) unexpectedly failed: {}", id, e.msg),
    }
}

#[test]
fn successful_send_commits_record() {
    let mut svc = CoffeeService::init();
    let value = ok_send(&mut svc, "alice", "have a coffee", "receiver-account", 7);
    assert_eq!(value, Nat::from(107u64));
    let m = get_ok(&svc, 1);
    assert_eq!(m.id, 1);
    assert_eq!(m.name, "alice");
    assert_eq!(m.message, "have a coffee");
    assert_eq!(m.receiver, "receiver-account");
    assert_eq!(m.timestamp, 7);
}

#[test]
fn get_message_unknown_id_is_not_found() {
    let svc = CoffeeService::init();
    match svc.get_message(42) {
        Ok(_) => panic!("expected not found"),
        Err(e) => {
            assert_eq!(e.kind, ErrorKind::NotFound);
            assert_eq!(e.msg, "message not found");
        }
    }
}

#[test]
fn repeated_reads_are_identical() {
    let mut svc = CoffeeService::init();
    ok_send(&mut svc, "bob", "hi", "acc", 1);
    let a = get_ok(&svc, 1);
    let b = get_ok(&svc, 1);
    assert_eq!(a.id, b.id);
    assert_eq!(a.name, b.name);
    assert_eq!(a.message, b.message);
    assert_eq!(a.receiver, b.receiver);
    assert_eq!(a.timestamp, b.timestamp);
}

#[test]
fn delete_then_get_and_double_delete() {
    let mut svc = CoffeeService::init();
    ok_send(&mut svc, "carol", "first", "acc", 3);
    let deleted = match svc.delete_message(1) {
        Ok(m) => m,
        Err(e) => panic!("first delete failed: {}", e.msg),
    };
    assert_eq!(deleted.id, 1);
    assert_eq!(deleted.message, "first");
    match svc.get_message(1) {
        Ok(_) => panic!("deleted record still readable"),
        Err(e) => assert_eq!(e.kind, ErrorKind::NotFound),
    }
    match svc.delete_message(1) {
        Ok(_) => panic!("second delete found a record"),
        Err(e) => assert_eq!(e.kind, ErrorKind::NotFound),
    }
}

#[test]
fn three_sends_delete_middle_then_fourth_send() {
    let mut svc = CoffeeService::init();
    ok_send(&mut svc, "a", "one", "acc", 1);
    ok_send(&mut svc, "b", "two", "acc", 2);
    ok_send(&mut svc, "c", "three", "acc", 3);
    match svc.delete_message(2) {
        Ok(m) => assert_eq!(m.message, "two"),
        Err(e) => panic!("delete failed: {}", e.msg),
    }
    match svc.get_message(2) {
        Ok(_) => panic!("id 2 should be gone"),
        Err(e) => assert_eq!(e.kind, ErrorKind::NotFound),
    }
    let one = get_ok(&svc, 1);
    assert_eq!(one.message, "one");
    assert_eq!(one.timestamp, 1);
    let three = get_ok(&svc, 3);
    assert_eq!(three.message, "three");
    assert_eq!(three.timestamp, 3);
    ok_send(&mut svc, "d", "four", "acc", 4);
    let four = get_ok(&svc, 4);
    assert_eq!(four.id, 4);
    assert_eq!(four.message, "four");
    match svc.get_message(2) {
        Ok(_) => panic!("id 2 must never be reused"),
        Err(e) => assert_eq!(e.kind, ErrorKind::NotFound),
    }
}

#[test]
fn failed_transfer_consumes_id_and_stores_nothing() {
    let mut svc = CoffeeService::init();
    for ts in 1..5u64 {
        ok_send(&mut svc, "a", "ok", "acc", ts);
    }
    let r = svc.send_message(
        payload("e", "will fail", "acc", 10),
        TransferOutcome::Refused("ledger transfer error InsufficientFunds".to_owned()),
        5,
    );
    match r {
        Ok(_) => panic!("failed transfer reported success"),
        Err(e) => {
            assert_eq!(e.kind, ErrorKind::Transfer);
            assert_eq!(e.msg, "ledger transfer error InsufficientFunds");
        }
    }
    match svc.get_message(5) {
        Ok(_) => panic!("aborted send left a record"),
        Err(e) => assert_eq!(e.kind, ErrorKind::NotFound),
    }
    ok_send(&mut svc, "f", "after failure", "acc", 6);
    let six = get_ok(&svc, 6);
    assert_eq!(six.id, 6);
    assert_eq!(six.message, "after failure");
    match svc.get_message(5) {
        Ok(_) => panic!("id 5 must stay unused"),
        Err(e) => assert_eq!(e.kind, ErrorKind::NotFound),
    }
}

#[test]
fn call_failure_is_a_transfer_error_with_the_observed_message() {
    let mut svc = CoffeeService::init();
    let r = svc.send_message(
        payload("a", "m", "acc", 1),
        TransferOutcome::CallFailed("failed to call ledger: timeout".to_owned()),
        1,
    );
    match r {
        Ok(_) => panic!("call failure reported success"),
        Err(e) => {
            assert_eq!(e.kind, ErrorKind::Transfer);
            assert_eq!(e.msg, "failed to call ledger: timeout");
        }
    }
}

#[test]
fn oversized_record_is_fatal_and_not_stored() {
    let mut svc = CoffeeService::init();
    let big = "x".repeat(1100);
    let r = svc.send_message(
        payload("a", &big, "acc", 1),
        TransferOutcome::Transferred(Nat::from(1u64)),
        1,
    );
    match r {
        Ok(_) => panic!("oversized record was accepted"),
        Err(e) => assert_eq!(e.kind, ErrorKind::Fatal),
    }
    match svc.get_message(1) {
        Ok(_) => panic!("oversized record was stored"),
        Err(e) => assert_eq!(e.kind, ErrorKind::NotFound),
    }
    ok_send(&mut svc, "b", "small", "acc", 2);
    let m = get_ok(&svc, 2);
    assert_eq!(m.id, 2);
}

#[test]
fn two_phase_sends_interleave_safely() {
    let mut svc = CoffeeService::init();
    assert_eq!(svc.last_issued(), 0);
    let id_a = svc.begin_send();
    let id_b = svc.begin_send();
    assert_eq!(id_a, 1);
    assert_eq!(id_b, 2);
    assert_eq!(svc.last_issued(), 2);
    // The later transfer resolves first; each in-flight send holds its own id.
    let rb = svc.finish_send(
        id_b,
        "b".to_owned(),
        "second".to_owned(),
        "acc".to_owned(),
        TransferOutcome::Transferred(Nat::from(2u64)),
        20,
    );
    assert!(rb.is_ok());
    match svc.get_message(id_a) {
        Ok(_) => panic!("id 1 committed before its transfer resolved"),
        Err(e) => assert_eq!(e.kind, ErrorKind::NotFound),
    }
    let ra = svc.finish_send(
        id_a,
        "a".to_owned(),
        "first".to_owned(),
        "acc".to_owned(),
        TransferOutcome::Transferred(Nat::from(1u64)),
        21,
    );
    assert!(ra.is_ok());
    assert_eq!(get_ok(&svc, 1).message, "first");
    assert_eq!(get_ok(&svc, 2).message, "second");
}

#[test]
fn load_on_fresh_memory_starts_empty() {
    // Re-initialization from a memory nothing was persisted to yields the
    // zero counter and the empty store.
    let mut svc = match CoffeeService::load() {
        Ok(s) => s,
        Err(e) => panic!("load failed on fresh memory: {}", e.msg),
    };
    assert_eq!(svc.last_issued(), 0);
    match svc.get_message(1) {
        Ok(_) => panic!("fresh store held a record"),
        Err(e) => assert_eq!(e.kind, ErrorKind::NotFound),
    }
    ok_send(&mut svc, "a", "first after load", "acc", 1);
    let m = get_ok(&svc, 1);
    assert_eq!(m.message, "first after load");
}

#[test]
fn settle_balance_maps_both_outcomes() {
    match settle_balance(BalanceOutcome::Got(Nat::from(55u64))) {
        Ok(n) => assert_eq!(n, Nat::from(55u64)),
        Err(_) => panic!("balance outcome lost"),
    }
    match settle_balance(BalanceOutcome::CallFailed("failed to call ledger: down".to_owned())) {
        Ok(_) => panic!("call failure reported a balance"),
        Err(e) => {
            assert_eq!(e.kind, ErrorKind::Transfer);
            assert_eq!(e.msg, "failed to call ledger: down");
        }
    }
}
