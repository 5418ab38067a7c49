//! The voice crypto layer: round trips, replay protection, the nonce
//! window, and the telemetry counters.

use mumble_core::crypt::{CryptError, CryptState};

#[test]
fn encrypt_decrypt_roundtrip_fresh_pair() {
    let mut tx = CryptState::new(0xfeed_beef, 0);
    let mut rx = CryptState::new(0xfeed_beef, 0);
    let plain: Vec<u8> = vec![10, 20, 30, 40, 50];
    let packet = tx.encrypt(&plain);
    assert_eq!(packet.len(), plain.len() + 5);
    assert_eq!(packet[0], 1); // low byte of the first nonce
    let out = rx.decrypt(&packet, 77).unwrap();
    assert_eq!(out, plain);
    assert_eq!(rx.good, 1);
    assert_eq!(rx.late, 0);
    assert_eq!(rx.lost, 0);
    assert_eq!(rx.last_good, 77);
    assert_eq!(rx.decrypt_nonce, 1);
}

#[test]
fn wrong_key_is_mac_mismatch() {
    let mut tx = CryptState::new(1, 0);
    let mut rx = CryptState::new(2, 0);
    let packet = tx.encrypt(&vec![1, 2, 3]);
    assert_eq!(rx.decrypt(&packet, 5), Err(CryptError::MacMismatch));
    assert_eq!(rx.good, 0);
    assert_eq!(rx.last_good, 0);
}

#[test]
fn short_packet_is_mac_mismatch() {
    let mut rx = CryptState::new(1, 0);
    assert_eq!(rx.decrypt(&vec![1, 2, 3, 4], 5), Err(CryptError::MacMismatch));
}

#[test]
fn duplicate_is_repeat() {
    let mut tx = CryptState::new(9, 0);
    let mut rx = CryptState::new(9, 0);
    let packet = tx.encrypt(&vec![7]);
    assert!(rx.decrypt(&packet, 1).is_ok());
    assert_eq!(rx.decrypt(&packet, 2), Err(CryptError::Repeat));
    assert_eq!(rx.good, 1);
}

#[test]
fn out_of_order_then_replay() {
    let mut tx = CryptState::new(5, 0);
    let mut rx = CryptState::new(5, 0);
    let p1 = tx.encrypt(&vec![1]);
    let p2 = tx.encrypt(&vec![2]);
    // Packet 2 arrives first: one nonce skipped, counted as lost.
    assert_eq!(rx.decrypt(&p2, 1).unwrap(), vec![2]);
    assert_eq!(rx.lost, 1);
    // Packet 1 arrives late but inside the window: still delivered.
    assert_eq!(rx.decrypt(&p1, 2).unwrap(), vec![1]);
    assert_eq!(rx.good, 2);
    // Replaying packet 1 is caught by the window.
    assert_eq!(rx.decrypt(&p1, 3), Err(CryptError::Replay));
}

#[test]
fn far_behind_is_late() {
    let mut tx = CryptState::new(5, 0);
    let mut rx = CryptState::new(5, 0);
    let p1 = tx.encrypt(&vec![1]);
    let mut latest = Vec::new();
    for _ in 0..40 {
        latest = tx.encrypt(&vec![9]);
    }
    assert!(rx.decrypt(&latest, 1).is_ok());
    assert_eq!(rx.decrypt(&p1, 2), Err(CryptError::Late));
    assert_eq!(rx.late, 1);
}

#[test]
fn reset_decrypt_restarts_the_window() {
    let mut tx = CryptState::new(5, 0);
    let mut rx = CryptState::new(5, 0);
    let p = tx.encrypt(&vec![1]);
    assert!(rx.decrypt(&p, 1).is_ok());
    rx.reset_decrypt(50);
    assert_eq!(rx.decrypt_nonce, 0);
    assert_eq!(rx.resync, 1);
    assert_eq!(rx.last_good, 50);
    // The sender keeps counting; the next packet re-synchronizes forward.
    let p2 = tx.encrypt(&vec![2]);
    assert_eq!(rx.decrypt(&p2, 51).unwrap(), vec![2]);
}

#[test]
fn snapshot_reports_counters() {
    let mut tx = CryptState::new(3, 0);
    let mut rx = CryptState::new(3, 0);
    let p = tx.encrypt(&vec![4, 5]);
    rx.decrypt(&p, 9).unwrap();
    assert_eq!(rx.snapshot(), (1, 0, 0, 0, 9));
}
