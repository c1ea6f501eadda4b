use murmel_core::address::{address_key, PeerAddress};
use murmel_core::error::SPVError;
use murmel_core::peerstore::{
    Endpoint, Finalize, PeerDraw, PeerRow, PeerWrite, StoredPeer, TxScope, BAN_WINDOW,
    DRAW_ATTEMPTS,
};
use std::collections::HashMap;

fn apply(table: &mut HashMap<String, PeerRow>, w: PeerWrite) {
    match w {
        PeerWrite::SetLastSeen { key, last_seen } => {
            if let Some(r) = table.get_mut(&key) {
                r.last_seen = last_seen;
            }
        }
        PeerWrite::Insert { key, row } => {
            table.insert(key, row);
        }
        PeerWrite::SetBannedUntil { key, banned_until } => {
            if let Some(r) = table.get_mut(&key) {
                r.banned_until = banned_until;
            }
        }
        PeerWrite::Delete { key } => {
            table.remove(&key);
        }
    }
}

fn peer() -> PeerAddress {
    PeerAddress { address: [0, 0, 0, 0, 0, 0xffff, 0x0a00, 0x0001], port: 8333, services: 9 }
}

#[test]
fn clean_scope_commits_as_noop() {
    let scope = TxScope::open();
    assert_eq!(scope.commit(), Finalize::Skip);
}

#[test]
fn written_scope_commits() {
    let mut scope = TxScope::open();
    let _ = scope.remove_peer(&peer().address);
    assert_eq!(scope.commit(), Finalize::Commit);
}

#[test]
fn rollback_discards() {
    let mut scope = TxScope::open();
    let _ = scope.ban(&peer().address, 10);
    assert_eq!(scope.rollback(), Finalize::Rollback);
}

#[test]
fn bootstrap_twice_keeps_first_birth() {
    let mut scope = TxScope::open();
    let first = scope.create_tables(None, 1_500_000_000);
    assert_eq!(first, Some(1_500_000_000));
    let second = scope.create_tables(first, 1_600_000_000);
    assert_eq!(second, None);
    assert_eq!(scope.commit(), Finalize::Commit);
}

#[test]
fn store_twice_updates_last_seen_only() {
    let mut table = HashMap::new();
    let mut scope = TxScope::open();
    let a = peer();
    let key = address_key(&a.address);
    let w = scope.store_peer(&a, 100, 0, table.contains_key(&key));
    apply(&mut table, w);
    let other = PeerAddress { address: a.address, port: 18333, services: 1 };
    let w = scope.store_peer(&other, 200, 999, table.contains_key(&key));
    apply(&mut table, w);
    let r = table[&key];
    assert_eq!((r.port, r.services, r.last_seen, r.banned_until), (8333, 9, 200, 0));
    assert_eq!(table.len(), 1);
}

#[test]
fn store_keeps_existing_ban() {
    let mut table = HashMap::new();
    let mut scope = TxScope::open();
    let a = peer();
    let key = address_key(&a.address);
    let w = scope.store_peer(&a, 100, 5000, false);
    apply(&mut table, w);
    let w = scope.store_peer(&a, 300, 0, true);
    apply(&mut table, w);
    assert_eq!(table[&key].banned_until, 5000);
    assert_eq!(table[&key].last_seen, 300);
}

#[test]
fn ban_sets_exact_window_even_when_shorter() {
    let mut table = HashMap::new();
    let mut scope = TxScope::open();
    let a = peer();
    let key = address_key(&a.address);
    let w = scope.store_peer(&a, 100, 1_000_000, false);
    apply(&mut table, w);
    let w = scope.ban(&a.address, 1000);
    apply(&mut table, w);
    assert_eq!(table[&key].banned_until, 1000 + 2880);
    assert_eq!(BAN_WINDOW, 2880);
    assert_eq!(table[&key].last_seen, 100);
}

#[test]
fn ban_of_unknown_peer_changes_nothing() {
    let mut table: HashMap<String, PeerRow> = HashMap::new();
    let mut scope = TxScope::open();
    let w = scope.ban(&peer().address, 1000);
    apply(&mut table, w);
    assert!(table.is_empty());
}

#[test]
fn remove_deletes_record() {
    let mut table = HashMap::new();
    let mut scope = TxScope::open();
    let a = peer();
    let w = scope.store_peer(&a, 1, 0, false);
    apply(&mut table, w);
    let w = scope.remove_peer(&a.address);
    match &w {
        PeerWrite::Delete { key } => assert_eq!(key, "00000000000000000000ffff0a000001"),
        _ => panic!("expected a delete"),
    }
    apply(&mut table, w);
    assert!(table.is_empty());
}

#[test]
fn empty_store_has_no_peers() {
    assert!(matches!(PeerDraw::new(0), Err(SPVError::NoPeers)));
}

#[test]
fn draws_stay_in_range_and_give_up() {
    let mut d = PeerDraw::new(5).unwrap();
    for _ in 0..DRAW_ATTEMPTS {
        let p = d.draw_position().unwrap();
        assert!((1..=5).contains(&p));
    }
    assert!(matches!(d.draw_position(), Err(SPVError::NoPeers)));
}

fn stored(banned_until: u32) -> StoredPeer {
    StoredPeer {
        key: "00000000000000000000ffff0a000001".to_string(),
        port: 8333,
        services: 9,
        banned_until,
    }
}

#[test]
fn judge_accepts_eligible_row() {
    let d = PeerDraw::new(1).unwrap();
    let p = d.judge(&stored(0), 100, &vec![]).unwrap();
    assert_eq!(p.address, [0, 0, 0, 0, 0, 0xffff, 0x0a00, 0x0001]);
    assert_eq!((p.port, p.services), (8333, 9));
}

#[test]
fn judge_rejects_banned_row() {
    let d = PeerDraw::new(1).unwrap();
    assert!(d.judge(&stored(100), 100, &vec![]).is_none());
    assert!(d.judge(&stored(101), 100, &vec![]).is_none());
    assert!(d.judge(&stored(99), 100, &vec![]).is_some());
}

#[test]
fn judge_rejects_excluded_row() {
    let d = PeerDraw::new(1).unwrap();
    let same = Endpoint { address: [0, 0, 0, 0, 0, 0xffff, 0x0a00, 0x0001], port: 8333, v4: true, flowinfo: 0, scope_id: 0 };
    let other_port = Endpoint { port: 8334, ..same };
    let as_v6 = Endpoint { v4: false, ..same };
    assert!(d.judge(&stored(0), 100, &vec![same]).is_none());
    assert!(d.judge(&stored(0), 100, &vec![other_port, as_v6]).is_some());
}

#[test]
fn judge_rejects_onion_row() {
    let d = PeerDraw::new(1).unwrap();
    let row = StoredPeer { key: "fd87d87eeb4300000000000000000001".to_string(), port: 1, services: 0, banned_until: 0 };
    assert!(d.judge(&row, 100, &vec![]).is_none());
}

#[test]
fn judge_matches_ipv6_exactly() {
    let d = PeerDraw::new(1).unwrap();
    let row = StoredPeer { key: "20010db8000000000000000000000001".to_string(), port: 1, services: 0, banned_until: 0 };
    let e = Endpoint { address: [0x2001, 0x0db8, 0, 0, 0, 0, 0, 1], port: 1, v4: false, flowinfo: 0, scope_id: 0 };
    let e2 = Endpoint { address: [0x2001, 0x0db8, 0, 0, 0, 0, 0, 2], port: 1, v4: false, flowinfo: 0, scope_id: 0 };
    assert!(d.judge(&row, 100, &vec![e]).is_none());
    assert!(d.judge(&row, 100, &vec![e2]).is_some());
}

#[test]
fn error_descriptions() {
    assert_eq!(SPVError::NoPeers.description(), "no peers");
    assert_eq!(SPVError::DB("locked".to_string()).description(), "locked");
    assert!(SPVError::IO("x".to_string()).has_cause());
    assert!(!SPVError::NoTip.has_cause());
}

#[test]
fn drawn_value_maps_to_position() {
    let mut d = PeerDraw::new(7).unwrap();
    assert_eq!(d.next_position(0).unwrap(), 1);
    assert_eq!(d.next_position(6).unwrap(), 7);
    assert_eq!(d.next_position(7).unwrap(), 1);
    assert_eq!(d.next_position(u64::MAX).unwrap(), u64::MAX % 7 + 1);
    assert_eq!(d.attempts, 4);
}

#[test]
fn exhausted_draw_ignores_value() {
    let mut d = PeerDraw::new(3).unwrap();
    for i in 0..DRAW_ATTEMPTS {
        assert_eq!(d.next_position(i as u64).unwrap(), (i as u64) % 3 + 1);
    }
    assert!(matches!(d.next_position(0), Err(SPVError::NoPeers)));
}

#[test]
fn judge_ignores_scoped_ipv6_exclusion() {
    let d = PeerDraw::new(1).unwrap();
    let row = StoredPeer { key: "20010db8000000000000000000000001".to_string(), port: 1, services: 0, banned_until: 0 };
    let base = Endpoint { address: [0x2001, 0x0db8, 0, 0, 0, 0, 0, 1], port: 1, v4: false, flowinfo: 0, scope_id: 0 };
    let scoped = Endpoint { scope_id: 3, ..base };
    let flowed = Endpoint { flowinfo: 5, ..base };
    assert!(d.judge(&row, 100, &vec![scoped, flowed]).is_some());
    assert!(d.judge(&row, 100, &vec![scoped, base]).is_none());
}
