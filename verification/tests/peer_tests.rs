use frogma::clock::{nanos_to_u64, peer_id_from_unix_nanos, send_time_from_unix_millis};
use frogma::ring::{PeerRing, RING_CAPACITY};
use frogma::sender::{Broadcaster, LocalState};
use frogma::table::{PeerTable, PEER_STALE_MS};
use frogma::wire::Snapshot;

const MS: u64 = 1_000_000;

fn snap(peer_id: u64, seq: u32) -> Snapshot {
    Snapshot {
        peer_id,
        seq,
        t_send_ms: 0,
        pos_bits: [(seq as f32).to_bits(), 0.0f32.to_bits(), 0.0f32.to_bits()],
        yaw_bits: 0.0f32.to_bits(),
        hp: 10,
        hp_max: 10,
        vocation: 0,
        pose: 0,
    }
}

#[test]
fn ring_push_and_latest() {
    let mut r = PeerRing::new(0);
    for i in 1..=5u32 {
        r.push(
            Snapshot {
                peer_id: 1,
                seq: i,
                t_send_ms: i as u64,
                pos_bits: [(i as f32).to_bits(), 0.0f32.to_bits(), 0.0f32.to_bits()],
                yaw_bits: 0.0f32.to_bits(),
                hp: 100,
                hp_max: 100,
                vocation: 0,
                pose: 0,
            },
            i as u64,
        );
    }
    assert_eq!(r.latest().unwrap().seq, 5);
}

#[test]
fn table_ingests_and_prunes() {
    let mut t = PeerTable::new();
    t.ingest(Snapshot {
        peer_id: 7,
        seq: 1,
        t_send_ms: 0,
        pos_bits: [0.0f32.to_bits(); 3],
        yaw_bits: 0.0f32.to_bits(),
        hp: 10,
        hp_max: 10,
        vocation: 0,
        pose: 0,
    });
    assert_eq!(t.len(), 1);
    assert_eq!(t.snapshot().len(), 1);
}

#[test]
fn table_rejects_own_peer_echoes() {
    // Echo filtering happens on receipt; the table itself trusts input.
    // So we just assert that it accepts two different peers.
    let mut t = PeerTable::new();
    let base = Snapshot {
        peer_id: 1,
        seq: 1,
        t_send_ms: 0,
        pos_bits: [0.0f32.to_bits(); 3],
        yaw_bits: 0.0f32.to_bits(),
        hp: 10,
        hp_max: 10,
        vocation: 0,
        pose: 0,
    };
    t.ingest(base);
    t.ingest(Snapshot { peer_id: 2, ..base });
    assert_eq!(t.len(), 2);
}

#[test]
fn table_ignores_strictly_older_seqs() {
    let mut t = PeerTable::new();
    let mk = |seq: u32| Snapshot {
        peer_id: 1,
        seq,
        t_send_ms: 0,
        pos_bits: [(seq as f32).to_bits(), 0.0f32.to_bits(), 0.0f32.to_bits()],
        yaw_bits: 0.0f32.to_bits(),
        hp: 10,
        hp_max: 10,
        vocation: 0,
        pose: 0,
    };
    t.ingest(mk(10));
    t.ingest(mk(5)); // older, should be rejected
    let latest = t.snapshot()[0].1;
    assert_eq!(latest.seq, 10);
}

#[test]
fn ring_keeps_the_last_sixteen_in_order() {
    let mut r = PeerRing::new(0);
    for i in 1..=20u32 {
        r.push(snap(1, i), i as u64);
    }
    assert_eq!(RING_CAPACITY, 16);
    assert_eq!(r.last_seq, 20);
    assert_eq!(r.last_recv_ns, 20);
    assert_eq!(r.head, 20 % 16);
    let window: Vec<u32> = (0..RING_CAPACITY)
        .map(|i| r.buf[(r.head + i) % RING_CAPACITY].unwrap().seq)
        .collect();
    assert_eq!(window, (5..=20u32).collect::<Vec<u32>>());
}

#[test]
fn new_ring_has_no_latest() {
    let r = PeerRing::new(42);
    assert_eq!(r.latest(), None);
    assert_eq!(r.last_seq, 0);
    assert_eq!(r.last_recv_ns, 42);
}

#[test]
fn seq_check_tolerates_wraparound() {
    let mut t = PeerTable::new();
    t.ingest_at(snap(1, 0xffff_fff0), 0);
    t.ingest_at(snap(1, 3), 1); // wrapped around: newer
    assert_eq!(t.snapshot()[0].1.seq, 3);
    t.ingest_at(snap(1, 0xffff_ffff), 2); // behind by 4 across the wrap: older
    assert_eq!(t.snapshot()[0].1.seq, 3);
}

#[test]
fn seq_check_half_window_boundary() {
    let mut t = PeerTable::new();
    t.ingest_at(snap(1, 1), 0);
    // 1 + (u32::MAX / 2 - 1) is still ahead; 1 + u32::MAX / 2 is not.
    t.ingest_at(snap(1, 1 + u32::MAX / 2), 0);
    assert_eq!(t.snapshot()[0].1.seq, 1);
    t.ingest_at(snap(1, u32::MAX / 2), 0);
    assert_eq!(t.snapshot()[0].1.seq, u32::MAX / 2);
}

#[test]
fn repeated_seq_is_accepted_again() {
    let mut t = PeerTable::new();
    t.ingest_at(snap(1, 9), 0);
    let mut again = snap(1, 9);
    again.hp = 3;
    t.ingest_at(again, 5);
    assert_eq!(t.snapshot()[0].1.hp, 3);
}

#[test]
fn seq_zero_leaves_ring_accepting_anything() {
    let mut t = PeerTable::new();
    t.ingest_at(snap(1, 0), 0);
    t.ingest_at(snap(1, 0x9000_0000), 0);
    assert_eq!(t.snapshot()[0].1.seq, 0x9000_0000);
}

#[test]
fn rejected_snapshot_does_not_refresh_the_peer() {
    let mut t = PeerTable::new();
    t.ingest_at(snap(1, 10), 0);
    t.ingest_at(snap(1, 5), PEER_STALE_MS * MS); // rejected: last receipt stays at 0
    assert_eq!(t.prune_stale_at(PEER_STALE_MS * MS), 1);
    assert!(t.is_empty());
}

#[test]
fn prune_drops_only_silent_peers() {
    let mut t = PeerTable::new();
    t.ingest_at(snap(1, 1), 0);
    t.ingest_at(snap(2, 1), 1_000 * MS);
    t.ingest_at(snap(3, 1), 2_500 * MS);
    assert_eq!(t.prune_stale_at(2_999 * MS), 0);
    assert_eq!(t.len(), 3);
    assert_eq!(t.prune_stale_at(4_000 * MS), 2);
    assert_eq!(t.len(), 1);
    assert_eq!(t.snapshot()[0].0, 3);
    assert_eq!(t.prune_stale_at(10), 0); // a clock reading before the receipt keeps it
    assert_eq!(t.prune_stale_at(5_500 * MS), 1);
    assert!(t.is_empty());
}

#[test]
fn ageing_uses_the_exact_elapsed_time() {
    let mut t = PeerTable::new();
    t.ingest_at(snap(1, 1), 900_000); // heard at 0.9 ms
    assert_eq!(t.prune_stale_at(3_000_100_000), 0); // 2999.2 ms later: kept
    assert_eq!(t.prune_stale_at(3_000_900_000), 1); // exactly 3 s later: dropped
}

#[test]
fn snapshot_has_one_entry_per_known_peer() {
    let mut t = PeerTable::new();
    for id in 1..=4u64 {
        t.ingest_at(snap(id, 7), 0);
    }
    t.ingest_at(snap(2, 3), 0); // rejected
    assert_eq!(t.snapshot().len(), t.len());
    assert!(t.snapshot().iter().all(|(id, s)| s.peer_id == *id && s.seq == 7));
}

#[test]
fn prune_stale_by_the_table_clock_keeps_fresh_peers() {
    let mut t = PeerTable::new();
    t.ingest(snap(1, 1));
    assert_eq!(t.prune_stale(), 0);
    assert_eq!(t.len(), 1);
}

#[test]
fn snapshot_lists_each_peer_once() {
    let mut t = PeerTable::new();
    for id in 1..=5u64 {
        t.ingest_at(snap(id, 1), 0);
        t.ingest_at(snap(id, 2), 0);
    }
    let mut ids: Vec<u64> = t.snapshot().iter().map(|(id, _)| *id).collect();
    ids.sort();
    assert_eq!(ids, vec![1, 2, 3, 4, 5]);
    assert!(t.snapshot().iter().all(|(id, s)| s.peer_id == *id && s.seq == 2));
}

#[test]
fn empty_table() {
    let t = PeerTable::new();
    assert!(t.is_empty());
    assert_eq!(t.len(), 0);
    assert!(t.snapshot().is_empty());
}

#[test]
fn receive_drops_own_echoes_and_short_datagrams() {
    let mut t = PeerTable::new();
    let own = snap(0xa0, 1).encode();
    assert!(!t.receive_at(0xa0, &own, 0));
    assert!(!t.receive_at(0xa0, &own[..41], 0));
    assert!(t.is_empty());
    let other = snap(0xa1, 1).encode();
    assert!(t.receive_at(0xa0, &other, 0));
    assert_eq!(t.snapshot(), vec![(0xa1, snap(0xa1, 1))]);
    let mut padded = snap(0xa2, 1).encode().to_vec();
    padded.extend_from_slice(&[7u8; 100]);
    assert!(t.receive(0xa0, &padded));
    assert_eq!(t.len(), 2);
}

#[test]
fn broadcaster_numbers_snapshots_from_one_and_wraps() {
    let st = LocalState {
        pos_bits: [1.0f32.to_bits(), 2.0f32.to_bits(), 3.0f32.to_bits()],
        yaw_bits: 0.5f32.to_bits(),
        hp: 950,
        hp_max: 1000,
        vocation: 2,
        pose: 0,
    };
    let mut b = Broadcaster::new(0xa1);
    let d = b.tick_at(&st, 1234);
    let s = Snapshot::decode(&d).unwrap();
    assert_eq!(s.seq, 1);
    assert_eq!(s.peer_id, 0xa1);
    assert_eq!(s.t_send_ms, 1234);
    assert_eq!(s.pos_bits, st.pos_bits);
    assert_eq!(s.hp, 950);
    b.seq = u32::MAX;
    let d = b.tick_at(&st, 1235);
    assert_eq!(Snapshot::decode(&d).unwrap().seq, 0);
    assert_eq!(b.seq, 0);
    let d = b.tick(&st);
    assert_eq!(Snapshot::decode(&d).unwrap().seq, 1);
}

#[test]
fn sender_to_receiver_latest_wins() {
    let st = LocalState {
        pos_bits: [0; 3],
        yaw_bits: 0,
        hp: 1,
        hp_max: 1,
        vocation: 0,
        pose: 0,
    };
    let mut b = Broadcaster::new(5);
    let mut t = PeerTable::new();
    for i in 0..40u64 {
        let d = b.tick_at(&st, i);
        assert!(t.receive_at(9, &d, i));
    }
    let (id, s) = t.snapshot()[0];
    assert_eq!((id, s.seq, s.t_send_ms), (5, 40, 39));
}

#[test]
fn peer_id_from_clock_reading() {
    assert_eq!(peer_id_from_unix_nanos(None), 0xdead_beef);
    assert_eq!(peer_id_from_unix_nanos(Some(42)), 42);
    assert_eq!(peer_id_from_unix_nanos(Some((1u128 << 64) + 7)), 7);
}

#[test]
fn send_time_from_clock_reading() {
    assert_eq!(send_time_from_unix_millis(None), 0);
    assert_eq!(send_time_from_unix_millis(Some(1_712_345_678_901)), 1_712_345_678_901);
    assert_eq!(send_time_from_unix_millis(Some((1u128 << 64) + 3)), 3);
}

#[test]
fn nanos_saturate_at_u64_max() {
    assert_eq!(nanos_to_u64(17), 17);
    assert_eq!(nanos_to_u64(u64::MAX as u128 + 1), u64::MAX);
}
