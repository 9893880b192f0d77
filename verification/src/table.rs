//! The registry of known peers: one ring per peer id, latest-wins, with a
//! wrap-aware sequence check and ageing of silent peers.

use std::collections::HashMap;
use vstd::prelude::*;

use crate::clock::MonotonicClock;
use crate::ring::{empty_ring, pushed, PeerRing, RingView};
use crate::wire::{decoding, encoding, lemma_decode_encode, Snapshot, SNAPSHOT_LEN};

verus! {

broadcast use vstd::std_specs::hash::group_hash_axioms;

/// Peers older than this are dropped by pruning, in milliseconds.
pub const PEER_STALE_MS: u64 = 3_000;

/// Whether a ring whose last accepted sequence number is `last_seq` accepts a
/// snapshot numbered `seq`: always when `last_seq` is 0 (as in a new ring),
/// otherwise when `seq` is fewer than `u32::MAX / 2` steps ahead of `last_seq`,
/// counting around the wrap (a repeat of `last_seq`, zero steps, is accepted).
pub open spec fn seq_accepted(last_seq: u32, seq: u32) -> bool {
    last_seq == 0 || seq.wrapping_sub(last_seq) < u32::MAX / 2
}

/// The table's rings after `s` arrives at `now_ns`: the sender's ring (a new
/// empty one if the sender is unknown) takes `s` when its sequence number is
/// accepted and is left as it was otherwise; every other ring is untouched.
pub open spec fn ingested(m: Map<u64, RingView>, s: Snapshot, now_ns: u64) -> Map<u64, RingView> {
    let prev = if m.contains_key(s.peer_id) {
        m[s.peer_id]
    } else {
        empty_ring(now_ns)
    };
    let next = if seq_accepted(prev.last_seq, s.seq) {
        pushed(prev, s, now_ns)
    } else {
        prev
    };
    m.insert(s.peer_id, next)
}

/// A ring last fed at `last_recv_ns` is stale at `now_ns` (nanoseconds on the
/// same monotonic clock) when at least `PEER_STALE_MS` milliseconds have passed.
pub open spec fn is_stale(last_recv_ns: u64, now_ns: u64) -> bool {
    now_ns - last_recv_ns >= PEER_STALE_MS * 1_000_000
}

/// The rings that are not stale at `now_ns`.
pub open spec fn pruned(m: Map<u64, RingView>, now_ns: u64) -> Map<u64, RingView> {
    m.restrict(Set::new(|id: u64| !is_stale(m[id].last_recv_ns, now_ns)))
}

/// Every ring of `m` is well formed.
pub open spec fn rings_wf(m: Map<u64, RingView>) -> bool {
    forall|id: u64| #[trigger] m.contains_key(id) ==> m[id].wf()
}

/// The peers of `m` that are stale at `now_ns`.
pub open spec fn stale_ids(m: Map<u64, RingView>, now_ns: u64) -> Set<u64> {
    m.dom().filter(|id: u64| is_stale(m[id].last_recv_ns, now_ns))
}

/// The table's invariant: finitely many peers, every ring well formed, and
/// every known peer's ring holding a latest snapshot that this peer sent under
/// the ring's last accepted sequence number.
pub open spec fn table_wf(m: Map<u64, RingView>) -> bool {
    &&& m.dom().finite()
    &&& rings_wf(m)
    &&& forall|id: u64| #[trigger]
        m.contains_key(id) ==> (m[id].latest() matches Some(x) && x.peer_id == id && x.seq
            == m[id].last_seq)
}

/// What a receiver holding `m` at `now_ns` does with a datagram `d` when its
/// own id is `own_peer_id`: a datagram of at least `SNAPSHOT_LEN` bytes from
/// another peer is ingested; anything else changes nothing.
pub open spec fn received(m: Map<u64, RingView>, own_peer_id: u64, d: Seq<u8>, now_ns: u64) -> Map<
    u64,
    RingView,
> {
    if d.len() >= SNAPSHOT_LEN && decoding(d).peer_id != own_peer_id {
        ingested(m, decoding(d), now_ns)
    } else {
        m
    }
}

/// How many steps forward, counting around the wrap of `u32`, lead from `from`
/// to `to`.
pub open spec fn seq_distance(from: u32, to: u32) -> int {
    (to as int - from as int) % 0x1_0000_0000
}

/// The sequence window: once a ring has accepted a nonzero number `last_seq`,
/// it accepts exactly the numbers fewer than `u32::MAX / 2` steps ahead of it
/// (zero steps included), and rejects every number 1 to `u32::MAX / 2 + 2`
/// steps behind it.
pub proof fn lemma_seq_window(last_seq: u32, seq: u32)
    requires
        last_seq != 0,
    ensures
        seq_accepted(last_seq, seq) <==> seq_distance(last_seq, seq) < u32::MAX / 2,
        1 <= seq_distance(seq, last_seq) <= u32::MAX / 2 + 2 ==> !seq_accepted(last_seq, seq),
{
    assert(0 <= seq_distance(last_seq, seq) < 0x1_0000_0000);
    if seq >= last_seq {
        assert(seq_distance(last_seq, seq) == seq - last_seq);
        if seq > last_seq {
            assert(seq_distance(seq, last_seq) == last_seq - seq + 0x1_0000_0000);
        } else {
            assert(seq_distance(seq, last_seq) == 0);
        }
    } else {
        assert(seq_distance(last_seq, seq) == seq - last_seq + 0x1_0000_0000);
        assert(seq_distance(seq, last_seq) == last_seq - seq);
    }
}

/// A late packet is ignored: a snapshot numbered 1 to `u32::MAX / 2 + 2`
/// steps behind the sender's last accepted nonzero number leaves the table
/// exactly as it was.
pub proof fn lemma_late_snapshot_ignored(m: Map<u64, RingView>, s: Snapshot, now_ns: u64)
    requires
        m.contains_key(s.peer_id),
        m[s.peer_id].last_seq != 0,
        1 <= seq_distance(s.seq, m[s.peer_id].last_seq) <= u32::MAX / 2 + 2,
    ensures
        ingested(m, s, now_ns) == m,
{
    lemma_seq_window(m[s.peer_id].last_seq, s.seq);
    assert(ingested(m, s, now_ns) =~= m);
}

/// A newer packet wins, whatever the gap: a snapshot numbered fewer than
/// `u32::MAX / 2` steps ahead of the sender's last accepted number (any
/// number, while that is 0) becomes its latest, with that number and the time
/// of receipt.
pub proof fn lemma_newer_snapshot_wins(m: Map<u64, RingView>, s: Snapshot, now_ns: u64)
    requires
        rings_wf(m),
        m.contains_key(s.peer_id),
        m[s.peer_id].last_seq == 0 || seq_distance(m[s.peer_id].last_seq, s.seq) < u32::MAX / 2,
    ensures
        ingested(m, s, now_ns)[s.peer_id].latest() == Some(s),
        ingested(m, s, now_ns)[s.peer_id].last_seq == s.seq,
        ingested(m, s, now_ns)[s.peer_id].last_recv_ns == now_ns,
{
    if m[s.peer_id].last_seq != 0 {
        lemma_seq_window(m[s.peer_id].last_seq, s.seq);
    }
    crate::ring::lemma_push_shifts_window(m[s.peer_id], s, now_ns);
}

/// Every datagram long enough and not our own is ingested as the snapshot it
/// encodes, whatever the gap between its number and the sender's last one.
pub proof fn lemma_receive_ingests(m: Map<u64, RingView>, own_peer_id: u64, s: Snapshot, now_ns: u64)
    requires
        s.peer_id != own_peer_id,
    ensures
        received(m, own_peer_id, encoding(s), now_ns) == ingested(m, s, now_ns),
{
    lemma_decode_encode(s);
}

/// A peer whose snapshot is received at `t` is dropped by any pruning at
/// `PEER_STALE_MS` or more after `t`, unless heard from again, and kept by any
/// pruning between `t` and then.
pub proof fn lemma_receipt_ages(
    m: Map<u64, RingView>,
    own_peer_id: u64,
    s: Snapshot,
    t: u64,
    later: u64,
)
    requires
        rings_wf(m),
        s.peer_id != own_peer_id,
        !m.contains_key(s.peer_id) || m[s.peer_id].last_seq == 0 || seq_distance(
            m[s.peer_id].last_seq,
            s.seq,
        ) < u32::MAX / 2,
        t <= later,
    ensures
        pruned(received(m, own_peer_id, encoding(s), t), later).contains_key(s.peer_id) <==> later
            < t + PEER_STALE_MS * 1_000_000,
{
    lemma_receive_ingests(m, own_peer_id, s, t);
    if m.contains_key(s.peer_id) {
        lemma_newer_snapshot_wins(m, s, t);
    }
}

/// Latest wins: once a sender's snapshot is accepted, it is that sender's
/// latest snapshot; the sender is known afterwards, every other peer's ring is
/// unchanged, and at most one peer is added.
pub proof fn lemma_ingest_latest_wins(m: Map<u64, RingView>, s: Snapshot, now_ns: u64)
    requires
        rings_wf(m),
        m.dom().finite(),
    ensures
        rings_wf(ingested(m, s, now_ns)),
        ingested(m, s, now_ns).contains_key(s.peer_id),
        !m.contains_key(s.peer_id) || seq_accepted(m[s.peer_id].last_seq, s.seq) ==> ingested(
            m,
            s,
            now_ns,
        )[s.peer_id].latest() == Some(s),
        forall|id: u64|
            id != s.peer_id && #[trigger] m.contains_key(id) ==> ingested(m, s, now_ns).contains_key(id)
                && ingested(m, s, now_ns)[id] == m[id],
        forall|id: u64| #[trigger] ingested(m, s, now_ns).contains_key(id) ==> id == s.peer_id || m.contains_key(id),
        ingested(m, s, now_ns).len() == if m.contains_key(s.peer_id) {
            m.len()
        } else {
            m.len() + 1
        },
{
    let prev = if m.contains_key(s.peer_id) {
        m[s.peer_id]
    } else {
        empty_ring(now_ns)
    };
    crate::ring::lemma_push_shifts_window(prev, s, now_ns);
}

/// Strictly older snapshots are ignored: a snapshot whose number the sender's
/// ring does not accept leaves the whole table as it was.
pub proof fn lemma_ingest_ignores_rejected(m: Map<u64, RingView>, s: Snapshot, now_ns: u64)
    requires
        m.contains_key(s.peer_id),
        !seq_accepted(m[s.peer_id].last_seq, s.seq),
    ensures
        ingested(m, s, now_ns) == m,
{
    assert(ingested(m, s, now_ns) =~= m);
}

/// Pruning keeps exactly the peers heard from within `PEER_STALE_MS`, each
/// with its ring unchanged.
pub proof fn lemma_prune_keeps_fresh(m: Map<u64, RingView>, now_ns: u64)
    ensures
        forall|id: u64| #[trigger]
            pruned(m, now_ns).contains_key(id) <==> m.contains_key(id) && now_ns - m[id].last_recv_ns
                < PEER_STALE_MS * 1_000_000,
        forall|id: u64| #[trigger] pruned(m, now_ns).contains_key(id) ==> pruned(m, now_ns)[id] == m[id],
{
}

/// A peer whose snapshot was just accepted survives a pruning at the same
/// moment.
pub proof fn lemma_accepted_peer_survives_prune(m: Map<u64, RingView>, s: Snapshot, now_ns: u64)
    requires
        !m.contains_key(s.peer_id) || seq_accepted(m[s.peer_id].last_seq, s.seq),
    ensures
        pruned(ingested(m, s, now_ns), now_ns).contains_key(s.peer_id),
{
}

/// The rings after receiving each `(datagram, time)` of `ds`, in order.
pub open spec fn received_all(m: Map<u64, RingView>, own_peer_id: u64, ds: Seq<(Seq<u8>, u64)>) -> Map<
    u64,
    RingView,
>
    decreases ds.len(),
{
    if ds.len() == 0 {
        m
    } else {
        received(received_all(m, own_peer_id, ds.drop_last()), own_peer_id, ds.last().0, ds.last().1)
    }
}

/// A receiver never takes in its own echoes: a table that does not know the
/// receiver's own id does not know it after any run of receipts either.
pub proof fn lemma_echoes_never_enter(m: Map<u64, RingView>, own_peer_id: u64, ds: Seq<(Seq<u8>, u64)>)
    requires
        !m.contains_key(own_peer_id),
    ensures
        !received_all(m, own_peer_id, ds).contains_key(own_peer_id),
    decreases ds.len(),
{
    if ds.len() > 0 {
        lemma_echoes_never_enter(m, own_peer_id, ds.drop_last());
    }
}

/// Ingesting keeps the table's invariant.
pub proof fn lemma_ingested_wf(m: Map<u64, RingView>, s: Snapshot, now_ns: u64)
    requires
        table_wf(m),
    ensures
        table_wf(ingested(m, s, now_ns)),
{
    lemma_ingest_latest_wins(m, s, now_ns);
    let m2 = ingested(m, s, now_ns);
    assert forall|id: u64| #[trigger] m2.contains_key(id) implies (m2[id].latest() matches Some(x)
        && x.peer_id == id && x.seq == m2[id].last_seq) by {
        if id != s.peer_id {
            assert(m.contains_key(id));
        }
    }
}

/// Pruning keeps the table's invariant, and drops exactly the stale peers:
/// the count dropped is the number of stale peers.
pub proof fn lemma_pruned_wf(m: Map<u64, RingView>, now_ns: u64)
    requires
        table_wf(m),
    ensures
        table_wf(pruned(m, now_ns)),
        pruned(m, now_ns).len() + stale_ids(m, now_ns).len() == m.len(),
{
    let kept = pruned(m, now_ns);
    let stale = stale_ids(m, now_ns);
    vstd::set_lib::lemma_len_subset(kept.dom(), m.dom());
    m.dom().lemma_len_filter(|id: u64| is_stale(m[id].last_recv_ns, now_ns));
    assert(kept.dom() + stale =~= m.dom());
    vstd::set_lib::lemma_set_disjoint_lens(kept.dom(), stale);
    assert forall|id: u64| #[trigger] kept.contains_key(id) implies kept[id].wf() && (
    kept[id].latest() matches Some(x) && x.peer_id == id && x.seq == kept[id].last_seq) by {
        assert(m.contains_key(id));
    }
}

/// Peer registry, keyed by peer id. Time is measured on the table's own
/// monotonic clock.
pub struct PeerTable {
    rings: HashMap<u64, PeerRing>,
    clock: MonotonicClock,
}

impl View for PeerTable {
    type V = Map<u64, RingView>;

    /// The rings, by peer id.
    closed spec fn view(&self) -> Map<u64, RingView> {
        self.rings@.map_values(|r: PeerRing| r@)
    }
}

impl PeerTable {
    /// The table's invariant, kept by every operation; see `table_wf`.
    #[verifier::type_invariant]
    pub open spec fn wf(&self) -> bool {
        table_wf(self@)
    }

    /// The last reading of the table's clock, in nanoseconds.
    pub closed spec fn clock_ns(&self) -> u64 {
        self.clock.last_reading()
    }

    /// An empty table whose clock starts now.
    pub fn new() -> (t: PeerTable)
        ensures
            t.wf(),
            t.clock_ns() == 0,
            t@ == Map::<u64, RingView>::empty(),
    {
        let rings: HashMap<u64, PeerRing> = HashMap::new();
        assert(rings@.map_values(|r: PeerRing| r@) =~= Map::<u64, RingView>::empty());
        let t = PeerTable { rings, clock: MonotonicClock::new() };
        assert(t@ =~= Map::<u64, RingView>::empty());
        t
    }

    /// Nanoseconds on the table's clock; never below the previous reading.
    pub fn now_ns(&mut self) -> (ns: u64)
        ensures
            ns >= old(self).clock_ns(),
            final(self).clock_ns() == ns,
            final(self)@ == old(self)@,
    {
        proof {
            use_type_invariant(&*self);
        }
        let r = self.clock.elapsed_ns();
        self.clock.hold(r)
    }

    /// Applies a snapshot received at `now_ns`; see `ingested`.
    pub fn ingest_at(&mut self, s: Snapshot, now_ns: u64)
        ensures
            final(self).wf(),
            final(self)@ == ingested(old(self)@, s, now_ns),
            final(self)@.contains_key(s.peer_id),
            final(self)@.len() > 0,
            !old(self)@.contains_key(s.peer_id) || seq_accepted(old(self)@[s.peer_id].last_seq, s.seq)
                ==> final(self)@[s.peer_id].latest() == Some(s),
            old(self)@.contains_key(s.peer_id) && old(self)@[s.peer_id].last_seq != 0 && 1
                <= seq_distance(s.seq, old(self)@[s.peer_id].last_seq) <= u32::MAX / 2 + 2
                ==> final(self)@ == old(self)@,
            final(self).clock_ns() == old(self).clock_ns(),
    {
        proof {
            use_type_invariant(&*self);
            if old(self)@.contains_key(s.peer_id) && old(self)@[s.peer_id].last_seq != 0 && 1
                <= seq_distance(s.seq, old(self)@[s.peer_id].last_seq) <= u32::MAX / 2 + 2 {
                lemma_late_snapshot_ignored(self@, s, now_ns);
            }
            lemma_ingest_latest_wins(self@, s, now_ns);
            lemma_ingested_wf(self@, s, now_ns);
        }
        let ghost m = self@;
        let mut rings: HashMap<u64, PeerRing> = HashMap::new();
        assert(rings@.map_values(|r: PeerRing| r@) =~= Map::<u64, RingView>::empty());
        std::mem::swap(&mut rings, &mut self.rings);
        assert(rings@.map_values(|r: PeerRing| r@) == m);
        let mut ring = match rings.remove(&s.peer_id) {
            Some(r) => r,
            None => PeerRing::new(now_ns),
        };
        assert(ring@ == if m.contains_key(s.peer_id) {
            m[s.peer_id]
        } else {
            empty_ring(now_ns)
        });
        // Wrap-aware seq check: accept a number up to half the space ahead
        // (a repeat included); anything behind it is a late packet.
        let newer = s.seq.wrapping_sub(ring.last_seq) < u32::MAX / 2;
        if ring.last_seq == 0 || newer {
            ring.push(s, now_ns);
        }
        rings.insert(s.peer_id, ring);
        assert(rings@.map_values(|r: PeerRing| r@) =~= ingested(m, s, now_ns));
        self.rings = rings;
    }

    /// Applies a snapshot received now, by the table's clock.
    pub fn ingest(&mut self, s: Snapshot)
        ensures
            final(self).wf(),
            exists|now_ns: u64|
                now_ns >= old(self).clock_ns() && final(self).clock_ns() == now_ns && final(self)@
                    == #[trigger] ingested(old(self)@, s, now_ns),
            final(self)@.contains_key(s.peer_id),
            final(self)@.len() > 0,
            !old(self)@.contains_key(s.peer_id) || seq_accepted(old(self)@[s.peer_id].last_seq, s.seq)
                ==> final(self)@[s.peer_id].latest() == Some(s),
            old(self)@.contains_key(s.peer_id) && old(self)@[s.peer_id].last_seq != 0 && 1
                <= seq_distance(s.seq, old(self)@[s.peer_id].last_seq) <= u32::MAX / 2 + 2
                ==> final(self)@ == old(self)@,
    {
        let now_ns = self.now_ns();
        self.ingest_at(s, now_ns);
    }

    /// Handles one datagram received at `now_ns` by the peer `own_peer_id`;
    /// see `received`. Returns whether the datagram was ingested. Echoes of
    /// the receiver's own broadcasts and datagrams too short for a snapshot are
    /// dropped.
    pub fn receive_at(&mut self, own_peer_id: u64, datagram: &[u8], now_ns: u64) -> (took: bool)
        ensures
            final(self).wf(),
            final(self)@ == received(old(self)@, own_peer_id, datagram@, now_ns),
            took == (datagram@.len() >= SNAPSHOT_LEN && decoding(datagram@).peer_id != own_peer_id),
            took ==> final(self)@ == ingested(old(self)@, decoding(datagram@), now_ns),
            !took ==> final(self)@ == old(self)@,
            !old(self)@.contains_key(own_peer_id) ==> !final(self)@.contains_key(own_peer_id),
            final(self).clock_ns() == old(self).clock_ns(),
    {
        proof {
            use_type_invariant(&*self);
        }
        if datagram.len() < SNAPSHOT_LEN {
            return false;
        }
        match Snapshot::decode(datagram) {
            Ok(s) => {
                // Don't ingest our own broadcast echoes.
                if s.peer_id != own_peer_id {
                    self.ingest_at(s, now_ns);
                    true
                } else {
                    false
                }
            },
            Err(_) => false,
        }
    }

    /// Handles one datagram received now, by the table's clock.
    pub fn receive(&mut self, own_peer_id: u64, datagram: &[u8]) -> (took: bool)
        ensures
            final(self).wf(),
            exists|now_ns: u64|
                now_ns >= old(self).clock_ns() && final(self).clock_ns() == now_ns && final(self)@
                    == #[trigger] received(old(self)@, own_peer_id, datagram@, now_ns) && (took
                    ==> final(self)@ == ingested(old(self)@, decoding(datagram@), now_ns)),
            took == (datagram@.len() >= SNAPSHOT_LEN && decoding(datagram@).peer_id != own_peer_id),
            !took ==> final(self)@ == old(self)@,
            !old(self)@.contains_key(own_peer_id) ==> !final(self)@.contains_key(own_peer_id),
    {
        let now_ns = self.now_ns();
        self.receive_at(own_peer_id, datagram, now_ns)
    }

    /// The latest snapshot of every known peer that has one, with its peer id.
    /// Each such peer appears exactly once; the order is unspecified.
    pub fn snapshot(&self) -> (out: Vec<(u64, Snapshot)>)
        ensures
            forall|i: int|
                0 <= i < out.len() ==> {
                    &&& self@.contains_key(#[trigger] out@[i].0)
                    &&& self@[out@[i].0].latest() == Some(out@[i].1)
                },
            forall|id: u64|
                #[trigger] self@.contains_key(id) && self@[id].latest() is Some ==> exists|i: int|
                    0 <= i < out.len() && #[trigger] out@[i].0 == id,
            forall|i: int, j: int| 0 <= i < j < out.len() ==> out@[i].0 != out@[j].0,
            out.len() == self@.len(),
    {
        proof {
            use_type_invariant(self);
        }
        let ghost m = self.rings@;
        let mut out: Vec<(u64, Snapshot)> = Vec::new();
        let ghost mut pos: Seq<int> = Seq::empty();
        let ghost entries = vstd::std_specs::iter::IteratorSpec::remaining(&self.rings.iter());
        let ghost mut seen: int = 0;
        for (id, ring) in it: self.rings.iter()
            invariant
                it.seq() == entries,
                seen == it.index(),
                m == self.rings@,
                table_wf(self@),
                out.len() == seen,
                entries.len() == m.dom().len(),
                entries.no_duplicates(),
                forall|j: int|
                    0 <= j < entries.len() ==> #[trigger] m.contains_key(*entries[j].0) && m[*entries[j].0]
                        == *entries[j].1,
                forall|k: u64| #[trigger] m.contains_key(k) ==> entries.contains((&k, &m[k])),
                pos.len() == out.len(),
                forall|i: int|
                    0 <= i < out.len() ==> {
                        &&& 0 <= #[trigger] pos[i] < seen
                        &&& *entries[pos[i]].0 == out@[i].0
                        &&& m.contains_key(out@[i].0)
                        &&& m[out@[i].0]@.latest() == Some(out@[i].1)
                    },
                forall|i: int, j: int| 0 <= i < j < out.len() ==> pos[i] < pos[j],
                forall|j: int|
                    0 <= j < seen && (#[trigger] entries[j].1)@.latest() is Some ==> exists|i: int|
                        0 <= i < out.len() && pos[i] == j,
        {
            assert(m.contains_key(*id));
            assert(self@.contains_key(*id));
            assert(self@[*id].latest() is Some);
            let ghost old_pos = pos;
            let ghost old_len = out.len();
            if let Some(s) = ring.latest() {
                proof {
                    pos = pos.push(seen);
                }
                out.push((*id, s));
            }
            proof {
                assert forall|j: int|
                    0 <= j < seen + 1 && (#[trigger] entries[j].1)@.latest() is Some implies exists|
                    i: int,
                | 0 <= i < out.len() && pos[i] == j by {
                    if j < seen {
                        let i = choose|i: int| 0 <= i < old_len && old_pos[i] == j;
                        assert(pos[i] == j);
                    } else {
                        assert(pos[out.len() - 1] == j);
                    }
                }
                seen = seen + 1;
            }
        }
        assert(seen == entries.len());
        proof {
            assert(self@.dom() =~= m.dom());
            assert forall|i: int| 0 <= i < out.len() implies {
                &&& self@.contains_key(#[trigger] out@[i].0)
                &&& self@[out@[i].0].latest() == Some(out@[i].1)
            } by {
                assert(0 <= pos[i] < seen);
            }
            assert forall|i: int, j: int| 0 <= i < j < out.len() implies out@[i].0 != out@[j].0 by {
                let a = entries[pos[i]];
                let b = entries[pos[j]];
                if *a.0 == *b.0 {
                    assert(a == b);
                }
            }
            assert forall|id: u64|
                #[trigger] self@.contains_key(id) && self@[id].latest() is Some implies exists|i: int|
                    0 <= i < out.len() && #[trigger] out@[i].0 == id by {
                assert(m.contains_key(id));
                assert(entries.contains((&id, &m[id])));
                let j = choose|j: int| 0 <= j < entries.len() && entries[j] == (&id, &m[id]);
                assert(entries[j].1@.latest() is Some);
                let i = choose|i: int| 0 <= i < out.len() && pos[i] == j;
                assert(out@[i].0 == id);
            }
        }
        out
    }

    /// Drops the peers not heard from in `PEER_STALE_MS` milliseconds as of
    /// `now_ns`, and returns how many were dropped.
    pub fn prune_stale_at(&mut self, now_ns: u64) -> (dropped: usize)
        ensures
            final(self).wf(),
            final(self)@ == pruned(old(self)@, now_ns),
            dropped == old(self)@.len() - final(self)@.len(),
            dropped == stale_ids(old(self)@, now_ns).len(),
            final(self).clock_ns() == old(self).clock_ns(),
    {
        proof {
            use_type_invariant(&*self);
        }
        proof {
            lemma_pruned_wf(self@, now_ns);
        }
        let ghost m = self.rings@;
        let ghost entries = vstd::std_specs::iter::IteratorSpec::remaining(&self.rings.iter());
        let ghost mut seen: int = 0;
        let ghost mut done: Set<u64> = Set::empty();
        let mut kept: HashMap<u64, PeerRing> = HashMap::new();
        for (id, ring) in it: self.rings.iter()
            invariant
                it.seq() == entries,
                seen == it.index(),
                m == self.rings@,
                entries.len() == m.dom().len(),
                entries.no_duplicates(),
                forall|j: int|
                    0 <= j < entries.len() ==> #[trigger] m.contains_key(*entries[j].0) && m[*entries[j].0]
                        == *entries[j].1,
                forall|k: u64| #[trigger] m.contains_key(k) ==> entries.contains((&k, &m[k])),
                done == Set::new(|k: u64| exists|j: int| 0 <= j < seen && *entries[j].0 == k),
                kept@ == m.restrict(done.filter(|k: u64| !is_stale(m[k].last_recv_ns, now_ns))),
        {
            let ghost k = *id;
            proof {
                assert(*entries[seen].0 == k);
                assert(!done.contains(k)) by {
                    if done.contains(k) {
                        let j = choose|j: int| 0 <= j < seen && *entries[j].0 == k;
                        assert(m.contains_key(*entries[j].0));
                        assert(m.contains_key(*entries[seen].0));
                        assert(entries[j] == entries[seen]);
                    }
                }
            }
            let age = if now_ns >= ring.last_recv_ns {
                now_ns - ring.last_recv_ns
            } else {
                0
            };
            if age < PEER_STALE_MS * 1_000_000 {
                kept.insert(*id, *ring);
            }
            proof {
                let new_done = done.insert(k);
                assert(new_done =~= Set::new(
                    |k2: u64| exists|j: int| 0 <= j < seen + 1 && *entries[j].0 == k2,
                )) by {
                    assert forall|k2: u64| new_done.contains(k2) implies exists|j: int|
                        0 <= j < seen + 1 && *entries[j].0 == k2 by {
                        if k2 != k {
                            let j = choose|j: int| 0 <= j < seen && *entries[j].0 == k2;
                        }
                    }
                }
                assert(kept@ =~= m.restrict(
                    new_done.filter(|k2: u64| !is_stale(m[k2].last_recv_ns, now_ns)),
                ));
                done = new_done;
                seen = seen + 1;
            }
        }
        proof {
            assert(seen == entries.len());
            assert(done =~= m.dom()) by {
                assert forall|k: u64| m.contains_key(k) implies done.contains(k) by {
                    let j = choose|j: int| 0 <= j < entries.len() && entries[j] == (&k, &m[k]);
                    assert(*entries[j].0 == k);
                }
            }
            vstd::set_lib::lemma_len_subset(kept@.dom(), m.dom());
        }
        let before = self.rings.len();
        let after = kept.len();
        proof {
            assert(kept@.map_values(|r: PeerRing| r@) =~= pruned(old(self)@, now_ns));
            assert(old(self)@.dom() =~= m.dom());
        }
        self.rings = kept;
        proof {
            assert(self@.dom() =~= self.rings@.dom());
        }
        before - after
    }

    /// Drops the peers not heard from in `PEER_STALE_MS` milliseconds by the
    /// table's clock, and returns how many were dropped.
    pub fn prune_stale(&mut self) -> (dropped: usize)
        ensures
            final(self).wf(),
            exists|now_ns: u64|
                now_ns >= old(self).clock_ns() && final(self).clock_ns() == now_ns && final(self)@
                    == #[trigger] pruned(old(self)@, now_ns) && dropped == stale_ids(
                    old(self)@,
                    now_ns,
                ).len(),
            dropped == old(self)@.len() - final(self)@.len(),
    {
        let now_ns = self.now_ns();
        self.prune_stale_at(now_ns)
    }

    /// Number of known peers.
    pub fn len(&self) -> (n: usize)
        ensures
            n == self@.len(),
    {
        assert(self@.dom() =~= self.rings@.dom());
        self.rings.len()
    }

    /// Whether no peer is known.
    pub fn is_empty(&self) -> (b: bool)
        ensures
            b == (self@.len() == 0),
    {
        self.len() == 0
    }
}

} // verus!
