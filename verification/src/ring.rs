//! Per-peer ring buffer of the most recent snapshots, kept for interpolation.

use vstd::prelude::*;

use crate::wire::Snapshot;

verus! {

/// How many snapshots to keep per peer for interpolation.
pub const RING_CAPACITY: usize = 16;

/// A peer's recent snapshots, with the sequence number and the time
/// (nanoseconds on the receiver's monotonic clock) of the last one accepted.
///
/// `buf` is written at `head`, which then advances and wraps around.
#[derive(Clone, Copy)]
pub struct PeerRing {
    pub last_seq: u32,
    pub last_recv_ns: u64,
    pub buf: [Option<Snapshot>; RING_CAPACITY],
    pub head: usize,
}

/// The contents of a ring as mathematical values.
#[verifier::ext_equal]
pub struct RingView {
    pub last_seq: u32,
    pub last_recv_ns: u64,
    pub slots: Seq<Option<Snapshot>>,
    pub head: int,
}

impl View for PeerRing {
    type V = RingView;

    open spec fn view(&self) -> RingView {
        RingView {
            last_seq: self.last_seq,
            last_recv_ns: self.last_recv_ns,
            slots: self.buf@,
            head: self.head as int,
        }
    }
}

impl RingView {
    /// The write position lies inside the buffer.
    pub open spec fn wf(self) -> bool {
        &&& self.slots.len() == RING_CAPACITY
        &&& 0 <= self.head < RING_CAPACITY
    }

    /// The slots read from the oldest to the most recently written.
    pub open spec fn window(self) -> Seq<Option<Snapshot>> {
        Seq::new(RING_CAPACITY as nat, |i: int| self.slots[(self.head + i) % (RING_CAPACITY as int)])
    }

    /// The slot written last.
    pub open spec fn latest(self) -> Option<Snapshot> {
        self.slots[(self.head + RING_CAPACITY - 1) % (RING_CAPACITY as int)]
    }
}

/// A ring that has accepted nothing yet, created at `now_ns`.
pub open spec fn empty_ring(now_ns: u64) -> RingView {
    RingView {
        last_seq: 0,
        last_recv_ns: now_ns,
        slots: Seq::new(RING_CAPACITY as nat, |i: int| None),
        head: 0,
    }
}

/// `r` after accepting `s` at `now_ns`.
pub open spec fn pushed(r: RingView, s: Snapshot, now_ns: u64) -> RingView {
    RingView {
        last_seq: s.seq,
        last_recv_ns: now_ns,
        slots: r.slots.update(r.head, Some(s)),
        head: (r.head + 1) % (RING_CAPACITY as int),
    }
}

/// Pushing shifts the window by one: the oldest slot leaves, `s` enters as
/// the newest, and the rest keep their order.
pub proof fn lemma_push_shifts_window(r: RingView, s: Snapshot, now_ns: u64)
    requires
        r.wf(),
    ensures
        pushed(r, s, now_ns).wf(),
        pushed(r, s, now_ns).window() == r.window().drop_first().push(Some(s)),
        pushed(r, s, now_ns).latest() == Some(s),
{
    let p = pushed(r, s, now_ns);
    let n = RING_CAPACITY as int;
    assert forall|i: int| 0 <= i < n implies #[trigger] p.window()[i] == r.window().drop_first().push(
        Some(s),
    )[i] by {
        if i < n - 1 {
            assert((p.head + i) % n == (r.head + i + 1) % n);
            assert((r.head + i + 1) % n != r.head);
        } else {
            assert((p.head + i) % n == r.head);
        }
    }
    assert(p.window() =~= r.window().drop_first().push(Some(s)));
}

/// `r` after pushing each `(snapshot, time)` of `ps`, in order.
pub open spec fn pushed_all(r: RingView, ps: Seq<(Snapshot, u64)>) -> RingView
    decreases ps.len(),
{
    if ps.len() == 0 {
        r
    } else {
        pushed(pushed_all(r, ps.drop_last()), ps.last().0, ps.last().1)
    }
}

/// A ring created at `t0` and then fed the snapshots of `ps` holds exactly the
/// last `RING_CAPACITY` of them (all of them while there are fewer): the
/// `j`-th lands in slot `j % RING_CAPACITY`, slots not yet written stay empty,
/// the newest is the latest, and the ring records the newest's sequence number
/// and time.
pub proof fn lemma_ring_keeps_last(t0: u64, ps: Seq<(Snapshot, u64)>)
    ensures
        ({
            let r = pushed_all(empty_ring(t0), ps);
            let n = ps.len() as int;
            &&& r.wf()
            &&& r.head == n % (RING_CAPACITY as int)
            &&& r.last_seq == if n == 0 {
                0
            } else {
                ps.last().0.seq
            }
            &&& r.last_recv_ns == if n == 0 {
                t0
            } else {
                ps.last().1
            }
            &&& forall|j: int|
                0 <= j < n && n - RING_CAPACITY <= j ==> #[trigger] r.slots[j % (
                RING_CAPACITY as int)] == Some(ps[j].0)
            &&& forall|i: int| n <= i < RING_CAPACITY ==> #[trigger] r.slots[i] is None
            &&& n > 0 ==> r.latest() == Some(ps.last().0)
        }),
    decreases ps.len(),
{
    let n = ps.len() as int;
    let cap = RING_CAPACITY as int;
    if n > 0 {
        let q = ps.drop_last();
        lemma_ring_keeps_last(t0, q);
        let rq = pushed_all(empty_ring(t0), q);
        let r = pushed_all(empty_ring(t0), ps);
        assert(r == pushed(rq, ps.last().0, ps.last().1));
        lemma_push_shifts_window(rq, ps.last().0, ps.last().1);
        assert forall|j: int| 0 <= j < n && n - cap <= j implies #[trigger] r.slots[j % cap] == Some(
            ps[j].0,
        ) by {
            if j < n - 1 {
                assert(j % cap != (n - 1) % cap);
                assert(rq.slots[j % cap] == Some(q[j].0));
            }
        }
        assert forall|i: int| n <= i < cap implies #[trigger] r.slots[i] is None by {
            assert(rq.slots[i] is None);
        }
    }
}

impl PeerRing {
    /// A ring with no snapshots, created at `now_ns`.
    pub fn new(now_ns: u64) -> (r: PeerRing)
        ensures
            r@ == empty_ring(now_ns),
    {
        let r = PeerRing { last_seq: 0, last_recv_ns: now_ns, buf: [None; RING_CAPACITY], head: 0 };
        assert(r@.slots =~= empty_ring(now_ns).slots);
        r
    }

    /// Stores `s` as the newest snapshot, overwriting the oldest slot, and
    /// records its sequence number and the time `now_ns`.
    pub fn push(&mut self, s: Snapshot, now_ns: u64)
        requires
            old(self)@.wf(),
        ensures
            final(self)@ == pushed(old(self)@, s, now_ns),
            final(self)@.wf(),
            final(self)@.window() == old(self)@.window().drop_first().push(Some(s)),
    {
        proof {
            lemma_push_shifts_window(self@, s, now_ns);
        }
        self.buf[self.head] = Some(s);
        self.head = (self.head + 1) % RING_CAPACITY;
        self.last_seq = s.seq;
        self.last_recv_ns = now_ns;
        assert(self@ =~= pushed(old(self)@, s, now_ns));
    }

    /// Most recent snapshot, if any: the slot just behind `head`.
    pub fn latest(&self) -> (r: Option<Snapshot>)
        requires
            self.head + RING_CAPACITY <= usize::MAX,
        ensures
            r == self@.latest(),
    {
        let idx = (self.head + RING_CAPACITY - 1) % RING_CAPACITY;
        self.buf[idx]
    }
}

} // verus!
