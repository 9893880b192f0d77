//! The sending side: what goes out on each tick of the broadcast loop.

use vstd::prelude::*;

use crate::clock::unix_time_ms;
use crate::ring::RingView;
use crate::table::{ingested, lemma_ingest_latest_wins, received, rings_wf, seq_accepted};
use crate::wire::{decoding, encoding, lemma_decode_encode, lemma_encoding_len, Snapshot, SNAPSHOT_LEN};

verus! {

/// Our current avatar state, as the game reports it for broadcasting.
///
/// `pos_bits` and `yaw_bits` hold the IEEE-754 bit patterns of the
/// single-precision position and facing angle.
#[derive(Debug, Clone, Copy)]
pub struct LocalState {
    pub pos_bits: [u32; 3],
    pub yaw_bits: u32,
    pub hp: u16,
    pub hp_max: u16,
    pub vocation: u8,
    pub pose: u8,
}

/// The snapshot that peer `peer_id` sends as number `seq` at `t_send_ms`
/// while its avatar is in state `st`.
pub open spec fn outgoing(peer_id: u64, seq: u32, t_send_ms: u64, st: LocalState) -> Snapshot {
    Snapshot {
        peer_id,
        seq,
        t_send_ms,
        pos_bits: st.pos_bits,
        yaw_bits: st.yaw_bits,
        hp: st.hp,
        hp_max: st.hp_max,
        vocation: st.vocation,
        pose: st.pose,
    }
}

/// What a datagram announces is what went into it: read back, the snapshot a
/// sender builds carries its id, number and time, and the avatar state field
/// for field.
pub proof fn lemma_outgoing_carries_state(peer_id: u64, seq: u32, t_send_ms: u64, st: LocalState)
    ensures
        encoding(outgoing(peer_id, seq, t_send_ms, st)).len() == SNAPSHOT_LEN,
        ({
            let d = decoding(encoding(outgoing(peer_id, seq, t_send_ms, st)));
            &&& d.peer_id == peer_id
            &&& d.seq == seq
            &&& d.t_send_ms == t_send_ms
            &&& d.pos_bits == st.pos_bits
            &&& d.yaw_bits == st.yaw_bits
            &&& d.hp == st.hp
            &&& d.hp_max == st.hp_max
            &&& d.vocation == st.vocation
            &&& d.pose == st.pose
        }),
{
    lemma_encoding_len(outgoing(peer_id, seq, t_send_ms, st));
    lemma_decode_encode(outgoing(peer_id, seq, t_send_ms, st));
}

/// The number a sender uses next is always accepted after the one before it.
pub proof fn lemma_next_seq_accepted(prev_seq: u32)
    ensures
        seq_accepted(prev_seq, prev_seq.wrapping_add(1)),
{
}

/// A receiver that last accepted a sender's previous snapshot, or has not
/// heard from it yet, takes the sender's next datagram off the wire and holds
/// exactly the snapshot that was sent as that sender's latest.
pub proof fn lemma_next_tick_received(
    m: Map<u64, RingView>,
    own_peer_id: u64,
    sender_id: u64,
    prev_seq: u32,
    t_send_ms: u64,
    st: LocalState,
    now_ns: u64,
)
    requires
        rings_wf(m),
        m.dom().finite(),
        sender_id != own_peer_id,
        !m.contains_key(sender_id) || m[sender_id].last_seq == prev_seq,
    ensures
        ({
            let snap = outgoing(sender_id, prev_seq.wrapping_add(1), t_send_ms, st);
            let after = received(m, own_peer_id, encoding(snap), now_ns);
            &&& after == ingested(m, snap, now_ns)
            &&& after[sender_id].latest() == Some(snap)
        }),
{
    let snap = outgoing(sender_id, prev_seq.wrapping_add(1), t_send_ms, st);
    lemma_decode_encode(snap);
    lemma_next_seq_accepted(prev_seq);
    lemma_ingest_latest_wins(m, snap, now_ns);
}

/// State of the broadcast loop: who we are and the number of the last
/// snapshot sent (0 before the first).
pub struct Broadcaster {
    pub peer_id: u64,
    pub seq: u32,
}

impl Broadcaster {
    /// A broadcaster for `peer_id` that has sent nothing yet.
    pub fn new(peer_id: u64) -> (b: Broadcaster)
        ensures
            b.peer_id == peer_id,
            b.seq == 0,
    {
        Broadcaster { peer_id, seq: 0 }
    }

    /// One tick at `t_send_ms`: advances the sequence number by one (wrapping)
    /// and returns the datagram announcing `st` under it.
    pub fn tick_at(&mut self, st: &LocalState, t_send_ms: u64) -> (datagram: [u8; SNAPSHOT_LEN])
        ensures
            final(self).peer_id == old(self).peer_id,
            final(self).seq == old(self).seq.wrapping_add(1),
            datagram@ == encoding(outgoing(old(self).peer_id, final(self).seq, t_send_ms, *st)),
            datagram@.len() == SNAPSHOT_LEN,
            decoding(datagram@).peer_id == old(self).peer_id,
            decoding(datagram@).seq == final(self).seq,
            decoding(datagram@).pos_bits == st.pos_bits,
            decoding(datagram@).yaw_bits == st.yaw_bits,
            decoding(datagram@).hp == st.hp,
            decoding(datagram@).hp_max == st.hp_max,
            decoding(datagram@).vocation == st.vocation,
            decoding(datagram@).pose == st.pose,
            decoding(datagram@).t_send_ms == t_send_ms,
    {
        proof {
            lemma_outgoing_carries_state(self.peer_id, self.seq.wrapping_add(1), t_send_ms, *st);
        }
        self.seq = self.seq.wrapping_add(1);
        let snap = Snapshot {
            peer_id: self.peer_id,
            seq: self.seq,
            t_send_ms,
            pos_bits: st.pos_bits,
            yaw_bits: st.yaw_bits,
            hp: st.hp,
            hp_max: st.hp_max,
            vocation: st.vocation,
            pose: st.pose,
        };
        snap.encode()
    }

    /// One tick stamped with the current wall-clock time in milliseconds since
    /// the Unix epoch.
    pub fn tick(&mut self, st: &LocalState) -> (datagram: [u8; SNAPSHOT_LEN])
        ensures
            final(self).peer_id == old(self).peer_id,
            final(self).seq == old(self).seq.wrapping_add(1),
            exists|t_send_ms: u64|
                datagram@ == #[trigger] encoding(
                    outgoing(old(self).peer_id, final(self).seq, t_send_ms, *st),
                ),
            datagram@.len() == SNAPSHOT_LEN,
            decoding(datagram@).peer_id == old(self).peer_id,
            decoding(datagram@).seq == final(self).seq,
            decoding(datagram@).pos_bits == st.pos_bits,
            decoding(datagram@).yaw_bits == st.yaw_bits,
            decoding(datagram@).hp == st.hp,
            decoding(datagram@).hp_max == st.hp_max,
            decoding(datagram@).vocation == st.vocation,
            decoding(datagram@).pose == st.pose,
    {
        let t_send_ms = unix_time_ms();
        self.tick_at(st, t_send_ms)
    }
}

} // verus!
