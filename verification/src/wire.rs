//! Wire format for presence snapshots.
//!
//! One snapshot on the wire is 42 bytes, little-endian, with no framing:
//! datagram boundaries delimit snapshots.

use vstd::prelude::*;

verus! {

/// Length in bytes of one encoded snapshot.
pub const SNAPSHOT_LEN: usize = 42;

/// Version of the wire layout described here.
pub const WIRE_VERSION: u8 = 0;

/// A single peer's presence snapshot. Cheap to copy.
///
/// `pos_bits` and `yaw_bits` hold the IEEE-754 bit patterns of the
/// single-precision position (x, y, z) and facing angle.
#[derive(Debug, Clone, Copy, PartialEq, Eq)]
pub struct Snapshot {
    pub peer_id: u64,
    pub seq: u32,
    pub t_send_ms: u64,
    pub pos_bits: [u32; 3],
    pub yaw_bits: u32,
    pub hp: u16,
    pub hp_max: u16,
    pub vocation: u8,
    pub pose: u8,
}

/// Why a datagram could not be decoded.
#[derive(Debug, Clone, Copy, PartialEq, Eq, Structural)]
pub enum WireError {
    /// Fewer than `SNAPSHOT_LEN` bytes; carries the length that was given.
    Short(usize),
}

/// The decimal digits of `n`, most significant first, without leading zeros
/// (`"0"` for zero).
pub open spec fn decimal(n: nat) -> Seq<char>
    decreases n,
{
    if n < 10 {
        seq![digit_char(n)]
    } else {
        decimal(n / 10).push(digit_char(n % 10))
    }
}

/// The character of the decimal digit `d`.
pub open spec fn digit_char(d: nat) -> char {
    if d == 0 {
        '0'
    } else if d == 1 {
        '1'
    } else if d == 2 {
        '2'
    } else if d == 3 {
        '3'
    } else if d == 4 {
        '4'
    } else if d == 5 {
        '5'
    } else if d == 6 {
        '6'
    } else if d == 7 {
        '7'
    } else if d == 8 {
        '8'
    } else {
        '9'
    }
}

/// The text of a wire error: for `Short(n)`,
/// `short packet: expected {SNAPSHOT_LEN} bytes, got {n}`, numbers in decimal.
pub open spec fn error_message(e: WireError) -> Seq<char> {
    match e {
        WireError::Short(n) => "short packet: expected "@ + decimal(SNAPSHOT_LEN as nat)
            + " bytes, got "@ + decimal(n as nat),
    }
}

/// The one-character string of the decimal digit `d`.
fn digit_str(d: usize) -> (s: &'static str)
    requires
        d < 10,
    ensures
        s@ == seq![digit_char(d as nat)],
{
    proof {
        reveal_strlit("0");
        reveal_strlit("1");
        reveal_strlit("2");
        reveal_strlit("3");
        reveal_strlit("4");
        reveal_strlit("5");
        reveal_strlit("6");
        reveal_strlit("7");
        reveal_strlit("8");
        reveal_strlit("9");
    }
    if d == 0 {
        "0"
    } else if d == 1 {
        "1"
    } else if d == 2 {
        "2"
    } else if d == 3 {
        "3"
    } else if d == 4 {
        "4"
    } else if d == 5 {
        "5"
    } else if d == 6 {
        "6"
    } else if d == 7 {
        "7"
    } else if d == 8 {
        "8"
    } else {
        "9"
    }
}

/// Appends `n` in decimal to `out`.
fn push_decimal(out: &mut String, n: usize)
    ensures
        final(out)@ == old(out)@ + decimal(n as nat),
    decreases n,
{
    if n >= 10 {
        push_decimal(out, n / 10);
    }
    out.append(digit_str(n % 10));
    proof {
        if n >= 10 {
            assert(old(out)@ + decimal(n as nat) =~= old(out)@ + decimal((n / 10) as nat) + seq![
                digit_char((n % 10) as nat),
            ]);
        }
    }
}

impl WireError {
    /// Human-readable description of the error.
    pub fn message(&self) -> (m: String)
        ensures
            m@ == error_message(*self),
    {
        match self {
            WireError::Short(n) => {
                let mut m = String::from_str("short packet: expected ");
                push_decimal(&mut m, SNAPSHOT_LEN);
                m.append(" bytes, got ");
                push_decimal(&mut m, *n);
                m
            },
        }
    }
}

/// The two little-endian bytes of `x`.
pub open spec fn le_u16(x: u16) -> Seq<u8> {
    seq![x as u8, (x >> 8u16) as u8]
}

/// The four little-endian bytes of `x`.
pub open spec fn le_u32(x: u32) -> Seq<u8> {
    seq![x as u8, (x >> 8u32) as u8, (x >> 16u32) as u8, (x >> 24u32) as u8]
}

/// The eight little-endian bytes of `x`.
pub open spec fn le_u64(x: u64) -> Seq<u8> {
    seq![
        x as u8,
        (x >> 8u64) as u8,
        (x >> 16u64) as u8,
        (x >> 24u64) as u8,
        (x >> 32u64) as u8,
        (x >> 40u64) as u8,
        (x >> 48u64) as u8,
        (x >> 56u64) as u8,
    ]
}

/// The value of the little-endian bytes `b[at]`, `b[at + 1]`.
pub open spec fn u16_at(b: Seq<u8>, at: int) -> u16 {
    (b[at] as u16) | ((b[at + 1] as u16) << 8u16)
}

/// The value of the little-endian bytes `b[at .. at + 4]`.
pub open spec fn u32_at(b: Seq<u8>, at: int) -> u32 {
    (b[at] as u32) | ((b[at + 1] as u32) << 8u32) | ((b[at + 2] as u32) << 16u32) | ((b[at
        + 3] as u32) << 24u32)
}

/// The value of the little-endian bytes `b[at .. at + 8]`.
pub open spec fn u64_at(b: Seq<u8>, at: int) -> u64 {
    (b[at] as u64) | ((b[at + 1] as u64) << 8u64) | ((b[at + 2] as u64) << 16u64) | ((b[at
        + 3] as u64) << 24u64) | ((b[at + 4] as u64) << 32u64) | ((b[at + 5] as u64) << 40u64)
        | ((b[at + 6] as u64) << 48u64) | ((b[at + 7] as u64) << 56u64)
}

/// The 42 bytes of a snapshot on the wire, field by field in declaration order:
/// peer id (8), seq (4), send time (8), x, y, z, yaw (4 each), hp, hp max
/// (2 each), vocation and pose (1 each).
pub open spec fn encoding(s: Snapshot) -> Seq<u8> {
    le_u64(s.peer_id) + le_u32(s.seq) + le_u64(s.t_send_ms) + le_u32(s.pos_bits[0]) + le_u32(
        s.pos_bits[1],
    ) + le_u32(s.pos_bits[2]) + le_u32(s.yaw_bits) + le_u16(s.hp) + le_u16(s.hp_max) + seq![
        s.vocation,
        s.pose,
    ]
}

/// The snapshot that the first 42 bytes of `b` describe.
pub open spec fn decoding(b: Seq<u8>) -> Snapshot
    recommends
        b.len() >= SNAPSHOT_LEN,
{
    Snapshot {
        peer_id: u64_at(b, 0),
        seq: u32_at(b, 8),
        t_send_ms: u64_at(b, 12),
        pos_bits: [u32_at(b, 20), u32_at(b, 24), u32_at(b, 28)],
        yaw_bits: u32_at(b, 32),
        hp: u16_at(b, 36),
        hp_max: u16_at(b, 38),
        vocation: b[40],
        pose: b[41],
    }
}

/// What `Snapshot::decode` answers for the bytes `b`.
pub open spec fn decode_result(b: Seq<u8>) -> Result<Snapshot, WireError> {
    if b.len() < SNAPSHOT_LEN {
        Err(WireError::Short(b.len() as usize))
    } else {
        Ok(decoding(b))
    }
}

/// The bytes of a 16-bit value read back as that value.
proof fn lemma_le_u16_value(x: u16)
    ensures
        ((x as u8) as u16) | ((((x >> 8u16) as u8) as u16) << 8u16) == x,
{
    assert(((x as u8) as u16) | ((((x >> 8u16) as u8) as u16) << 8u16) == x) by (bit_vector);
}

/// A 16-bit value built from two little-endian bytes gives back those bytes.
proof fn lemma_le_u16_bytes(b0: u8, b1: u8)
    ensures
        ({
            let v = (b0 as u16) | ((b1 as u16) << 8u16);
            v as u8 == b0 && (v >> 8u16) as u8 == b1
        }),
{
    assert({
        let v = (b0 as u16) | ((b1 as u16) << 8u16);
        v as u8 == b0 && (v >> 8u16) as u8 == b1
    }) by (bit_vector);
}

/// The bytes of a 32-bit value read back as that value.
proof fn lemma_le_u32_value(x: u32)
    ensures
        ((x as u8) as u32) | ((((x >> 8u32) as u8) as u32) << 8u32) | ((((x >> 16u32) as u8)
            as u32) << 16u32) | ((((x >> 24u32) as u8) as u32) << 24u32) == x,
{
    assert(((x as u8) as u32) | ((((x >> 8u32) as u8) as u32) << 8u32) | ((((x >> 16u32) as u8)
        as u32) << 16u32) | ((((x >> 24u32) as u8) as u32) << 24u32) == x) by (bit_vector);
}

/// A 32-bit value built from four little-endian bytes gives back those bytes.
proof fn lemma_le_u32_bytes(b0: u8, b1: u8, b2: u8, b3: u8)
    ensures
        ({
            let v = (b0 as u32) | ((b1 as u32) << 8u32) | ((b2 as u32) << 16u32) | ((b3 as u32)
                << 24u32);
            v as u8 == b0 && (v >> 8u32) as u8 == b1 && (v >> 16u32) as u8 == b2 && (v
                >> 24u32) as u8 == b3
        }),
{
    assert({
        let v = (b0 as u32) | ((b1 as u32) << 8u32) | ((b2 as u32) << 16u32) | ((b3 as u32)
            << 24u32);
        v as u8 == b0 && (v >> 8u32) as u8 == b1 && (v >> 16u32) as u8 == b2 && (v >> 24u32)
            as u8 == b3
    }) by (bit_vector);
}

/// The bytes of a 64-bit value read back as that value.
proof fn lemma_le_u64_value(x: u64)
    ensures
        ((x as u8) as u64) | ((((x >> 8u64) as u8) as u64) << 8u64) | ((((x >> 16u64) as u8)
            as u64) << 16u64) | ((((x >> 24u64) as u8) as u64) << 24u64) | ((((x >> 32u64)
            as u8) as u64) << 32u64) | ((((x >> 40u64) as u8) as u64) << 40u64) | ((((x
            >> 48u64) as u8) as u64) << 48u64) | ((((x >> 56u64) as u8) as u64) << 56u64) == x,
{
    assert(((x as u8) as u64) | ((((x >> 8u64) as u8) as u64) << 8u64) | ((((x >> 16u64) as u8)
        as u64) << 16u64) | ((((x >> 24u64) as u8) as u64) << 24u64) | ((((x >> 32u64) as u8)
        as u64) << 32u64) | ((((x >> 40u64) as u8) as u64) << 40u64) | ((((x >> 48u64) as u8)
        as u64) << 48u64) | ((((x >> 56u64) as u8) as u64) << 56u64) == x) by (bit_vector);
}

/// A 64-bit value built from eight little-endian bytes gives back those bytes.
proof fn lemma_le_u64_bytes(b0: u8, b1: u8, b2: u8, b3: u8, b4: u8, b5: u8, b6: u8, b7: u8)
    ensures
        ({
            let v = (b0 as u64) | ((b1 as u64) << 8u64) | ((b2 as u64) << 16u64) | ((b3 as u64)
                << 24u64) | ((b4 as u64) << 32u64) | ((b5 as u64) << 40u64) | ((b6 as u64)
                << 48u64) | ((b7 as u64) << 56u64);
            &&& v as u8 == b0
            &&& (v >> 8u64) as u8 == b1
            &&& (v >> 16u64) as u8 == b2
            &&& (v >> 24u64) as u8 == b3
            &&& (v >> 32u64) as u8 == b4
            &&& (v >> 40u64) as u8 == b5
            &&& (v >> 48u64) as u8 == b6
            &&& (v >> 56u64) as u8 == b7
        }),
{
    assert({
        let v = (b0 as u64) | ((b1 as u64) << 8u64) | ((b2 as u64) << 16u64) | ((b3 as u64)
            << 24u64) | ((b4 as u64) << 32u64) | ((b5 as u64) << 40u64) | ((b6 as u64) << 48u64)
            | ((b7 as u64) << 56u64);
        &&& v as u8 == b0
        &&& (v >> 8u64) as u8 == b1
        &&& (v >> 16u64) as u8 == b2
        &&& (v >> 24u64) as u8 == b3
        &&& (v >> 32u64) as u8 == b4
        &&& (v >> 40u64) as u8 == b5
        &&& (v >> 48u64) as u8 == b6
        &&& (v >> 56u64) as u8 == b7
    }) by (bit_vector);
}

/// Every encoded snapshot is exactly `SNAPSHOT_LEN` bytes long.
pub proof fn lemma_encoding_len(s: Snapshot)
    ensures
        encoding(s).len() == SNAPSHOT_LEN,
{
}

/// Decoding the bytes of an encoded snapshot gives back that snapshot.
pub proof fn lemma_decode_encode(s: Snapshot)
    ensures
        decode_result(encoding(s)) == Ok::<Snapshot, WireError>(s),
{
    let e = encoding(s);
    lemma_le_u64_value(s.peer_id);
    lemma_le_u32_value(s.seq);
    lemma_le_u64_value(s.t_send_ms);
    lemma_le_u32_value(s.pos_bits[0]);
    lemma_le_u32_value(s.pos_bits[1]);
    lemma_le_u32_value(s.pos_bits[2]);
    lemma_le_u32_value(s.yaw_bits);
    lemma_le_u16_value(s.hp);
    lemma_le_u16_value(s.hp_max);
    let d = decoding(e);
    assert(d.pos_bits =~= s.pos_bits);
    assert(d == s);
}

/// Encoding the snapshot read from a datagram reproduces the datagram's
/// first `SNAPSHOT_LEN` bytes.
pub proof fn lemma_encode_decode(b: Seq<u8>)
    requires
        b.len() >= SNAPSHOT_LEN,
    ensures
        encoding(decoding(b)) == b.take(SNAPSHOT_LEN as int),
{
    let d = decoding(b);
    lemma_le_u64_bytes(b[0], b[1], b[2], b[3], b[4], b[5], b[6], b[7]);
    lemma_le_u32_bytes(b[8], b[9], b[10], b[11]);
    lemma_le_u64_bytes(b[12], b[13], b[14], b[15], b[16], b[17], b[18], b[19]);
    lemma_le_u32_bytes(b[20], b[21], b[22], b[23]);
    lemma_le_u32_bytes(b[24], b[25], b[26], b[27]);
    lemma_le_u32_bytes(b[28], b[29], b[30], b[31]);
    lemma_le_u32_bytes(b[32], b[33], b[34], b[35]);
    lemma_le_u16_bytes(b[36], b[37]);
    lemma_le_u16_bytes(b[38], b[39]);
    assert(encoding(d) =~= b.take(SNAPSHOT_LEN as int));
}

/// Only the first `SNAPSHOT_LEN` bytes of a datagram matter to decoding.
pub proof fn lemma_decode_ignores_trailing(b: Seq<u8>, extra: Seq<u8>)
    ensures
        b.len() >= SNAPSHOT_LEN ==> decode_result(b + extra) == decode_result(b),
{
    if b.len() >= SNAPSHOT_LEN {
        assert(decoding(b + extra).pos_bits =~= decoding(b).pos_bits);
    }
}

impl Snapshot {
    /// The snapshot's 42 bytes on the wire.
    pub fn encode(&self) -> (b: [u8; SNAPSHOT_LEN])
        ensures
            b@ == encoding(*self),
    {
        let p = self.peer_id;
        let q = self.seq;
        let t = self.t_send_ms;
        let x = self.pos_bits[0];
        let y = self.pos_bits[1];
        let z = self.pos_bits[2];
        let w = self.yaw_bits;
        let h = self.hp;
        let m = self.hp_max;
        let b: [u8; SNAPSHOT_LEN] = [
            p as u8,
            (p >> 8u64) as u8,
            (p >> 16u64) as u8,
            (p >> 24u64) as u8,
            (p >> 32u64) as u8,
            (p >> 40u64) as u8,
            (p >> 48u64) as u8,
            (p >> 56u64) as u8,
            q as u8,
            (q >> 8u32) as u8,
            (q >> 16u32) as u8,
            (q >> 24u32) as u8,
            t as u8,
            (t >> 8u64) as u8,
            (t >> 16u64) as u8,
            (t >> 24u64) as u8,
            (t >> 32u64) as u8,
            (t >> 40u64) as u8,
            (t >> 48u64) as u8,
            (t >> 56u64) as u8,
            x as u8,
            (x >> 8u32) as u8,
            (x >> 16u32) as u8,
            (x >> 24u32) as u8,
            y as u8,
            (y >> 8u32) as u8,
            (y >> 16u32) as u8,
            (y >> 24u32) as u8,
            z as u8,
            (z >> 8u32) as u8,
            (z >> 16u32) as u8,
            (z >> 24u32) as u8,
            w as u8,
            (w >> 8u32) as u8,
            (w >> 16u32) as u8,
            (w >> 24u32) as u8,
            h as u8,
            (h >> 8u16) as u8,
            m as u8,
            (m >> 8u16) as u8,
            self.vocation,
            self.pose,
        ];
        assert(b@ =~= encoding(*self));
        b
    }

    /// Reads a snapshot from the first 42 bytes of `b`; bytes past those are
    /// ignored. Fails with `WireError::Short` when `b` is shorter.
    pub fn decode(b: &[u8]) -> (r: Result<Snapshot, WireError>)
        ensures
            r == decode_result(b@),
    {
        if b.len() < SNAPSHOT_LEN {
            return Err(WireError::Short(b.len()));
        }
        let peer_id = (b[0] as u64) | ((b[1] as u64) << 8u64) | ((b[2] as u64) << 16u64) | ((
        b[3] as u64) << 24u64) | ((b[4] as u64) << 32u64) | ((b[5] as u64) << 40u64) | ((
        b[6] as u64) << 48u64) | ((b[7] as u64) << 56u64);
        let seq = (b[8] as u32) | ((b[9] as u32) << 8u32) | ((b[10] as u32) << 16u32) | ((
        b[11] as u32) << 24u32);
        let t_send_ms = (b[12] as u64) | ((b[13] as u64) << 8u64) | ((b[14] as u64) << 16u64)
            | ((b[15] as u64) << 24u64) | ((b[16] as u64) << 32u64) | ((b[17] as u64) << 40u64)
            | ((b[18] as u64) << 48u64) | ((b[19] as u64) << 56u64);
        let x = (b[20] as u32) | ((b[21] as u32) << 8u32) | ((b[22] as u32) << 16u32) | ((
        b[23] as u32) << 24u32);
        let y = (b[24] as u32) | ((b[25] as u32) << 8u32) | ((b[26] as u32) << 16u32) | ((
        b[27] as u32) << 24u32);
        let z = (b[28] as u32) | ((b[29] as u32) << 8u32) | ((b[30] as u32) << 16u32) | ((
        b[31] as u32) << 24u32);
        let yaw_bits = (b[32] as u32) | ((b[33] as u32) << 8u32) | ((b[34] as u32) << 16u32)
            | ((b[35] as u32) << 24u32);
        let hp = (b[36] as u16) | ((b[37] as u16) << 8u16);
        let hp_max = (b[38] as u16) | ((b[39] as u16) << 8u16);
        let s = Snapshot {
            peer_id,
            seq,
            t_send_ms,
            pos_bits: [x, y, z],
            yaw_bits,
            hp,
            hp_max,
            vocation: b[40],
            pose: b[41],
        };
        assert(s.pos_bits =~= decoding(b@).pos_bits);
        Ok(s)
    }
}

} // verus!
