use vstd::prelude::*;

verus! {

/// Byte `k` of `data`, or 0 past its end.
pub open spec fn byte_or_zero(data: Seq<u8>, k: int) -> u8 {
    if 0 <= k < data.len() {
        data[k]
    } else {
        0
    }
}

/// The little-endian word made of the four bytes of `data` from `start`, bytes
/// past the end of `data` counting as 0.
pub open spec fn le_word(data: Seq<u8>, start: int) -> u32 {
    (byte_or_zero(data, start) as u32) | ((byte_or_zero(data, start + 1) as u32) << 8u32) | ((
    byte_or_zero(data, start + 2) as u32) << 16u32) | ((byte_or_zero(data, start + 3) as u32)
        << 24u32)
}

/// The 64-bit payload of a receive mailbox: the high data register above the low one.
pub open spec fn rx_payload(rdlr: u32, rdhr: u32) -> u64 {
    ((rdhr as u64) << 32u64) | (rdlr as u64)
}

/// Byte `k` of a payload in memory order (least significant byte first).
pub open spec fn payload_byte(payload: u64, k: int) -> u8 {
    ((payload >> ((8 * k) as u64)) & 0xffu64) as u8
}

/// The first `len` bytes of a payload in memory order.
pub open spec fn frame_bytes(payload: u64, len: nat) -> Seq<u8> {
    Seq::new(len, |k: int| payload_byte(payload, k))
}

fn byte_at(data: &[u8], start: usize, k: usize) -> (b: u8)
    requires
        k < 4,
    ensures
        b == byte_or_zero(data@, start + k),
{
    if start < data.len() && k < data.len() - start {
        data[start + k]
    } else {
        0
    }
}

/// Reads the little-endian word of `data` from `start`, with 0 for bytes past its end.
pub fn le_word_at(data: &[u8], start: usize) -> (w: u32)
    ensures
        w == le_word(data@, start as int),
{
    let b0 = byte_at(data, start, 0) as u32;
    let b1 = byte_at(data, start, 1) as u32;
    let b2 = byte_at(data, start, 2) as u32;
    let b3 = byte_at(data, start, 3) as u32;
    b0 | (b1 << 8u32) | (b2 << 16u32) | (b3 << 24u32)
}

/// The bytes of `payload` in memory order, `len` of them.
pub fn payload_bytes(payload: u64, len: usize) -> (v: Vec<u8>)
    requires
        len <= 8,
    ensures
        v@ == frame_bytes(payload, len as nat),
{
    let mut v: Vec<u8> = Vec::new();
    let mut k: usize = 0;
    while k < len
        invariant
            k <= len <= 8,
            v@ == frame_bytes(payload, k as nat),
        decreases len - k,
    {
        let shift: u64 = 8 * (k as u64);
        let b = ((payload >> shift) & 0xffu64) as u8;
        v.push(b);
        proof {
            assert(b == payload_byte(payload, k as int));
            assert(v@ =~= frame_bytes(payload, (k + 1) as nat));
        }
        k = k + 1;
    }
    v
}

proof fn lemma_word_bytes(w: u32, b0: u8, b1: u8, b2: u8, b3: u8)
    requires
        w == (b0 as u32) | ((b1 as u32) << 8u32) | ((b2 as u32) << 16u32) | ((b3 as u32) << 24u32),
    ensures
        (w & 0xff) == b0,
        ((w >> 8u32) & 0xff) == b1,
        ((w >> 16u32) & 0xff) == b2,
        ((w >> 24u32) & 0xff) == b3,
{
    assert((w & 0xff) == b0 && ((w >> 8u32) & 0xff) == b1 && ((w >> 16u32) & 0xff) == b2 && ((w
        >> 24u32) & 0xff) == b3) by (bit_vector)
        requires
            w == (b0 as u32) | ((b1 as u32) << 8u32) | ((b2 as u32) << 16u32) | ((b3 as u32)
                << 24u32),
    ;
}

proof fn lemma_payload_split(lo: u32, hi: u32)
    ensures
        payload_byte(rx_payload(lo, hi), 0) == (lo & 0xff) as u8,
        payload_byte(rx_payload(lo, hi), 1) == ((lo >> 8u32) & 0xff) as u8,
        payload_byte(rx_payload(lo, hi), 2) == ((lo >> 16u32) & 0xff) as u8,
        payload_byte(rx_payload(lo, hi), 3) == ((lo >> 24u32) & 0xff) as u8,
        payload_byte(rx_payload(lo, hi), 4) == (hi & 0xff) as u8,
        payload_byte(rx_payload(lo, hi), 5) == ((hi >> 8u32) & 0xff) as u8,
        payload_byte(rx_payload(lo, hi), 6) == ((hi >> 16u32) & 0xff) as u8,
        payload_byte(rx_payload(lo, hi), 7) == ((hi >> 24u32) & 0xff) as u8,
{
    let p = rx_payload(lo, hi);
    assert(((p >> 0u64) & 0xffu64) as u8 == (lo & 0xff) as u8 && ((p >> 8u64) & 0xffu64) as u8 == ((lo
        >> 8u32) & 0xff) as u8 && ((p >> 16u64) & 0xffu64) as u8 == ((lo >> 16u32) & 0xff) as u8 && ((p
        >> 24u64) & 0xffu64) as u8 == ((lo >> 24u32) & 0xff) as u8) by (bit_vector)
        requires
            p == ((hi as u64) << 32u64) | (lo as u64),
    ;
    assert(((p >> 32u64) & 0xffu64) as u8 == (hi & 0xff) as u8 && ((p >> 40u64) & 0xffu64) as u8 == ((hi
        >> 8u32) & 0xff) as u8 && ((p >> 48u64) & 0xffu64) as u8 == ((hi >> 16u32) & 0xff) as u8 && ((p
        >> 56u64) & 0xffu64) as u8 == ((hi >> 24u32) & 0xff) as u8) by (bit_vector)
        requires
            p == ((hi as u64) << 32u64) | (lo as u64),
    ;
}

/// Bytes packed into the two data words of a transmit mailbox, as
/// `write_to_mailbox` packs them, come back in order when the same two words are
/// read as a receive payload of the same length. Of a frame of at most four
/// bytes only the low word is written, so the high word may hold anything.
pub proof fn lemma_payload_round_trip(data: Seq<u8>, high: u32)
    requires
        1 <= data.len() <= 8,
        data.len() > 4 ==> high == le_word(data, 4),
    ensures
        frame_bytes(rx_payload(le_word(data, 0), high), data.len()) == data,
{
    let lo = le_word(data, 0);
    lemma_payload_split(lo, high);
    lemma_word_bytes(lo, byte_or_zero(data, 0), byte_or_zero(data, 1), byte_or_zero(data, 2), byte_or_zero(data, 3));
    lemma_word_bytes(le_word(data, 4), byte_or_zero(data, 4), byte_or_zero(data, 5), byte_or_zero(data, 6), byte_or_zero(data, 7));
    let f = frame_bytes(rx_payload(lo, high), data.len());
    assert forall|k: int| 0 <= k < data.len() implies f[k] == data[k] by {
        assert(f[k] == payload_byte(rx_payload(lo, high), k));
        if k < 4 {
            assert(byte_or_zero(data, k) == data[k]);
        } else {
            assert(byte_or_zero(data, k) == data[k]);
        }
    }
    assert(f =~= data);
}

} // verus!
