//! Wire codec: command packets, checksums, Kelvin quantization and status
//! frames.
use vstd::prelude::*;

verus! {

/// First byte of every frame.
pub const SENTINEL: u8 = 0x3A;

/// Tag of the brightness / color-temperature command and status.
pub const TAG_CCT: u8 = 0x02;

/// Length in bytes of a status frame and of a CCT command packet.
pub const FRAME_LEN: usize = 8;

/// Sum of all bytes, as an unbounded natural number.
pub open spec fn byte_sum(s: Seq<u8>) -> nat
    decreases s.len(),
{
    if s.len() == 0 {
        0
    } else {
        byte_sum(s.drop_last()) + s.last() as nat
    }
}

/// The two checksum bytes of `s`: the sum modulo 2^16, high byte first.
pub open spec fn checksum_spec(s: Seq<u8>) -> Seq<u8> {
    let total = byte_sum(s) % 0x10000;
    seq![(total / 0x100) as u8, (total % 0x100) as u8]
}

/// Computes the 16-bit big-endian wrapping sum of `data`.
pub fn checksum(data: &[u8]) -> (r: [u8; 2])
    ensures
        r@ == checksum_spec(data@),
{
    let mut s: u16 = 0;
    let mut i: usize = 0;
    while i < data.len()
        invariant
            i <= data@.len(),
            s as nat == byte_sum(data@.take(i as int)) % 0x10000,
        decreases data@.len() - i,
    {
        assert(data@.take(i as int + 1).drop_last() == data@.take(i as int));
        s = ((s as u32 + data[i] as u32) % 0x10000) as u16;
        i = i + 1;
    }
    assert(data@.take(data@.len() as int) == data@);
    let r = [(s / 0x100) as u8, (s % 0x100) as u8];
    assert(r@ == checksum_spec(data@));
    r
}


/// A payload followed by its checksum.
pub open spec fn packet_spec(payload: Seq<u8>) -> Seq<u8> {
    payload + checksum_spec(payload)
}

/// Appends the checksum of `payload` to a copy of it.
pub fn build_packet(payload: &[u8]) -> (r: Vec<u8>)
    ensures
        r@ == packet_spec(payload@),
{
    let cs = checksum(payload);
    let mut pkt: Vec<u8> = Vec::new();
    let mut i: usize = 0;
    while i < payload.len()
        invariant
            i <= payload@.len(),
            pkt@ == payload@.take(i as int),
        decreases payload@.len() - i,
    {
        pkt.push(payload[i]);
        i = i + 1;
    }
    assert(pkt@ == payload@);
    pkt.push(cs[0]);
    pkt.push(cs[1]);
    assert(pkt@ == packet_spec(payload@));
    pkt
}

/// Lowest color temperature of the panel, in Kelvin.
pub const TEMP_MIN_K: u32 = 2900;

/// Highest color temperature of the panel, in Kelvin.
pub const TEMP_MAX_K: u32 = 7000;

/// Highest protocol step; steps run from 0 (`TEMP_MIN_K`) to this value (`TEMP_MAX_K`).
pub const TEMP_STEPS: u32 = 18;

/// `k` clamped to the panel's range of color temperatures.
pub open spec fn clamp_kelvin(k: u32) -> int {
    if k < 2900 {
        2900
    } else if k > 7000 {
        7000
    } else {
        k as int
    }
}

/// The protocol step of `k`: `(clamped k - 2900) * 18 / 4100` rounded to the
/// nearest integer, halves upward, capped at 18.
pub open spec fn kelvin_step(k: u32) -> u8 {
    let s = ((clamp_kelvin(k) - 2900) * 18 + 2050) / 4100;
    if s > 18 {
        18u8
    } else {
        s as u8
    }
}

/// The color temperature of step `b` (clamped to 18): `2900 + b * 4100 / 18`
/// rounded to the nearest integer.
pub open spec fn step_kelvin(b: u8) -> u32 {
    let c: int = if b > 18 {
        18
    } else {
        b as int
    };
    (2900 + (c * 4100 + 9) / 18) as u32
}

/// Converts a color temperature in Kelvin to the protocol step in [0, 18].
pub fn kelvin_to_byte(kelvin: u32) -> (r: u8)
    ensures
        r == kelvin_step(kelvin),
        r <= 18,
        (clamp_kelvin(kelvin) - 2900) * 18 - 2050 < r * 4100 <= (clamp_kelvin(kelvin) - 2900) * 18
            + 2050,
{
    let k: u32 = if kelvin < TEMP_MIN_K {
        TEMP_MIN_K
    } else if kelvin > TEMP_MAX_K {
        TEMP_MAX_K
    } else {
        kelvin
    };
    let span: u32 = TEMP_MAX_K - TEMP_MIN_K;
    let step: u32 = ((k - TEMP_MIN_K) * TEMP_STEPS + span / 2) / span;
    if step > TEMP_STEPS {
        TEMP_STEPS as u8
    } else {
        step as u8
    }
}

/// Converts a protocol step (clamped to 18) to a color temperature in Kelvin.
pub fn byte_to_kelvin(b: u8) -> (r: u32)
    ensures
        r == step_kelvin(b),
        TEMP_MIN_K <= r <= TEMP_MAX_K,
{
    let c: u32 = if (b as u32) > TEMP_STEPS {
        TEMP_STEPS
    } else {
        b as u32
    };
    TEMP_MIN_K + (c * (TEMP_MAX_K - TEMP_MIN_K) + TEMP_STEPS / 2) / TEMP_STEPS
}


/// `brightness` capped at 100 percent.
pub open spec fn cap_brightness(brightness: u8) -> u8 {
    if brightness > 100 {
        100u8
    } else {
        brightness
    }
}

/// Payload of the CCT command: sentinel, tag, length 3, then `01`, brightness
/// and temperature step.
pub open spec fn cct_payload(brightness: u8, kelvin: u32) -> Seq<u8> {
    seq![0x3Au8, 0x02u8, 0x03u8, 0x01u8, cap_brightness(brightness), kelvin_step(kelvin)]
}

/// Builds the 8-byte command that sets brightness (capped at 100) and color
/// temperature.
pub fn cct_command(brightness: u8, kelvin: u32) -> (r: Vec<u8>)
    ensures
        r@ == packet_spec(cct_payload(brightness, kelvin)),
        r@.len() == FRAME_LEN,
{
    let bri: u8 = if brightness > 100 {
        100
    } else {
        brightness
    };
    let temp = kelvin_to_byte(kelvin);
    let payload: [u8; 6] = [SENTINEL, TAG_CCT, 0x03, 0x01, bri, temp];
    assert(payload@ == cct_payload(brightness, kelvin));
    build_packet(&payload)
}

/// What a status frame at the start of `d` holds: `(brightness, step)` when
/// `d` has 8 bytes or more, starts with the sentinel and the CCT tag, and
/// bytes 6 and 7 are the checksum of bytes 0 to 5.
pub open spec fn parse_status_spec(d: Seq<u8>) -> Option<(u8, u8)> {
    if d.len() >= 8 && d[0] == 0x3A && d[1] == 0x02 && d.subrange(6, 8) == checksum_spec(
        d.subrange(0, 6),
    ) {
        Some((d[4], d[5]))
    } else {
        None
    }
}

/// Reads a status frame starting at `start` in `data`.
pub(crate) fn parse_status_at(data: &[u8], start: usize) -> (r: Option<(u8, u8)>)
    requires
        start <= data@.len(),
    ensures
        r == parse_status_spec(data@.skip(start as int)),
{
    let ghost d = data@.skip(start as int);
    if data.len() - start >= 8 && data[start] == SENTINEL && data[start + 1] == TAG_CCT {
        let head: [u8; 6] = [
            data[start],
            data[start + 1],
            data[start + 2],
            data[start + 3],
            data[start + 4],
            data[start + 5],
        ];
        assert(head@ == d.subrange(0, 6));
        let expected = checksum(&head);
        if data[start + 6] == expected[0] && data[start + 7] == expected[1] {
            assert(d.subrange(6, 8) == checksum_spec(d.subrange(0, 6)));
            return Some((data[start + 4], data[start + 5]));
        }
        assert(d.subrange(6, 8)[0] == d[6]);
    }
    None
}

/// Reads a status frame at the start of `data`: `(brightness, step)`, or
/// `None` when the bytes are not yet a valid frame.
pub fn parse_status(data: &[u8]) -> (r: Option<(u8, u8)>)
    ensures
        r == parse_status_spec(data@),
{
    assert(data@.skip(0) == data@);
    parse_status_at(data, 0)
}

/// Every step survives the trip to Kelvin and back.
pub proof fn lemma_step_round_trip(b: u8)
    requires
        b <= 18,
    ensures
        kelvin_step(step_kelvin(b)) == b,
{
}

/// A temperature that goes to a step and back lands within one step
/// (about 228 K) of the clamped original.
pub proof fn lemma_kelvin_round_trip_within_step(k: u32)
    ensures
        -228 <= step_kelvin(kelvin_step(k)) - clamp_kelvin(k) <= 228,
{
}

/// A CCT command parsed as a status frame gives back the capped brightness
/// and the temperature step that were encoded.
pub proof fn lemma_parse_cct_command(brightness: u8, kelvin: u32)
    ensures
        parse_status_spec(packet_spec(cct_payload(brightness, kelvin))) == Some(
            (cap_brightness(brightness), kelvin_step(kelvin)),
        ),
{
    let p = cct_payload(brightness, kelvin);
    let d = packet_spec(p);
    assert(d.subrange(0, 6) == p);
    assert(d.subrange(6, 8) == checksum_spec(p));
}

/// The step of a temperature never decreases as the temperature rises.
pub proof fn lemma_kelvin_step_monotonic(k1: u32, k2: u32)
    requires
        k1 <= k2,
    ensures
        kelvin_step(k1) <= kelvin_step(k2),
{
    let a = (clamp_kelvin(k1) - 2900) * 18 + 2050;
    let b = (clamp_kelvin(k2) - 2900) * 18 + 2050;
    assert(a <= b);
    assert(a / 4100 <= b / 4100) by (nonlinear_arith)
        requires a <= b, 0 <= a;
}

} // verus!
