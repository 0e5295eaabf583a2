//! Frame extraction from the raw byte stream of the port: resynchronization
//! on the sentinel byte, 8-byte windows, and the decisions of the read loop.
use vstd::prelude::*;

use crate::protocol::{
    byte_to_kelvin, parse_status_at, parse_status_spec, step_kelvin, FRAME_LEN, SENTINEL,
};

verus! {

/// A decoded, checksum-valid status of the panel.
#[derive(Clone, Copy, Debug, PartialEq, Eq, Structural)]
pub struct LightStatus {
    pub brightness: u8,
    pub kelvin: u32,
}

/// The status that the frame at the start of `d` carries, if it is valid.
pub open spec fn status_of(d: Seq<u8>) -> Option<LightStatus> {
    match parse_status_spec(d) {
        Some((bri, step)) => Some(LightStatus { brightness: bri, kelvin: step_kelvin(step) }),
        None => None,
    }
}

/// Index of the first sentinel byte in `s`, or `s.len()` when there is none.
pub open spec fn first_sentinel(s: Seq<u8>) -> nat
    decreases s.len(),
{
    if s.len() == 0 {
        0
    } else if s[0] == 0x3A {
        0
    } else {
        1 + first_sentinel(s.drop_first())
    }
}

/// The statuses that the valid frames of `s` carry, in order, and the bytes
/// left over: while 8 bytes or more remain, the bytes before the first
/// sentinel are dropped (all of them when there is none), and then, if 8
/// bytes still remain, the next 8 are taken as one window whether or not they
/// form a valid frame.
pub open spec fn scan(s: Seq<u8>) -> (Seq<LightStatus>, Seq<u8>)
    decreases s.len(),
{
    if s.len() < 8 {
        (Seq::empty(), s)
    } else {
        let i = first_sentinel(s);
        if i >= s.len() {
            (Seq::empty(), Seq::empty())
        } else {
            let rest = s.skip(i as int);
            if rest.len() < 8 {
                (Seq::empty(), rest)
            } else {
                let (out, left) = scan(rest.skip(8));
                let found = match status_of(rest) {
                    Some(st) => seq![st],
                    None => Seq::empty(),
                };
                (found + out, left)
            }
        }
    }
}


proof fn lemma_first_sentinel_bound(s: Seq<u8>)
    ensures
        first_sentinel(s) <= s.len(),
        first_sentinel(s) < s.len() ==> s[first_sentinel(s) as int] == 0x3A,
    decreases s.len(),
{
    if s.len() > 0 && s[0] != 0x3A {
        lemma_first_sentinel_bound(s.drop_first());
    }
}

/// Index of the first sentinel byte at or after `start`, or `data.len()`.
fn find_sentinel(data: &Vec<u8>, start: usize) -> (r: usize)
    requires
        start <= data@.len(),
    ensures
        r == start + first_sentinel(data@.skip(start as int)),
        r <= data@.len(),
{
    let mut j: usize = start;
    while j < data.len() && data[j] != SENTINEL
        invariant
            start <= j <= data@.len(),
            first_sentinel(data@.skip(start as int)) == (j - start) + first_sentinel(
                data@.skip(j as int),
            ),
        decreases data@.len() - j,
    {
        assert(data@.skip(j as int).drop_first() == data@.skip(j as int + 1));
        j = j + 1;
    }
    j
}

/// The bytes received so far that do not yet make a whole frame.
pub struct FrameDecoder {
    accum: Vec<u8>,
}

impl FrameDecoder {
    /// Whatever is held back is too short to be a frame: a whole window is
    /// always taken out as soon as it has arrived.
    #[verifier::type_invariant]
    spec fn short_remainder(&self) -> bool {
        self.accum@.len() < 8
    }
}

/// What `scan` leaves over is always shorter than a frame.
pub proof fn lemma_scan_remainder_short(s: Seq<u8>)
    ensures
        scan(s).1.len() < 8,
    decreases s.len(),
{
    if s.len() >= 8 {
        let i = first_sentinel(s);
        if i < s.len() {
            let rest = s.skip(i as int);
            if rest.len() >= 8 {
                lemma_scan_remainder_short(rest.skip(8));
            }
        }
    }
}

impl View for FrameDecoder {
    type V = Seq<u8>;

    closed spec fn view(&self) -> Seq<u8> {
        self.accum@
    }
}

impl FrameDecoder {
    /// A decoder with nothing buffered.
    pub fn new() -> (r: Self)
        ensures
            r@ == Seq::<u8>::empty(),
            r@.len() < 8,
    {
        FrameDecoder { accum: Vec::new() }
    }

    /// The bytes held back, waiting for more data.
    pub fn pending(&self) -> (r: &[u8])
        ensures
            r@ == self@,
    {
        self.accum.as_slice()
    }

    /// Appends `bytes` to the buffer, then takes out every whole window as
    /// `scan` describes, returning the statuses of the valid ones in order.
    pub fn feed(&mut self, bytes: &[u8]) -> (r: Vec<LightStatus>)
        ensures
            r@ == scan(old(self)@ + bytes@).0,
            final(self)@ == scan(old(self)@ + bytes@).1,
            final(self)@.len() < 8,
    {
        proof {
            lemma_scan_remainder_short(self@ + bytes@);
        }
        let ghost start = self@;
        let mut accum: Vec<u8> = Vec::new();
        let mut i: usize = 0;
        while i < self.accum.len()
            invariant
                i <= start.len(),
                self@ == start,
                accum@ == start.take(i as int),
            decreases start.len() - i,
        {
            accum.push(self.accum[i]);
            i = i + 1;
        }
        assert(start.take(start.len() as int) == start);
        assert(start + bytes@.take(0) == start);
        i = 0;
        while i < bytes.len()
            invariant
                i <= bytes@.len(),
                accum@ == start + bytes@.take(i as int),
            decreases bytes@.len() - i,
        {
            accum.push(bytes[i]);
            i = i + 1;
        }
        assert(bytes@.take(bytes@.len() as int) == bytes@);
        let ghost buf = accum@;
        assert(buf.skip(0) == buf);
        let mut out: Vec<LightStatus> = Vec::new();
        let mut pos: usize = 0;
        while accum.len() - pos >= FRAME_LEN
            invariant
                accum@ == buf,
                pos <= buf.len(),
                scan(buf) == (out@ + scan(buf.skip(pos as int)).0, scan(
                    buf.skip(pos as int),
                ).1),
            decreases buf.len() - pos,
        {
            let ghost tail = buf.skip(pos as int);
            let j = find_sentinel(&accum, pos);
            proof {
                lemma_first_sentinel_bound(tail);
            }
            if j == accum.len() {
                assert(buf.skip(j as int) =~= Seq::<u8>::empty());
                pos = j;
            } else {
                assert(tail.skip(j - pos) == buf.skip(j as int));
                if accum.len() - j < FRAME_LEN {
                    pos = j;
                } else {
                    let st = parse_status_at(accum.as_slice(), j);
                    let ghost before = out@;
                    let ghost rest = buf.skip(j as int);
                    assert(rest.skip(8) == buf.skip(j + 8));
                    match st {
                        Some((bri, step)) => {
                            out.push(LightStatus { brightness: bri, kelvin: byte_to_kelvin(step) });
                        },
                        None => {},
                    }
                    pos = j + FRAME_LEN;
                    let ghost found = match status_of(rest) {
                        Some(s) => seq![s],
                        None => Seq::<LightStatus>::empty(),
                    };
                    assert(out@ == before + found);
                    assert(before + (found + scan(buf.skip(pos as int)).0) == out@ + scan(
                        buf.skip(pos as int),
                    ).0);
                }
            }
        }
        let mut left: Vec<u8> = Vec::new();
        let mut k: usize = pos;
        while k < accum.len()
            invariant
                accum@ == buf,
                pos <= k <= buf.len(),
                left@ == buf.subrange(pos as int, k as int),
            decreases buf.len() - k,
        {
            left.push(accum[k]);
            k = k + 1;
        }
        assert(left@ == buf.skip(pos as int));
        self.accum = left;
        out
    }
}

proof fn lemma_first_sentinel_after_noise(noise: Seq<u8>, s: Seq<u8>)
    requires
        forall|i: int| 0 <= i < noise.len() ==> noise[i] != 0x3A,
    ensures
        first_sentinel(noise + s) == noise.len() + first_sentinel(s),
    decreases noise.len(),
{
    if noise.len() > 0 {
        assert((noise + s).drop_first() == noise.drop_first() + s);
        lemma_first_sentinel_after_noise(noise.drop_first(), s);
    } else {
        assert(noise + s == s);
    }
}

/// Bytes without a sentinel that come before a valid frame are dropped, the
/// frame is decoded, and scanning goes on after it.
pub proof fn lemma_resync_skips_noise(noise: Seq<u8>, frame: Seq<u8>, tail: Seq<u8>)
    requires
        forall|i: int| 0 <= i < noise.len() ==> noise[i] != 0x3A,
        frame.len() == 8,
        status_of(frame) is Some,
    ensures
        scan(noise + frame + tail) == (seq![status_of(frame)->0] + scan(tail).0, scan(tail).1),
{
    let s = noise + frame + tail;
    assert(s == noise + (frame + tail));
    lemma_first_sentinel_after_noise(noise, frame + tail);
    assert(s.skip(noise.len() as int) == frame + tail);
    assert((frame + tail).skip(8) == tail);
    assert(status_of(frame + tail) == status_of(frame)) by {
        assert((frame + tail).subrange(0, 6) == frame.subrange(0, 6));
        assert((frame + tail).subrange(6, 8) == frame.subrange(6, 8));
    }
}

/// An 8-byte window that starts with the sentinel but is not a valid frame
/// is dropped whole, and scanning goes on right after it.
pub proof fn lemma_invalid_window_dropped(window: Seq<u8>, tail: Seq<u8>)
    requires
        window.len() == 8,
        window[0] == 0x3A,
        status_of(window) is None,
    ensures
        scan(window + tail) == scan(tail),
{
    let s = window + tail;
    assert(s.skip(0) == s);
    assert(s.skip(8) == tail);
    assert(status_of(s) == status_of(window)) by {
        assert(s.subrange(0, 6) == window.subrange(0, 6));
        assert(s.subrange(6, 8) == window.subrange(6, 8));
    }
    assert(Seq::<LightStatus>::empty() + scan(tail).0 == scan(tail).0);
}

/// A buffer without any sentinel yields nothing; once it holds 8 bytes or
/// more it is dropped whole.
pub proof fn lemma_noise_discarded(noise: Seq<u8>)
    requires
        forall|i: int| 0 <= i < noise.len() ==> noise[i] != 0x3A,
    ensures
        scan(noise).0.len() == 0,
        noise.len() >= 8 ==> scan(noise).1.len() == 0,
        noise.len() < 8 ==> scan(noise).1 == noise,
{
    lemma_first_sentinel_after_noise(noise, Seq::empty());
    assert(noise + Seq::<u8>::empty() == noise);
}

proof fn lemma_no_sentinel_before_first(s: Seq<u8>)
    ensures
        forall|j: int| 0 <= j < first_sentinel(s) ==> s[j] != 0x3A,
    decreases s.len(),
{
    if s.len() > 0 && s[0] != 0x3A {
        lemma_no_sentinel_before_first(s.drop_first());
        lemma_first_sentinel_bound(s);
        assert forall|j: int| 0 <= j < first_sentinel(s) implies s[j] != 0x3A by {
            if j > 0 {
                assert(s[j] == s.drop_first()[j - 1]);
            }
        }
    }
}

proof fn lemma_first_sentinel_extend(a: Seq<u8>, b: Seq<u8>)
    requires
        first_sentinel(a) < a.len(),
    ensures
        first_sentinel(a + b) == first_sentinel(a),
    decreases a.len(),
{
    if a[0] != 0x3A {
        assert((a + b).drop_first() == a.drop_first() + b);
        lemma_first_sentinel_extend(a.drop_first(), b);
    }
}

/// Bytes without a sentinel in front of a stream change nothing of what is
/// decoded from it.
proof fn lemma_noise_prefix_output(noise: Seq<u8>, s: Seq<u8>)
    requires
        forall|i: int| 0 <= i < noise.len() ==> noise[i] != 0x3A,
    ensures
        scan(noise + s).0 == scan(s).0,
{
    let t = noise + s;
    lemma_first_sentinel_after_noise(noise, s);
    lemma_first_sentinel_bound(s);
    let i = first_sentinel(s);
    if t.len() >= 8 && i < s.len() {
        assert(t.skip((noise.len() + i) as int) == s.skip(i as int));
        assert(s.skip(0) == s);
    }
}

/// Decoding does not depend on how the stream is cut into reads: decoding
/// `a`, then what it left over followed by `b`, gives the statuses of `a + b`
/// in one go.
pub proof fn lemma_scan_split(a: Seq<u8>, b: Seq<u8>)
    ensures
        scan(a).0 + scan(scan(a).1 + b).0 == scan(a + b).0,
    decreases a.len(),
{
    if a.len() < 8 {
        assert(Seq::<LightStatus>::empty() + scan(a + b).0 == scan(a + b).0);
    } else {
        let i = first_sentinel(a);
        lemma_first_sentinel_bound(a);
        lemma_no_sentinel_before_first(a);
        if i >= a.len() {
            assert(a == a.take(i as int));
            lemma_noise_prefix_output(a, b);
            assert(Seq::<u8>::empty() + b == b);
            assert(Seq::<LightStatus>::empty() + scan(b).0 == scan(b).0);
        } else {
            let rest = a.skip(i as int);
            let noise = a.take(i as int);
            assert(a + b == noise + (rest + b));
            lemma_noise_prefix_output(noise, rest + b);
            if rest.len() < 8 {
                assert(Seq::<LightStatus>::empty() + scan(rest + b).0 == scan(rest + b).0);
            } else {
                let r8 = rest.skip(8);
                lemma_scan_split(r8, b);
                let rb = rest + b;
                assert(rb.skip(0) == rb);
                assert(rb.skip(8) == r8 + b);
                assert(status_of(rb) == status_of(rest)) by {
                    assert(rb.subrange(0, 6) == rest.subrange(0, 6));
                    assert(rb.subrange(6, 8) == rest.subrange(6, 8));
                }
                let found = match status_of(rest) {
                    Some(st) => seq![st],
                    None => Seq::<LightStatus>::empty(),
                };
                assert(found + scan(r8).0 + scan(scan(r8).1 + b).0 == found + (scan(r8).0 + scan(
                    scan(r8).1 + b,
                ).0));
            }
        }
    }
}

/// What one read of the port gave.
pub enum ReadEvent {
    /// Bytes arrived (possibly none).
    Data(Vec<u8>),
    /// The read timed out; not an error.
    TimedOut,
    /// Any other read failure: the device is gone.
    Failed,
}

/// What the read loop does after a read.
pub enum LoopStep {
    /// Publish these statuses, in order, and read again.
    Publish(Vec<LightStatus>),
    /// Publish the disconnection and end the loop.
    Stop,
}

impl FrameDecoder {
    /// Decides what the read loop does with the outcome of one read: bytes
    /// are fed to the decoder, a timeout or an empty read changes nothing,
    /// and any other failure stops the loop.
    pub fn on_read(&mut self, event: ReadEvent) -> (r: LoopStep)
        ensures
            final(self)@.len() < 8,
            match event {
                ReadEvent::Data(b) => {
                    &&& final(self)@ == scan(old(self)@ + b@).1
                    &&& r matches LoopStep::Publish(v) && v@ == scan(old(self)@ + b@).0
                    &&& b@.len() == 0 ==> (final(self)@ == old(self)@ && (r matches LoopStep::Publish(v)
                        && v@.len() == 0))
                },
                ReadEvent::TimedOut => {
                    &&& final(self)@ == old(self)@
                    &&& r matches LoopStep::Publish(v) && v@.len() == 0
                },
                ReadEvent::Failed => {
                    &&& final(self)@ == old(self)@
                    &&& r matches LoopStep::Stop
                },
            },
    {
        proof {
            use_type_invariant(&*self);
        }
        match event {
            ReadEvent::Data(b) => {
                if b.len() == 0 {
                    proof {
                        assert(old(self)@ + b@ == old(self)@);
                    }
                    LoopStep::Publish(Vec::new())
                } else {
                    LoopStep::Publish(self.feed(b.as_slice()))
                }
            },
            ReadEvent::TimedOut => LoopStep::Publish(Vec::new()),
            ReadEvent::Failed => LoopStep::Stop,
        }
    }
}

} // verus!
