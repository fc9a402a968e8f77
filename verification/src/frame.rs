//! Framing of packets on the serial line and the receiving state machine.
//!
//! A frame is `START, LEN, PAYLOAD.., CRC, END` where `CRC` is the CRC-8 of
//! `LEN` followed by the payload. The receiver consumes one byte at a time
//! and reports what the byte completed.

use vstd::prelude::*;
use crate::crc::{crc8, crc8_update, crc_step, crc_from, crc8_of, lemma_crc_from_concat};

verus! {

/// Marks the beginning of a frame.
pub const START_BYTE: u8 = 0xAA;
/// Marks the end of a frame.
pub const END_BYTE: u8 = 0x55;
/// The largest payload a frame may carry.
pub const MAX_PAYLOAD: usize = 32;

/// The bytes of the frame that carries `payload`.
pub open spec fn frame_bytes(payload: Seq<u8>) -> Seq<u8> {
    let len = payload.len() as u8;
    seq![START_BYTE, len] + payload + seq![crc8_of(seq![len] + payload), END_BYTE]
}

/// Builds the frame that carries `payload`: start byte, length, payload,
/// CRC-8 of length and payload, end byte.
pub fn encode_frame(payload: &[u8]) -> (frame: Vec<u8>)
    requires
        payload@.len() <= MAX_PAYLOAD,
    ensures
        frame@ == frame_bytes(payload@),
{
    let len = payload.len() as u8;
    let mut crc_input: Vec<u8> = Vec::new();
    crc_input.push(len);
    let mut i: usize = 0;
    while i < payload.len()
        invariant
            i <= payload@.len(),
            crc_input@ == seq![len] + payload@.take(i as int),
        decreases payload.len() - i,
    {
        crc_input.push(payload[i]);
        i = i + 1;
        proof {
            assert(crc_input@ =~= seq![len] + payload@.take(i as int));
        }
    }
    proof {
        assert(payload@.take(payload@.len() as int) =~= payload@);
    }
    let crc = crc8(crc_input.as_slice());
    let mut frame: Vec<u8> = Vec::new();
    frame.push(START_BYTE);
    frame.push(len);
    let mut j: usize = 0;
    while j < payload.len()
        invariant
            j <= payload@.len(),
            frame@ == seq![START_BYTE, len] + payload@.take(j as int),
        decreases payload.len() - j,
    {
        frame.push(payload[j]);
        j = j + 1;
        proof {
            assert(frame@ =~= seq![START_BYTE, len] + payload@.take(j as int));
        }
    }
    frame.push(crc);
    frame.push(END_BYTE);
    proof {
        assert(frame@ =~= frame_bytes(payload@));
    }
    frame
}

/// The phase of the receiver.
#[derive(Clone, Copy, Debug, PartialEq, Eq, Structural)]
pub enum RxState {
    /// Looking for the start byte.
    WaitStart,
    /// Expecting the payload length.
    WaitLen,
    /// Reading payload bytes.
    ReadPayload,
    /// Expecting the CRC byte.
    ReadCrc,
    /// Expecting the end byte.
    WaitEnd,
}

/// The receiver as the contracts see it.
pub struct RxView {
    pub state: RxState,
    /// The announced payload length.
    pub len: int,
    /// The payload bytes read so far in this frame.
    pub received: Seq<u8>,
    /// The CRC byte read from the line.
    pub received_crc: u8,
    /// The CRC computed over the length and the payload read so far.
    pub crc: u8,
}

/// What one byte completed, as the contracts see it.
pub enum RxOutcome {
    /// Nothing to report.
    Idle,
    /// A whole frame arrived and its CRC matched: here is its payload.
    Delivered(Seq<u8>),
    /// The end byte arrived where the CRC byte was expected: a byte is missing.
    MissingByte,
    /// The frame ended but its CRC did not match: a byte was corrupted.
    Corrupted,
}

/// What one byte completed.
#[derive(Debug, PartialEq, Eq)]
pub enum RxEvent {
    /// Nothing to report.
    Idle,
    /// A whole frame arrived and its CRC matched: here is its payload.
    Frame(Vec<u8>),
    /// The end byte arrived where the CRC byte was expected: a byte is missing.
    MissingByte,
    /// The frame ended but its CRC did not match: a byte was corrupted.
    CrcMismatch,
}

impl View for RxEvent {
    type V = RxOutcome;

    open spec fn view(&self) -> RxOutcome {
        match self {
            RxEvent::Idle => RxOutcome::Idle,
            RxEvent::Frame(p) => RxOutcome::Delivered(p@),
            RxEvent::MissingByte => RxOutcome::MissingByte,
            RxEvent::CrcMismatch => RxOutcome::Corrupted,
        }
    }
}

/// The receiver at power-up.
pub open spec fn rx_initial() -> RxView {
    RxView { state: RxState::WaitStart, len: 0, received: seq![], received_crc: 0, crc: 0 }
}

/// What the receiver keeps true between bytes.
pub open spec fn rx_wf(v: RxView) -> bool {
    &&& 0 <= v.len <= MAX_PAYLOAD
    &&& v.received.len() <= MAX_PAYLOAD
    &&& (v.state == RxState::WaitStart || v.state == RxState::WaitLen) ==> v.received.len() == 0
    &&& v.state == RxState::ReadPayload ==> {
        &&& (v.len == 0 || v.received.len() < v.len)
        &&& v.crc == crc8_of(seq![v.len as u8] + v.received)
    }
    &&& (v.state == RxState::ReadCrc || v.state == RxState::WaitEnd) ==> {
        &&& 1 <= v.len
        &&& v.received.len() == v.len
        &&& v.crc == crc8_of(seq![v.len as u8] + v.received)
    }
}

/// Whether the receiver can take `byte` without running past its payload
/// buffer (only possible after an announced length of zero).
pub open spec fn rx_accepts(v: RxView, byte: u8) -> bool {
    !(v.state == RxState::ReadPayload && v.received.len() == MAX_PAYLOAD && byte != START_BYTE)
}

/// The receiver after `byte`, and what `byte` completed.
pub open spec fn rx_next(v: RxView, byte: u8) -> (RxView, RxOutcome) {
    match v.state {
        RxState::WaitStart => if byte == START_BYTE {
            (RxView { state: RxState::WaitLen, received: seq![], ..v }, RxOutcome::Idle)
        } else {
            (v, RxOutcome::Idle)
        },
        RxState::WaitLen => if byte <= MAX_PAYLOAD {
            (
                RxView {
                    state: RxState::ReadPayload,
                    len: byte as int,
                    received: seq![],
                    crc: crc_step(0, byte),
                    ..v
                },
                RxOutcome::Idle,
            )
        } else {
            (RxView { state: RxState::WaitStart, ..v }, RxOutcome::Idle)
        },
        RxState::ReadPayload => if byte == START_BYTE {
            (RxView { state: RxState::WaitLen, received: seq![], crc: 0, ..v }, RxOutcome::Idle)
        } else {
            let received = v.received.push(byte);
            (
                RxView {
                    state: if received.len() == v.len {
                        RxState::ReadCrc
                    } else {
                        RxState::ReadPayload
                    },
                    received: received,
                    crc: crc_step(v.crc, byte),
                    ..v
                },
                RxOutcome::Idle,
            )
        },
        RxState::ReadCrc => if byte == START_BYTE {
            (RxView { state: RxState::WaitLen, received: seq![], crc: 0, ..v }, RxOutcome::Idle)
        } else if byte == END_BYTE {
            (
                RxView {
                    state: RxState::WaitStart,
                    len: 0,
                    received: seq![],
                    received_crc: byte,
                    crc: 0,
                },
                RxOutcome::MissingByte,
            )
        } else {
            (RxView { state: RxState::WaitEnd, received_crc: byte, ..v }, RxOutcome::Idle)
        },
        RxState::WaitEnd => if byte == START_BYTE {
            (RxView { state: RxState::WaitLen, received: seq![], ..v }, RxOutcome::Idle)
        } else {
            (
                RxView { state: RxState::WaitStart, len: 0, received: seq![], crc: 0, ..v },
                if byte != END_BYTE {
                    RxOutcome::Idle
                } else if v.crc == v.received_crc {
                    RxOutcome::Delivered(v.received)
                } else {
                    RxOutcome::Corrupted
                },
            )
        },
    }
}

/// The receiver's state machine for incoming frames.
pub struct Receiver {
    state: RxState,
    payload_len: usize,
    payload_buf: [u8; 32],
    payload_pos: usize,
    received_crc: u8,
    crc_calc: u8,
}

impl View for Receiver {
    type V = RxView;

    closed spec fn view(&self) -> RxView {
        RxView {
            state: self.state,
            len: self.payload_len as int,
            received: self.payload_buf@.take(self.payload_pos as int),
            received_crc: self.received_crc,
            crc: self.crc_calc,
        }
    }
}

impl Receiver {
    /// The receiver's own invariant.
    pub closed spec fn wf(&self) -> bool {
        &&& self.payload_pos <= MAX_PAYLOAD
        &&& rx_wf(self@)
    }

    /// A receiver waiting for the start of a frame.
    pub fn new() -> (r: Self)
        ensures
            r.wf(),
            r@ == rx_initial(),
    {
        let r = Receiver {
            state: RxState::WaitStart,
            payload_len: 0,
            payload_buf: [0u8; 32],
            payload_pos: 0,
            received_crc: 0,
            crc_calc: 0,
        };
        proof {
            assert(r@.received =~= Seq::<u8>::empty());
        }
        r
    }

    /// The current phase.
    pub fn state(&self) -> (s: RxState)
        ensures
            s == self@.state,
    {
        self.state
    }

    /// Whether `byte` can be taken now; see `rx_accepts`.
    pub fn accepts(&self, byte: u8) -> (r: bool)
        requires
            self.wf(),
        ensures
            r == rx_accepts(self@, byte),
    {
        !(self.state == RxState::ReadPayload && self.payload_pos == MAX_PAYLOAD && byte
            != START_BYTE)
    }

    /// Resets the frame in progress and expects a length byte next.
    fn restart(&mut self, reset_crc: bool)
        requires
            old(self).wf(),
        ensures
            final(self).wf(),
            final(self)@ == (RxView {
                state: RxState::WaitLen,
                received: seq![],
                crc: if reset_crc {
                    0
                } else {
                    old(self)@.crc
                },
                ..old(self)@
            }),
    {
        self.state = RxState::WaitLen;
        self.payload_pos = 0;
        if reset_crc {
            self.crc_calc = 0;
        }
        proof {
            assert(self@.received =~= Seq::<u8>::empty());
        }
    }

    /// Forgets the frame and waits for the next start byte.
    fn finish(&mut self)
        requires
            old(self).wf(),
        ensures
            final(self).wf(),
            final(self)@ == (RxView {
                state: RxState::WaitStart,
                len: 0,
                received: seq![],
                crc: 0,
                ..old(self)@
            }),
    {
        self.state = RxState::WaitStart;
        self.payload_pos = 0;
        self.crc_calc = 0;
        self.payload_len = 0;
        proof {
            assert(self@.received =~= Seq::<u8>::empty());
        }
    }

    /// Consumes one byte from the line and reports what it completed.
    pub fn step(&mut self, byte: u8) -> (ev: RxEvent)
        requires
            old(self).wf(),
            rx_accepts(old(self)@, byte),
        ensures
            final(self).wf(),
            final(self)@ == rx_next(old(self)@, byte).0,
            ev@ == rx_next(old(self)@, byte).1,
    {
        match self.state {
            RxState::WaitStart => {
                if byte == START_BYTE {
                    self.payload_pos = 0;
                    self.state = RxState::WaitLen;
                    proof {
                        assert(self@.received =~= Seq::<u8>::empty());
                    }
                }
                RxEvent::Idle
            },
            RxState::WaitLen => {
                if byte <= MAX_PAYLOAD as u8 {
                    self.payload_len = byte as usize;
                    self.payload_pos = 0;
                    self.crc_calc = crc8_update(0, byte);
                    self.state = RxState::ReadPayload;
                    proof {
                        assert(self@.received =~= Seq::<u8>::empty());
                        assert(seq![byte] + self@.received =~= seq![byte]);
                        reveal_with_fuel(crc_from, 2);
                        assert(seq![byte].drop_last() =~= Seq::<u8>::empty());
                    }
                } else {
                    self.state = RxState::WaitStart;
                }
                RxEvent::Idle
            },
            RxState::ReadPayload => {
                if byte == START_BYTE {
                    self.restart(true);
                    return RxEvent::Idle;
                }
                let ghost before = self@;
                self.payload_buf[self.payload_pos] = byte;
                self.payload_pos = self.payload_pos + 1;
                self.crc_calc = crc8_update(self.crc_calc, byte);
                proof {
                    assert(self@.received =~= before.received.push(byte));
                    let data = seq![before.len as u8] + self@.received;
                    assert(data.drop_last() =~= seq![before.len as u8] + before.received);
                }
                if self.payload_pos == self.payload_len {
                    self.state = RxState::ReadCrc;
                }
                RxEvent::Idle
            },
            RxState::ReadCrc => {
                if byte == START_BYTE {
                    self.restart(true);
                    return RxEvent::Idle;
                }
                self.received_crc = byte;
                self.state = RxState::WaitEnd;
                if self.received_crc == 0x55 {
                    self.finish();
                    return RxEvent::MissingByte;
                }
                RxEvent::Idle
            },
            RxState::WaitEnd => {
                if byte == START_BYTE {
                    self.restart(false);
                    return RxEvent::Idle;
                }
                let mut ev = RxEvent::Idle;
                if byte == END_BYTE {
                    if self.crc_calc == self.received_crc {
                        let mut payload: Vec<u8> = Vec::new();
                        let mut i: usize = 0;
                        while i < self.payload_len
                            invariant
                                self.wf(),
                                self.state == RxState::WaitEnd,
                                i <= self.payload_len,
                                payload@ == self@.received.take(i as int),
                            decreases self.payload_len - i,
                        {
                            payload.push(self.payload_buf[i]);
                            i = i + 1;
                            proof {
                                assert(payload@ =~= self@.received.take(i as int));
                            }
                        }
                        proof {
                            assert(self@.received.take(i as int) =~= self@.received);
                        }
                        ev = RxEvent::Frame(payload);
                    } else {
                        ev = RxEvent::CrcMismatch;
                    }
                }
                self.finish();
                ev
            },
        }
    }
}

/// The receiver after the bytes `bytes`, fed in order.
pub open spec fn rx_run(v: RxView, bytes: Seq<u8>) -> RxView
    decreases bytes.len(),
{
    if bytes.len() == 0 {
        v
    } else {
        rx_next(rx_run(v, bytes.drop_last()), bytes.last()).0
    }
}

/// What each of the bytes `bytes` completed, fed in order.
pub open spec fn rx_outcomes(v: RxView, bytes: Seq<u8>) -> Seq<RxOutcome>
    decreases bytes.len(),
{
    if bytes.len() == 0 {
        seq![]
    } else {
        rx_outcomes(v, bytes.drop_last()).push(
            rx_next(rx_run(v, bytes.drop_last()), bytes.last()).1,
        )
    }
}

/// Whether every byte of `bytes` can be taken when they are fed in order.
pub open spec fn rx_accepts_all(v: RxView, bytes: Seq<u8>) -> bool
    decreases bytes.len(),
{
    bytes.len() == 0 || (rx_accepts_all(v, bytes.drop_last()) && rx_accepts(
        rx_run(v, bytes.drop_last()),
        bytes.last(),
    ))
}

/// `n` bytes that completed nothing, then one that completed `last`.
pub open spec fn idle_then(n: nat, last: RxOutcome) -> Seq<RxOutcome> {
    Seq::new(n, |i: int| RxOutcome::Idle).push(last)
}

/// Feeding one more byte.
proof fn lemma_rx_push(v: RxView, s: Seq<u8>, b: u8)
    ensures
        rx_run(v, s.push(b)) == rx_next(rx_run(v, s), b).0,
        rx_outcomes(v, s.push(b)) == rx_outcomes(v, s).push(rx_next(rx_run(v, s), b).1),
        rx_accepts_all(v, s.push(b)) == (rx_accepts_all(v, s) && rx_accepts(rx_run(v, s), b)),
{
    assert(s.push(b).drop_last() =~= s);
    assert(s.push(b).last() == b);
}

/// Feeding a concatenation is feeding the first part, then the second.
pub proof fn lemma_rx_run_concat(v: RxView, a: Seq<u8>, b: Seq<u8>)
    ensures
        rx_run(v, a + b) == rx_run(rx_run(v, a), b),
        rx_outcomes(v, a + b) == rx_outcomes(v, a) + rx_outcomes(rx_run(v, a), b),
        rx_accepts_all(v, a + b) == (rx_accepts_all(v, a) && rx_accepts_all(rx_run(v, a), b)),
    decreases b.len(),
{
    if b.len() == 0 {
        assert(a + b =~= a);
        assert(rx_outcomes(v, a) + rx_outcomes(rx_run(v, a), b) =~= rx_outcomes(v, a));
    } else {
        lemma_rx_run_concat(v, a, b.drop_last());
        assert((a + b).drop_last() =~= a + b.drop_last());
        assert((a + b).last() == b.last());
        assert(rx_outcomes(v, a + b) =~= rx_outcomes(v, a) + rx_outcomes(rx_run(v, a), b));
    }
}

/// Payload bytes without a start byte among them are collected one by one,
/// each completing nothing, until the announced length is reached.
proof fn lemma_rx_payload(v: RxView, q: Seq<u8>)
    requires
        v.state == RxState::ReadPayload,
        v.received.len() == 0,
        1 <= v.len <= MAX_PAYLOAD,
        q.len() <= v.len,
        !q.contains(START_BYTE),
    ensures
        rx_accepts_all(v, q),
        rx_run(v, q) == (RxView {
            state: if q.len() == v.len {
                RxState::ReadCrc
            } else {
                RxState::ReadPayload
            },
            received: q,
            crc: crc_from(v.crc, q),
            ..v
        }),
        rx_outcomes(v, q) == Seq::new(q.len(), |i: int| RxOutcome::Idle),
    decreases q.len(),
{
    if q.len() == 0 {
        assert(v.received =~= q);
        assert(rx_outcomes(v, q) =~= Seq::new(q.len(), |i: int| RxOutcome::Idle));
    } else {
        let p = q.drop_last();
        assert(!p.contains(START_BYTE)) by {
            if p.contains(START_BYTE) {
                let k = choose|k: int| 0 <= k < p.len() && p[k] == START_BYTE;
                assert(q[k] == START_BYTE);
            }
        }
        assert(q.last() != START_BYTE) by {
            assert(q[q.len() - 1] == q.last());
        }
        lemma_rx_payload(v, p);
        assert(p.push(q.last()) =~= q);
        assert(rx_outcomes(v, q) =~= Seq::new(q.len(), |i: int| RxOutcome::Idle));
    }
}

/// Shape of the bytes after the start byte, the length byte and a payload.
pub open spec fn framed(len: u8, q: Seq<u8>, c: u8) -> Seq<u8> {
    seq![START_BYTE, len] + q + seq![c, END_BYTE]
}

/// The receiver ready for a length byte, from any phase but `WaitLen`.
proof fn lemma_rx_start(v: RxView, len: u8)
    requires
        v.state != RxState::WaitLen,
        1 <= len <= MAX_PAYLOAD,
    ensures
        rx_accepts_all(v, seq![START_BYTE, len]),
        rx_outcomes(v, seq![START_BYTE, len]) == seq![RxOutcome::Idle, RxOutcome::Idle],
        rx_run(v, seq![START_BYTE, len]).state == RxState::ReadPayload,
        rx_run(v, seq![START_BYTE, len]).len == len,
        rx_run(v, seq![START_BYTE, len]).received.len() == 0,
        rx_run(v, seq![START_BYTE, len]).crc == crc8_of(seq![len]),
{
    let e = Seq::<u8>::empty();
    lemma_rx_push(v, e, START_BYTE);
    lemma_rx_push(v, e.push(START_BYTE), len);
    assert(e.push(START_BYTE).push(len) =~= seq![START_BYTE, len]);
    reveal_with_fuel(crc_from, 2);
    assert(seq![len].drop_last() =~= Seq::<u8>::empty());
    assert(rx_outcomes(v, e) =~= Seq::<RxOutcome>::empty());
    assert(rx_outcomes(v, seq![START_BYTE, len]) =~= seq![RxOutcome::Idle, RxOutcome::Idle]);
}

/// A frame whose payload has the announced length and holds no start byte,
/// and whose CRC byte is neither the start nor the end byte, is taken byte
/// by byte from any phase but `WaitLen` (where the start byte reads as a bad
/// length): no byte reports anything but the last, which delivers the payload
/// exactly when the CRC byte is the CRC-8 of length and payload, and reports
/// the corruption otherwise. The receiver then waits for the next frame.
pub proof fn lemma_frame_received(v: RxView, len: u8, q: Seq<u8>, c: u8)
    requires
        v.state != RxState::WaitLen,
        1 <= len <= MAX_PAYLOAD,
        q.len() == len,
        !q.contains(START_BYTE),
        c != START_BYTE,
        c != END_BYTE,
    ensures
        rx_accepts_all(v, framed(len, q, c)),
        rx_run(v, framed(len, q, c)).state == RxState::WaitStart,
        rx_outcomes(v, framed(len, q, c)) == idle_then(
            (q.len() + 3) as nat,
            if crc8_of(seq![len] + q) == c {
                RxOutcome::Delivered(q)
            } else {
                RxOutcome::Corrupted
            },
        ),
{
    let head = seq![START_BYTE, len];
    lemma_rx_start(v, len);
    let v1 = rx_run(v, head);
    lemma_rx_payload(v1, q);
    lemma_rx_run_concat(v, head, q);
    lemma_crc_from_concat(0, seq![len], q);
    let s2 = head + q;
    lemma_rx_push(v, s2, c);
    lemma_rx_push(v, s2.push(c), END_BYTE);
    assert(framed(len, q, c) =~= s2.push(c).push(END_BYTE));
    let last = if crc8_of(seq![len] + q) == c {
        RxOutcome::Delivered(q)
    } else {
        RxOutcome::Corrupted
    };
    assert(rx_outcomes(v, framed(len, q, c)) =~= idle_then((q.len() + 3) as nat, last));
}

/// A frame that lost one payload byte on the way is reported as missing a
/// byte when its end byte arrives (the CRC byte is read as the last payload
/// byte, and the end byte where the CRC was expected), unless its CRC byte
/// is the start byte.
pub proof fn lemma_missing_byte_reported(v: RxView, len: u8, q: Seq<u8>, c: u8)
    requires
        v.state != RxState::WaitLen,
        1 <= len <= MAX_PAYLOAD,
        q.len() + 1 == len,
        !q.contains(START_BYTE),
        c != START_BYTE,
    ensures
        rx_accepts_all(v, framed(len, q, c)),
        rx_run(v, framed(len, q, c)).state == RxState::WaitStart,
        rx_outcomes(v, framed(len, q, c)) == idle_then(
            (q.len() + 3) as nat,
            RxOutcome::MissingByte,
        ),
{
    let head = seq![START_BYTE, len];
    let qc = q.push(c);
    assert(!qc.contains(START_BYTE)) by {
        if qc.contains(START_BYTE) {
            let k = choose|k: int| 0 <= k < qc.len() && qc[k] == START_BYTE;
            if k < q.len() {
                assert(q[k] == START_BYTE);
            }
        }
    }
    lemma_rx_start(v, len);
    let v1 = rx_run(v, head);
    lemma_rx_payload(v1, qc);
    lemma_rx_run_concat(v, head, qc);
    let s2 = head + qc;
    lemma_rx_push(v, s2, END_BYTE);
    assert(framed(len, q, c) =~= s2.push(END_BYTE));
    assert(rx_outcomes(v, framed(len, q, c)) =~= idle_then(
        (q.len() + 3) as nat,
        RxOutcome::MissingByte,
    ));
}

/// What `encode_frame` sends is what the receiver delivers: from any phase
/// but `WaitLen`, the frame of a payload of 1 to `MAX_PAYLOAD` bytes without
/// a start byte, whose CRC-8 is neither the start nor the end byte, delivers
/// exactly that payload on its last byte and reports nothing before.
pub proof fn lemma_frame_roundtrip(v: RxView, p: Seq<u8>)
    requires
        v.state != RxState::WaitLen,
        1 <= p.len() <= MAX_PAYLOAD,
        !p.contains(START_BYTE),
        crc8_of(seq![p.len() as u8] + p) != START_BYTE,
        crc8_of(seq![p.len() as u8] + p) != END_BYTE,
    ensures
        rx_accepts_all(v, frame_bytes(p)),
        rx_run(v, frame_bytes(p)).state == RxState::WaitStart,
        rx_outcomes(v, frame_bytes(p)) == idle_then(
            (p.len() + 3) as nat,
            RxOutcome::Delivered(p),
        ),
{
    let len = p.len() as u8;
    lemma_frame_received(v, len, p, crc8_of(seq![len] + p));
    assert(frame_bytes(p) =~= framed(len, p, crc8_of(seq![len] + p)));
}

/// A frame one of whose payload bytes was changed on the way (into another
/// byte than the start byte) is never delivered: its end byte reports the
/// corruption.
pub proof fn lemma_corrupted_byte_rejected(v: RxView, p: Seq<u8>, i: int, b: u8)
    requires
        v.state != RxState::WaitLen,
        1 <= p.len() <= MAX_PAYLOAD,
        !p.contains(START_BYTE),
        crc8_of(seq![p.len() as u8] + p) != START_BYTE,
        crc8_of(seq![p.len() as u8] + p) != END_BYTE,
        0 <= i < p.len(),
        b != p[i],
        b != START_BYTE,
    ensures
        rx_accepts_all(v, framed(p.len() as u8, p.update(i, b), crc8_of(seq![p.len() as u8] + p))),
        rx_outcomes(v, framed(p.len() as u8, p.update(i, b), crc8_of(seq![p.len() as u8] + p)))
            == idle_then((p.len() + 3) as nat, RxOutcome::Corrupted),
{
    let len = p.len() as u8;
    let q = p.update(i, b);
    assert(!q.contains(START_BYTE)) by {
        if q.contains(START_BYTE) {
            let k = choose|k: int| 0 <= k < q.len() && q[k] == START_BYTE;
            assert(p[k] == START_BYTE);
        }
    }
    let data = seq![len] + p;
    assert(seq![len] + q =~= data.update(i + 1, b));
    crate::crc::lemma_single_byte_corruption_detected(0, data, i + 1, b);
    lemma_frame_received(v, len, q, crc8_of(data));
}

/// A frame that lost one of its payload bytes on the way is never
/// delivered: its end byte reports the missing byte.
pub proof fn lemma_dropped_byte_reported(v: RxView, p: Seq<u8>, i: int)
    requires
        v.state != RxState::WaitLen,
        1 <= p.len() <= MAX_PAYLOAD,
        !p.contains(START_BYTE),
        crc8_of(seq![p.len() as u8] + p) != START_BYTE,
        0 <= i < p.len(),
    ensures
        rx_accepts_all(v, framed(p.len() as u8, p.remove(i), crc8_of(seq![p.len() as u8] + p))),
        rx_outcomes(v, framed(p.len() as u8, p.remove(i), crc8_of(seq![p.len() as u8] + p)))
            == idle_then((p.len() + 2) as nat, RxOutcome::MissingByte),
{
    let len = p.len() as u8;
    let q = p.remove(i);
    assert(!q.contains(START_BYTE)) by {
        if q.contains(START_BYTE) {
            let k = choose|k: int| 0 <= k < q.len() && q[k] == START_BYTE;
            if k < i {
                assert(p[k] == START_BYTE);
            } else {
                assert(p[k + 1] == START_BYTE);
            }
        }
    }
    lemma_missing_byte_reported(v, len, q, crc8_of(seq![len] + p));
}

} // verus!
