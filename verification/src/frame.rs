//! Byte framing used on the UART link to the 6502.
//!
//! A frame is `(`, the escaped payload, a check byte (currently always
//! `0x00`), `)`. The bytes `(`, `)` and `\` inside the payload are sent as
//! `\` followed by the byte XOR `0x20`.
use vstd::prelude::*;

verus! {

/// Byte that opens a frame: `(`.
pub const FRAME_START: u8 = 0x28;

/// Byte that closes a frame: `)`.
pub const FRAME_END: u8 = 0x29;

/// Byte that announces an escaped payload byte: `\`.
pub const ESCAPE_CHAR: u8 = 0x5C;

/// Mask applied to an escaped payload byte.
pub const ESCAPED_XOR: u8 = 0x20;

/// The check byte sent after the payload; the checksum is currently always 0.
pub const FRAME_CHECK: u8 = 0x00;

/// The bytes that must be escaped inside a payload.
pub open spec fn is_special(b: u8) -> bool {
    b == FRAME_START || b == FRAME_END || b == ESCAPE_CHAR
}

/// The wire form of one payload byte.
pub open spec fn escape_byte(b: u8) -> Seq<u8> {
    if is_special(b) {
        seq![ESCAPE_CHAR, b ^ ESCAPED_XOR]
    } else {
        seq![b]
    }
}

/// The wire form of a whole payload, byte after byte.
pub open spec fn escape(s: Seq<u8>) -> Seq<u8>
    decreases s.len(),
{
    if s.len() == 0 {
        Seq::empty()
    } else {
        escape(s.drop_last()) + escape_byte(s.last())
    }
}

/// The complete wire form of a frame that carries `payload`: start byte,
/// escaped payload, check byte, end byte.
pub open spec fn frame_bytes(payload: Seq<u8>) -> Seq<u8> {
    seq![FRAME_START] + escape(payload) + seq![FRAME_CHECK] + seq![FRAME_END]
}

/// What the bytes collected between a start and an end byte give: the
/// payload before the check byte when that byte is right, nothing otherwise.
pub open spec fn checked_payload(collected: Seq<u8>) -> Option<Seq<u8>> {
    if collected.len() > 0 && collected.last() == FRAME_CHECK {
        Some(collected.drop_last())
    } else {
        None
    }
}

/// A frame: a payload of arbitrary bytes.
#[derive(Debug, Clone, PartialEq)]
pub struct Frame {
    payload: Vec<u8>,
}

impl View for Frame {
    type V = Seq<u8>;

    closed spec fn view(&self) -> Seq<u8> {
        self.payload@
    }
}

impl Frame {
    /// Wraps a payload into a frame.
    pub fn new(payload: Vec<u8>) -> (f: Self)
        ensures
            f@ == payload@,
    {
        Self { payload }
    }

    /// The payload carried by this frame.
    pub fn payload(&self) -> (p: &Vec<u8>)
        ensures
            p@ == self@,
    {
        &self.payload
    }

    /// The bytes to put on the wire for this frame.
    pub fn serialize(&self) -> (out: Vec<u8>)
        ensures
            out@ == frame_bytes(self@),
    {
        let mut out: Vec<u8> = Vec::new();
        out.push(FRAME_START);
        let n = self.payload.len();
        for i in 0..n
            invariant
                n == self.payload@.len(),
                out@ == seq![FRAME_START] + escape(self.payload@.take(i as int)),
        {
            let b = self.payload[i];
            proof {
                assert(self.payload@.take(i + 1).drop_last() =~= self.payload@.take(i as int));
            }
            if b == FRAME_START || b == FRAME_END || b == ESCAPE_CHAR {
                out.push(ESCAPE_CHAR);
                out.push(b ^ ESCAPED_XOR);
            } else {
                out.push(b);
            }
            assert(out@ =~= seq![FRAME_START] + escape(self.payload@.take(i + 1)));
        }
        assert(self.payload@.take(n as int) =~= self.payload@);
        out.push(FRAME_CHECK);
        out.push(FRAME_END);
        out
    }
}

/// Where the deserializer stands in the byte stream.
#[derive(Debug, Copy, Clone)]
pub enum DeserializationState {
    /// Outside a frame, waiting for `(`.
    Waiting,
    /// Inside a frame, collecting payload bytes.
    Accepted,
    /// Inside a frame, right after `\`.
    Escaped,
}

/// What one byte does to the deserializer: the next state, the next
/// buffer, and the frame payload that the byte completes, if any.
pub open spec fn step(
    state: DeserializationState,
    buffer: Seq<u8>,
    byte: u8,
) -> (DeserializationState, Seq<u8>, Option<Seq<u8>>) {
    match state {
        DeserializationState::Waiting => {
            if byte == FRAME_START {
                (DeserializationState::Accepted, buffer, None)
            } else {
                (DeserializationState::Waiting, buffer, None)
            }
        },
        DeserializationState::Accepted => {
            if byte == FRAME_END {
                (DeserializationState::Waiting, Seq::empty(), checked_payload(buffer))
            } else if byte == ESCAPE_CHAR {
                (DeserializationState::Escaped, buffer, None)
            } else if byte == FRAME_START {
                // a start without an end before it: the partial frame is dropped
                (DeserializationState::Accepted, Seq::empty(), None)
            } else {
                (DeserializationState::Accepted, buffer.push(byte), None)
            }
        },
        DeserializationState::Escaped => {
            (DeserializationState::Accepted, buffer.push(byte ^ ESCAPED_XOR), None)
        },
    }
}

/// Outside a frame nothing is buffered.
pub open spec fn buffer_consistent(state: DeserializationState, buffer: Seq<u8>) -> bool {
    state is Waiting ==> buffer.len() == 0
}

/// The state after a run of bytes, and what each byte of the run returned.
pub open spec fn feed(
    state: DeserializationState,
    buffer: Seq<u8>,
    bytes: Seq<u8>,
) -> (DeserializationState, Seq<u8>, Seq<Option<Seq<u8>>>)
    decreases bytes.len(),
{
    if bytes.len() == 0 {
        (state, buffer, Seq::empty())
    } else {
        let (s1, b1, o1) = step(state, buffer, bytes[0]);
        let (s2, b2, os) = feed(s1, b1, bytes.drop_first());
        (s2, b2, seq![o1] + os)
    }
}

/// Turns a byte stream back into frames, one byte at a time.
#[derive(Debug)]
pub struct FrameDeserializer {
    deserialization_state: DeserializationState,
    current_frame_buffer: Vec<u8>,
}

impl View for FrameDeserializer {
    type V = (DeserializationState, Seq<u8>);

    closed spec fn view(&self) -> (DeserializationState, Seq<u8>) {
        (self.deserialization_state, self.current_frame_buffer@)
    }
}

impl Default for FrameDeserializer {
    fn default() -> (d: Self)
        ensures
            d@ == (DeserializationState::Waiting, Seq::<u8>::empty()),
    {
        Self { deserialization_state: DeserializationState::Waiting, current_frame_buffer: Vec::new() }
    }
}

impl FrameDeserializer {
    /// Feeds one byte; returns the frame that this byte completes, if any.
    pub fn push(&mut self, byte: u8) -> (r: Option<Frame>)
        ensures
            ({
                let (s, b, o) = step(old(self)@.0, old(self)@.1, byte);
                &&& final(self)@ == (s, b)
                &&& match r {
                    Some(f) => o == Some(f@),
                    None => o is None,
                }
            }),
    {
        match self.deserialization_state {
            DeserializationState::Waiting => {
                if byte == FRAME_START {
                    self.deserialization_state = DeserializationState::Accepted;
                }
                None
            },
            DeserializationState::Accepted => {
                if byte == FRAME_END {
                    self.deserialization_state = DeserializationState::Waiting;
                    let mut done: Vec<u8> = Vec::new();
                    std::mem::swap(&mut done, &mut self.current_frame_buffer);
                    let n = done.len();
                    if n > 0 && done[n - 1] == FRAME_CHECK {
                        done.pop();
                        Some(Frame::new(done))
                    } else {
                        None
                    }
                } else if byte == ESCAPE_CHAR {
                    self.deserialization_state = DeserializationState::Escaped;
                    None
                } else if byte == FRAME_START {
                    self.current_frame_buffer.clear();
                    None
                } else {
                    self.current_frame_buffer.push(byte);
                    None
                }
            },
            DeserializationState::Escaped => {
                self.current_frame_buffer.push(byte ^ ESCAPED_XOR);
                self.deserialization_state = DeserializationState::Accepted;
                None
            },
        }
    }
}

/// Every byte keeps the buffer empty outside a frame.
pub proof fn lemma_step_keeps_consistent(state: DeserializationState, buffer: Seq<u8>, byte: u8)
    requires
        buffer_consistent(state, buffer),
    ensures
        ({
            let (s, b, o) = step(state, buffer, byte);
            buffer_consistent(s, b)
        }),
{
}

/// Feeding `x + y` is feeding `x`, then `y`.
pub proof fn lemma_feed_append(
    state: DeserializationState,
    buffer: Seq<u8>,
    x: Seq<u8>,
    y: Seq<u8>,
)
    ensures
        ({
            let (s1, b1, o1) = feed(state, buffer, x);
            let (s2, b2, o2) = feed(s1, b1, y);
            feed(state, buffer, x + y) == (s2, b2, o1 + o2)
        }),
    decreases x.len(),
{
    if x.len() == 0 {
        assert(x + y =~= y);
        let (s2, b2, o2) = feed(state, buffer, y);
        assert(Seq::<Option<Seq<u8>>>::empty() + o2 =~= o2);
    } else {
        let (s1, b1, o1) = step(state, buffer, x[0]);
        lemma_feed_append(s1, b1, x.drop_first(), y);
        assert((x + y).drop_first() =~= x.drop_first() + y);
        assert((x + y)[0] == x[0]);
        let (sa, ba, oa) = feed(s1, b1, x.drop_first());
        let (sb, bb, ob) = feed(sa, ba, y);
        assert(seq![o1] + (oa + ob) =~= (seq![o1] + oa) + ob);
    }
}

/// Outside a frame every byte but the start byte `(` (0x28) is ignored: it
/// completes nothing and leaves the deserializer waiting with its buffer.
pub proof fn lemma_waiting_ignores(buffer: Seq<u8>, byte: u8)
    requires
        byte != 0x28,
    ensures
        step(DeserializationState::Waiting, buffer, byte) == (DeserializationState::Waiting, buffer, None::<Seq<u8>>),
{
}

/// A stream without a start byte `(` (0x28), fed to a waiting deserializer,
/// completes no frame and leaves it waiting with its buffer.
pub proof fn lemma_no_start_no_frame(buffer: Seq<u8>, bytes: Seq<u8>)
    requires
        forall|i: int| 0 <= i < bytes.len() ==> bytes[i] != 0x28,
    ensures
        feed(DeserializationState::Waiting, buffer, bytes) == (DeserializationState::Waiting, buffer, nones(bytes.len())),
    decreases bytes.len(),
{
    if bytes.len() == 0 {
        assert(nones(0) =~= Seq::<Option<Seq<u8>>>::empty());
    } else {
        lemma_waiting_ignores(buffer, bytes[0]);
        let rest = bytes.drop_first();
        assert forall|i: int| 0 <= i < rest.len() implies rest[i] != 0x28 by {
            assert(rest[i] == bytes[i + 1]);
        }
        lemma_no_start_no_frame(buffer, rest);
        assert(seq![None::<Seq<u8>>] + nones(rest.len()) =~= nones(bytes.len()));
    }
}

/// Inside a frame, the end byte `)` (0x29) completes the frame when the
/// last byte collected is the check byte 0: its payload is everything
/// collected before the check byte; with any other last byte (or nothing
/// collected) no frame comes out. Either way the deserializer waits again
/// with an empty buffer.
pub proof fn lemma_end_completes(buffer: Seq<u8>)
    ensures
        ({
            let (s, b, o) = step(DeserializationState::Accepted, buffer, 0x29);
            &&& s is Waiting
            &&& b.len() == 0
            &&& (buffer.len() > 0 && buffer[buffer.len() - 1] == 0 ==> o == Some(buffer.subrange(0, buffer.len() - 1)))
            &&& (buffer.len() == 0 || buffer[buffer.len() - 1] != 0 ==> o is None)
        }),
{
    if buffer.len() > 0 {
        assert(buffer.drop_last() =~= buffer.subrange(0, buffer.len() - 1));
    }
}

/// Inside a frame: the escape byte `\` (0x5C) waits for the escaped byte,
/// an unescaped start byte `(` (0x28) drops the partial frame and starts
/// afresh, and any other byte but the end byte `)` (0x29) is collected. The
/// byte after an escape byte is collected XOR 0x20.
pub proof fn lemma_frame_steps(buffer: Seq<u8>, byte: u8)
    ensures
        byte == 0x5C ==> step(DeserializationState::Accepted, buffer, byte) == (
            DeserializationState::Escaped,
            buffer,
            None::<Seq<u8>>,
        ),
        byte == 0x28 ==> step(DeserializationState::Accepted, buffer, byte) == (
            DeserializationState::Accepted,
            Seq::<u8>::empty(),
            None::<Seq<u8>>,
        ),
        byte != 0x28 && byte != 0x29 && byte != 0x5C ==> step(DeserializationState::Accepted, buffer, byte) == (
            DeserializationState::Accepted,
            buffer.push(byte),
            None::<Seq<u8>>,
        ),
        step(DeserializationState::Escaped, buffer, byte) == (
            DeserializationState::Accepted,
            buffer.push(byte ^ 0x20u8),
            None::<Seq<u8>>,
        ),
        step(DeserializationState::Waiting, buffer, 0x28) == (
            DeserializationState::Accepted,
            buffer,
            None::<Seq<u8>>,
        ),
{
}

/// On the wire a payload byte is sent as itself, except `(`, `)` and `\`,
/// which are sent as `\` followed by the byte XOR 0x20.
pub proof fn lemma_escape_byte_table(b: u8)
    ensures
        b == 0x28 ==> escape_byte(b) == seq![0x5Cu8, 0x08u8],
        b == 0x29 ==> escape_byte(b) == seq![0x5Cu8, 0x09u8],
        b == 0x5C ==> escape_byte(b) == seq![0x5Cu8, 0x7Cu8],
        b != 0x28 && b != 0x29 && b != 0x5C ==> escape_byte(b) == seq![b],
{
    assert(0x28u8 ^ 0x20u8 == 0x08u8 && 0x29u8 ^ 0x20u8 == 0x09u8 && 0x5Cu8 ^ 0x20u8 == 0x7Cu8) by (bit_vector);
}

/// An escaped payload holds neither a start nor an end byte, so a frame on
/// the wire is `(`, then bytes that are neither `(` nor `)`, then the check
/// byte 0 and `)`.
pub proof fn lemma_wire_layout(payload: Seq<u8>)
    ensures
        forall|i: int| 0 <= i < escape(payload).len() ==> #[trigger] escape(payload)[i] != 0x28 && escape(payload)[i] != 0x29,
        frame_bytes(payload).len() == escape(payload).len() + 3,
        frame_bytes(payload)[0] == 0x28,
        frame_bytes(payload)[frame_bytes(payload).len() - 2] == 0x00,
        frame_bytes(payload)[frame_bytes(payload).len() - 1] == 0x29,
        forall|i: int| 1 <= i < frame_bytes(payload).len() - 2 ==> #[trigger] frame_bytes(payload)[i] == escape(payload)[i - 1],
    decreases payload.len(),
{
    if payload.len() > 0 {
        let q = payload.drop_last();
        let b = payload.last();
        lemma_wire_layout(q);
        lemma_escape_byte_table(b);
        let e = escape(payload);
        assert forall|i: int| 0 <= i < e.len() implies #[trigger] e[i] != 0x28 && e[i] != 0x29 by {
            if i < escape(q).len() {
                assert(e[i] == escape(q)[i]);
            } else {
                assert(e[i] == escape_byte(b)[i - escape(q).len()]);
            }
        }
    }
    let f = frame_bytes(payload);
    let e = escape(payload);
    assert forall|i: int| 1 <= i < f.len() - 2 implies #[trigger] f[i] == e[i - 1] by {
        assert(f == seq![FRAME_START] + e + seq![FRAME_CHECK] + seq![FRAME_END]);
        assert((seq![FRAME_START] + e)[i] == e[i - 1]);
    }
}

/// `n` results that are all `None`.
pub open spec fn nones(n: nat) -> Seq<Option<Seq<u8>>> {
    Seq::new(n, |i: int| None)
}

/// Inside a frame, an escaped payload appends to the buffer and completes nothing.
proof fn lemma_feed_escaped(acc: Seq<u8>, p: Seq<u8>)
    ensures
        feed(DeserializationState::Accepted, acc, escape(p)) == (
            DeserializationState::Accepted,
            acc + p,
            nones(escape(p).len()),
        ),
    decreases p.len(),
{
    if p.len() == 0 {
        assert(acc + p =~= acc);
        assert(nones(0) =~= Seq::<Option<Seq<u8>>>::empty());
    } else {
        let q = p.drop_last();
        let b = p.last();
        lemma_feed_escaped(acc, q);
        lemma_feed_append(DeserializationState::Accepted, acc, escape(q), escape_byte(b));
        let e = escape_byte(b);
        let a = acc + q;
        if is_special(b) {
            assert(b ^ ESCAPED_XOR ^ ESCAPED_XOR == b) by (bit_vector);
            let e1 = e.drop_first();
            assert(e1 =~= seq![b ^ ESCAPED_XOR]);
            assert(e1.drop_first() =~= Seq::<u8>::empty());
            assert(feed(DeserializationState::Accepted, a.push(b), e1.drop_first()) == (
                DeserializationState::Accepted, a.push(b), Seq::<Option<Seq<u8>>>::empty()));
            assert(feed(DeserializationState::Escaped, a, e1) == (
                DeserializationState::Accepted, a.push(b), seq![None::<Seq<u8>>] + Seq::<Option<Seq<u8>>>::empty()));
            assert(feed(DeserializationState::Accepted, a, e) == (
                DeserializationState::Accepted,
                a.push(b),
                seq![None::<Seq<u8>>] + (seq![None::<Seq<u8>>] + Seq::<Option<Seq<u8>>>::empty()),
            ));
        } else {
            assert(e.drop_first() =~= Seq::<u8>::empty());
            assert(feed(DeserializationState::Accepted, a.push(b), e.drop_first()) == (
                DeserializationState::Accepted, a.push(b), Seq::<Option<Seq<u8>>>::empty()));
        }
        assert((acc + q).push(b) =~= acc + p);
        assert(nones(escape(q).len()) + nones(e.len()) =~= nones(escape(p).len()));
    }
}

/// Round trip: from any state but the one right after an escape byte, and
/// whatever partial frame is buffered, feeding the wire form of a frame
/// returns nothing until its last byte, which returns exactly that payload,
/// and leaves the deserializer waiting with an empty buffer.
pub proof fn lemma_frame_roundtrip(state: DeserializationState, buffer: Seq<u8>, payload: Seq<u8>)
    requires
        !(state is Escaped),
        buffer_consistent(state, buffer),
    ensures
        feed(state, buffer, frame_bytes(payload)) == (
            DeserializationState::Waiting,
            Seq::<u8>::empty(),
            nones(escape(payload).len() + 2).push(Some(payload)),
        ),
{
    let st = seq![FRAME_START];
    let ck = seq![FRAME_CHECK];
    let en = seq![FRAME_END];
    let body = escape(payload);
    lemma_feed_append(state, buffer, st + body + ck, en);
    lemma_feed_append(state, buffer, st + body, ck);
    lemma_feed_append(state, buffer, st, body);
    assert(st.drop_first() =~= Seq::<u8>::empty());
    assert(ck.drop_first() =~= Seq::<u8>::empty());
    assert(en.drop_first() =~= Seq::<u8>::empty());
    let (s0, b0, o0) = step(state, buffer, FRAME_START);
    assert(b0 =~= Seq::<u8>::empty());
    assert(feed(s0, b0, st.drop_first()) == (s0, b0, Seq::<Option<Seq<u8>>>::empty()));
    let (s1, b1, o1) = feed(state, buffer, st);
    assert(s1 is Accepted);
    assert(b1 =~= Seq::<u8>::empty());
    assert(o1 =~= seq![None::<Seq<u8>>]);
    lemma_feed_escaped(Seq::<u8>::empty(), payload);
    assert(Seq::<u8>::empty() + payload =~= payload);
    let withck = payload.push(FRAME_CHECK);
    assert(feed(DeserializationState::Accepted, withck, ck.drop_first()) == (
        DeserializationState::Accepted, withck, Seq::<Option<Seq<u8>>>::empty()));
    let (s2, b2, o2) = feed(DeserializationState::Accepted, payload, ck);
    assert(b2 == withck);
    assert(o2 =~= seq![None::<Seq<u8>>]);
    assert(withck.drop_last() =~= payload);
    assert(feed(DeserializationState::Waiting, Seq::<u8>::empty(), en.drop_first()) == (
        DeserializationState::Waiting, Seq::<u8>::empty(), Seq::<Option<Seq<u8>>>::empty()));
    let (s3, b3, o3) = feed(DeserializationState::Accepted, withck, en);
    assert(o3 =~= seq![Some(payload)]);
    assert(o1 + nones(body.len()) + o2 + o3 =~= nones(body.len() + 2).push(Some(payload)));
}

} // verus!
