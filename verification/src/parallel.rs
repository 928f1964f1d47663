//! The nibble-wide parallel protocol: a byte travels as two nibbles, high
//! nibble first, on four data pins, each nibble framed by the handshake
//! lines. Every run hands back the pin calls it made, each with what it
//! returned; a run stops at the first call that fails.
use vstd::prelude::*;
use crate::gpio::{
    bit_level, combine_nibbles, split_byte, GpioError, Nibble, PinValue, ReadableGpioPin, WritableGpioPin,
};

verus! {

/// Waits until the 6502 has pulled the incoming handshake line low.
pub trait WaitForLow {
    fn wait_for_low(&self);
}

/// One call made on the pins of the parallel port, with what it returned.
pub enum PinCall {
    /// The outgoing handshake line driven to `level`.
    Signal { level: PinValue, result: Result<(), GpioError> },
    /// A wait for the incoming handshake line to go low.
    Wait,
    /// Data pin `pin` sampled.
    Sample { pin: usize, sampled: Result<PinValue, GpioError> },
    /// Data pin `pin` driven to `level`.
    Drive { pin: usize, level: PinValue, result: Result<(), GpioError> },
}

/// What a call does, without what it returned.
pub enum PinStep {
    Signal(PinValue),
    Wait,
    Sample(usize),
    Drive(usize, PinValue),
}

/// What `call` does.
pub open spec fn step_of(call: PinCall) -> PinStep {
    match call {
        PinCall::Signal { level, .. } => PinStep::Signal(level),
        PinCall::Wait => PinStep::Wait,
        PinCall::Sample { pin, .. } => PinStep::Sample(pin),
        PinCall::Drive { pin, level, .. } => PinStep::Drive(pin, level),
    }
}

/// The error `call` returned, if any.
pub open spec fn pin_error(call: PinCall) -> Option<GpioError> {
    match call {
        PinCall::Signal { result, .. } => match result {
            Err(e) => Some(e),
            Ok(_) => None,
        },
        PinCall::Wait => None,
        PinCall::Sample { sampled, .. } => match sampled {
            Err(e) => Some(e),
            Ok(_) => None,
        },
        PinCall::Drive { result, .. } => match result {
            Err(e) => Some(e),
            Ok(_) => None,
        },
    }
}

/// Whether a call returned successfully, forgetting what it returned.
pub open spec fn pin_outcome<T>(r: Result<T, GpioError>) -> Result<(), GpioError> {
    match r {
        Ok(_) => Ok(()),
        Err(e) => Err(e),
    }
}

/// Whether `calls` carried out `plan` with result `r`: they made the steps
/// of the plan in order, and either every step was made and succeeded and
/// `r` is `Ok`, or they stopped at the first step that failed and `r` is
/// its error.
pub open spec fn ran(calls: Seq<PinCall>, plan: Seq<PinStep>, r: Result<(), GpioError>) -> bool {
    &&& calls.len() <= plan.len()
    &&& forall|k: int| 0 <= k < calls.len() ==> step_of(#[trigger] calls[k]) == plan[k]
    &&& match r {
        Ok(_) => calls.len() == plan.len() && forall|k: int| 0 <= k < calls.len() ==> pin_error(
            #[trigger] calls[k],
        ) is None,
        Err(e) => {
            &&& 0 < calls.len()
            &&& forall|k: int| 0 <= k < calls.len() - 1 ==> pin_error(#[trigger] calls[k]) is None
            &&& pin_error(calls.last()) == Some(e)
        },
    }
}

/// Sampling the four data pins, pin 0 first.
pub open spec fn sample_plan() -> Seq<PinStep> {
    seq![PinStep::Sample(0), PinStep::Sample(1), PinStep::Sample(2), PinStep::Sample(3)]
}

/// Driving nibble `v` onto the four data pins, pin `i` carrying bit `i`.
pub open spec fn drive_plan(v: u8) -> Seq<PinStep> {
    seq![
        PinStep::Drive(0, bit_level(v, 0)),
        PinStep::Drive(1, bit_level(v, 1)),
        PinStep::Drive(2, bit_level(v, 2)),
        PinStep::Drive(3, bit_level(v, 3)),
    ]
}

/// Receiving a nibble: signal ready (high), wait for the 6502, sample the
/// data pins, signal taken (low).
pub open spec fn read_nibble_plan() -> Seq<PinStep> {
    seq![PinStep::Signal(PinValue::High), PinStep::Wait] + sample_plan() + seq![PinStep::Signal(PinValue::Low)]
}

/// Sending nibble `v`: drive the data pins, signal (low), wait for the
/// 6502, release (high).
pub open spec fn write_nibble_plan(v: u8) -> Seq<PinStep> {
    drive_plan(v) + seq![PinStep::Signal(PinValue::Low), PinStep::Wait, PinStep::Signal(PinValue::High)]
}

/// Receiving a byte: its high nibble, then its low nibble.
pub open spec fn read_byte_plan() -> Seq<PinStep> {
    read_nibble_plan() + read_nibble_plan()
}

/// Sending `byte`: its high nibble, then its low nibble.
pub open spec fn write_byte_plan(byte: u8) -> Seq<PinStep> {
    write_nibble_plan(byte / 16) + write_nibble_plan(byte % 16)
}

/// The bit a sample step read (0 for any other step).
pub open spec fn sampled_bit(call: PinCall) -> int {
    match call {
        PinCall::Sample { sampled: Ok(v), .. } => v.spec_as_u8() as int,
        _ => 0,
    }
}

/// The nibble sampled at steps `from..from + 4` of `calls`, pin `i` giving bit `i`.
pub open spec fn sampled_nibble(calls: Seq<PinCall>, from: int) -> int {
    sampled_bit(calls[from]) + 2 * sampled_bit(calls[from + 1]) + 4 * sampled_bit(calls[from + 2])
        + 8 * sampled_bit(calls[from + 3])
}

/// Two runs, one after the other, carry out the two plans one after the other.
proof fn lemma_ran_then(a: Seq<PinCall>, b: Seq<PinCall>, pa: Seq<PinStep>, pb: Seq<PinStep>, r: Result<(), GpioError>)
    requires
        ran(a, pa, Ok(())),
        ran(b, pb, r),
    ensures
        ran(a + b, pa + pb, r),
{
    let ab = a + b;
    let p = pa + pb;
    assert forall|k: int| 0 <= k < ab.len() implies step_of(#[trigger] ab[k]) == p[k] by {
        if k < a.len() {
            assert(ab[k] == a[k]);
        } else {
            assert(ab[k] == b[k - a.len()]);
        }
    }
    assert forall|k: int| 0 <= k < ab.len() && (r is Ok || k < ab.len() - 1) implies pin_error(#[trigger] ab[k]) is None by {
        if k < a.len() {
            assert(ab[k] == a[k]);
        } else {
            assert(ab[k] == b[k - a.len()]);
        }
    }
    if r is Err {
        assert(ab.last() == b.last());
    }
}

/// One call carries out a plan of one step.
proof fn lemma_ran_one(call: PinCall, step: PinStep)
    requires
        step_of(call) == step,
    ensures
        ran(seq![call], seq![step], match pin_error(call) {
            Some(e) => Err(e),
            None => Ok(()),
        }),
{
    assert(seq![call][0] == call);
}

/// Samples the four data pins, pin 0 first, and reads the nibble they carry,
/// pin `i` giving bit `i`; stops at the first failed read.
pub fn read_nibble_data<I: ReadableGpioPin>(input_pins: &[I; 4]) -> (r: (Result<Nibble, GpioError>, Ghost<Seq<PinCall>>))
    ensures
        ran(r.1@, sample_plan(), pin_outcome(r.0)),
        r.0 matches Ok(n) ==> n.value() == sampled_nibble(r.1@, 0),
{
    let mut res = [PinValue::Low; 4];
    let ghost mut calls: Seq<PinCall> = Seq::empty();
    for i in 0..4
        invariant
            res@.len() == 4,
            ran(calls, sample_plan().take(i as int), Ok(())),
            forall|j: int| 0 <= j < i ==> calls[j] == (PinCall::Sample { pin: j as usize, sampled: Ok(res@[j]) }),
    {
        let got = input_pins[i].read_pin();
        let ghost call = PinCall::Sample { pin: i, sampled: got };
        proof {
            lemma_ran_one(call, PinStep::Sample(i));
            assert(sample_plan().take(i + 1) =~= sample_plan().take(i as int) + seq![PinStep::Sample(i)]);
            lemma_ran_then(calls, seq![call], sample_plan().take(i as int), seq![PinStep::Sample(i)], pin_outcome(got));
        }
        let ghost before = calls;
        proof {
            calls = calls + seq![call];
        }
        match got {
            Ok(v) => {
                res[i] = v;
                proof {
                    assert forall|j: int| 0 <= j < i + 1 implies calls[j] == (PinCall::Sample { pin: j as usize, sampled: Ok(res@[j]) }) by {
                        if j < i {
                            assert(calls[j] == before[j]);
                        }
                    }
                }
            },
            Err(e) => {
                assert(i + 1 <= 4);
                assert(sample_plan().take(i + 1).len() <= sample_plan().len());
                proof {
                    assert forall|k: int| 0 <= k < calls.len() implies step_of(#[trigger] calls[k]) == sample_plan()[k] by {
                        assert(sample_plan().take(i + 1)[k] == sample_plan()[k]);
                    }
                }
                return (Err(e), Ghost(calls));
            },
        }
    }
    assert(sample_plan().take(4) =~= sample_plan());
    let n = Nibble::from_pins(&res);
    proof {
        assert(calls[0] == (PinCall::Sample { pin: 0, sampled: Ok(res@[0]) }));
        assert(calls[1] == (PinCall::Sample { pin: 1, sampled: Ok(res@[1]) }));
        assert(calls[2] == (PinCall::Sample { pin: 2, sampled: Ok(res@[2]) }));
        assert(calls[3] == (PinCall::Sample { pin: 3, sampled: Ok(res@[3]) }));
    }
    (Ok(n), Ghost(calls))
}

/// Drives a nibble onto the four data pins, pin `i` carrying bit `i`;
/// stops at the first failed write.
pub fn write_nibble_data<O: WritableGpioPin>(nibble: &Nibble, output_pins: &[O; 4]) -> (r: (Result<(), GpioError>, Ghost<Seq<PinCall>>))
    ensures
        ran(r.1@, drive_plan(nibble.value()), r.0),
{
    let pin_values = nibble.to_pins();
    let ghost plan = drive_plan(nibble.value());
    let ghost mut calls: Seq<PinCall> = Seq::empty();
    for i in 0..4
        invariant
            pin_values@ == seq![
                bit_level(nibble.value(), 0),
                bit_level(nibble.value(), 1),
                bit_level(nibble.value(), 2),
                bit_level(nibble.value(), 3),
            ],
            plan == drive_plan(nibble.value()),
            ran(calls, plan.take(i as int), Ok(())),
    {
        let level = pin_values[i];
        let result = output_pins[i].write_pin(level);
        let ghost call = PinCall::Drive { pin: i, level, result };
        proof {
            assert(plan[i as int] == PinStep::Drive(i, level));
            lemma_ran_one(call, PinStep::Drive(i, level));
            assert(plan.take(i + 1) =~= plan.take(i as int) + seq![PinStep::Drive(i, level)]);
            lemma_ran_then(calls, seq![call], plan.take(i as int), seq![PinStep::Drive(i, level)], result);
            calls = calls + seq![call];
        }
        match result {
            Ok(()) => {},
            Err(e) => {
                proof {
                    assert forall|k: int| 0 <= k < calls.len() implies step_of(#[trigger] calls[k]) == plan[k] by {
                        assert(plan.take(i + 1)[k] == plan[k]);
                    }
                }
                return (Err(e), Ghost(calls));
            },
        }
    }
    assert(plan.take(4) =~= plan);
    (Ok(()), Ghost(calls))
}

/// Drives the outgoing handshake line, and records the call.
fn signal<O: WritableGpioPin>(outgoing: &O, level: PinValue) -> (r: (Result<(), GpioError>, Ghost<Seq<PinCall>>))
    ensures
        r.1@ == seq![PinCall::Signal { level, result: r.0 }],
        ran(r.1@, seq![PinStep::Signal(level)], r.0),
{
    let result = outgoing.write_pin(level);
    proof {
        lemma_ran_one(PinCall::Signal { level, result }, PinStep::Signal(level));
    }
    let ghost t = seq![PinCall::Signal { level, result }];
    (result, Ghost(t))
}

/// Waits for the incoming handshake line, and records the call.
fn wait<W: WaitForLow>(waiter: &W) -> (r: Ghost<Seq<PinCall>>)
    ensures
        ran(r@, seq![PinStep::Wait], Ok(())),
{
    waiter.wait_for_low();
    proof {
        lemma_ran_one(PinCall::Wait, PinStep::Wait);
    }
    let ghost t = seq![PinCall::Wait];
    Ghost(t)
}

/// Receives one nibble: signals ready, waits for the 6502, samples the data
/// pins, signals taken. Stops at the first call that fails.
pub fn read_nibble<O: WritableGpioPin, W: WaitForLow, D: ReadableGpioPin>(
    outgoing: &O,
    waiter: &W,
    data: &[D; 4],
) -> (r: (Result<Nibble, GpioError>, Ghost<Seq<PinCall>>))
    ensures
        ran(r.1@, read_nibble_plan(), pin_outcome(r.0)),
        r.0 matches Ok(n) ==> n.value() == sampled_nibble(r.1@, 2),
{
    let (res, Ghost(t1)) = signal(outgoing, PinValue::High);
    match res {
        Ok(()) => {},
        Err(e) => {
            return (Err(e), Ghost(t1));
        },
    }
    let Ghost(t2) = wait(waiter);
    proof {
        lemma_ran_then(t1, t2, seq![PinStep::Signal(PinValue::High)], seq![PinStep::Wait], Ok(()));
        assert(seq![PinStep::Signal(PinValue::High)] + seq![PinStep::Wait] =~= seq![PinStep::Signal(PinValue::High), PinStep::Wait]);
    }
    let ghost t12 = t1 + t2;
    let (got, Ghost(t3)) = read_nibble_data(data);
    let ghost t123 = t12 + t3;
    proof {
        lemma_ran_then(t12, t3, seq![PinStep::Signal(PinValue::High), PinStep::Wait], sample_plan(), pin_outcome(got));
    }
    let nibble = match got {
        Ok(n) => n,
        Err(e) => {
            proof {
                assert forall|k: int| 0 <= k < t123.len() implies step_of(#[trigger] t123[k]) == read_nibble_plan()[k] by {
                    assert((seq![PinStep::Signal(PinValue::High), PinStep::Wait] + sample_plan())[k] == read_nibble_plan()[k]);
                }
            }
            return (Err(e), Ghost(t123));
        },
    };
    let (res, Ghost(t4)) = signal(outgoing, PinValue::Low);
    let ghost t = t123 + t4;
    proof {
        lemma_ran_then(t123, t4, seq![PinStep::Signal(PinValue::High), PinStep::Wait] + sample_plan(),
            seq![PinStep::Signal(PinValue::Low)], res);
        assert(seq![PinStep::Signal(PinValue::High), PinStep::Wait] + sample_plan() + seq![PinStep::Signal(PinValue::Low)]
            =~= read_nibble_plan());
        assert(t[2] == t3[0] && t[3] == t3[1] && t[4] == t3[2] && t[5] == t3[3]);
    }
    match res {
        Ok(()) => (Ok(nibble), Ghost(t)),
        Err(e) => (Err(e), Ghost(t)),
    }
}

/// Sends one nibble: drives the data pins, signals, waits for the 6502,
/// releases. Stops at the first call that fails.
pub fn write_nibble<O: WritableGpioPin, W: WaitForLow, D: WritableGpioPin>(
    outgoing: &O,
    waiter: &W,
    data: &[D; 4],
    nibble: &Nibble,
) -> (r: (Result<(), GpioError>, Ghost<Seq<PinCall>>))
    ensures
        ran(r.1@, write_nibble_plan(nibble.value()), r.0),
{
    let ghost v = nibble.value();
    let (res, Ghost(t1)) = write_nibble_data(nibble, data);
    match res {
        Ok(()) => {},
        Err(e) => {
            proof {
                assert forall|k: int| 0 <= k < t1.len() implies step_of(#[trigger] t1[k]) == write_nibble_plan(v)[k] by {
                    assert(drive_plan(v)[k] == write_nibble_plan(v)[k]);
                }
            }
            return (Err(e), Ghost(t1));
        },
    }
    let (res, Ghost(t2)) = signal(outgoing, PinValue::Low);
    let ghost t12 = t1 + t2;
    proof {
        lemma_ran_then(t1, t2, drive_plan(v), seq![PinStep::Signal(PinValue::Low)], res);
    }
    match res {
        Ok(()) => {},
        Err(e) => {
            proof {
                assert forall|k: int| 0 <= k < t12.len() implies step_of(#[trigger] t12[k]) == write_nibble_plan(v)[k] by {
                    assert((drive_plan(v) + seq![PinStep::Signal(PinValue::Low)])[k] == write_nibble_plan(v)[k]);
                }
            }
            return (Err(e), Ghost(t12));
        },
    }
    let Ghost(t3) = wait(waiter);
    let ghost t123 = t12 + t3;
    proof {
        lemma_ran_then(t12, t3, drive_plan(v) + seq![PinStep::Signal(PinValue::Low)], seq![PinStep::Wait], Ok(()));
    }
    let (res, Ghost(t4)) = signal(outgoing, PinValue::High);
    let ghost t = t123 + t4;
    proof {
        lemma_ran_then(t123, t4, drive_plan(v) + seq![PinStep::Signal(PinValue::Low)] + seq![PinStep::Wait],
            seq![PinStep::Signal(PinValue::High)], res);
        assert(drive_plan(v) + seq![PinStep::Signal(PinValue::Low)] + seq![PinStep::Wait] + seq![PinStep::Signal(PinValue::High)]
            =~= write_nibble_plan(v));
    }
    (res, Ghost(t))
}

/// Receives one byte: its high nibble, then its low nibble. Stops at the
/// first call that fails.
pub fn read_byte<O: WritableGpioPin, W: WaitForLow, D: ReadableGpioPin>(
    outgoing: &O,
    waiter: &W,
    data: &[D; 4],
) -> (r: (Result<u8, GpioError>, Ghost<Seq<PinCall>>))
    ensures
        ran(r.1@, read_byte_plan(), pin_outcome(r.0)),
        r.0 matches Ok(b) ==> b == 16 * sampled_nibble(r.1@, 2) + sampled_nibble(r.1@, 9),
{
    let (got, Ghost(t1)) = read_nibble(outgoing, waiter, data);
    let high = match got {
        Ok(n) => n,
        Err(e) => {
            proof {
                assert forall|k: int| 0 <= k < t1.len() implies step_of(#[trigger] t1[k]) == read_byte_plan()[k] by {
                    assert(read_nibble_plan()[k] == read_byte_plan()[k]);
                }
            }
            return (Err(e), Ghost(t1));
        },
    };
    let (got, Ghost(t2)) = read_nibble(outgoing, waiter, data);
    let ghost t = t1 + t2;
    proof {
        lemma_ran_then(t1, t2, read_nibble_plan(), read_nibble_plan(), pin_outcome(got));
    }
    let low = match got {
        Ok(n) => n,
        Err(e) => {
            return (Err(e), Ghost(t));
        },
    };
    proof {
        assert(t[2] == t1[2] && t[3] == t1[3] && t[4] == t1[4] && t[5] == t1[5]);
        assert(t[9] == t2[2] && t[10] == t2[3] && t[11] == t2[4] && t[12] == t2[5]);
    }
    (Ok(combine_nibbles(&high, &low)), Ghost(t))
}

/// Sends one byte: its high nibble, then its low nibble. Stops at the first
/// call that fails.
pub fn write_byte<O: WritableGpioPin, W: WaitForLow, D: WritableGpioPin>(
    outgoing: &O,
    waiter: &W,
    data: &[D; 4],
    byte: u8,
) -> (r: (Result<(), GpioError>, Ghost<Seq<PinCall>>))
    ensures
        ran(r.1@, write_byte_plan(byte), r.0),
{
    let (high, low) = split_byte(byte);
    let (res, Ghost(t1)) = write_nibble(outgoing, waiter, data, &high);
    match res {
        Ok(()) => {},
        Err(e) => {
            proof {
                assert forall|k: int| 0 <= k < t1.len() implies step_of(#[trigger] t1[k]) == write_byte_plan(byte)[k] by {
                    assert(write_nibble_plan(byte / 16)[k] == write_byte_plan(byte)[k]);
                }
            }
            return (Err(e), Ghost(t1));
        },
    }
    let (res, Ghost(t2)) = write_nibble(outgoing, waiter, data, &low);
    proof {
        lemma_ran_then(t1, t2, write_nibble_plan(byte / 16), write_nibble_plan(byte % 16), res);
    }
    (res, Ghost(t1 + t2))
}

} // verus!
