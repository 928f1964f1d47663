//! The byte-level command protocol spoken to the 6502 over the parallel
//! port: a request (signature, address, length, data), then an
//! acknowledgement byte and, for reads, the requested data.
use vstd::prelude::*;

verus! {

/// Errors of the command protocol.
#[derive(Debug)]
pub enum IoError {
    /// A data length outside `1..=256`.
    TooLong { length: usize },
    /// The acknowledgement byte was not the one the command expects.
    ReceivedUnexpectedbyte { expected: u8, found: u8 },
    /// A failure reported by the hardware layer.
    Other(String),
}

/// Signature byte of a display-string command.
pub const DISPLAY_STRING_SIGNATURE: u8 = 0x00;
/// Signature byte of a write-data command.
pub const WRITE_DATA_SIGNATURE: u8 = 0x01;
/// Signature byte of a read-data command.
pub const READ_DATA_SIGNATURE: u8 = 0x02;
/// Signature byte of a jump-to-subroutine command.
pub const JSR_SIGNATURE: u8 = 0x03;
/// Acknowledgement of a command that returns no data.
pub const PLAIN_ACK: u8 = 0x01;
/// Acknowledgement of a command that returns data.
pub const DATA_FOLLOWING_ACK: u8 = 0x02;
/// How long the reader waits after turning the bus around, in milliseconds.
pub const TURNAROUND_DELAY_MS: u64 = 2;

/// Whether a data length can be sent: between 1 and 256 bytes.
pub open spec fn length_in_range(len: int) -> bool {
    1 <= len <= 256
}

/// The length byte sent for a data length: 256 is sent as 0.
pub open spec fn length_byte(len: int) -> u8 {
    (len % 256) as u8
}

/// A data length in `1..=256`, held as the byte that is sent for it.
pub struct AdjustedLength(u8);

impl View for AdjustedLength {
    type V = u8;

    closed spec fn view(&self) -> u8 {
        self.0
    }
}

impl AdjustedLength {
    /// Checks a data length; 256 wraps to the byte 0.
    pub fn new(len: usize) -> (r: Result<AdjustedLength, IoError>)
        ensures
            match r {
                Ok(a) => length_in_range(len as int) && a@ == length_byte(len as int) && a@ as int == len % 256,
                Err(e) => !length_in_range(len as int) && e == (IoError::TooLong { length: len }),
            },
    {
        if 1 <= len && len <= 256 {
            if len == 256 {
                Ok(AdjustedLength(0))
            } else {
                Ok(AdjustedLength(len as u8))
            }
        } else {
            Err(IoError::TooLong { length: len })
        }
    }
}

/// Data to send, of 1 to 256 bytes.
pub struct LengthLimitedSlice<'a> {
    data: &'a [u8],
    data_length: AdjustedLength,
}

impl<'a> LengthLimitedSlice<'a> {
    /// The bytes to send.
    pub closed spec fn contents(&self) -> Seq<u8> {
        self.data@
    }

    /// The length byte sent for them.
    pub closed spec fn length(&self) -> u8 {
        self.data_length@
    }

    /// Accepts `data` if it holds 1 to 256 bytes.
    pub fn new(data: &'a [u8]) -> (r: Result<Self, IoError>)
        ensures
            match r {
                Ok(s) => {
                    &&& length_in_range(data@.len() as int)
                    &&& s.contents() == data@
                    &&& s.length() == length_byte(data@.len() as int)
                    &&& s.length() as int == data@.len() % 256
                },
                Err(e) => !length_in_range(data@.len() as int) && e == (IoError::TooLong {
                    length: data@.len() as usize,
                }),
            },
    {
        match AdjustedLength::new(data.len()) {
            Ok(send_length) => Ok(Self { data, data_length: send_length }),
            Err(e) => Err(e),
        }
    }
}

/// A buffer of 1 to 256 bytes that received data is written into.
pub struct MutableLengthLimitedSlice<'a> {
    data: &'a mut [u8],
    data_length: AdjustedLength,
}

impl<'a> MutableLengthLimitedSlice<'a> {
    /// The current contents of the buffer.
    pub closed spec fn contents(&self) -> Seq<u8> {
        self.data@
    }

    /// The length byte sent for the buffer.
    pub closed spec fn length(&self) -> u8 {
        self.data_length@
    }

    /// Accepts `data` if it holds 1 to 256 bytes.
    pub fn new(data: &'a mut [u8]) -> (r: Result<Self, IoError>)
        ensures
            match r {
                Ok(s) => {
                    &&& length_in_range(old(data)@.len() as int)
                    &&& s.contents() == old(data)@
                    &&& s.length() == length_byte(old(data)@.len() as int)
                    &&& s.length() as int == old(data)@.len() % 256
                },
                Err(e) => !length_in_range(old(data)@.len() as int) && e == (IoError::TooLong {
                    length: old(data)@.len() as usize,
                }),
            },
    {
        match AdjustedLength::new(data.len()) {
            Ok(send_length) => Ok(Self { data, data_length: send_length }),
            Err(e) => Err(e),
        }
    }

    /// Writes one received byte at position `i`.
    fn store(&mut self, i: usize, byte: u8)
        requires
            i < old(self).contents().len(),
        ensures
            final(self).contents() == old(self).contents().update(i as int, byte),
            final(self).length() == old(self).length(),
    {
        self.data[i] = byte;
    }

    /// The number of bytes in the buffer.
    fn len(&self) -> (n: usize)
        ensures
            n == self.contents().len(),
    {
        self.data.len()
    }
}

/// A command for the 6502.
pub enum Command<'a> {
    /// Shows a string on the display.
    DisplayString { data: LengthLimitedSlice<'a> },
    /// Writes data to memory at `address`.
    WriteData { address: u16, data: LengthLimitedSlice<'a> },
    /// Reads memory at `address` into `out_buffer`.
    ReadData { address: u16, out_buffer: MutableLengthLimitedSlice<'a> },
    /// Calls the subroutine at `address`.
    JSR { address: u16 },
}

/// The two bytes of an address, low byte first.
pub open spec fn address_bytes(address: u16) -> Seq<u8> {
    seq![(address % 256) as u8, (address / 256) as u8]
}

impl<'a> Command<'a> {
    /// The byte that opens the request.
    pub open spec fn spec_signature_byte(&self) -> u8 {
        match self {
            Command::DisplayString { .. } => DISPLAY_STRING_SIGNATURE,
            Command::WriteData { .. } => WRITE_DATA_SIGNATURE,
            Command::ReadData { .. } => READ_DATA_SIGNATURE,
            Command::JSR { .. } => JSR_SIGNATURE,
        }
    }

    /// The acknowledgement that the 6502 answers with.
    pub open spec fn spec_ack_byte(&self) -> u8 {
        match self {
            Command::ReadData { .. } => DATA_FOLLOWING_ACK,
            _ => PLAIN_ACK,
        }
    }

    /// The address the command carries, if any.
    pub open spec fn spec_address(&self) -> Option<u16> {
        match self {
            Command::DisplayString { .. } => None,
            Command::WriteData { address, .. } => Some(*address),
            Command::ReadData { address, .. } => Some(*address),
            Command::JSR { address } => Some(*address),
        }
    }

    /// The length byte the command carries, if any.
    pub open spec fn spec_length(&self) -> Option<u8> {
        match self {
            Command::DisplayString { data } => Some(data.length()),
            Command::WriteData { data, .. } => Some(data.length()),
            Command::ReadData { out_buffer, .. } => Some(out_buffer.length()),
            Command::JSR { .. } => None,
        }
    }

    /// The data the command sends, if any.
    pub open spec fn spec_sendable_data(&self) -> Option<Seq<u8>> {
        match self {
            Command::DisplayString { data } => Some(data.contents()),
            Command::WriteData { data, .. } => Some(data.contents()),
            _ => None,
        }
    }

    /// The buffer contents a read command fills, if any.
    pub open spec fn spec_receive_buffer(&self) -> Option<Seq<u8>> {
        match self {
            Command::ReadData { out_buffer, .. } => Some(out_buffer.contents()),
            _ => None,
        }
    }

    /// Every byte of the request, in the order it is sent: the signature,
    /// then the address low byte first, then the length byte, then the data.
    pub open spec fn spec_request(&self) -> Seq<u8> {
        seq![self.spec_signature_byte()] + match self.spec_address() {
            Some(a) => address_bytes(a),
            None => Seq::empty(),
        } + match self.spec_length() {
            Some(l) => seq![l],
            None => Seq::empty(),
        } + match self.spec_sendable_data() {
            Some(d) => d,
            None => Seq::empty(),
        }
    }

    fn signature_byte(&self) -> (b: u8)
        ensures
            b == self.spec_signature_byte(),
    {
        match self {
            Command::DisplayString { .. } => DISPLAY_STRING_SIGNATURE,
            Command::WriteData { .. } => WRITE_DATA_SIGNATURE,
            Command::ReadData { .. } => READ_DATA_SIGNATURE,
            Command::JSR { .. } => JSR_SIGNATURE,
        }
    }

    fn ack_byte(&self) -> (b: u8)
        ensures
            b == self.spec_ack_byte(),
    {
        match self {
            Command::DisplayString { .. } => PLAIN_ACK,
            Command::WriteData { .. } => PLAIN_ACK,
            Command::ReadData { .. } => DATA_FOLLOWING_ACK,
            Command::JSR { .. } => PLAIN_ACK,
        }
    }

    fn length(&self) -> (l: Option<u8>)
        ensures
            l == self.spec_length(),
    {
        match self {
            Command::DisplayString { data, .. } => Some(data.data_length.0),
            Command::WriteData { data, .. } => Some(data.data_length.0),
            Command::ReadData { out_buffer, .. } => Some(out_buffer.data_length.0),
            Command::JSR { .. } => None,
        }
    }

    /// The address the command carries, if any.
    pub fn address(&self) -> (a: Option<u16>)
        ensures
            a == self.spec_address(),
    {
        match self {
            Command::DisplayString { .. } => None,
            Command::WriteData { address, .. } => Some(*address),
            Command::ReadData { address, .. } => Some(*address),
            Command::JSR { address, .. } => Some(*address),
        }
    }

    fn sendable_data(&self) -> (d: Option<&LengthLimitedSlice>)
        ensures
            match d {
                Some(s) => self.spec_sendable_data() == Some(s.contents()),
                None => self.spec_sendable_data() is None,
            },
    {
        match self {
            Command::DisplayString { data, .. } => Some(data),
            Command::WriteData { data, .. } => Some(data),
            Command::ReadData { .. } => None,
            Command::JSR { .. } => None,
        }
    }

    fn receivable_data(&mut self) -> (d: Option<&mut MutableLengthLimitedSlice<'a>>)
        ensures
            match d {
                Some(s) => {
                    &&& old(self).spec_receive_buffer() == Some(s.contents())
                    &&& final(self).spec_receive_buffer() == Some(final(s).contents())
                    &&& final(self).spec_signature_byte() == old(self).spec_signature_byte()
                    &&& final(self).spec_address() == old(self).spec_address()
                    &&& old(self).spec_length() == Some(s.length())
                    &&& final(self).spec_length() == Some(final(s).length())
                    &&& final(self).spec_sendable_data() is None
                },
                None => old(self).spec_receive_buffer() is None && *final(self) == *old(self),
            },
    {
        match self {
            Command::DisplayString { .. } => None,
            Command::WriteData { .. } => None,
            Command::ReadData { out_buffer, .. } => Some(out_buffer),
            Command::JSR { .. } => None,
        }
    }

    /// Checks the acknowledgement byte received after the request: anything
    /// but the byte this command expects is an error that names both bytes.
    pub fn check_ack(&self, found: u8) -> (r: Result<(), IoError>)
        ensures
            r is Ok <==> found == (if *self is ReadData { 0x02u8 } else { 0x01u8 }),
            match r {
                Ok(()) => found == self.spec_ack_byte(),
                Err(e) => found != self.spec_ack_byte() && e == (IoError::ReceivedUnexpectedbyte {
                    expected: self.spec_ack_byte(),
                    found,
                }),
            },
    {
        let ack = self.ack_byte();
        if found != ack {
            Err(IoError::ReceivedUnexpectedbyte { expected: ack, found })
        } else {
            Ok(())
        }
    }

    /// Every byte of the request, in the order it is sent.
    pub fn request_bytes(&self) -> (out: Vec<u8>)
        ensures
            out@ == self.spec_request(),
    {
        let mut out: Vec<u8> = Vec::new();
        out.push(self.signature_byte());
        match self.address() {
            Some(a) => {
                out.push((a & 0xff) as u8);
                out.push((a >> 8) as u8);
                assert((a & 0xff) as u8 == (a % 256) as u8 && (a >> 8) as u8 == (a / 256) as u8)
                    by (bit_vector);
            },
            None => {},
        }
        match self.length() {
            Some(l) => out.push(l),
            None => {},
        }
        let ghost head = out@;
        match self.sendable_data() {
            Some(lls) => {
                let n = lls.data.len();
                for i in 0..n
                    invariant
                        n == lls.data@.len(),
                        out@ == head + lls.data@.take(i as int),
                {
                    out.push(lls.data[i]);
                    assert(lls.data@.take(i + 1) =~= lls.data@.take(i as int).push(lls.data@[i as int]));
                }
                assert(lls.data@.take(n as int) =~= lls.data@);
            },
            None => {},
        }
        proof {
            assert(out@ =~= self.spec_request());
        }
        out
    }
}

/// The length byte of a data length is the length itself for 1 to 255
/// bytes, and 0 for 256 bytes.
pub proof fn lemma_length_byte(len: int)
    requires
        length_in_range(len),
    ensures
        len < 256 ==> length_byte(len) as int == len,
        len == 256 ==> length_byte(len) == 0,
{
}

/// The acknowledgement a command expects: a read is answered with 0x02
/// (data follows), every other command with 0x01.
pub proof fn lemma_ack_table(command: Command)
    ensures
        command is ReadData ==> command.spec_ack_byte() == 0x02,
        !(command is ReadData) ==> command.spec_ack_byte() == 0x01,
{
}

/// The request of each command, byte by byte: its signature byte (0x00
/// display, 0x01 write, 0x02 read, 0x03 subroutine call), then the address
/// low byte first, then the length byte, then the data.
pub proof fn lemma_request_layout(command: Command)
    ensures
        match command {
            Command::DisplayString { data } => command.spec_request() == seq![0x00u8, data.length()] + data.contents(),
            Command::WriteData { address, data } => command.spec_request() == seq![
                0x01u8,
                (address % 256) as u8,
                (address / 256) as u8,
                data.length(),
            ] + data.contents(),
            Command::ReadData { address, out_buffer } => command.spec_request() == seq![
                0x02u8,
                (address % 256) as u8,
                (address / 256) as u8,
                out_buffer.length(),
            ],
            Command::JSR { address } => command.spec_request() == seq![
                0x03u8,
                (address % 256) as u8,
                (address / 256) as u8,
            ],
        },
{
    match command {
        Command::DisplayString { data } => {
            assert(command.spec_request() =~= seq![0x00u8, data.length()] + data.contents());
        },
        Command::WriteData { address, data } => {
            assert(command.spec_request() =~= seq![
                0x01u8,
                (address % 256) as u8,
                (address / 256) as u8,
                data.length(),
            ] + data.contents());
        },
        Command::ReadData { address, out_buffer } => {
            assert(command.spec_request() =~= seq![
                0x02u8,
                (address % 256) as u8,
                (address / 256) as u8,
                out_buffer.length(),
            ]);
        },
        Command::JSR { address } => {
            assert(command.spec_request() =~= seq![0x03u8, (address % 256) as u8, (address / 256) as u8]);
        },
    }
}

/// Reads the byte on the data lines (the bus is turned towards the host).
pub trait ReadByte: Sized {
    /// The same lines turned towards the 6502.
    type IntoSend;

    /// Samples the data lines.
    fn read(&self) -> Result<u8, IoError>;

    /// Turns the bus towards the 6502.
    fn into_send(self) -> Result<Self::IntoSend, IoError>;
}

/// Drives a byte onto the data lines (the bus is turned towards the 6502).
pub trait SendByte: Sized {
    /// The same lines turned towards the host.
    type IntoRead: ReadByte<IntoSend = Self>;

    /// Puts `byte` on the data lines.
    fn send(&mut self, byte: u8) -> Result<(), IoError>;

    /// Turns the bus towards the host.
    fn into_read(self) -> Result<Self::IntoRead, IoError>;
}

/// Waits a number of milliseconds.
pub trait DelayMs {
    fn delay_ms(&mut self, ms: u64);
}

/// Waits a number of microseconds.
pub trait DelayUs {
    fn delay_us(&mut self, us: u64);
}

/// The handshake lines around each byte transfer.
pub trait WithHandshake {
    /// Puts `byte` on the bus with `sender`, then signals the 6502 and waits
    /// until it has taken the byte.
    fn with_write_handshake<S: SendByte>(&mut self, sender: &mut S, byte: u8) -> Result<(), IoError>;

    /// Waits until the 6502 has put a byte on the bus, samples it with `f`,
    /// then signals that it was taken.
    fn with_read_handshake<F: FnOnce() -> Result<u8, IoError>>(&mut self, f: F) -> Result<u8, IoError>;
}

/// One call that a run of a command made on the port, with what it returned.
pub enum BusCall {
    /// A byte put on the bus under a write handshake.
    Send { byte: u8, result: Result<(), IoError> },
    /// The bus turned towards the host.
    TurnToRead { result: Result<(), IoError> },
    /// A wait, in milliseconds.
    Wait { ms: u64 },
    /// A byte taken from the bus under a read handshake.
    Receive { received: Result<u8, IoError> },
    /// The bus turned back towards the 6502.
    TurnToSend { result: Result<(), IoError> },
}

/// Whether a call returned successfully, forgetting what it returned.
pub open spec fn outcome<T>(r: Result<T, IoError>) -> Result<(), IoError> {
    match r {
        Ok(_) => Ok(()),
        Err(e) => Err(e),
    }
}

/// The number of data bytes a command receives after its acknowledgement.
pub open spec fn response_len(command: Command) -> nat {
    match command.spec_receive_buffer() {
        Some(d) => d.len(),
        None => 0,
    }
}

/// The step of a run at which the acknowledgement is received: after the
/// request, the turn of the bus and the wait.
pub open spec fn ack_step(request: Seq<u8>) -> int {
    request.len() as int + 2
}

/// The number of steps of a complete run: the request, the turn, the wait,
/// the acknowledgement, the `n` data bytes, the turn back.
pub open spec fn run_length(request: Seq<u8>, n: nat) -> int {
    request.len() as int + 4 + n
}

/// Whether `call` is what step `k` of the run of a command does, for a
/// command with this request that receives `n` data bytes.
pub open spec fn fits_step(call: BusCall, request: Seq<u8>, n: nat, k: int) -> bool {
    match call {
        BusCall::Send { byte, .. } => 0 <= k < request.len() && byte == request[k],
        BusCall::TurnToRead { .. } => k == request.len(),
        BusCall::Wait { ms } => k == request.len() + 1 && ms == TURNAROUND_DELAY_MS,
        BusCall::Receive { .. } => ack_step(request) <= k < ack_step(request) + 1 + n,
        BusCall::TurnToSend { .. } => k == ack_step(request) + 1 + n,
    }
}

/// The error that ends a run at step `k` with `call`, if any: the error the
/// call returned, or, at the acknowledgement step, a byte other than `ack`.
pub open spec fn step_error(call: BusCall, request: Seq<u8>, ack: u8, k: int) -> Option<IoError> {
    match call {
        BusCall::Send { result, .. } => match result {
            Err(e) => Some(e),
            Ok(_) => None,
        },
        BusCall::TurnToRead { result } => match result {
            Err(e) => Some(e),
            Ok(_) => None,
        },
        BusCall::Wait { .. } => None,
        BusCall::Receive { received } => match received {
            Err(e) => Some(e),
            Ok(b) => if k == ack_step(request) && b != ack {
                Some(IoError::ReceivedUnexpectedbyte { expected: ack, found: b })
            } else {
                None
            },
        },
        BusCall::TurnToSend { result } => match result {
            Err(e) => Some(e),
            Ok(_) => None,
        },
    }
}

/// Whether `calls`, made from step `from` on, each do what their step does.
pub open spec fn on_plan(calls: Seq<BusCall>, request: Seq<u8>, n: nat, from: int) -> bool {
    forall|k: int| 0 <= k < calls.len() ==> fits_step(#[trigger] calls[k], request, n, from + k)
}

/// Whether none of `calls`, made from step `from` on, ended the run.
pub open spec fn went_through(calls: Seq<BusCall>, request: Seq<u8>, ack: u8, from: int) -> bool {
    forall|k: int| 0 <= k < calls.len() ==> step_error(#[trigger] calls[k], request, ack, from + k) is None
}

/// Whether `calls`, the steps `from..to` of a run, come out as `r`: either
/// every step was made and went through and `r` is `Ok`, or the steps stopped
/// at the first one that failed, and `r` is its error.
pub open spec fn stage_result(
    calls: Seq<BusCall>,
    request: Seq<u8>,
    ack: u8,
    n: nat,
    from: int,
    to: int,
    r: Result<(), IoError>,
) -> bool {
    &&& on_plan(calls, request, n, from)
    &&& match r {
        Ok(_) => calls.len() == to - from && went_through(calls, request, ack, from),
        Err(e) => {
            &&& 0 < calls.len() <= to - from
            &&& went_through(calls.drop_last(), request, ack, from)
            &&& step_error(calls.last(), request, ack, from + calls.len() - 1) == Some(e)
        },
    }
}

/// The byte a receive step took from the bus (0 for any other step).
pub open spec fn received_byte(call: BusCall) -> u8 {
    match call {
        BusCall::Receive { received: Ok(b) } => b,
        _ => 0,
    }
}

/// The `n` bytes received at steps `from..from + n` of `calls`.
pub open spec fn received_bytes(calls: Seq<BusCall>, from: int, n: nat) -> Seq<u8> {
    Seq::new(n, |j: int| received_byte(calls[from + j]))
}

/// Two stages of a run, one after the other, make one stage.
proof fn lemma_stages(
    a: Seq<BusCall>,
    b: Seq<BusCall>,
    request: Seq<u8>,
    ack: u8,
    n: nat,
    from: int,
    mid: int,
    to: int,
    r: Result<(), IoError>,
)
    requires
        stage_result(a, request, ack, n, from, mid, Ok(())),
        stage_result(b, request, ack, n, mid, to, r),
    ensures
        stage_result(a + b, request, ack, n, from, to, r),
{
    let ab = a + b;
    assert forall|k: int| 0 <= k < ab.len() implies fits_step(#[trigger] ab[k], request, n, from + k) by {
        if k < a.len() {
            assert(ab[k] == a[k]);
        } else {
            assert(ab[k] == b[k - a.len()]);
        }
    }
    let m = if r is Ok { ab.len() as int } else { ab.len() - 1 };
    let pre = ab.take(m);
    assert forall|k: int| 0 <= k < pre.len() implies step_error(#[trigger] pre[k], request, ack, from + k) is None by {
        assert(pre[k] == ab[k]);
        if k < a.len() {
            assert(ab[k] == a[k]);
        } else {
            assert(ab[k] == b[k - a.len()]);
            if r is Err {
                assert(b.drop_last()[k - a.len()] == b[k - a.len()]);
            }
        }
    }
    if r is Ok {
        assert(pre =~= ab);
    } else {
        assert(pre =~= ab.drop_last());
        assert(ab.last() == b.last());
    }
}

/// A single step makes a stage of one step.
proof fn lemma_one_step(call: BusCall, request: Seq<u8>, ack: u8, n: nat, k: int)
    requires
        fits_step(call, request, n, k),
    ensures
        stage_result(
            seq![call],
            request,
            ack,
            n,
            k,
            k + 1,
            match step_error(call, request, ack, k) {
                Some(e) => Err(e),
                None => Ok(()),
            },
        ),
{
    let s = seq![call];
    assert(s[0] == call);
    assert(s.drop_last() =~= Seq::<BusCall>::empty());
}

/// The pins of the parallel port, with the bus turned towards the 6502.
pub struct Pins<WH, S, D> where WH: WithHandshake, S: SendByte, D: DelayMs {
    with_handshake: WH,
    send_byte: S,
    delay: D,
    calls: Ghost<Seq<BusCall>>,
}

impl<WH, S, D> Pins<WH, S, D> where WH: WithHandshake, S: SendByte, D: DelayMs {
    /// The pins, with no call made on them yet.
    pub fn new(with_handshake: WH, send_byte: S, delay: D) -> (p: Self)
        ensures
            p.handshake() == with_handshake,
            p.sender() == send_byte,
            p.delay() == delay,
            p.calls() == Seq::<BusCall>::empty(),
    {
        Self { with_handshake, send_byte, delay, calls: Ghost(Seq::empty()) }
    }

    /// The handshake lines.
    pub closed spec fn handshake(&self) -> WH {
        self.with_handshake
    }

    /// The data lines, turned towards the 6502.
    pub closed spec fn sender(&self) -> S {
        self.send_byte
    }

    /// The delay source.
    pub closed spec fn delay(&self) -> D {
        self.delay
    }

    /// Every call made on the port through these pins, oldest first.
    pub closed spec fn calls(&self) -> Seq<BusCall> {
        self.calls@
    }

    /// Runs one command: sends its request byte by byte, turns the bus
    /// around, waits 2 ms, checks the acknowledgement, receives the data of
    /// a read into its buffer, and turns the bus back. Besides the result it
    /// hands back, as a ghost value, the calls the run made on the port, each
    /// with what it returned.
    ///
    /// The calls follow the plan of the run in order and stop at the first
    /// one that fails; the run succeeds exactly when every step of the plan
    /// was made and went through. A failing call's error is returned as it
    /// came, and an acknowledgement other than the expected one is returned as
    /// `ReceivedUnexpectedbyte` with the byte received. The buffer of a read
    /// holds the received data on success and is untouched until the first
    /// data byte arrives.
    pub fn execute(self, command: &mut Command) -> (r: (Result<Pins<WH, S, D>, IoError>, Ghost<Seq<BusCall>>))
        ensures
            final(command).spec_request() == old(command).spec_request(),
            final(command).spec_ack_byte() == old(command).spec_ack_byte(),
            response_len(*final(command)) == response_len(*old(command)),
            stage_result(
                r.1@,
                old(command).spec_request(),
                old(command).spec_ack_byte(),
                response_len(*old(command)),
                0,
                run_length(old(command).spec_request(), response_len(*old(command))),
                outcome(r.0),
            ),
            r.0 matches Ok(p) ==> p.calls() == self.calls() + r.1@,
            r.0 is Ok && final(command).spec_receive_buffer() is Some ==> final(command).spec_receive_buffer()
                == Some(received_bytes(r.1@, ack_step(old(command).spec_request()) + 1, response_len(*old(command)))),
            r.1@.len() <= ack_step(old(command).spec_request()) + 1 ==> final(command).spec_receive_buffer()
                == old(command).spec_receive_buffer(),
    {
        let ghost request = command.spec_request();
        let ghost ack = command.spec_ack_byte();
        let ghost n = response_len(*command);
        let ghost start = self.calls();
        let mut this = self;
        let bytes = command.request_bytes();
        let len = bytes.len();
        for i in 0..len
            invariant
                len == bytes@.len(),
                bytes@ == request,
                *command == *old(command),
                request == old(command).spec_request(),
                ack == old(command).spec_ack_byte(),
                n == response_len(*old(command)),
                start == self.calls(),
                this.calls() == start + this.calls().skip(start.len() as int),
                stage_result(this.calls().skip(start.len() as int), request, ack, n, 0, i as int, Ok(())),
        {
            let ghost t0 = this.calls().skip(start.len() as int);
            let r = this.send_byte(bytes[i]);
            let ghost call = BusCall::Send { byte: bytes@[i as int], result: r };
            proof {
                lemma_one_step(call, request, ack, n, i as int);
                assert(this.calls().skip(start.len() as int) =~= t0 + seq![call]);
                lemma_stages(t0, seq![call], request, ack, n, 0, i as int, i + 1, outcome(r));
            }
            match r {
                Ok(()) => {},
                Err(e) => {
                    return (Err(e), Ghost(this.calls().skip(start.len() as int)));
                },
            }
        }
        let ghost t_sent = this.calls().skip(start.len() as int);
        let Pins { with_handshake, send_byte, delay, calls } = this;
        let turned = send_byte.into_read();
        let ghost turn = BusCall::TurnToRead { result: outcome(turned) };
        let ghost t_turned = t_sent + seq![turn];
        proof {
            lemma_one_step(turn, request, ack, n, request.len() as int);
            lemma_stages(t_sent, seq![turn], request, ack, n, 0, request.len() as int, request.len() as int + 1, outcome(turned));
        }
        let read_byte = match turned {
            Ok(read_byte) => read_byte,
            Err(e) => {
                return (Err(e), Ghost(t_turned));
            },
        };
        let read_pins = ReadPins { with_handshake, read_byte, delay, calls: Ghost(calls@.push(turn)) };
        let (done, Ghost(t_read)) = read_pins.execute(command, Ghost(request));
        let ghost t_after_read = t_turned + t_read;
        proof {
            lemma_stages(t_turned, t_read, request, ack, n, 0, request.len() as int + 1, ack_step(request) + 1 + n, outcome(done));
            if done is Ok {
                assert(received_bytes(t_after_read, ack_step(request) + 1, n) =~= received_bytes(t_read, 2, n));
            }
        }
        let read_pins = match done {
            Ok(read_pins) => read_pins,
            Err(e) => {
                return (Err(e), Ghost(t_after_read));
            },
        };
        let ReadPins { with_handshake, read_byte, delay, calls } = read_pins;
        let back = read_byte.into_send();
        let ghost turn_back = BusCall::TurnToSend { result: outcome(back) };
        let ghost t_all = t_after_read + seq![turn_back];
        proof {
            lemma_one_step(turn_back, request, ack, n, ack_step(request) + 1 + n);
            lemma_stages(
                t_after_read,
                seq![turn_back],
                request,
                ack,
                n,
                0,
                ack_step(request) + 1 + n,
                run_length(request, n),
                outcome(back),
            );
            assert(received_bytes(t_all, ack_step(request) + 1, n) =~= received_bytes(t_after_read, ack_step(request) + 1, n));
        }
        match back {
            Ok(send_byte) => {
                proof {
                    assert(start + t_all =~= calls@.push(turn_back));
                }
                (Ok(Pins { with_handshake, send_byte, delay, calls: Ghost(calls@.push(turn_back)) }), Ghost(t_all))
            },
            Err(e) => (Err(e), Ghost(t_all)),
        }
    }

    /// Sends one byte under a write handshake, and records the call.
    fn send_byte(&mut self, data: u8) -> (r: Result<(), IoError>)
        ensures
            final(self).calls() == old(self).calls().push(BusCall::Send { byte: data, result: r }),
    {
        let r = self.with_handshake.with_write_handshake(&mut self.send_byte, data);
        proof {
            self.calls@ = self.calls@.push(BusCall::Send { byte: data, result: r });
        }
        r
    }
}

/// The pins of the parallel port, with the bus turned towards the host.
struct ReadPins<WH, R, D> where WH: WithHandshake, R: ReadByte, D: DelayMs {
    with_handshake: WH,
    read_byte: R,
    delay: D,
    calls: Ghost<Seq<BusCall>>,
}

impl<WH, R, D> ReadPins<WH, R, D> where WH: WithHandshake, R: ReadByte, D: DelayMs {
    /// Waits for the bus to settle, checks the acknowledgement byte, and
    /// receives the data of a read command into its buffer; hands back the
    /// calls made, which are the steps from the wait to the last data byte of
    /// the run of `command`, whose request is `request`.
    fn execute(self, command: &mut Command, Ghost(request): Ghost<Seq<u8>>) -> (r: (Result<Self, IoError>, Ghost<Seq<BusCall>>))
        requires
            old(command).spec_request() == request,
        ensures
            final(command).spec_request() == old(command).spec_request(),
            final(command).spec_ack_byte() == old(command).spec_ack_byte(),
            response_len(*final(command)) == response_len(*old(command)),
            stage_result(
                r.1@,
                request,
                old(command).spec_ack_byte(),
                response_len(*old(command)),
                request.len() as int + 1,
                ack_step(request) + 1 + response_len(*old(command)),
                outcome(r.0),
            ),
            r.0 matches Ok(p) ==> p.calls@ == self.calls@ + r.1@,
            r.0 is Ok && final(command).spec_receive_buffer() is Some ==> final(command).spec_receive_buffer()
                == Some(received_bytes(r.1@, 2, response_len(*old(command)))),
            r.1@.len() <= 2 ==> final(command).spec_receive_buffer() == old(command).spec_receive_buffer(),
    {
        let ghost ack = command.spec_ack_byte();
        let ghost n = response_len(*command);
        let ghost start = self.calls@;
        let ghost l = request.len() as int;
        let mut this = self;
        this.wait();
        let ghost wait = BusCall::Wait { ms: TURNAROUND_DELAY_MS };
        let got = this.receive_byte();
        let ghost get = BusCall::Receive { received: got };
        let ghost t = seq![wait, get];
        proof {
            lemma_one_step(wait, request, ack, n, l + 1);
            lemma_one_step(get, request, ack, n, l + 2);
            assert(seq![wait] + seq![get] =~= t);
            lemma_stages(seq![wait], seq![get], request, ack, n, l + 1, l + 2, l + 3,
                match step_error(get, request, ack, l + 2) { Some(e) => Err(e), None => Ok(()) });
            assert(this.calls@ =~= start + t);
        }
        let b = match got {
            Ok(b) => b,
            Err(e) => {
                return (Err(e), Ghost(t));
            },
        };
        match command.check_ack(b) {
            Ok(()) => {},
            Err(e) => {
                return (Err(e), Ghost(t));
            },
        }
        match command.receivable_data() {
            Some(mlls) => {
                let (res, Ghost(data)) = this.receive_data(mlls, Ghost(request), Ghost(ack), Ghost(n));
                proof {
                    lemma_stages(t, data, request, ack, n, l + 1, l + 3, l + 3 + n, outcome(res));
                    assert(this.calls@ =~= start + (t + data));
                    if res is Ok {
                        assert(received_bytes(t + data, 2, n) =~= received_bytes(data, 0, n));
                    }
                }
                match res {
                    Ok(()) => {
                        return (Ok(this), Ghost(t + data));
                    },
                    Err(e) => {
                        return (Err(e), Ghost(t + data));
                    },
                }
            },
            None => {},
        }
        (Ok(this), Ghost(t))
    }

    /// Receives the data bytes of a read into `mlls`, one step each, and
    /// hands back the calls made.
    fn receive_data(
        &mut self,
        mlls: &mut MutableLengthLimitedSlice,
        Ghost(request): Ghost<Seq<u8>>,
        Ghost(ack): Ghost<u8>,
        Ghost(n): Ghost<nat>,
    ) -> (r: (Result<(), IoError>, Ghost<Seq<BusCall>>))
        requires
            n == old(mlls).contents().len(),
        ensures
            final(mlls).length() == old(mlls).length(),
            final(mlls).contents().len() == old(mlls).contents().len(),
            final(self).calls@ == old(self).calls@ + r.1@,
            stage_result(r.1@, request, ack, n, ack_step(request) + 1, ack_step(request) + 1 + n, r.0),
            r.0 is Ok ==> final(mlls).contents() == received_bytes(r.1@, 0, n),
    {
        let ghost start = self.calls@;
        let ghost from = ack_step(request) + 1;
        let len = mlls.len();
        for i in 0..len
            invariant
                len == n,
                n == old(mlls).contents().len(),
                mlls.contents().len() == n,
                mlls.length() == old(mlls).length(),
                self.calls@ == start + self.calls@.skip(start.len() as int),
                start == old(self).calls@,
                from == ack_step(request) + 1,
                stage_result(self.calls@.skip(start.len() as int), request, ack, n, from, from + i, Ok(())),
                forall|j: int| 0 <= j < i ==> mlls.contents()[j] == received_byte(
                    #[trigger] self.calls@.skip(start.len() as int)[j],
                ),
        {
            let ghost t0 = self.calls@.skip(start.len() as int);
            let got = self.receive_byte();
            let ghost call = BusCall::Receive { received: got };
            proof {
                lemma_one_step(call, request, ack, n, from + i);
                assert(self.calls@ =~= start + (t0 + seq![call]));
                assert(self.calls@.skip(start.len() as int) =~= t0 + seq![call]);
                lemma_stages(t0, seq![call], request, ack, n, from, from + i, from + i + 1, outcome(got));
            }
            let b = match got {
                Ok(b) => b,
                Err(e) => {
                    return (Err(e), Ghost(self.calls@.skip(start.len() as int)));
                },
            };
            let ghost before = mlls.contents();
            mlls.store(i, b);
            proof {
                let t1 = self.calls@.skip(start.len() as int);
                assert forall|j: int| 0 <= j < i + 1 implies mlls.contents()[j] == received_byte(#[trigger] t1[j]) by {
                    if j < i {
                        assert(t1[j] == t0[j]);
                    }
                }
            }
        }
        let ghost t = self.calls@.skip(start.len() as int);
        assert(mlls.contents() =~= received_bytes(t, 0, n));
        (Ok(()), Ghost(t))
    }

    /// Waits for the bus to settle after turning, and records the call.
    fn wait(&mut self)
        ensures
            final(self).calls@ == old(self).calls@.push(BusCall::Wait { ms: TURNAROUND_DELAY_MS }),
    {
        self.delay.delay_ms(TURNAROUND_DELAY_MS);
        proof {
            self.calls@ = self.calls@.push(BusCall::Wait { ms: TURNAROUND_DELAY_MS });
        }
    }

    /// Takes one byte from the bus under a read handshake, and records the
    /// call.
    fn receive_byte(&mut self) -> (r: Result<u8, IoError>)
        ensures
            final(self).calls@ == old(self).calls@.push(BusCall::Receive { received: r }),
    {
        let reader = &self.read_byte;
        let r = self.with_handshake.with_read_handshake(|| reader.read());
        proof {
            self.calls@ = self.calls@.push(BusCall::Receive { received: r });
        }
        r
    }
}

} // verus!
