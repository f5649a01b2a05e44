//! Receiver acquisition: the power-cycle / configuration-handshake /
//! steady-ingestion state machine, its configuration frames, and the
//! telemetry drain that turns received serial bytes into clock events.
//!
//! The machine owns no peripheral here: each step is a pure decision from
//! the current phase and the observed outcome of the last action to the
//! next action or the next state. A driving loop performs the actions
//! (bus writes, pin waits, serial reads) and feeds the outcomes back.

use vstd::prelude::*;

use crate::crlf_stream::{find_crlf, lemma_find_crlf_bounds, CrlfStream};
use crate::datetime::DateTime;
use crate::nmea::error::Error;
use crate::nmea::parser::{
    hex_val, is_ascii_seq, is_hex_digit, is_rmc_tag, message_parses, parse, parse_result_ok,
    xor_fold, Message, MessageType,
};
use crate::nmea::rmc::spec_rmc;
use crate::ubx::{le16, lemma_ubx_ck_bounds, ubx_ck, valid_frame};

verus! {

/// The three acquisition states. Exactly one is active at a time, and a
/// transition is driven only by the outcome of the state's own work.
#[derive(Clone, Copy, Debug, PartialEq, Eq, Structural)]
pub enum State {
    PowerCycle,
    Setup,
    Ready,
}

/// Writes the checksum of everything between the preamble and the two
/// trailing checksum slots into those slots. A buffer too short to carry
/// both is left alone.
pub fn ubx_fill_ck(buf: &mut Vec<u8>)
    ensures
        old(buf)@.len() < 4 ==> final(buf)@ == old(buf)@,
        old(buf)@.len() >= 4 ==> final(buf)@ == {
            let n = old(buf)@.len() as int;
            let ck = ubx_ck(old(buf)@.subrange(2, n - 2));
            old(buf)@.update(n - 2, ck.0 as u8).update(n - 1, ck.1 as u8)
        },
{
    let n = buf.len();
    if n < 4 {
        return ;
    }
    let body = vstd::slice::slice_subrange(buf.as_slice(), 2, n - 2);
    let (ck_a, ck_b) = crate::ubx::checksum(body);
    proof {
        lemma_ubx_ck_bounds(buf@.subrange(2, n - 2));
    }
    buf[n - 2] = ck_a;
    buf[n - 1] = ck_b;
}

/// Payload of the configuration command: enable the hardware ready
/// signal, keep the binary protocol to the bus and the text protocol to
/// the serial port, and set the serial baud rate.
pub open spec fn cfg_valset_payload() -> Seq<u8> {
    seq![
        0x00, 0x01, 0x00, 0x00, 0x01, 0x00, 0xa2, 0x10, 0x01, 0x02,
        0x00, 0xa2, 0x10, 0x01, 0x03, 0x00, 0xa2, 0x20, 0x05, 0x04,
        0x00, 0xa2, 0x30, 0x01, 0x00, 0x05, 0x00, 0xa2, 0x20, 0x00,
        0x01, 0x00, 0x71, 0x10, 0x01, 0x02, 0x00, 0x71, 0x10, 0x00,
        0x01, 0x00, 0x72, 0x10, 0x01, 0x02, 0x00, 0x72, 0x10, 0x00,
        0x01, 0x00, 0x73, 0x10, 0x00, 0x02, 0x00, 0x73, 0x10, 0x01,
        0x01, 0x00, 0x74, 0x10, 0x00, 0x02, 0x00, 0x74, 0x10, 0x01,
        0x01, 0x00, 0x52, 0x40, 0x00, 0xc2, 0x01, 0x00,
    ]
}

/// The complete configuration command frame on the wire.
pub open spec fn cfg_valset_frame_bytes() -> Seq<u8> {
    let body = seq![0x06u8, 0x8a, 0x4e, 0x00] + cfg_valset_payload();
    let ck = ubx_ck(body);
    seq![0xb5u8, 0x62] + body + seq![ck.0 as u8, ck.1 as u8]
}

/// The acknowledgement frame the receiver must answer the configuration
/// command with: its payload names the command's class and id.
pub open spec fn ack_frame_bytes() -> Seq<u8> {
    let body = seq![0x05u8, 0x01, 0x02, 0x00, 0x06, 0x8a];
    let ck = ubx_ck(body);
    seq![0xb5u8, 0x62] + body + seq![ck.0 as u8, ck.1 as u8]
}

/// Builds the configuration command frame.
#[verifier::rlimit(100)]
#[verifier::spinoff_prover]
pub fn ubx_cfg_valset_frame() -> (r: Vec<u8>)
    ensures
        r@ == cfg_valset_frame_bytes(),
        valid_frame(r@),
        r@.len() == 86,
{
    let mut v: Vec<u8> = Vec::new();
    // preamble
    v.push(0xb5);
    v.push(0x62);
    // class and id of the configuration command
    v.push(0x06);
    v.push(0x8a);
    // payload length, little endian
    v.push(0x4e);
    v.push(0x00);
    // version, layers (ram only), reserved
    v.push(0x00);
    v.push(0x01);
    v.push(0x00);
    v.push(0x00);
    // transmit-ready signalling enabled
    v.push(0x01);
    v.push(0x00);
    v.push(0xa2);
    v.push(0x10);
    v.push(0x01);
    // transmit-ready polarity: active low
    v.push(0x02);
    v.push(0x00);
    v.push(0xa2);
    v.push(0x10);
    v.push(0x01);
    // transmit-ready pin: the interrupt line
    v.push(0x03);
    v.push(0x00);
    v.push(0xa2);
    v.push(0x20);
    v.push(0x05);
    // transmit-ready threshold: 8 bytes
    v.push(0x04);
    v.push(0x00);
    v.push(0xa2);
    v.push(0x30);
    v.push(0x01);
    v.push(0x00);
    // transmit-ready interface: the bus
    v.push(0x05);
    v.push(0x00);
    v.push(0xa2);
    v.push(0x20);
    v.push(0x00);
    // bus input: binary protocol on
    v.push(0x01);
    v.push(0x00);
    v.push(0x71);
    v.push(0x10);
    v.push(0x01);
    // bus input: text protocol off
    v.push(0x02);
    v.push(0x00);
    v.push(0x71);
    v.push(0x10);
    v.push(0x00);
    // bus output: binary protocol on
    v.push(0x01);
    v.push(0x00);
    v.push(0x72);
    v.push(0x10);
    v.push(0x01);
    // bus output: text protocol off
    v.push(0x02);
    v.push(0x00);
    v.push(0x72);
    v.push(0x10);
    v.push(0x00);
    // serial input: binary protocol off
    v.push(0x01);
    v.push(0x00);
    v.push(0x73);
    v.push(0x10);
    v.push(0x00);
    // serial input: text protocol on
    v.push(0x02);
    v.push(0x00);
    v.push(0x73);
    v.push(0x10);
    v.push(0x01);
    // serial output: binary protocol off
    v.push(0x01);
    v.push(0x00);
    v.push(0x74);
    v.push(0x10);
    v.push(0x00);
    // serial output: text protocol on
    v.push(0x02);
    v.push(0x00);
    v.push(0x74);
    v.push(0x10);
    v.push(0x01);
    // serial baud rate: 115200
    v.push(0x01);
    v.push(0x00);
    v.push(0x52);
    v.push(0x40);
    v.push(0x00);
    v.push(0xc2);
    v.push(0x01);
    v.push(0x00);
    // checksum slots
    v.push(0x00);
    v.push(0x00);
    let ghost zeroed = seq![0xb5u8, 0x62, 0x06, 0x8a, 0x4e, 0x00] + cfg_valset_payload() + seq![
        0x00u8,
        0x00,
    ];
    proof {
        assert(v@ =~= zeroed);
    }
    ubx_fill_ck(&mut v);
    proof {
        let body = seq![0x06u8, 0x8a, 0x4e, 0x00] + cfg_valset_payload();
        assert(zeroed.subrange(2, 84) =~= body);
        lemma_ubx_ck_bounds(body);
        let ck = ubx_ck(body);
        assert(v@ =~= zeroed.update(84, ck.0 as u8).update(85, ck.1 as u8));
        assert(v@ =~= cfg_valset_frame_bytes());
        assert(v@.subrange(2, 84) =~= body);
        assert(le16(v@[4], v@[5]) == 78);
        assert(valid_frame(v@));
    }
    v
}

/// Builds the expected acknowledgement frame.
pub fn ubx_ack_ack_frame() -> (r: Vec<u8>)
    ensures
        r@ == ack_frame_bytes(),
        valid_frame(r@),
        r@.len() == 10,
{
    let mut v: Vec<u8> = Vec::new();
    // preamble
    v.push(0xb5);
    v.push(0x62);
    // class and id of the acknowledgement
    v.push(0x05);
    v.push(0x01);
    // payload length, little endian
    v.push(0x02);
    v.push(0x00);
    // payload: class and id of the command being acknowledged
    v.push(0x06);
    v.push(0x8a);
    // checksum slots
    v.push(0x00);
    v.push(0x00);
    let ghost zeroed = seq![0xb5u8, 0x62, 0x05, 0x01, 0x02, 0x00, 0x06, 0x8a, 0x00, 0x00];
    proof {
        assert(v@ =~= zeroed);
    }
    ubx_fill_ck(&mut v);
    proof {
        let body = seq![0x05u8, 0x01, 0x02, 0x00, 0x06, 0x8a];
        assert(zeroed.subrange(2, 8) =~= body);
        lemma_ubx_ck_bounds(body);
        let ck = ubx_ck(body);
        assert(v@ =~= zeroed.update(8, ck.0 as u8).update(9, ck.1 as u8));
        assert(v@ =~= ack_frame_bytes());
        assert(v@.subrange(2, 8) =~= body);
        assert(le16(v@[4], v@[5]) == 2);
        assert(valid_frame(v@));
    }
    v
}

/// Which step of the configuration handshake is under way.
#[derive(Clone, Copy, Debug, PartialEq, Eq, Structural)]
pub enum SetupPhase {
    /// Writing the configuration command over the bus, retrying on failure
    /// until a deadline.
    SendConfig,
    /// Waiting for the hardware ready signal to assert.
    AwaitReady,
    /// Polling the receiver's length register until enough bytes wait.
    PollLen,
    /// Reading and checking the acknowledgement frame.
    ReadAck,
}

/// What the driving loop observed while performing the current action.
pub enum SetupEvent {
    /// The bus write of the configuration command went through.
    WriteOk,
    /// The bus write failed; `now_ms` is the monotonic time of the failure.
    WriteFailed { now_ms: u64 },
    /// The ready signal asserted.
    ReadyAsserted,
    /// The ready signal stayed silent for its whole waiting window.
    ReadyTimedOut,
    /// The length register reported this many bytes waiting.
    LengthRead(u16),
    /// A bus operation failed.
    BusFailed,
    /// Exactly these bytes were read back as the acknowledgement.
    AckRead(Vec<u8>),
}

/// What the driving loop must do next.
#[derive(Clone, Copy, Debug, PartialEq, Eq, Structural)]
pub enum SetupAction {
    /// Wait the retry delay, then write the configuration command again.
    RetryWriteAfterDelay,
    /// Wait for the ready signal, up to its timeout.
    AwaitReadySignal,
    /// Read the length register.
    ReadLength,
    /// Read the acknowledgement bytes.
    ReadAcknowledgement,
}

/// Outcome of one handshake step: keep going with an action, or leave the
/// setup state for the given next state.
#[derive(Debug, PartialEq)]
pub enum SetupStep {
    Continue(SetupAction),
    Leave(State),
}

/// How long the bus write keeps being retried, in milliseconds.
pub const SETUP_WRITE_DEADLINE_MS: u64 = 5000;

/// The configuration handshake, one observed outcome at a time.
pub struct SetupMachine {
    phase: SetupPhase,
    started_at_ms: u64,
}

impl SetupMachine {
    pub closed spec fn phase(self) -> SetupPhase {
        self.phase
    }

    pub closed spec fn started_at_ms(self) -> u64 {
        self.started_at_ms
    }

    /// The observed event belongs to the phase's own action.
    pub open spec fn event_fits(self, ev: SetupEvent) -> bool {
        match self.phase() {
            SetupPhase::SendConfig => ev is WriteOk || ev is WriteFailed,
            SetupPhase::AwaitReady => ev is ReadyAsserted || ev is ReadyTimedOut,
            SetupPhase::PollLen => ev is LengthRead || ev is BusFailed,
            SetupPhase::ReadAck => ev is AckRead || ev is BusFailed,
        }
    }

    /// Starts the handshake: the configuration command is about to be
    /// written for the first time; `now_ms` starts the write deadline.
    pub fn new(now_ms: u64) -> (r: Self)
        ensures
            r.phase() == SetupPhase::SendConfig,
            r.started_at_ms() == now_ms,
    {
        SetupMachine { phase: SetupPhase::SendConfig, started_at_ms: now_ms }
    }

    /// Takes one observed outcome and decides what happens next:
    ///
    /// - a failed write retries until the deadline has passed, then gives
    ///   up to a power cycle;
    /// - a successful write waits for the ready signal; its timeout gives
    ///   up to a power cycle;
    /// - the length register is polled until it reports at least the ten
    ///   acknowledgement bytes; a bus failure gives up to a power cycle;
    /// - the acknowledgement must equal the expected frame byte for byte;
    ///   anything else gives up to a power cycle; equality finishes the
    ///   handshake and enters steady-state reception.
    pub fn on_event(&mut self, ev: SetupEvent) -> (r: SetupStep)
        requires
            old(self).event_fits(ev),
            ev matches SetupEvent::WriteFailed { now_ms } ==> now_ms >= old(self).started_at_ms(),
        ensures
            final(self).started_at_ms() == old(self).started_at_ms(),
            match ev {
                SetupEvent::WriteOk => {
                    &&& final(self).phase() == SetupPhase::AwaitReady
                    &&& r == SetupStep::Continue(SetupAction::AwaitReadySignal)
                },
                SetupEvent::WriteFailed { now_ms } => {
                    if now_ms > old(self).started_at_ms() + SETUP_WRITE_DEADLINE_MS {
                        r == SetupStep::Leave(State::PowerCycle)
                    } else {
                        &&& final(self).phase() == SetupPhase::SendConfig
                        &&& r == SetupStep::Continue(SetupAction::RetryWriteAfterDelay)
                    }
                },
                SetupEvent::ReadyAsserted => {
                    &&& final(self).phase() == SetupPhase::PollLen
                    &&& r == SetupStep::Continue(SetupAction::ReadLength)
                },
                SetupEvent::ReadyTimedOut => r == SetupStep::Leave(State::PowerCycle),
                SetupEvent::LengthRead(n) => {
                    if n >= 10 {
                        &&& final(self).phase() == SetupPhase::ReadAck
                        &&& r == SetupStep::Continue(SetupAction::ReadAcknowledgement)
                    } else {
                        &&& final(self).phase() == SetupPhase::PollLen
                        &&& r == SetupStep::Continue(SetupAction::ReadLength)
                    }
                },
                SetupEvent::BusFailed => r == SetupStep::Leave(State::PowerCycle),
                SetupEvent::AckRead(d) => {
                    if d@ == ack_frame_bytes() {
                        r == SetupStep::Leave(State::Ready)
                    } else {
                        r == SetupStep::Leave(State::PowerCycle)
                    }
                },
            },
    {
        match ev {
            SetupEvent::WriteOk => {
                self.phase = SetupPhase::AwaitReady;
                SetupStep::Continue(SetupAction::AwaitReadySignal)
            },
            SetupEvent::WriteFailed { now_ms } => {
                if now_ms - self.started_at_ms > SETUP_WRITE_DEADLINE_MS {
                    SetupStep::Leave(State::PowerCycle)
                } else {
                    SetupStep::Continue(SetupAction::RetryWriteAfterDelay)
                }
            },
            SetupEvent::ReadyAsserted => {
                self.phase = SetupPhase::PollLen;
                SetupStep::Continue(SetupAction::ReadLength)
            },
            SetupEvent::ReadyTimedOut => SetupStep::Leave(State::PowerCycle),
            SetupEvent::LengthRead(n) => {
                if n >= 10 {
                    self.phase = SetupPhase::ReadAck;
                    SetupStep::Continue(SetupAction::ReadAcknowledgement)
                } else {
                    SetupStep::Continue(SetupAction::ReadLength)
                }
            },
            SetupEvent::BusFailed => SetupStep::Leave(State::PowerCycle),
            SetupEvent::AckRead(d) => {
                let expect = ubx_ack_ack_frame();
                if d.len() != expect.len() {
                    proof {
                        assert(d@ != ack_frame_bytes());
                    }
                    SetupStep::Leave(State::PowerCycle)
                } else {
                    let mut eq = true;
                    let mut k: usize = 0;
                    while k < d.len()
                        invariant
                            k <= d@.len(),
                            d@.len() == expect@.len(),
                            expect@ == ack_frame_bytes(),
                            eq <==> d@.subrange(0, k as int) =~= expect@.subrange(0, k as int),
                        decreases d@.len() - k,
                    {
                        let a = d[k];
                        let b = expect[k];
                        proof {
                            assert(d@.subrange(0, k + 1).drop_last() =~= d@.subrange(0, k as int));
                            assert(expect@.subrange(0, k + 1).drop_last() =~= expect@.subrange(
                                0,
                                k as int,
                            ));
                            assert(d@.subrange(0, k + 1).last() == d@[k as int]);
                            assert(expect@.subrange(0, k + 1).last() == expect@[k as int]);
                        }
                        if a != b {
                            eq = false;
                        }
                        k = k + 1;
                    }
                    proof {
                        assert(d@.subrange(0, d@.len() as int) =~= d@);
                        assert(expect@.subrange(0, expect@.len() as int) =~= expect@);
                    }
                    if eq {
                        SetupStep::Leave(State::Ready)
                    } else {
                        SetupStep::Leave(State::PowerCycle)
                    }
                }
            },
        }
    }
}

/// One clock event, published onto the bounded queue for the dispatcher.
#[derive(Clone, Copy, Debug, PartialEq, Eq, Structural)]
pub enum Event {
    DateTime(DateTime),
}

/// The body inside a line's envelope, provided the envelope is whole and a
/// carried checksum matches.
pub open spec fn line_body(s: Seq<u8>) -> Option<Seq<u8>> {
    let n = s.len() as int;
    if n >= 6 && s[0] == 36 && s[n - 5] == 42 && is_hex_digit(s[n - 4]) && is_hex_digit(s[n - 3])
        && s[n - 2] == 13 && s[n - 1] == 10 {
        let body = s.subrange(1, n - 5);
        if 16 * hex_val(s[n - 4]) + hex_val(s[n - 3]) == xor_fold(body) {
            Some(body)
        } else {
            None
        }
    } else if n >= 3 && s[0] == 36 && s[n - 2] == 13 && s[n - 1] == 10 {
        Some(s.subrange(1, n - 2))
    } else {
        None
    }
}

/// The date-time one line publishes: present exactly when the line parses
/// as a position/velocity/time sentence carrying both a date and a time.
pub open spec fn line_datetime(s: Seq<u8>) -> Option<DateTime> {
    match line_body(s) {
        None => None,
        Some(body) => if is_ascii_seq(body) && message_parses(body) && is_rmc_tag(body) {
            match spec_rmc(body, 6) {
                Some(p) => match (p.0.date, p.0.time) {
                    (Some(date), Some(time)) => Some(DateTime { date, time }),
                    _ => None,
                },
                None => None,
            }
        } else {
            None
        },
    }
}

/// The publications of one line.
pub open spec fn line_events(s: Seq<u8>) -> Seq<DateTime> {
    match line_datetime(s) {
        Some(dt) => seq![dt],
        None => Seq::empty(),
    }
}

/// The date-times published while draining a window content: every
/// complete line leaves, in order, and contributes its publications.
pub open spec fn drain_events(f: Seq<u8>) -> Seq<DateTime>
    decreases f.len(),
        via drain_events_dec
{
    match find_crlf(f) {
        None => Seq::empty(),
        Some(k) => line_events(f.take(k + 1)) + drain_events(f.skip(k + 1)),
    }
}

#[via_fn]
proof fn drain_events_dec(f: Seq<u8>) {
    if find_crlf(f) is Some {
        lemma_find_crlf_bounds(f, 1);
    }
}

/// What remains in the window after draining: the bytes behind the last
/// complete line.
pub open spec fn drain_rest(f: Seq<u8>) -> Seq<u8>
    decreases f.len(),
        via drain_rest_dec
{
    match find_crlf(f) {
        None => f,
        Some(k) => drain_rest(f.skip(k + 1)),
    }
}

#[via_fn]
proof fn drain_rest_dec(f: Seq<u8>) {
    if find_crlf(f) is Some {
        lemma_find_crlf_bounds(f, 1);
    }
}

/// What one parsed line publishes, read off the parser's contract.
proof fn lemma_line_events_of_parse(line: Seq<u8>, r: Result<Message, Error>)
    requires
        parse_result_ok(line, r),
    ensures
        match r {
            Ok(m) => match m.data {
                MessageType::Rmc(d) => match (d.date, d.time) {
                    (Some(date), Some(time)) => line_events(line) == seq![
                        DateTime { date, time },
                    ],
                    _ => line_events(line) == Seq::<DateTime>::empty(),
                },
                _ => line_events(line) == Seq::<DateTime>::empty(),
            },
            Err(_) => line_events(line) == Seq::<DateTime>::empty(),
        },
{
}

/// Steady-state telemetry ingestion: a fixed line window and a running
/// count of serial read errors.
pub struct NmeaReceiver {
    stream: CrlfStream<512>,
    errors: u32,
}

impl NmeaReceiver {
    /// The window is intact and compacted: all unfilled room is free.
    pub closed spec fn wf(self) -> bool {
        self.stream.wf() && self.stream.free_len() == 512 - self.stream.filled().len()
    }

    /// Bytes received but not yet drained as lines.
    pub closed spec fn window(self) -> Seq<u8> {
        self.stream.filled()
    }

    /// How many serial reads have failed since entering steady state.
    pub closed spec fn error_count(self) -> u32 {
        self.errors
    }

    pub fn new() -> (r: Self)
        ensures
            r.wf(),
            r.window() == Seq::<u8>::empty(),
            r.error_count() == 0,
    {
        let r = NmeaReceiver { stream: CrlfStream::new(), errors: 0 };
        proof {
            assert(r.window() =~= Seq::<u8>::empty());
        }
        r
    }

    /// Counts one serial read error. `true` says the error count has
    /// passed the limit and the machine must fall back to a power cycle.
    /// Successful reads reset nothing.
    pub fn on_read_error(&mut self) -> (reset: bool)
        requires
            old(self).wf(),
        ensures
            final(self).wf(),
            final(self).window() == old(self).window(),
            final(self).error_count() as int == if old(self).error_count() == u32::MAX {
                u32::MAX as int
            } else {
                old(self).error_count() + 1
            },
            reset == (final(self).error_count() > 10),
    {
        if self.errors < u32::MAX {
            self.errors = self.errors + 1;
        }
        self.errors > 10
    }

    /// Ingests freshly received serial bytes — as much as the window has
    /// room for — and drains every complete line: each is parsed, and the
    /// date-times of position/velocity/time sentences carrying both a
    /// date and a time come back in order, for the caller to publish. If
    /// the window is completely full without a complete line, the whole
    /// filled region is discarded as unrecoverable garbage.
    #[verifier::rlimit(80)]
    pub fn on_data(&mut self, data: &[u8]) -> (evs: Vec<DateTime>)
        requires
            old(self).wf(),
        ensures
            final(self).wf(),
            final(self).error_count() == old(self).error_count(),
            ({
                let room = 512 - old(self).window().len();
                let took = if data@.len() <= room {
                    data@.len() as int
                } else {
                    room as int
                };
                let g = old(self).window() + data@.take(took);
                &&& evs@ == drain_events(g)
                &&& final(self).window() == (if drain_rest(g).len() == 512 {
                    Seq::<u8>::empty()
                } else {
                    drain_rest(g)
                })
            }),
    {
        let n = self.stream.buf_unused_mut(data);
        self.stream.commit(n);
        let ghost took = if data@.len() <= 512 - old(self).window().len() {
            data@.len() as int
        } else {
            512 - old(self).window().len()
        };
        let ghost g = old(self).window() + data@.take(took);
        proof {
            assert((data@.take(n as int) + old(self).stream.staged().skip(n as int)).take(
                n as int,
            ) =~= data@.take(n as int));
            assert(self.stream.filled() =~= g);
        }
        let mut evs: Vec<DateTime> = Vec::new();
        loop
            invariant
                self.stream.wf(),
                self.errors == old(self).errors,
                drain_events(g) == evs@ + drain_events(self.stream.filled()),
                drain_rest(g) == drain_rest(self.stream.filled()),
            ensures
                self.stream.wf(),
                self.errors == old(self).errors,
                evs@ == drain_events(g),
                self.stream.filled() == drain_rest(g),
            decreases self.stream.filled().len(),
        {
            let ghost f0 = self.stream.filled();
            match self.stream.pop() {
                None => {
                    proof {
                        assert(drain_events(f0) == Seq::<DateTime>::empty());
                        assert(drain_rest(f0) == f0);
                        assert(evs@ + Seq::<DateTime>::empty() =~= evs@);
                    }
                    break ;
                },
                Some(line) => {
                    let ghost k = find_crlf(f0)->Some_0;
                    proof {
                        lemma_find_crlf_bounds(f0, 1);
                        assert(drain_events(f0) == line_events(f0.take(k + 1)) + drain_events(
                            f0.skip(k + 1),
                        ));
                        assert(drain_rest(f0) == drain_rest(f0.skip(k + 1)));
                    }
                    let r = parse(line.as_slice());
                    proof {
                        lemma_line_events_of_parse(line@, r);
                    }
                    let ghost evs0 = evs@;
                    match r {
                        Ok(m) => match m.data {
                            MessageType::Rmc(d) => {
                                if let (Some(date), Some(time)) = (d.date, d.time) {
                                    evs.push(date.and_time(time));
                                }
                            },
                            _ => {},
                        },
                        Err(_) => {},
                    }
                    proof {
                        assert(evs@ + drain_events(self.stream.filled()) =~= evs0 + (line_events(
                            line@,
                        ) + drain_events(self.stream.filled())));
                    }
                },
            }
        }
        let full = self.stream.buf_filled().len() == 512;
        if full {
            self.stream.consume(512);
            proof {
                assert(self.stream.filled() =~= Seq::<u8>::empty());
            }
        }
        self.stream.compact();
        evs
    }
}

} // verus!
