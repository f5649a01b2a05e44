use gnss_clock::datetime::{Date, Time};
use gnss_clock::max_m10s::{
    ubx_ack_ack_frame, ubx_cfg_valset_frame, ubx_fill_ck, NmeaReceiver, SetupAction, SetupEvent,
    SetupMachine, SetupStep, State,
};
use gnss_clock::ubx::checksum;

#[test]
fn ack_frame_bytes_are_exact() {
    assert_eq!(
        ubx_ack_ack_frame(),
        vec![0xb5, 0x62, 0x05, 0x01, 0x02, 0x00, 0x06, 0x8a, 0x98, 0xc1]
    );
}

#[test]
fn cfg_frame_is_well_formed() {
    let frame = ubx_cfg_valset_frame();
    assert_eq!(frame.len(), 86);
    assert_eq!(&frame[..6], &[0xb5, 0x62, 0x06, 0x8a, 0x4e, 0x00]);
    let (ck_a, ck_b) = checksum(&frame[2..84]);
    assert_eq!(frame[84], ck_a);
    assert_eq!(frame[85], ck_b);
}

#[test]
fn fill_ck_writes_trailing_pair() {
    let mut buf = vec![0xb5, 0x62, 0x05, 0x01, 0x02, 0x00, 0x06, 0x8a, 0x00, 0x00];
    ubx_fill_ck(&mut buf);
    assert_eq!(buf[8], 0x98);
    assert_eq!(buf[9], 0xc1);

    let mut short = vec![0xb5, 0x62, 0x05];
    ubx_fill_ck(&mut short);
    assert_eq!(short, vec![0xb5, 0x62, 0x05]);
}

#[test]
fn setup_write_deadline_forces_power_cycle() {
    // The bus write keeps failing: the machine retries until the failure
    // arrives more than five seconds after the handshake started, then
    // gives up to a power cycle instead of retrying forever.
    let mut m = SetupMachine::new(0);
    let mut forced = None;
    for second in 1..=6u64 {
        match m.on_event(SetupEvent::WriteFailed {
            now_ms: second * 1000,
        }) {
            SetupStep::Continue(a) => assert_eq!(a, SetupAction::RetryWriteAfterDelay),
            SetupStep::Leave(s) => {
                forced = Some((second, s));
                break;
            }
        }
    }
    assert_eq!(forced, Some((6, State::PowerCycle)));
}

#[test]
fn setup_happy_path_reaches_ready() {
    let mut m = SetupMachine::new(100);
    assert_eq!(
        m.on_event(SetupEvent::WriteFailed { now_ms: 2000 }),
        SetupStep::Continue(SetupAction::RetryWriteAfterDelay)
    );
    assert_eq!(
        m.on_event(SetupEvent::WriteOk),
        SetupStep::Continue(SetupAction::AwaitReadySignal)
    );
    assert_eq!(
        m.on_event(SetupEvent::ReadyAsserted),
        SetupStep::Continue(SetupAction::ReadLength)
    );
    assert_eq!(
        m.on_event(SetupEvent::LengthRead(3)),
        SetupStep::Continue(SetupAction::ReadLength)
    );
    assert_eq!(
        m.on_event(SetupEvent::LengthRead(10)),
        SetupStep::Continue(SetupAction::ReadAcknowledgement)
    );
    assert_eq!(
        m.on_event(SetupEvent::AckRead(ubx_ack_ack_frame())),
        SetupStep::Leave(State::Ready)
    );
}

#[test]
fn setup_failures_force_power_cycle() {
    let mut m = SetupMachine::new(0);
    assert_eq!(
        m.on_event(SetupEvent::WriteOk),
        SetupStep::Continue(SetupAction::AwaitReadySignal)
    );
    assert_eq!(
        m.on_event(SetupEvent::ReadyTimedOut),
        SetupStep::Leave(State::PowerCycle)
    );

    let mut m = SetupMachine::new(0);
    m.on_event(SetupEvent::WriteOk);
    m.on_event(SetupEvent::ReadyAsserted);
    assert_eq!(
        m.on_event(SetupEvent::BusFailed),
        SetupStep::Leave(State::PowerCycle)
    );

    let mut m = SetupMachine::new(0);
    m.on_event(SetupEvent::WriteOk);
    m.on_event(SetupEvent::ReadyAsserted);
    m.on_event(SetupEvent::LengthRead(10));
    let mut wrong = ubx_ack_ack_frame();
    wrong[7] ^= 0x01;
    assert_eq!(
        m.on_event(SetupEvent::AckRead(wrong)),
        SetupStep::Leave(State::PowerCycle)
    );
}

#[test]
fn receiver_publishes_datetime_from_rmc_line() {
    let mut r = NmeaReceiver::new();
    let evs = r.on_data(b"$GNRMC,081915.00,V,,,,,,,030525,,,N,V*1C\r\n");
    assert_eq!(evs.len(), 1);
    assert_eq!(evs[0].date, Date::from_ymd(2025, 5, 3).unwrap());
    assert_eq!(evs[0].time, Time::from_hms_nano(8, 19, 15, 0).unwrap());
}

#[test]
fn receiver_handles_split_and_junk_lines() {
    let mut r = NmeaReceiver::new();
    // a line that is not a sentence is discarded without stopping anything
    assert_eq!(r.on_data(b"oops\r\n$GNRMC,081915.00,V,,,").len(), 0);
    // the rest of the sentence arrives in a second read
    let evs = r.on_data(b",,,,030525,,,N,V*1C\r\n$GPTXT,01,01,02,hi*4C\r\n");
    assert_eq!(evs.len(), 1);
    assert_eq!(evs[0].date, Date::from_ymd(2025, 5, 3).unwrap());
}

#[test]
fn receiver_discards_full_window_without_line() {
    let mut r = NmeaReceiver::new();
    assert_eq!(r.on_data(&[b'a'; 512]).len(), 0);
    // had the garbage stayed, this sentence would be glued to it and lost
    let evs = r.on_data(b"$GNRMC,081915.00,V,,,,,,,030525,,,N,V*1C\r\n");
    assert_eq!(evs.len(), 1);
}

#[test]
fn receiver_error_counter_trips_after_ten() {
    let mut r = NmeaReceiver::new();
    for _ in 0..10 {
        assert!(!r.on_read_error());
    }
    assert!(r.on_read_error());
}
