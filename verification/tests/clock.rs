use peerland::lamport::{LamportClock, LamportClockUnit};
use peerland::proto::{Lt, NodeMessage, ProtoLamportClockUnit};
use peerland::time::{broken_clock_reading, BrokenClock, LogicalTimeProvider, Millis};

fn message_with_lt(lt: Option<u64>) -> NodeMessage {
    NodeMessage {
        id: None,
        message_kind: None,
        ts: None,
        lt: lt.map(|lt| Lt::LamportClock(ProtoLamportClockUnit { lt, proc_id: 9 })),
        payload: vec![],
    }
}

#[test]
fn new_clock_starts_at_zero() {
    let mut c = LamportClock::new(7);
    assert_eq!(c.next_timestamp(), LamportClockUnit((0, 7)));
    assert_eq!(c.next_timestamp(), LamportClockUnit((1, 7)));
    assert_eq!(c.next_timestamp(), LamportClockUnit((2, 7)));
}

#[test]
fn tick_through_trait_matches_next_timestamp() {
    let mut c = <LamportClock as LogicalTimeProvider>::new_with_id(3);
    assert_eq!(c.tick(), LamportClockUnit((0, 3)));
    assert_eq!(c.tick(), LamportClockUnit((1, 3)));
}

#[test]
fn adjust_moves_clock_forward_only() {
    let mut c = LamportClock::new(1);
    c.adjust_timestamp(LamportClockUnit((10, 2)));
    assert_eq!(c.next_timestamp(), LamportClockUnit((10, 1)));
    c.adjust_timestamp(LamportClockUnit((4, 2)));
    assert_eq!(c.next_timestamp(), LamportClockUnit((11, 1)));
}

#[test]
fn adjust_from_message_reads_carried_time() {
    let mut c = LamportClock::new(1);
    c.adjust_from_message(&message_with_lt(Some(42)));
    assert_eq!(c.tick(), LamportClockUnit((42, 1)));
    c.adjust_from_message(&message_with_lt(None));
    assert_eq!(c.tick(), LamportClockUnit((43, 1)));
    c.adjust_from_message(&message_with_lt(Some(5)));
    assert_eq!(c.tick(), LamportClockUnit((44, 1)));
}

#[test]
fn counter_wraps_at_the_top() {
    let mut c = LamportClock::new(1);
    c.adjust_timestamp(LamportClockUnit((u64::MAX, 0)));
    assert_eq!(c.next_timestamp(), LamportClockUnit((u64::MAX, 1)));
    assert_eq!(c.next_timestamp(), LamportClockUnit((0, 1)));
}

#[test]
fn ticks_strictly_increase_after_receives() {
    let mut c = LamportClock::new(2);
    let mut last = c.tick();
    for lt in [0u64, 5, 3, 100, 2, 100, 101] {
        c.adjust_from_message(&message_with_lt(Some(lt)));
        let next = c.tick();
        assert!(last.is_before(&next));
        assert!(next.0 .0 >= lt);
        last = next;
    }
}

#[test]
fn unit_order_is_time_then_process() {
    assert!(LamportClockUnit((1, 9)).is_before(&LamportClockUnit((2, 0))));
    assert!(LamportClockUnit((2, 0)).is_before(&LamportClockUnit((2, 1))));
    assert!(!LamportClockUnit((2, 1)).is_before(&LamportClockUnit((2, 1))));
    assert!(!LamportClockUnit((3, 0)).is_before(&LamportClockUnit((2, 5))));
    assert_eq!(
        LamportClockUnit((1, 9)) < LamportClockUnit((2, 0)),
        LamportClockUnit((1, 9)).is_before(&LamportClockUnit((2, 0)))
    );
}

#[test]
fn millis_from_u128() {
    assert_eq!(Millis::from(1234u128), Millis(1234));
}

#[test]
fn broken_clock_repeats_last_when_behind() {
    assert_eq!(broken_clock_reading(10, 50, true, true, 7, 7), 50);
}

#[test]
fn broken_clock_runs_ahead() {
    assert_eq!(broken_clock_reading(1000, 50, true, false, 2005, 7), 1000 + 100 + 203);
    assert_eq!(broken_clock_reading(1000, 50, true, true, 0, 7), 1100);
    assert_eq!(broken_clock_reading(1000, 50, true, false, 900, 7), 2000);
    assert_eq!(broken_clock_reading(1000, 50, true, false, 901, 7), 1100);
}

#[test]
fn broken_clock_falls_back_between_last_and_now() {
    assert_eq!(broken_clock_reading(1000, 50, false, true, 0, 1903), 50 + 1903 % 950);
    assert_eq!(broken_clock_reading(50, 50, false, true, 0, 1903), 50);
}

#[test]
fn broken_clock_reads_real_time_otherwise() {
    assert_eq!(broken_clock_reading(1000, 50, false, false, 9, 9), 1000);
}

#[test]
fn broken_clock_state_never_goes_back() {
    let mut c = BrokenClock::new();
    assert_eq!(c.read(500, false, false, 0, 0), 500);
    assert_eq!(c.read(400, true, false, 0, 0), 500);
    assert_eq!(c.read(600, true, false, 50, 0), 750);
    assert_eq!(c.read(700, false, true, 0, 0), 750);
    assert_eq!(c.read(800, false, true, 0, 7), 757);
    assert_eq!(c.read(800, false, false, 0, 7), 800);
    assert_eq!(c.last(), 800);
}

#[test]
fn consecutive_ticks_are_consecutive_times() {
    let mut c = LamportClock::new(5);
    c.adjust_timestamp(LamportClockUnit((40, 0)));
    for k in 0..10u64 {
        assert_eq!(c.tick(), LamportClockUnit((40 + k, 5)));
    }
}
