use musicplayer_continue::easing::{ConstructionError, Easing};
use musicplayer_continue::popup::{Phase, Popup};
use std::time::{Duration, Instant};

const SECOND: u64 = 1_000_000_000;
const OFF: i64 = -300 * 1024;

fn popup() -> Popup {
    Popup::new(SECOND, OFF, 0, 3 * SECOND).unwrap()
}

#[test]
fn new_starts_on_the_way_in() {
    let p = popup();
    assert_eq!(p.start, OFF);
    assert_eq!(p.end, 0);
    assert_eq!(p.duration, SECOND);
    assert_eq!(p.residence_time, 3 * SECOND);
    assert!(!p.retracting);
    assert_eq!(p.ease, Easing { t: 0, b: OFF, c: -OFF, d: SECOND });
}

#[test]
fn popup_refuses_a_zero_duration() {
    assert_eq!(Popup::new(0, OFF, 0, 3 * SECOND).err(), Some(ConstructionError::ZeroDuration));
    assert_eq!(
        Popup::new(0, i64::MIN, i64::MAX, 0).err(),
        Some(ConstructionError::ZeroDuration)
    );
}

#[test]
fn new_refuses_positions_too_far_apart() {
    assert_eq!(Popup::new(1, i64::MIN, 0, 0).err(), Some(ConstructionError::SpanOutOfRange));
    assert_eq!(Popup::new(1, 0, i64::MIN, 0).err(), Some(ConstructionError::SpanOutOfRange));
    assert_eq!(Popup::new(1, -1, i64::MAX, 0).err(), Some(ConstructionError::SpanOutOfRange));
    assert!(Popup::new(1, 0, i64::MAX, 0).is_ok());
    assert!(Popup::new(1, i64::MAX, 0, 0).is_ok());
    assert!(Popup::new(1, i64::MIN + 1, 0, 0).is_ok());
}

#[test]
fn cycle_timing() {
    let p = popup();
    assert_eq!(p.phase_at(0), Phase::Entering);
    assert_eq!(p.phase_at(SECOND / 2), Phase::Entering);
    assert_eq!(p.phase_at(SECOND - 1), Phase::Entering);
    assert_eq!(p.phase_at(SECOND), Phase::Holding);
    assert_eq!(p.phase_at(2 * SECOND), Phase::Holding);
    assert_eq!(p.phase_at(4 * SECOND - 1), Phase::Holding);
    assert_eq!(p.phase_at(4 * SECOND), Phase::Exiting);
    assert_eq!(p.phase_at(5 * SECOND - 1), Phase::Exiting);
    assert_eq!(p.phase_at(5 * SECOND), Phase::Finished);
    assert_eq!(p.phase_at(u64::MAX), Phase::Finished);
    assert!(!p.finished_at(0));
    assert!(!p.finished_at(5 * SECOND - 1));
    assert!(p.finished_at(5 * SECOND));
    assert!(p.finished_at(6 * SECOND));
}

#[test]
fn cycle_timing_at_the_limits_of_the_types() {
    let p = Popup::new(u64::MAX, 0, 10, u64::MAX).unwrap();
    assert_eq!(p.phase_at(u64::MAX - 1), Phase::Entering);
    assert_eq!(p.phase_at(u64::MAX), Phase::Holding);
    assert!(!p.finished_at(u64::MAX));
    let q = Popup::new(1, 0, 10, 0).unwrap();
    assert_eq!(q.phase_at(0), Phase::Entering);
    assert_eq!(q.phase_at(1), Phase::Exiting);
    assert_eq!(q.phase_at(2), Phase::Finished);
}

#[test]
fn end_to_end() {
    let mut p = popup();
    assert_eq!(p.calc_at(0), -307200);
    assert_eq!(p.calc_at(SECOND), 0);
    assert_eq!(p.calc_at(2 * SECOND), 0);
    let just_out = p.calc_at(4 * SECOND + 1);
    assert!(just_out < 0 && just_out > -307200);
    assert_eq!(just_out, -300);
    assert!(p.finished_at(5 * SECOND));
}

#[test]
fn positions_through_the_cycle() {
    let mut p = popup();
    assert_eq!(p.calc_at(1), -306900);
    assert_eq!(p.calc_at(SECOND / 2), -297600);
    assert_eq!(p.calc_at(SECOND - 1), -1);
    assert_eq!(p.calc_at(4 * SECOND - 1), 0);
    assert_eq!(p.calc_at(4 * SECOND), 0);
    assert_eq!(p.calc_at(4_200_000_000), -1200);
    assert_eq!(p.calc_at(4_500_000_000), -9600);
    assert_eq!(p.calc_at(5 * SECOND - 1), -307199);
    assert_eq!(p.calc_at(5 * SECOND), -307200);
    assert_eq!(p.calc_at(u64::MAX), -307200);
}

#[test]
fn rest_leaves_the_popup_as_it_is() {
    let mut p = popup();
    p.calc_at(SECOND / 2);
    let before = p.ease;
    assert_eq!(p.calc_at(2 * SECOND), 0);
    assert_eq!(p.ease, before);
    assert!(!p.retracting);
}

#[test]
fn reset_mid_entering_restarts_the_cycle() {
    let mut p = popup();
    assert_eq!(p.calc_at(SECOND / 2), -297600);
    p.reset();
    assert!(!p.retracting);
    assert_eq!(p.ease, Easing { t: 0, b: OFF, c: -OFF, d: SECOND });
    assert_eq!(p.calc_at(0), -307200);
    assert_eq!(p.calc_at(SECOND / 2), -297600);
    assert_eq!(p.calc_at(SECOND), 0);
}

#[test]
fn reset_on_the_way_out_restarts_the_cycle() {
    let mut p = popup();
    assert_eq!(p.calc_at(4_500_000_000), -9600);
    assert!(p.retracting);
    p.reset();
    assert!(!p.retracting);
    assert_eq!(p.ease, Easing { t: 0, b: OFF, c: -OFF, d: SECOND });
    assert_eq!(p.start, OFF);
    assert_eq!(p.end, 0);
    assert_eq!(p.duration, SECOND);
    assert_eq!(p.residence_time, 3 * SECOND);
    assert_eq!(p.calc_at(0), -307200);
    assert_eq!(p.calc_at(1), -306900);
}

#[test]
fn reset_moves_the_anchor_to_now() {
    let mut p = popup();
    let before = p.time;
    while Instant::now() <= before {}
    p.reset();
    let after = Instant::now();
    assert!(p.time > before);
    assert!(p.time <= after);
    assert!(!p.finished());
}

#[test]
fn reset_of_a_finished_popup_starts_it_again() {
    let mut p = Popup::new(1_000_000, OFF, 0, 0).unwrap();
    while !p.finished() {}
    let before = p.time;
    p.duration = 3600 * SECOND;
    p.reset();
    assert!(p.time > before);
    assert!(!p.finished());
    let x = p.calc();
    assert!(x >= OFF && x <= OFF + 400);
}

#[test]
fn reset_at_anchors_at_the_given_moment() {
    let begun = Instant::now();
    let half = begun + Duration::from_millis(500);
    let mut p = Popup::new_at(SECOND, OFF, 0, 3 * SECOND, begun).unwrap();
    assert_eq!(p.calc_at(SECOND / 2), -297600);
    p.reset_at(half);
    assert_eq!(p.time, half);
    assert_ne!(p.time, begun);
    assert!(!p.retracting);
    assert_eq!(p.ease, Easing { t: 0, b: OFF, c: -OFF, d: SECOND });
    let new = Popup::new_at(SECOND, OFF, 0, 3 * SECOND, half).unwrap();
    assert_eq!(p.time, new.time);
    assert_eq!(p.ease, new.ease);
    assert_eq!(p.retracting, new.retracting);
    assert_eq!(
        (p.start, p.end, p.duration, p.residence_time),
        (new.start, new.end, new.duration, new.residence_time)
    );
    assert_eq!(p.calc_at(0), -307200);
}

#[test]
fn latest_reset_wins() {
    let begun = Instant::now();
    let first = begun + Duration::from_secs(2);
    let second = begun + Duration::from_secs(7);
    let mut p = Popup::new_at(SECOND, OFF, 0, 3 * SECOND, begun).unwrap();
    p.reset_at(first);
    assert_eq!(p.time, first);
    assert_eq!(p.calc_at(4_500_000_000), -9600);
    assert!(p.finished_at(5 * SECOND));
    p.reset_at(second);
    assert_eq!(p.time, second);
    assert!(!p.retracting);
    assert_eq!(p.ease, Easing { t: 0, b: OFF, c: -OFF, d: SECOND });
    let mut once = Popup::new_at(SECOND, OFF, 0, 3 * SECOND, begun).unwrap();
    once.reset_at(second);
    assert_eq!(p.time, once.time);
    assert_eq!(p.ease, once.ease);
    assert_eq!(p.retracting, once.retracting);
}

#[test]
fn reset_mends_a_segment_that_does_not_fit() {
    let mut p = popup();
    p.ease = Easing { t: 7, b: 1, c: 2, d: 3 };
    p.retracting = true;
    assert!(!p.well_formed());
    p.reset();
    assert!(p.well_formed());
    assert_eq!(p.ease, Easing { t: 0, b: OFF, c: -OFF, d: SECOND });
    assert!(!p.retracting);
}

#[test]
fn new_at_anchors_at_the_given_moment() {
    let moment = Instant::now() + Duration::from_secs(3);
    let p = Popup::new_at(SECOND, OFF, 0, 3 * SECOND, moment).unwrap();
    assert_eq!(p.time, moment);
    assert!(!p.retracting);
    assert_eq!(p.ease, Easing { t: 0, b: OFF, c: -OFF, d: SECOND });
    assert_eq!(
        Popup::new_at(0, OFF, 0, 3 * SECOND, moment).err(),
        Some(ConstructionError::ZeroDuration)
    );
    assert_eq!(
        Popup::new_at(1, i64::MIN, 0, 0, moment).err(),
        Some(ConstructionError::SpanOutOfRange)
    );
}

#[test]
fn new_anchors_at_now() {
    let before = Instant::now();
    let p = popup();
    let after = Instant::now();
    assert!(before <= p.time && p.time <= after);
}

#[test]
fn exit_segment_is_built_once() {
    let mut p = popup();
    assert_eq!(p.calc_at(0), -307200);
    assert_eq!(p.calc_at(4_200_000_000), -1200);
    assert!(p.retracting);
    assert_eq!(p.ease, Easing { t: 200_000_000, b: 0, c: OFF, d: SECOND });
    assert_eq!(p.calc_at(4_500_000_000), -9600);
    assert!(p.retracting);
    assert_eq!(p.ease, Easing { t: 500_000_000, b: 0, c: OFF, d: SECOND });
    let mut late = popup();
    assert_eq!(late.calc_at(4_500_000_000), -9600);
    assert_eq!(late.ease, p.ease);
}

#[test]
fn way_out_never_jumps_back() {
    let mut p = popup();
    let mut last = p.calc_at(4 * SECOND);
    assert_eq!(last, 0);
    let mut e = 4 * SECOND;
    while e <= 5 * SECOND {
        let now = p.calc_at(e);
        assert!(now <= last && now >= OFF);
        last = now;
        e += 1_000_003;
    }
    assert_eq!(p.calc_at(5 * SECOND), OFF);
}

#[test]
fn asking_again_on_the_way_in_after_the_way_out() {
    let mut p = popup();
    assert_eq!(p.calc_at(4_500_000_000), -9600);
    assert_eq!(p.calc_at(SECOND / 2), -297600);
    assert!(!p.retracting);
    assert_eq!(p.ease, Easing { t: SECOND / 2, b: OFF, c: -OFF, d: SECOND });
}

#[test]
fn popup_that_slides_to_the_left() {
    let mut p = Popup::new(1000, 2048, -2048, 10).unwrap();
    assert_eq!(p.calc_at(0), 2048);
    assert_eq!(p.calc_at(500), 1920);
    assert_eq!(p.calc_at(1000), -2048);
    assert_eq!(p.calc_at(1009), -2048);
    assert_eq!(p.calc_at(1510), -1920);
    assert_eq!(p.calc_at(2010), 2048);
}

#[test]
fn calc_reads_the_clock() {
    let mut p = Popup::new(3600 * SECOND, OFF, 0, 0).unwrap();
    let first = p.calc();
    assert!(first >= OFF && first <= OFF + 400);
    assert!(!p.retracting);
    let second = p.calc();
    assert!(second >= first && second <= OFF + 400);
    assert!(!p.finished());
}

#[test]
fn finished_reads_the_clock() {
    let p = Popup::new(1, OFF, 0, 0).unwrap();
    while !p.finished() {}
    assert!(p.finished());
    let mut q = Popup::new(1, OFF, 0, 0).unwrap();
    while !q.finished() {}
    assert_eq!(q.calc(), OFF);
    assert!(q.retracting);
}
