use portknock::knock_state::{
    port_at, KnockState, PASSED_WINDOW_NANOS, PENDING_WINDOW_NANOS, SEQUENCE_LEN,
};

const SECOND: u64 = 1_000_000_000;

#[test]
fn sequence_ports_in_order() {
    assert_eq!(SEQUENCE_LEN, 4);
    assert_eq!(port_at(0), 123);
    assert_eq!(port_at(1), 436);
    assert_eq!(port_at(2), 1928);
    assert_eq!(port_at(3), 29545);
}

#[test]
fn windows_are_five_and_thirty_seconds() {
    assert_eq!(PENDING_WINDOW_NANOS, 5 * SECOND);
    assert_eq!(PASSED_WINDOW_NANOS, 30 * SECOND);
}

#[test]
fn start_on_first_port_is_pending() {
    assert_eq!(
        KnockState::try_new(123, 7),
        KnockState::PortPending { last_idx: 0, expires: 7 + 5 * SECOND }
    );
}

#[test]
fn start_on_other_port_fails() {
    assert_eq!(KnockState::try_new(436, 7), KnockState::Failed);
    assert_eq!(KnockState::try_new(0, 7), KnockState::Failed);
}

#[test]
fn full_sequence_passes() {
    let s = KnockState::try_new(123, 0);
    let s = s.progress(436, SECOND);
    assert_eq!(s, KnockState::PortPending { last_idx: 1, expires: 6 * SECOND });
    let s = s.progress(1928, 2 * SECOND);
    assert_eq!(s, KnockState::PortPending { last_idx: 2, expires: 7 * SECOND });
    let s = s.progress(29545, 3 * SECOND);
    assert_eq!(s, KnockState::Passed { expires: 33 * SECOND });
}

#[test]
fn wrong_port_at_each_step_fails() {
    let s0 = KnockState::try_new(123, 0);
    assert_eq!(s0.progress(1928, 1), KnockState::Failed);
    let s1 = s0.progress(436, 1);
    assert_eq!(s1.progress(29545, 2), KnockState::Failed);
    let s2 = s1.progress(1928, 2);
    assert_eq!(s2.progress(80, 3), KnockState::Failed);
}

#[test]
fn first_port_restarts() {
    let s = KnockState::try_new(123, 0).progress(436, 1).progress(1928, 2);
    assert_eq!(
        s.progress(123, 10),
        KnockState::PortPending { last_idx: 0, expires: 10 + 5 * SECOND }
    );
    let twice = KnockState::try_new(123, 0).progress(123, 4);
    assert_eq!(twice, KnockState::PortPending { last_idx: 0, expires: 4 + 5 * SECOND });
}

#[test]
fn duplicate_knock_refreshes_deadline() {
    let s = KnockState::try_new(123, 0).progress(436, 1);
    assert_eq!(
        s.progress(436, 3 * SECOND),
        KnockState::PortPending { last_idx: 1, expires: 8 * SECOND }
    );
}

#[test]
fn settled_states_do_not_move() {
    let passed = KnockState::Passed { expires: 9 };
    assert_eq!(passed.progress(123, 1), passed);
    assert_eq!(KnockState::Failed.progress(123, 1), KnockState::Failed);
}

#[test]
fn liveness_ends_at_expiry() {
    let s = KnockState::PortPending { last_idx: 1, expires: 100 };
    assert!(s.is_valid(99));
    assert!(!s.is_valid(100));
    let p = KnockState::Passed { expires: 100 };
    assert!(p.is_valid(0));
    assert!(!p.is_valid(101));
    assert!(!KnockState::Failed.is_valid(0));
}

#[test]
fn expiration_of_live_states() {
    assert_eq!(KnockState::PortPending { last_idx: 2, expires: 42 }.expiration(), 42);
    assert_eq!(KnockState::Passed { expires: 43 }.expiration(), 43);
}

#[test]
fn deadlines_stop_at_the_end_of_the_clock() {
    let late = u64::MAX - 10 * SECOND;
    let s = KnockState::try_new(123, late - 10 * SECOND).progress(436, late);
    assert_eq!(s, KnockState::PortPending { last_idx: 1, expires: late + 5 * SECOND });
    let s = s.progress(1928, u64::MAX - 1).progress(29545, u64::MAX - 1);
    assert_eq!(s, KnockState::Passed { expires: u64::MAX });
    assert!(s.is_valid(u64::MAX - 1));
    assert_eq!(KnockState::try_new(123, u64::MAX), KnockState::PortPending { last_idx: 0, expires: u64::MAX });
    assert!(!KnockState::try_new(123, u64::MAX).is_valid(u64::MAX));
}
