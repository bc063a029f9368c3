use portknock::address::IpAddress;
use portknock::expire::{ExpirationEntry, ExpirationQueue};
use portknock::knock_state::KnockState;
use portknock::store::KnockStates;

#[test]
fn entries_leave_in_due_order() {
    let mut states = KnockStates::new();
    let key = states.insert(KnockState::Passed { expires: 1 });
    let mut q = ExpirationQueue::new();
    let due = [50u64, 30, 90, 10, 70, 30, 20, 80, 60, 40, 100, 0];
    for (i, d) in due.iter().enumerate() {
        q.insert(*d, key, IpAddress::V4(i as u32));
    }
    assert_eq!(q.len(), due.len());
    let mut out = Vec::new();
    while let Some(e) = q.pop_due(1000) {
        out.push(e.expires);
    }
    let mut sorted = due.to_vec();
    sorted.sort();
    assert_eq!(out, sorted);
    assert_eq!(q.len(), 0);
}

#[test]
fn nothing_leaves_before_it_is_due() {
    let mut states = KnockStates::new();
    let key = states.insert(KnockState::Passed { expires: 1 });
    let mut q = ExpirationQueue::new();
    q.insert(30, key, IpAddress::V4(1));
    q.insert(10, key, IpAddress::V4(2));
    q.insert(20, key, IpAddress::V4(3));
    assert_eq!(q.pop_due(9), None);
    let e = q.pop_due(10).unwrap();
    assert_eq!((e.expires, e.addr, e.knock_key), (10, IpAddress::V4(2), key));
    assert_eq!(q.pop_due(19), None);
    assert_eq!(q.len(), 2);
}

#[test]
fn store_hands_out_fresh_handles() {
    let mut states = KnockStates::new();
    let a = states.insert(KnockState::Passed { expires: 1 });
    assert_eq!(states.remove(a), Some(KnockState::Passed { expires: 1 }));
    assert_eq!(states.remove(a), None);
    let b = states.insert(KnockState::Passed { expires: 2 });
    assert_ne!(a, b);
    assert_eq!(states.get(a), None);
    assert_eq!(states.get(b), Some(KnockState::Passed { expires: 2 }));
    assert_eq!(states.len(), 1);
}

#[test]
fn entries_are_equal_when_they_name_the_same_record() {
    let mut states = KnockStates::new();
    let a = states.insert(KnockState::Passed { expires: 1 });
    let b = states.insert(KnockState::Passed { expires: 2 });
    let e = ExpirationEntry { expires: 5, knock_key: a, addr: IpAddress::V4(1) };
    assert_eq!(e, ExpirationEntry { expires: 9, knock_key: a, addr: IpAddress::V4(2) });
    assert_ne!(e, ExpirationEntry { expires: 5, knock_key: b, addr: IpAddress::V4(1) });
}

#[test]
fn record_bound_leaves_room_for_the_sentinel_slot() {
    assert_eq!(portknock::store::MAX_RECORDS, u32::MAX as usize - 1);
}
