use gpss_vm::scheduler::{Event, EventQueue};
use gpss_vm::values::Transact;

fn drain(queue: &mut EventQueue) -> Vec<Event> {
    let mut out = Vec::new();
    while let Some(event) = queue.pop_next() {
        out.push(event);
    }
    out
}

#[test]
fn new_queue_is_empty() {
    let mut queue = EventQueue::new();
    assert!(queue.is_empty());
    assert_eq!(queue.len(), 0);
    assert_eq!(queue.peek(), None);
    assert_eq!(queue.pop_next(), None);
    assert!(queue.is_empty());
}

#[test]
fn earliest_event_leaves_first() {
    let mut queue = EventQueue::new();
    queue.schedule(1, 30, None);
    queue.schedule(2, 10, None);
    queue.schedule(3, 20, None);
    assert_eq!(queue.len(), 3);
    assert!(!queue.is_empty());
    assert_eq!(queue.peek().map(|e| e.instruction_id), Some(2));
    let order: Vec<(u32, u64)> = drain(&mut queue).iter().map(|e| (e.instruction_id, e.wake_time)).collect();
    assert_eq!(order, vec![(2, 10), (3, 20), (1, 30)]);
    assert!(queue.is_empty());
}

#[test]
fn equal_wake_times_leave_in_arrival_order() {
    let mut queue = EventQueue::new();
    for id in 0..50u32 {
        queue.schedule(id, 7, None);
    }
    let ids: Vec<u32> = drain(&mut queue).iter().map(|e| e.instruction_id).collect();
    assert_eq!(ids, (0..50u32).collect::<Vec<u32>>());
}

#[test]
fn equal_wake_times_stay_in_order_among_others() {
    let mut queue = EventQueue::new();
    queue.schedule(10, 5, None);
    queue.schedule(11, 3, None);
    queue.schedule(12, 5, None);
    queue.schedule(13, 9, None);
    queue.schedule(14, 5, None);
    queue.schedule(15, 3, None);
    assert_eq!(queue.pop_next().map(|e| e.instruction_id), Some(11));
    queue.schedule(16, 5, None);
    queue.schedule(17, 3, None);
    let ids: Vec<u32> = drain(&mut queue).iter().map(|e| e.instruction_id).collect();
    assert_eq!(ids, vec![15, 17, 10, 12, 14, 16, 13]);
}

#[test]
fn events_keep_their_transacts() {
    let mut queue = EventQueue::new();
    let t = Transact::generated(99);
    queue.schedule(4, 12, Some(t));
    queue.schedule(5, 11, None);
    let first = queue.pop_next().unwrap();
    assert_eq!(first, Event { instruction_id: 5, wake_time: 11, transact: None });
    let second = queue.pop_next().unwrap();
    assert_eq!(second, Event { instruction_id: 4, wake_time: 12, transact: Some(t) });
}

#[test]
fn queue_agrees_with_a_stable_sort() {
    let mut queue = EventQueue::new();
    let mut reference: Vec<(u64, u32)> = Vec::new();
    let mut left: Vec<(u64, u32)> = Vec::new();
    let mut seed: u64 = 0x2545_F491_4F6C_DD1D;
    for id in 0..4000u32 {
        seed ^= seed << 13;
        seed ^= seed >> 7;
        seed ^= seed << 17;
        if seed % 4 == 0 {
            let got = queue.pop_next().map(|e| (e.wake_time, e.instruction_id));
            let want = if reference.is_empty() { None } else { Some(reference.remove(0)) };
            assert_eq!(got, want);
            if let Some(pair) = got {
                left.push(pair);
            }
        } else {
            let wake = (seed >> 20) % 40;
            queue.schedule(id, wake, None);
            let at = reference.iter().filter(|(w, _)| *w <= wake).count();
            reference.insert(at, (wake, id));
        }
        assert_eq!(queue.len(), reference.len());
        assert_eq!(queue.peek().map(|e| (e.wake_time, e.instruction_id)), reference.first().copied());
    }
    let rest: Vec<(u64, u32)> = drain(&mut queue).iter().map(|e| (e.wake_time, e.instruction_id)).collect();
    assert_eq!(rest, reference);
    for pair in left.windows(2) {
        if pair[0].0 == pair[1].0 {
            assert!(pair[0].1 < pair[1].1);
        }
    }
}

#[test]
fn extreme_wake_times_are_ordered() {
    let mut queue = EventQueue::new();
    queue.schedule(1, u64::MAX, None);
    queue.schedule(2, 0, None);
    queue.schedule(3, u64::MAX, None);
    queue.schedule(4, 0, None);
    let ids: Vec<u32> = drain(&mut queue).iter().map(|e| e.instruction_id).collect();
    assert_eq!(ids, vec![2, 4, 1, 3]);
}
