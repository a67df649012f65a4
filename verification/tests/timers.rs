use fuzzy_suggest::timer::TimerQueue;

#[test]
fn timers_fire_in_deadline_order() {
    let mut q = TimerQueue::new();
    assert!(q.insert(1, 100));
    assert!(q.insert(2, 50));
    assert!(q.insert(3, 150));
    assert!(!q.insert(2, 999), "a pending id cannot be scheduled twice");
    assert_eq!(q.pop_due(40), None, "nothing is delivered before its deadline");
    assert_eq!(q.pop_due(200), Some(2));
    assert_eq!(q.pop_due(200), Some(1));
    assert_eq!(q.pop_due(200), Some(3));
    assert_eq!(q.pop_due(200), None);
}

#[test]
fn reset_pushes_the_deadline_out() {
    let mut q = TimerQueue::new();
    assert!(q.insert(7, 100));
    assert!(q.reset(7, 300));
    assert_eq!(q.pop_due(250), None, "the old deadline no longer fires");
    assert_eq!(q.pop_due(300), Some(7));
    assert!(!q.reset(7, 400), "a delivered id cannot be reset");
}

#[test]
fn cancel_removes_a_pending_entry() {
    let mut q = TimerQueue::new();
    assert!(q.insert(5, 10));
    assert!(q.insert(6, 20));
    assert_eq!(q.cancel(5), Some(10));
    assert_eq!(q.cancel(5), None);
    assert_eq!(q.pop_due(100), Some(6));
    assert_eq!(q.pop_due(100), None);
}

#[test]
fn close_ends_the_stream() {
    let mut q = TimerQueue::new();
    assert!(q.insert(9, 10));
    q.close();
    assert_eq!(q.pop_due(100), None, "a closed queue delivers nothing");
}

#[test]
fn next_deadline_reports_the_earliest() {
    let mut q = TimerQueue::new();
    assert_eq!(q.next_deadline(), None);
    assert!(q.insert(1, 80));
    assert!(q.insert(2, 30));
    assert_eq!(q.next_deadline(), Some(30));
    assert_eq!(q.len(), 2);
    assert!(q.contains(1));
    assert!(!q.contains(3));
}
