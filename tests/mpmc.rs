use class_queue::mpmc::{Mpmc, MpmcStream};

fn drain(q: &mut Mpmc<u64, usize>, s: &MpmcStream, waker: usize) -> Vec<u64> {
    let mut out = Vec::new();
    while let Some(x) = q.poll(s, waker) {
        out.push(x);
    }
    out
}

#[test]
fn two_subscribers_then_one_leaves() {
    let mut q: Mpmc<u64, usize> = Mpmc::new();
    let a = q.stream();
    let b = q.stream();
    q.send(1);
    assert_eq!(drain(&mut q, &a, 10), vec![1]);
    assert_eq!(drain(&mut q, &b, 11), vec![1]);
    q.unsubscribe(a);
    q.send(2);
    assert_eq!(drain(&mut q, &b, 11), vec![2]);
    assert!(q.is_subscribed(&b));
}

#[test]
fn late_subscriber_sees_only_later_items() {
    let mut q: Mpmc<u64, usize> = Mpmc::new();
    let a = q.stream();
    q.send(1);
    q.send(2);
    let b = q.stream();
    q.send(3);
    assert_eq!(drain(&mut q, &a, 0), vec![1, 2, 3]);
    assert_eq!(drain(&mut q, &b, 0), vec![3]);
}

#[test]
fn items_come_in_publish_order_without_duplicates() {
    let mut q: Mpmc<u64, usize> = Mpmc::new();
    let a = q.stream();
    for i in 0..50u64 {
        q.send(i);
    }
    let got = drain(&mut q, &a, 0);
    assert_eq!(got, (0..50u64).collect::<Vec<_>>());
    assert_eq!(q.poll(&a, 0), None);
}

#[test]
fn interleaved_polls_and_publishes() {
    let mut q: Mpmc<u64, usize> = Mpmc::new();
    let a = q.stream();
    let b = q.stream();
    q.send(1);
    assert_eq!(q.poll(&a, 0), Some(1));
    q.send(2);
    assert_eq!(q.poll(&b, 0), Some(1));
    assert_eq!(q.poll(&a, 0), Some(2));
    assert_eq!(q.poll(&a, 0), None);
    q.send(3);
    assert_eq!(drain(&mut q, &b, 0), vec![2, 3]);
    assert_eq!(drain(&mut q, &a, 0), vec![3]);
}

#[test]
fn publish_returns_registered_wakers_once() {
    let mut q: Mpmc<u64, usize> = Mpmc::new();
    let a = q.stream();
    let b = q.stream();
    let c = q.stream();
    assert_eq!(q.poll(&a, 7), None);
    assert_eq!(q.poll(&c, 9), None);
    // b never polled: it holds no wake handle
    let woken = q.send(1);
    assert_eq!(woken, vec![7, 9]);
    let woken = q.send(2);
    assert!(woken.is_empty());
    assert_eq!(drain(&mut q, &b, 0), vec![1, 2]);
}

#[test]
fn reregistering_replaces_the_waker() {
    let mut q: Mpmc<u64, usize> = Mpmc::new();
    let a = q.stream();
    assert_eq!(q.poll(&a, 1), None);
    assert_eq!(q.poll(&a, 2), None);
    assert_eq!(q.send(5), vec![2]);
}

#[test]
fn unsubscribed_waker_is_never_returned() {
    let mut q: Mpmc<u64, usize> = Mpmc::new();
    let a = q.stream();
    let b = q.stream();
    assert_eq!(q.poll(&a, 1), None);
    assert_eq!(q.poll(&b, 2), None);
    q.unsubscribe(a);
    assert_eq!(q.send(5), vec![2]);
}

#[test]
fn publish_with_no_subscribers_is_not_kept() {
    let mut q: Mpmc<u64, usize> = Mpmc::new();
    q.send(1);
    q.send(2);
    assert_eq!(q.published(), 2);
    let a = q.stream();
    assert_eq!(q.poll(&a, 0), None);
    q.send(3);
    assert_eq!(q.poll(&a, 0), Some(3));
}

#[test]
fn strings_are_delivered_intact() {
    let mut q: Mpmc<String, usize> = Mpmc::new();
    let a = q.stream();
    q.send("hello".to_string());
    assert_eq!(q.poll(&a, 0), Some("hello".to_string()));
}

#[test]
fn idle_subscriber_keeps_only_its_items() {
    let mut q: Mpmc<u64, usize> = Mpmc::new();
    let a = q.stream();
    q.send(1);
    q.send(2);
    let idle = q.stream();
    q.send(3);
    assert_eq!(drain(&mut q, &a, 0), vec![1, 2, 3]);
    // the idle subscriber still gets 3, and only 3
    assert_eq!(drain(&mut q, &idle, 0), vec![3]);
    assert!(q.is_subscribed(&idle));
}

#[test]
fn leaving_subscriber_releases_its_items() {
    let mut q: Mpmc<u64, usize> = Mpmc::new();
    let a = q.stream();
    let slow = q.stream();
    q.send(1);
    q.send(2);
    assert_eq!(drain(&mut q, &a, 0), vec![1, 2]);
    q.unsubscribe(slow);
    let c = q.stream();
    q.send(3);
    assert_eq!(drain(&mut q, &c, 0), vec![3]);
    assert_eq!(drain(&mut q, &a, 0), vec![3]);
}

#[test]
fn each_waiting_handle_is_returned_once_in_id_order() {
    let mut q: Mpmc<u64, usize> = Mpmc::new();
    let a = q.stream();
    let b = q.stream();
    let c = q.stream();
    assert_eq!(q.poll(&c, 30), None);
    assert_eq!(q.poll(&a, 10), None);
    assert_eq!(q.poll(&b, 20), None);
    q.unsubscribe(b);
    assert_eq!(q.send(1), vec![10, 30]);
    assert_eq!(q.send(2), Vec::<usize>::new());
}
