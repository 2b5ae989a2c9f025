use radiocast::bus::Sender;

#[test]
fn recv_cases() {
    // behind by one: a receiver that has observed one message returns the
    // next one and advances
    let mut sx = Sender::new();
    let rx = sx.subscribe();
    sx.send(1i32).unwrap();
    sx.send(2i32).unwrap();
    assert_eq!(*rx.try_recv(&mut sx).unwrap().unwrap().message(), 1);
    assert_eq!(*rx.try_recv(&mut sx).unwrap().unwrap().message(), 2);

    // at the tail with nothing published: empty
    let mut sx = Sender::new();
    let rx = sx.subscribe();
    assert!(rx.try_recv(&mut sx).unwrap().is_none());

    // at the tail, then a publish arrives: returns it
    sx.send(2i32).unwrap();
    assert_eq!(*rx.try_recv(&mut sx).unwrap().unwrap().message(), 2);
    assert!(rx.try_recv(&mut sx).unwrap().is_none());

    // still at the tail after draining: empty again
    assert!(rx.try_recv(&mut sx).unwrap().is_none());

    // first message after subscribing at the tail
    let mut sx = Sender::new();
    let rx = sx.subscribe();
    sx.send(1i32).unwrap();
    assert_eq!(*rx.try_recv(&mut sx).unwrap().unwrap().message(), 1);
}

#[test]
fn synchronized() {
    let mut sx = Sender::new();
    let rx = sx.subscribe();

    sx.send(1).unwrap();
    assert_eq!(*rx.try_recv(&mut sx).unwrap().unwrap().message(), 1);
    assert!(rx.try_recv(&mut sx).unwrap().is_none());
    sx.send(2).unwrap();
    sx.send(3).unwrap();
    assert_eq!(*rx.try_recv(&mut sx).unwrap().unwrap().message(), 2);
    assert_eq!(*rx.try_recv(&mut sx).unwrap().unwrap().message(), 3);
    assert!(rx.try_recv(&mut sx).unwrap().is_none());
}

#[test]
fn multiple_rx() {
    let mut sx = Sender::new();

    let r1 = sx.subscribe();
    let r2 = sx.subscribe();

    sx.send(1i32).unwrap();

    let r3 = sx.subscribe();
    sx.send(2i32).unwrap();

    assert_eq!(*r1.try_recv(&mut sx).unwrap().unwrap().message(), 1);
    assert_eq!(*r3.try_recv(&mut sx).unwrap().unwrap().message(), 2);

    assert_eq!(*r1.try_recv(&mut sx).unwrap().unwrap().message(), 2);
    assert!(r1.try_recv(&mut sx).unwrap().is_none());
    assert!(r3.try_recv(&mut sx).unwrap().is_none());

    assert_eq!(*r2.try_recv(&mut sx).unwrap().unwrap().message(), 1);
    assert_eq!(*r2.try_recv(&mut sx).unwrap().unwrap().message(), 2);
    assert!(r2.try_recv(&mut sx).unwrap().is_none());
}

#[test]
fn suffix_delivery_in_order() {
    let mut sx = Sender::new();
    sx.send(10i32).unwrap();
    let rx = sx.subscribe();
    sx.send(11).unwrap();
    sx.send(12).unwrap();
    sx.send(13).unwrap();
    let got: Vec<i32> = rx
        .recv_all(&mut sx)
        .unwrap()
        .iter()
        .map(|m| *m.message())
        .collect();
    assert_eq!(got, vec![11, 12, 13]);
    assert!(rx.try_recv(&mut sx).unwrap().is_none());
}

#[test]
fn no_replay_after_subscribe() {
    let mut sx = Sender::new();
    sx.send(1i32).unwrap();
    sx.send(2i32).unwrap();
    let rx = sx.subscribe();
    assert!(rx.try_recv(&mut sx).unwrap().is_none());
    sx.send(3i32).unwrap();
    assert_eq!(*rx.try_recv(&mut sx).unwrap().unwrap().message(), 3);
    assert!(rx.try_recv(&mut sx).unwrap().is_none());
}

#[test]
fn fan_out_identical() {
    let mut sx = Sender::new();
    let r1 = sx.subscribe();
    let r2 = sx.subscribe();
    for v in [5i32, 6, 7] {
        sx.send(v).unwrap();
    }
    let a: Vec<i32> = r1
        .recv_all(&mut sx)
        .unwrap()
        .iter()
        .map(|m| *m.message())
        .collect();
    let b: Vec<i32> = r2
        .recv_all(&mut sx)
        .unwrap()
        .iter()
        .map(|m| *m.message())
        .collect();
    assert_eq!(a, b);
    assert_eq!(a, vec![5, 6, 7]);
}

#[test]
fn waker_coalescing() {
    let mut sx = Sender::new();
    let r1 = sx.subscribe();
    let r2 = sx.subscribe();
    // both run dry and park
    assert!(r1.recv_poll(&mut sx).unwrap().is_none());
    assert!(r2.recv_poll(&mut sx).unwrap().is_none());
    assert_eq!(sx.pending_waker_count(), 2);
    // repeated polling does not add a second wakeup for the same receiver
    assert!(r1.recv_poll(&mut sx).unwrap().is_none());
    assert_eq!(sx.pending_waker_count(), 2);
    // the first publish hands out exactly the two wakeups
    sx.send(1i32).unwrap();
    assert_eq!(sx.pending_waker_count(), 0);
    // a second publish while nobody is parked wakes nobody
    sx.send(2i32).unwrap();
    assert_eq!(sx.pending_waker_count(), 0);
    // a woken receiver now sees the message
    assert_eq!(*r1.recv_poll(&mut sx).unwrap().unwrap().message(), 1);
}

#[test]
fn reclamation_after_all_advance() {
    let mut sx = Sender::new();
    let r1 = sx.subscribe();
    let r2 = sx.subscribe();
    sx.send(1i32).unwrap();
    sx.send(2i32).unwrap();
    sx.send(3i32).unwrap();
    // nobody has read: everything is retained
    assert_eq!(sx.retained_count(), 3);
    // both receivers advance past everything
    r1.recv_all(&mut sx).unwrap();
    r2.recv_all(&mut sx).unwrap();
    // the next publish reclaims all fully observed nodes
    sx.send(4i32).unwrap();
    assert_eq!(sx.retained_count(), 1);
}

#[test]
fn clone_starts_at_cloners_cursor() {
    let mut sx = Sender::new();
    let r1 = sx.subscribe();
    sx.send(1i32).unwrap();
    sx.send(2i32).unwrap();
    // r1 observes the first message, then is cloned
    assert_eq!(*r1.try_recv(&mut sx).unwrap().unwrap().message(), 1);
    let r2 = sx.subscribe_at(&r1);
    // the clone starts at the cloner's cursor, not at the live end
    assert_eq!(*r2.try_recv(&mut sx).unwrap().unwrap().message(), 2);
    assert!(r2.try_recv(&mut sx).unwrap().is_none());
    // the cloner is unaffected
    assert_eq!(*r1.try_recv(&mut sx).unwrap().unwrap().message(), 2);
    assert!(r1.try_recv(&mut sx).unwrap().is_none());
}

#[test]
fn unsubscribe_releases_nodes() {
    let mut sx = Sender::new();
    let r1 = sx.subscribe();
    let r2 = sx.subscribe();
    sx.send(1i32).unwrap();
    sx.send(2i32).unwrap();
    sx.send(3i32).unwrap();
    // r1 catches up; r2 never reads and its connection dies
    r1.recv_all(&mut sx).unwrap();
    sx.send(4i32).unwrap();
    // the lagging receiver still pins the whole history
    assert_eq!(sx.retained_count(), 4);
    sx.unsubscribe(r2);
    // the next publish reclaims everything only the dead receiver held
    sx.send(5i32).unwrap();
    assert_eq!(sx.retained_count(), 2);
    let got: Vec<i32> = r1
        .recv_all(&mut sx)
        .unwrap()
        .iter()
        .map(|m| *m.message())
        .collect();
    assert_eq!(got, vec![4, 5]);
}

#[test]
fn unsubscribe_drops_pending_wakeup() {
    let mut sx = Sender::new();
    let r1 = sx.subscribe();
    let r2 = sx.subscribe();
    assert!(r1.recv_poll(&mut sx).unwrap().is_none());
    assert!(r2.recv_poll(&mut sx).unwrap().is_none());
    assert_eq!(sx.pending_waker_count(), 2);
    let r2_slot = r2.slot_index();
    sx.unsubscribe(r2);
    assert_eq!(sx.pending_waker_count(), 1);
    sx.send(1i32).unwrap();
    // only the live parked receiver is handed a wakeup
    assert_eq!(sx.woken_slots().as_slice(), &[r1.slot_index()]);
    assert!(!sx.woken_slots().contains(&r2_slot));
}
