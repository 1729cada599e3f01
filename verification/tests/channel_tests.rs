use uringy::Error;
use uringy::sync::channel::ChannelTable;
use uringy::sync::channel::ClosedError;
use uringy::sync::channel::RecvStep;
use uringy::sync::channel::unbounded;

fn got<T>(step: RecvStep<T>) -> T {
    match step {
        RecvStep::Got(value) => value,
        _ => panic!("expected a message"),
    }
}

#[test]
fn send_then_receive() {
    let mut table = ChannelTable::new();
    let (tx, rx) = unbounded(&mut table);

    tx.send(&mut table, 1).0.unwrap();
    tx.send(&mut table, 2).0.unwrap();
    tx.send(&mut table, 3).0.unwrap();

    assert_eq!(got(rx.recv_step(&mut table, false, 0)), 1);
    assert_eq!(got(rx.recv_step(&mut table, false, 0)), 2);
    assert_eq!(got(rx.recv_step(&mut table, false, 0)), 3);
}

#[test]
fn receive_then_send() {
    let mut table = ChannelTable::new();
    let (tx, rx) = unbounded(&mut table);

    // The receiver finds nothing and parks its waker.
    assert!(matches!(rx.recv_step(&mut table, false, 9), RecvStep::Parked));

    // The sender's message wakes exactly that parked receiver.
    let (result, woken) = tx.send(&mut table, 1);
    result.unwrap();
    assert_eq!(woken, Some(9));

    assert_eq!(got(rx.recv_step(&mut table, false, 9)), 1);

    // Dropping the sender closes the channel; a drained receive observes it.
    tx.close(&mut table);
    assert!(matches!(rx.recv_step(&mut table, false, 9), RecvStep::Closed));
}

#[test]
fn sender_close_stops_recv() {
    let mut table = ChannelTable::new();
    let (tx, rx) = unbounded::<()>(&mut table);

    // The receiving fiber parks, then the sender closes: its waker comes
    // back so the receiver can observe the closure.
    assert!(matches!(rx.recv_step(&mut table, false, 4), RecvStep::Parked));
    let woken = tx.close(&mut table);
    assert_eq!(woken, vec![4]);

    assert!(matches!(rx.recv_step(&mut table, false, 4), RecvStep::Closed));
}

#[test]
fn sender_drop_stops_recv() {
    let mut table = ChannelTable::new();
    let (tx, rx) = unbounded::<()>(&mut table);

    assert!(matches!(rx.recv_step(&mut table, false, 4), RecvStep::Parked));

    // Dropping the last sender closes the channel the same way.
    let woken = tx.close(&mut table);
    drop(tx);
    assert_eq!(woken, vec![4]);

    assert!(matches!(rx.recv_step(&mut table, false, 4), RecvStep::Closed));
}

#[test]
fn compatible_with_iterator() {
    let mut table = ChannelTable::new();
    let (tx, rx) = unbounded(&mut table);
    tx.send(&mut table, 1).0.unwrap();
    tx.send(&mut table, 2).0.unwrap();
    tx.send(&mut table, 3).0.unwrap();
    tx.close(&mut table);

    let mut collected = Vec::new();
    loop {
        match rx.recv_step(&mut table, false, 0) {
            RecvStep::Got(value) => collected.push(value),
            _ => break,
        }
    }

    assert_eq!(collected, vec![1, 2, 3]);
}

#[test]
fn can_always_send_to_unbounded_channel() {
    let mut table = ChannelTable::new();
    let (tx, _rx) = unbounded(&mut table);

    // Sending never blocks, so cancellation cannot stop it.
    assert!(tx.send(&mut table, ()).0.is_ok());
}

#[test]
fn stops_active_recv() {
    let mut table = ChannelTable::new();
    let (_tx, rx) = unbounded::<()>(&mut table);

    // A receive that would park reports cancellation instead once the
    // receiving fiber is cancelled.
    assert!(matches!(rx.recv_step(&mut table, true, 0), RecvStep::Cancelled));
}

#[test]
fn fails_blocking_recv() {
    let mut table = ChannelTable::new();
    let (tx, rx) = unbounded(&mut table);
    tx.send(&mut table, 1).0.unwrap();

    // A queued message is still delivered to a cancelled fiber; only a
    // would-block receive reports the cancellation.
    assert_eq!(got(rx.recv_step(&mut table, true, 0)), 1);
    assert!(matches!(rx.recv_step(&mut table, true, 0), RecvStep::Cancelled));
}

#[test]
fn send_to_closed_channel_fails() {
    let mut table = ChannelTable::new();
    let (tx, rx) = unbounded(&mut table);
    rx.close(&mut table);

    let (result, woken) = tx.send(&mut table, 5);
    assert_eq!(result, Err(Error::Original(ClosedError)));
    assert_eq!(woken, None);
}

#[test]
fn channel_len_tracks_queue() {
    let mut table = ChannelTable::new();
    let (tx, rx) = unbounded(&mut table);

    assert!(tx.is_empty(&table));
    tx.send(&mut table, 1).0.unwrap();
    tx.send(&mut table, 2).0.unwrap();
    assert_eq!(tx.len(&table), 2);
    assert_eq!(rx.len(&table), 2);
    assert!(!rx.is_empty(&table));
    assert!(!rx.is_closed(&table));
    rx.close(&mut table);
    assert!(tx.is_closed(&table));
}

#[test]
fn receiver_close_wakes_parked_waiters() {
    let mut table = ChannelTable::new();
    let (_tx, rx) = unbounded::<()>(&mut table);

    // A parked receiver's waker comes back from either side's close, so
    // everyone can observe the closure.
    assert!(matches!(rx.recv_step(&mut table, false, 6), RecvStep::Parked));
    let woken = rx.close(&mut table);
    assert_eq!(woken, vec![6]);
    assert!(matches!(rx.recv_step(&mut table, false, 6), RecvStep::Closed));
}
