use serve_live::channel::{DropTrackingChannel, SendOutcome};
use serve_live::encoder::decode_change_event;

#[test]
fn all_noise_notifications_send_nothing() {
    let (mut ch, mut rx) = DropTrackingChannel::open(0);
    let paths = vec![
        String::from(".#auto.txt"),
        String::from("notes.txt~"),
        String::from(".git/index"),
    ];
    assert_eq!(ch.publish_changes(&paths), None);
    assert!(rx.try_recv().is_err(), "nothing may be queued");
}

#[test]
fn drop_flag_follows_full_then_sent_then_sent() {
    let (mut ch, mut rx) = DropTrackingChannel::open(0);

    // First notification is queued and carries a clear flag.
    assert_eq!(ch.publish_changes(&vec![String::from("a.txt")]), Some(SendOutcome::Sent));
    // The queue is full now: the next notification is discarded.
    assert_eq!(ch.publish_changes(&vec![String::from("b.txt")]), Some(SendOutcome::Full));

    let first = rx.try_recv().expect("one message queued");
    let first = decode_change_event(&first).expect("well-formed message");
    assert_eq!(first.paths, vec![String::from("a.txt")]);
    assert!(!first.dropped);

    // The send immediately after the failure reports the gap.
    assert_eq!(ch.publish_changes(&vec![String::from("c.txt")]), Some(SendOutcome::Sent));
    let second = rx.try_recv().expect("queued again");
    let second = decode_change_event(&second).expect("well-formed message");
    assert_eq!(second.paths, vec![String::from("c.txt")]);
    assert!(second.dropped, "the gap must be reported");

    // With room again, the send after that carries a clear flag.
    assert_eq!(ch.publish_changes(&vec![String::from("d.txt")]), Some(SendOutcome::Sent));
    let third = rx.try_recv().expect("queued once more");
    let third = decode_change_event(&third).expect("well-formed message");
    assert_eq!(third.paths, vec![String::from("d.txt")]);
    assert!(!third.dropped);
}

#[test]
fn queued_message_filters_noise_paths() {
    let (mut ch, mut rx) = DropTrackingChannel::open(0);
    let paths = vec![
        String::from("kept.txt"),
        String::from("skipped~"),
        String::from(".#skipped"),
    ];
    assert_eq!(ch.publish_changes(&paths), Some(SendOutcome::Sent));
    let msg = rx.try_recv().expect("queued");
    let ev = decode_change_event(&msg).expect("well-formed message");
    assert_eq!(ev.paths, vec![String::from("kept.txt")]);
}

#[test]
fn gone_consumer_is_reported_as_disconnected() {
    let (mut ch, rx) = DropTrackingChannel::open(0);
    drop(rx);
    assert_eq!(ch.publish_changes(&vec![String::from("a.txt")]), Some(
        SendOutcome::Disconnected,
    ));
    // A disconnect is not a capacity loss: a later send still carries a
    // clear flag, which `spec_next_dropped` pins; nothing to observe here
    // since the consumer is gone.
}
