use serve_live::stream_own::{own, StreamStep};

#[test]
fn natural_end_tears_the_resource_down_once() {
    let mut wrapped = own(String::from("a stream"), 7u32);
    assert!(wrapped.owned.is_some());
    wrapped.poll_step(StreamStep::<u8>::Pending);
    assert!(wrapped.owned.is_some());
    wrapped.poll_step(StreamStep::Item(1u8));
    assert!(wrapped.owned.is_some());
    wrapped.poll_step(StreamStep::<u8>::End);
    assert!(wrapped.owned.is_none(), "the end releases the resource");
    // Abandonment after the natural end finds nothing: no second teardown.
    assert_eq!(wrapped.release(), None);
}

#[test]
fn abandonment_before_the_end_tears_down_exactly_once() {
    let mut wrapped = own(String::from("a stream"), 7u32);
    wrapped.poll_step(StreamStep::Item(1u8));
    let taken = wrapped.release();
    assert_eq!(taken, Some(7), "abandonment hands the resource out once");
    assert_eq!(wrapped.release(), None, "never twice");
    assert!(wrapped.owned.is_none());
}

#[test]
fn steps_after_the_end_cannot_revive_the_resource() {
    let mut wrapped = own(0u8, String::from("handle"));
    wrapped.poll_step(StreamStep::<u8>::End);
    wrapped.poll_step(StreamStep::Item(2u8));
    wrapped.poll_step(StreamStep::<u8>::Pending);
    assert!(wrapped.owned.is_none());
    assert_eq!(wrapped.release(), None);
}

#[test]
fn items_pass_through_unchanged() {
    let mut wrapped = own((), 1u32);
    match wrapped.poll_step(StreamStep::Item(String::from("payload"))) {
        StreamStep::Item(s) => assert_eq!(s, "payload"),
        _ => panic!("the step must come back unchanged"),
    }
}
