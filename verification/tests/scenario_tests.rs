//! The end-to-end picture at the library's boundary: a root with an index
//! page, a subdirectory, a missing file, and a watcher burst against a full
//! queue.

use serve_live::channel::{DropTrackingChannel, SendOutcome};
use serve_live::encoder::decode_change_event;
use serve_live::resolver::{plan_request, read_outcome, Plan, ResolvedTarget};
use serve_live::response::{internal_error_body, INTERNAL_ERROR_STATUS};

#[test]
fn serving_the_root_index() {
    // GET / — the transport hands the resolver an empty tail of a directory.
    let plan = plan_request("", true);
    let rel = match &plan {
        Plan::ReadFile { rel, content_type } => {
            assert_eq!(content_type.as_deref(), Some("text/html"));
            rel.clone()
        },
        _ => panic!("the root must be served its index"),
    };
    assert_eq!(rel, "index.html");
    let bytes = b"<html>home</html>".to_vec();
    let target = read_outcome(plan, Some(bytes.clone()));
    assert_eq!(target.status_code(), 200);
    match target {
        ResolvedTarget::FileBody { bytes: served, content_type } => {
            assert_eq!(served, bytes);
            assert_eq!(content_type.as_deref(), Some("text/html"));
        },
        _ => panic!("the index bytes must be served"),
    }
}

#[test]
fn serving_a_subdirectory_redirects() {
    // GET /sub — a directory reached without a trailing separator.
    let target = read_outcome(plan_request("sub", true), None);
    assert_eq!(target.status_code(), 301);
    match target {
        ResolvedTarget::Redirect { location } => assert_eq!(location, "sub/"),
        _ => panic!("a bare directory path must redirect"),
    }
}

#[test]
fn serving_a_missing_file_fails_as_bad_request() {
    // GET /missing.txt — the read fails, whatever the reason.
    let target = read_outcome(plan_request("missing.txt", false), None);
    assert_eq!(target.status_code(), 400);
    assert!(matches!(target, ResolvedTarget::BadRequest));
}

#[test]
fn watcher_burst_with_backpressure() {
    let (mut ch, mut rx) = DropTrackingChannel::open(0);

    // A change to a backup file is invisible to clients.
    assert_eq!(ch.publish_changes(&vec![String::from("notes.txt~")]), None);
    assert!(rx.try_recv().is_err());

    // Fill the queue, then lose a change to it.
    assert_eq!(ch.publish_changes(&vec![String::from("other.txt")]), Some(SendOutcome::Sent));
    assert_eq!(ch.publish_changes(&vec![String::from("lost.txt")]), Some(SendOutcome::Full));
    rx.try_recv().expect("the queued message drains");

    // The next change to notes.txt goes out and reports the loss.
    assert_eq!(ch.publish_changes(&vec![String::from("notes.txt")]), Some(SendOutcome::Sent));
    let ev = decode_change_event(&rx.try_recv().expect("queued")).expect("well-formed");
    assert_eq!(ev.paths, vec![String::from("notes.txt")]);
    assert!(ev.dropped);
}

#[test]
fn internal_failures_keep_their_message() {
    assert_eq!(INTERNAL_ERROR_STATUS, 500);
    assert_eq!(internal_error_body("boom"), "Internal server error:\nboom");
    assert_eq!(internal_error_body(""), "Internal server error:\n");
}
