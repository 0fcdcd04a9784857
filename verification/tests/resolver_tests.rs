use serve_live::resolver::{plan_request, read_outcome, Plan, ResolvedTarget};

fn expect_read(p: Plan) -> (String, Option<String>) {
    match p {
        Plan::ReadFile { rel, content_type } => (rel, content_type),
        _ => panic!("expected a file read"),
    }
}

fn expect_redirect(p: Plan) -> String {
    match p {
        Plan::Redirect { location } => location,
        _ => panic!("expected a redirect"),
    }
}

#[test]
fn directory_without_slash_redirects_with_one_slash() {
    let loc = expect_redirect(plan_request("sub", true));
    assert_eq!(loc, "sub/");
    let loc = expect_redirect(plan_request("a/b", true));
    assert_eq!(loc, "a/b/");
}

#[test]
fn directory_with_slash_serves_its_index() {
    let (rel, ct) = expect_read(plan_request("sub/", true));
    assert_eq!(rel, "sub/index.html");
    assert_eq!(ct.as_deref(), Some("text/html"));
}

#[test]
fn root_serves_its_index() {
    let (rel, ct) = expect_read(plan_request("", true));
    assert_eq!(rel, "index.html");
    assert_eq!(ct.as_deref(), Some("text/html"));
}

#[test]
fn plain_file_is_read_as_named() {
    let (rel, ct) = expect_read(plan_request("a/b/notes.txt", false));
    assert_eq!(rel, "a/b/notes.txt");
    assert_eq!(ct, None);
}

#[test]
fn known_extensions_get_content_types() {
    let (_, ct) = expect_read(plan_request("style.css", false));
    assert_eq!(ct.as_deref(), Some("text/css"));
    let (_, ct) = expect_read(plan_request("page.html", false));
    assert_eq!(ct.as_deref(), Some("text/html"));
    let (_, ct) = expect_read(plan_request("app.js", false));
    assert_eq!(ct.as_deref(), Some("application/javascript"));
    let (_, ct) = expect_read(plan_request("img.png", false));
    assert_eq!(ct.as_deref(), Some("image/png"));
}

#[test]
fn unknown_extensions_get_no_content_type() {
    let (_, ct) = expect_read(plan_request("README", false));
    assert_eq!(ct, None);
    let (_, ct) = expect_read(plan_request(".bashrc", false));
    assert_eq!(ct, None);
    let (_, ct) = expect_read(plan_request("archive.tar.gz", false));
    assert_eq!(ct, None);
}

#[test]
fn escaping_the_root_is_rejected() {
    assert!(matches!(plan_request("../etc/passwd", false), Plan::Reject));
    assert!(matches!(plan_request("a/../../b", false), Plan::Reject));
    assert!(matches!(plan_request("..", false), Plan::Reject));
}

#[test]
fn traversal_inside_the_root_is_normalized() {
    let (rel, _) = expect_read(plan_request("a/../b.txt", false));
    assert_eq!(rel, "b.txt");
    let (rel, _) = expect_read(plan_request("a//b/./c", false));
    assert_eq!(rel, "a/b/c");
    let (rel, _) = expect_read(plan_request("/leading", false));
    assert_eq!(rel, "leading");
}

#[test]
fn read_success_serves_bytes_with_status_200() {
    let plan = plan_request("page.html", false);
    let target = read_outcome(plan, Some(b"<p>hi</p>".to_vec()));
    match &target {
        ResolvedTarget::FileBody { bytes, content_type } => {
            assert_eq!(bytes, b"<p>hi</p>");
            assert_eq!(content_type.as_deref(), Some("text/html"));
        },
        _ => panic!("expected a file body"),
    }
    assert_eq!(target.status_code(), 200);
}

#[test]
fn read_failure_is_a_bad_request() {
    let plan = plan_request("missing.txt", false);
    let target = read_outcome(plan, None);
    assert!(matches!(target, ResolvedTarget::BadRequest));
    assert_eq!(target.status_code(), 400);
}

#[test]
fn redirect_target_carries_status_301() {
    let plan = plan_request("sub", true);
    let target = read_outcome(plan, None);
    match &target {
        ResolvedTarget::Redirect { location } => assert_eq!(location, "sub/"),
        _ => panic!("expected a redirect"),
    }
    assert_eq!(target.status_code(), 301);
}

#[test]
fn rejected_tail_is_a_bad_request() {
    let target = read_outcome(plan_request("../x", false), None);
    assert!(matches!(target, ResolvedTarget::BadRequest));
}
