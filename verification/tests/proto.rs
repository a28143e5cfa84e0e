use webdesk::proto::Response;
use webdesk::web::hreq;

#[test]
fn a_request_carries_what_it_was_given() {
    let r = hreq("rename", "/home/ada/a.txt", "/home/ada/b.txt", 0);
    assert_eq!(r.op, "rename");
    assert_eq!(r.path, "/home/ada/a.txt");
    assert_eq!(r.to, "/home/ada/b.txt");
    assert_eq!(r.len, 0);
}

#[test]
fn a_failed_answer_says_why_and_carries_nothing() {
    let r = Response::err("no such file");
    assert!(!r.ok);
    assert_eq!(r.error.as_deref(), Some("no such file"));
    assert!(r.data.is_none());
    assert_eq!(r.len, 0);
}

#[test]
fn a_value_answer_carries_the_value() {
    let r = Response::ok_data(serde_json::Value::from(42u64));
    assert!(r.ok);
    assert!(r.error.is_none());
    assert_eq!(r.data, Some(serde_json::Value::from(42u64)));
    assert_eq!(r.len, 0);
}

#[test]
fn a_bytes_answer_carries_their_length() {
    let r = Response::ok_bytes(4096);
    assert!(r.ok);
    assert!(r.error.is_none());
    assert!(r.data.is_none());
    assert_eq!(r.len, 4096);
}
