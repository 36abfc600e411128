use polaris::error::TickError;

#[test]
fn exit_codes_match_contract() {
    assert_eq!(TickError::DatasetUnavailable("x".into()).exit_code(), 2);
    assert_eq!(TickError::InvalidArgument("x".into()).exit_code(), 1);
    assert_eq!(TickError::Other("boom".into()).exit_code(), 1);
}

#[test]
fn only_request_errors_are_retryable() {
    let busy = TickError::Request {
        status: Some(503),
        message: "busy".into(),
        retryable: true,
    };
    assert!(busy.retryable());
    assert_eq!(busy.exit_code(), 1);
    let gone = TickError::Request {
        status: Some(404),
        message: "gone".into(),
        retryable: false,
    };
    assert!(!gone.retryable());
    assert!(!TickError::LockHeld("/tmp/lock".into()).retryable());
}

#[test]
fn messages_are_shown_as_they_are() {
    assert_eq!(
        TickError::LockHeld("/tmp/lock".into()).text(),
        "another sync is already running: /tmp/lock"
    );
    assert_eq!(TickError::Other("boom".into()).text(), "boom");
    assert_eq!(TickError::invalid("a", "b").text(), "ab");
}
