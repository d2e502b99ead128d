use vault_sync::bws::{
    bws_edit_args, bws_get_args, bws_retry_step, check_bws_error, secret_from_bws_output,
    secret_from_member,
    update_outcome, BwsError, BwsStep, FetchError,
};

#[test]
fn check_bws_error_returns_permission_message_on_404() {
    let stderr = "Error: Received error message from server: [404 Not Found] {\"message\":\"Resource not found.\"}";
    let err = check_bws_error(stderr, "abc-123");
    let msg = err.message();
    assert!(msg.contains("not found or access denied"), "got: {msg}");
    assert!(msg.contains("write permissions"), "got: {msg}");
    assert!(msg.contains("abc-123"), "got: {msg}");
}

#[test]
fn check_bws_error_returns_raw_stderr_for_other_errors() {
    let stderr = "Error: something else went wrong";
    let err = check_bws_error(stderr, "abc-123");
    let msg = err.message();
    assert!(msg.contains("bws failed:"), "got: {msg}");
    assert!(msg.contains("something else went wrong"), "got: {msg}");
}

#[test]
fn check_bws_error_exact_messages() {
    assert_eq!(
        check_bws_error("Resource not found", "id-9").message(),
        "Secret id-9 not found or access denied. Check that your service account token has write permissions."
    );
    assert_eq!(check_bws_error("boom", "id-9").message(), "bws failed: boom");
    assert!(matches!(check_bws_error("HTTP 404", "x"), BwsError::NotFoundOrDenied { .. }));
    assert!(matches!(check_bws_error("HTTP 40", "x"), BwsError::Failed { .. }));
}

#[test]
fn retry_backs_off_on_rate_limit_until_the_last_attempt() {
    assert_eq!(bws_retry_step(1, 3, false, "429 Too Many Requests"), BwsStep::RetryAfter { seconds: 2 });
    assert_eq!(bws_retry_step(2, 3, false, "got 429"), BwsStep::RetryAfter { seconds: 4 });
    assert_eq!(bws_retry_step(3, 3, false, "got 429"), BwsStep::Done);
    assert_eq!(bws_retry_step(5, 10, false, "429"), BwsStep::RetryAfter { seconds: 32 });
}

#[test]
fn retry_does_not_retry_success_or_other_errors() {
    assert_eq!(bws_retry_step(1, 3, true, "429"), BwsStep::Done);
    assert_eq!(bws_retry_step(1, 3, false, "500 Internal"), BwsStep::Done);
}

#[test]
fn arguments_for_bws() {
    assert_eq!(bws_get_args("id-1"), vec!["secret", "get", "id-1"]);
    assert_eq!(bws_edit_args("A=1\n", "id-1"), vec!["secret", "edit", "--value", "A=1\n", "id-1"]);
}

#[test]
fn secret_value_is_read_from_json() {
    let out = br#"{"id":"x","key":"k","value":"A=1\nB=2\n"}"#;
    assert_eq!(secret_from_bws_output(true, out, "").unwrap(), "A=1\nB=2\n");
}

#[test]
fn secret_output_errors() {
    match secret_from_bws_output(false, b"", "denied") {
        Err(FetchError::Failed { stderr }) => assert_eq!(stderr, "denied"),
        _ => panic!("expected failure"),
    }
    assert!(matches!(secret_from_bws_output(true, b"not json", ""), Err(FetchError::InvalidJson { .. })));
    assert!(matches!(secret_from_bws_output(true, br#"{"value":3}"#, ""), Err(FetchError::MissingValue)));
    assert!(matches!(secret_from_bws_output(true, br#"[1,2]"#, ""), Err(FetchError::MissingValue)));
    assert_eq!(FetchError::MissingValue.message(), "Secret value not found in bws output");
    assert_eq!(FetchError::Failed { stderr: "x".to_string() }.message(), "bws failed: x");
}

#[test]
fn edit_outcome() {
    assert!(update_outcome(true, "anything", "id").is_ok());
    assert!(matches!(update_outcome(false, "404", "id"), Err(BwsError::NotFoundOrDenied { .. })));
    assert!(matches!(update_outcome(false, "oops", "id"), Err(BwsError::Failed { .. })));
}

#[test]
fn secret_member_mapping() {
    assert_eq!(secret_from_member(Ok(Some("A=1".to_string()))).unwrap(), "A=1");
    assert!(matches!(secret_from_member(Ok(None)), Err(FetchError::MissingValue)));
    let e = serde_json::from_str::<serde_json::Value>("nope").unwrap_err();
    assert!(matches!(secret_from_member(Err(e)), Err(FetchError::InvalidJson { .. })));
}
