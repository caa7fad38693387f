use glimpse_speech::remote::{
    classify_upstream_error, config_error, parse_retry_after, parse_upstream_error,
    transport_error, Delay, DetailBody, ErrorDetail, ErrorEnvelope, RemoteErrorKind,
    UnixTime, UpstreamErrorBody, ValidationIssue,
};

fn envelope(message: &str, error_type: Option<&str>, code: Option<&str>) -> ErrorEnvelope {
    ErrorEnvelope {
        error: Some(UpstreamErrorBody {
            message: message.to_string(),
            error_type: error_type.map(str::to_string),
            code: code.map(str::to_string),
            param: None,
        }),
        message: None,
        detail: None,
        err_code: None,
        err_msg: None,
        category: None,
    }
}

fn plain() -> ErrorEnvelope {
    ErrorEnvelope {
        error: None,
        message: None,
        detail: None,
        err_code: None,
        err_msg: None,
        category: None,
    }
}

const NOW: UnixTime = UnixTime { secs: 1_475_419_451, nanos: 0 };

#[test]
fn parses_openai_rate_limit_error() {
    let body = r#"{"error":{"message":"Rate limit reached","type":"tokens","code":"rate_limit_exceeded"}}"#;
    let err = parse_upstream_error(
        429,
        Some(Delay::from_secs(30)),
        Some(envelope("Rate limit reached", Some("tokens"), Some("rate_limit_exceeded"))),
        body,
    );
    assert_eq!(err.kind, RemoteErrorKind::RateLimited);
    assert_eq!(err.code.as_deref(), Some("rate_limit_exceeded"));
    assert_eq!(err.retry_after, Some(Delay::from_secs(30)));
}

#[test]
fn openai_missing_model_is_not_found() {
    let body = r#"{"error":{"message":"The model `x` does not exist","type":"invalid_request_error","code":"model_not_found"}}"#;
    let err = parse_upstream_error(
        404,
        None,
        Some(envelope(
            "The model `x` does not exist",
            Some("invalid_request_error"),
            Some("model_not_found"),
        )),
        body,
    );
    assert_eq!(err.kind, RemoteErrorKind::NotFound);
}

#[test]
fn numeric_error_codes_keep_the_message() {
    let body = r#"{"error":{"code":401,"message":"No auth credentials found"}}"#;
    let err = parse_upstream_error(
        401,
        None,
        Some(envelope("No auth credentials found", None, Some("401"))),
        body,
    );
    assert_eq!(err.kind, RemoteErrorKind::Unauthorized);
    assert_eq!(err.code.as_deref(), Some("401"));
    assert_eq!(err.message, "No auth credentials found");
}

#[test]
fn upstream_503_can_fallback() {
    let err = parse_upstream_error(503, None, None, "upstream down");
    assert!(err.should_fallback());
}

#[test]
fn unauthorized_does_not_fallback() {
    let err = parse_upstream_error(
        401,
        None,
        Some(envelope("Invalid API key", None, Some("invalid_api_key"))),
        r#"{"error":{"message":"Invalid API key","code":"invalid_api_key"}}"#,
    );
    assert!(!err.should_fallback());
}

#[test]
fn parse_retry_after_accepts_seconds() {
    assert_eq!(parse_retry_after(Some("30"), NOW), Some(Delay::from_secs(30)));
}

#[test]
fn parse_retry_after_accepts_http_date() {
    let retry_at = std::time::UNIX_EPOCH + std::time::Duration::from_secs(NOW.secs + 120);
    let value = httpdate::fmt_http_date(retry_at);
    let parsed = parse_retry_after(Some(&value), NOW).expect("retry date parses");
    assert!(parsed > Delay::from_secs(0));
    assert!(parsed <= Delay::from_secs(120));
}

#[test]
fn retry_after_edges() {
    let late = UnixTime { secs: NOW.secs, nanos: 250_000_000 };
    assert_eq!(
        parse_retry_after(Some("Sun, 02 Oct 2016 14:44:13 GMT"), late),
        Some(Delay { secs: 1, nanos: 750_000_000 })
    );
    assert_eq!(
        parse_retry_after(Some("Sun, 02 Oct 2016 14:44:10 GMT"), NOW),
        Some(Delay::from_secs(0))
    );
    assert_eq!(parse_retry_after(Some(" 7 "), NOW), Some(Delay::from_secs(7)));
    assert_eq!(parse_retry_after(Some("soon"), NOW), None);
    assert_eq!(parse_retry_after(None, NOW), None);
}

#[test]
fn empty_bodies_are_described_by_their_status() {
    let err = parse_upstream_error(503, None, None, "  ");
    assert_eq!(
        err.message,
        "Remote speech request failed with status 503 Service Unavailable"
    );
    let err = parse_upstream_error(500, None, Some(envelope("  ", None, None)), " broken ");
    assert_eq!(err.message, "broken");
}

#[test]
fn details_and_plain_fields_are_read() {
    let mut e = plain();
    e.detail = Some(ErrorDetail::Body(DetailBody {
        message: Some("bad".to_string()),
        error_type: None,
        code: None,
        param: Some("file".to_string()),
        status: Some("quota_exceeded".to_string()),
    }));
    let err = parse_upstream_error(400, None, Some(e), "");
    assert_eq!(err.kind, RemoteErrorKind::QuotaExceeded);
    assert_eq!(err.param.as_deref(), Some("file"));

    let mut e = plain();
    e.detail = Some(ErrorDetail::Validation(vec![
        ValidationIssue { msg: "one".to_string(), loc: vec![None, Some("body".to_string())] },
        ValidationIssue { msg: "two".to_string(), loc: vec![] },
    ]));
    let err = parse_upstream_error(422, None, Some(e), "");
    assert_eq!(err.message, "one; two");
    assert_eq!(err.param.as_deref(), Some("body"));
    assert_eq!(err.kind, RemoteErrorKind::InvalidRequest);

    let mut e = plain();
    e.detail = Some(ErrorDetail::Text("plain".to_string()));
    assert_eq!(parse_upstream_error(400, None, Some(e), "").message, "plain");

    let mut e = plain();
    e.err_msg = Some("first".to_string());
    e.message = Some("second".to_string());
    e.category = Some("INVALID_AUTH".to_string());
    let err = parse_upstream_error(400, None, Some(e), "");
    assert_eq!(err.message, "first");
    assert_eq!(err.kind, RemoteErrorKind::Unauthorized);
}

#[test]
fn every_kind_of_status_and_type_is_told_apart() {
    let kind = |status, error_type, code| classify_upstream_error(status, error_type, code);
    assert_eq!(kind(403, None, None), RemoteErrorKind::Unauthorized);
    assert_eq!(kind(402, None, None), RemoteErrorKind::QuotaExceeded);
    assert_eq!(kind(404, None, None), RemoteErrorKind::NotFound);
    assert_eq!(kind(408, None, None), RemoteErrorKind::RateLimited);
    assert_eq!(kind(415, None, None), RemoteErrorKind::InvalidRequest);
    assert_eq!(kind(502, None, None), RemoteErrorKind::UpstreamUnavailable);
    assert_eq!(kind(418, None, None), RemoteErrorKind::Other);
    assert_eq!(kind(400, Some("Billing_hold"), None), RemoteErrorKind::QuotaExceeded);
    assert_eq!(kind(400, Some("permission"), None), RemoteErrorKind::Unauthorized);
    assert_eq!(kind(500, Some("invalid_request_error"), None), RemoteErrorKind::InvalidRequest);
    assert_eq!(kind(200, None, Some("SYSTEM_BUSY")), RemoteErrorKind::RateLimited);
}

#[test]
fn user_messages() {
    let mut err = parse_upstream_error(429, Some(Delay::from_secs(1)), None, "slow down");
    assert_eq!(
        err.user_message(),
        "Remote speech rate limit reached. Try again in about 1 second."
    );
    err.retry_after = Some(Delay { secs: 90, nanos: 5 });
    assert_eq!(
        err.user_message(),
        "Remote speech rate limit reached. Try again in about 90 seconds."
    );
    err.retry_after = None;
    assert_eq!(
        err.user_message(),
        "Remote speech rate limit reached. Try again in a moment."
    );
    assert_eq!(config_error("no endpoint").user_message(), "no endpoint");
    assert!(!config_error("no endpoint").should_fallback());
    let err = transport_error("offline");
    assert!(err.should_fallback());
    assert_eq!(err.user_message(), "Remote speech provider is temporarily unavailable.");
}
