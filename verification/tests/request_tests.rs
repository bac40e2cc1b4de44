use rusdirect::error::malformed_request_status;
use rusdirect::redirection::{encoding_of, BodyEncoding, RedirectionRequest};

#[test]
fn form_body_decodes() {
    let r = RedirectionRequest::from_form_bytes(b"path=x&target=example.com").unwrap();
    assert_eq!(r.path, Some("x".to_string()));
    assert_eq!(r.target, "example.com".to_string());
}

#[test]
fn form_body_percent_decodes() {
    let r = RedirectionRequest::from_form_bytes(b"target=https%3A%2F%2Fexample.com").unwrap();
    assert_eq!(r.path, None);
    assert_eq!(r.target, "https://example.com".to_string());
}

#[test]
fn form_body_without_target_is_rejected() {
    assert!(RedirectionRequest::from_form_bytes(b"path=x").is_none());
}

#[test]
fn form_body_with_repeated_field_is_rejected() {
    assert!(RedirectionRequest::from_form_bytes(b"target=a&target=b").is_none());
    assert!(RedirectionRequest::from_form_bytes(b"path=a&path=b&target=t").is_none());
}

#[test]
fn form_body_ignores_unknown_keys() {
    let r = RedirectionRequest::from_form_bytes(b"other=1&target=t.example").unwrap();
    assert_eq!(r.path, None);
    assert_eq!(r.target, "t.example".to_string());
}

#[test]
fn undecodable_percent_sequences_pass_through() {
    let r = RedirectionRequest::from_form_bytes(b"target=%zz").unwrap();
    assert_eq!(r.target, "%zz".to_string());
}

#[test]
fn content_type_selects_decoder() {
    assert_eq!(encoding_of("application/json"), Some(BodyEncoding::Json));
    assert_eq!(
        encoding_of("application/x-www-form-urlencoded"),
        Some(BodyEncoding::Form)
    );
}

#[test]
fn unsupported_content_type_maps_to_bad_request() {
    assert_eq!(encoding_of("text/plain"), None);
    assert_eq!(malformed_request_status(), 400);
}
