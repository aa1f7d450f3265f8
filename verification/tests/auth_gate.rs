use qpac::auth::{extract_token, generate_hash, AuthRejection, AuthTokenValidator};

#[test]
fn plain_secret_accepts_matching_bearer() {
    let gate = AuthTokenValidator::new("s3cr3t".to_string());
    assert_eq!(gate.validate_header(Some("Bearer s3cr3t")), Ok(()));
}

#[test]
fn plain_secret_rejects_wrong_credential() {
    let gate = AuthTokenValidator::new("s3cr3t".to_string());
    assert_eq!(
        gate.validate_header(Some("Bearer wrong")),
        Err(AuthRejection::BadCredential)
    );
}

#[test]
fn missing_header_is_unauthorized() {
    let gate = AuthTokenValidator::new("s3cr3t".to_string());
    let r = gate.validate_header(None);
    assert_eq!(r, Err(AuthRejection::MissingToken));
    assert_eq!(AuthRejection::MissingToken.status_code(), 401);
}

#[test]
fn non_bearer_header_is_unauthorized() {
    let gate = AuthTokenValidator::new("s3cr3t".to_string());
    assert_eq!(
        gate.validate_header(Some("Basic s3cr3t")),
        Err(AuthRejection::NotBearer)
    );
}

#[test]
fn header_whitespace_is_trimmed() {
    let gate = AuthTokenValidator::new("s3cr3t".to_string());
    assert_eq!(gate.validate_header(Some("  Bearer s3cr3t\t")), Ok(()));
}

#[test]
fn extract_token_takes_text_after_scheme() {
    assert_eq!(extract_token(Some("Bearer abc def")), Ok("abc def".to_string()));
    assert_eq!(extract_token(None), Err(AuthRejection::MissingToken));
    assert_eq!(extract_token(Some("abc")), Err(AuthRejection::NotBearer));
}

#[test]
fn generated_phc_round_trips_through_the_gate() {
    let salt = [7u8; 16];
    let phc = generate_hash(b"letmein", &salt).unwrap();
    assert!(phc.starts_with("$argon2id$"));

    let gate = AuthTokenValidator::new(phc);
    assert_eq!(gate.validate_header(Some("Bearer letmein")), Ok(()));
    assert_eq!(
        gate.validate_header(Some("Bearer letmeout")),
        Err(AuthRejection::BadCredential)
    );
}

#[test]
fn unparseable_phc_secret_is_a_server_error() {
    let gate = AuthTokenValidator::new("$argon2+++".to_string());
    let r = gate.validate_header(Some("Bearer anything"));
    assert_eq!(r, Err(AuthRejection::ServerError));
    assert_eq!(AuthRejection::ServerError.status_code(), 500);
    assert_eq!(AuthRejection::ServerError.message(), "Server error");
}

#[test]
fn rejection_messages_match_responses() {
    assert_eq!(AuthRejection::MissingToken.message(), "Missing auth token");
    assert_eq!(
        AuthRejection::NotBearer.message(),
        "Token should be Bearer"
    );
    assert_eq!(AuthRejection::BadCredential.message(), "Unathorized");
    assert_eq!(AuthRejection::BadCredential.status_code(), 401);
}
