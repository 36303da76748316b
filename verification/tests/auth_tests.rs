use md5::{Digest, Md5};
use quizzer::services::{AuthorizationError, AuthorizationService};

fn md5_hex(input: &str) -> String {
    let digest = Md5::digest(input.as_bytes());
    digest.iter().map(|b| format!("{:02x}", b)).collect()
}

fn expected_response(user: &str, password: &str, method: &str, uri: &str, nonce: &str) -> String {
    let a1 = md5_hex(&format!("{}:administrator:{}", user, password));
    let a2 = md5_hex(&format!("{}:{}", method, uri));
    md5_hex(&format!("{}:{}:{}", a1, nonce, a2))
}

#[test]
fn a_correct_digest_is_accepted() {
    let auth = AuthorizationService::new("admin", "secret");
    let nonce = "abc123";
    let response = expected_response("admin", "secret", "GET", "/graphql", nonce);
    let header = format!(
        "Digest username=\"admin\", realm=\"administrator\", nonce=\"{}\", uri=\"/graphql\", response=\"{}\"",
        nonce, response
    );
    assert!(auth.verify_digest(&header, "GET", "/graphql").is_ok());
}

#[test]
fn surrounding_white_space_is_ignored() {
    let auth = AuthorizationService::new("admin", "secret");
    let nonce = "abc123";
    let response = expected_response("admin", "secret", "GET", "/graphql", nonce);
    let header = format!(
        "  Digest nonce=\"{}\" , response=\"{}\"  ",
        nonce, response
    );
    assert!(auth.verify_digest(&header, "GET", "/graphql").is_ok());
}

#[test]
fn a_later_duplicate_field_wins() {
    let auth = AuthorizationService::new("admin", "secret");
    let response = expected_response("admin", "secret", "GET", "/graphql", "second");
    let header = format!(
        "Digest nonce=\"first\", nonce=\"second\", response=\"{}\"",
        response
    );
    assert!(auth.verify_digest(&header, "GET", "/graphql").is_ok());
}

#[test]
fn a_header_without_the_marker_is_rejected() {
    let auth = AuthorizationService::new("admin", "secret");
    let r = auth.verify_digest("Basic dXNlcjpwYXNz", "GET", "/graphql");
    assert!(matches!(r, Err(AuthorizationError::InvalidFormat)));
}

#[test]
fn a_missing_nonce_is_reported() {
    let auth = AuthorizationService::new("admin", "secret");
    let r = auth.verify_digest("Digest response=\"deadbeef\"", "GET", "/graphql");
    match r {
        Err(AuthorizationError::MissingField { field }) => assert_eq!(field, "nonce"),
        other => panic!("expected a missing nonce, got {:?}", other),
    }
}

#[test]
fn a_missing_response_is_reported() {
    let auth = AuthorizationService::new("admin", "secret");
    let r = auth.verify_digest("Digest nonce=\"abc\"", "GET", "/graphql");
    match r {
        Err(AuthorizationError::MissingField { field }) => assert_eq!(field, "response"),
        other => panic!("expected a missing response, got {:?}", other),
    }
}

#[test]
fn a_wrong_response_is_rejected() {
    let auth = AuthorizationService::new("admin", "secret");
    let header = "Digest nonce=\"abc\", response=\"not-the-hash\"";
    let r = auth.verify_digest(header, "GET", "/graphql");
    assert!(matches!(r, Err(AuthorizationError::IncorrectResponse)));
}

#[test]
fn wrong_credentials_change_the_expected_response() {
    let auth = AuthorizationService::new("admin", "secret");
    let nonce = "abc123";
    let response = expected_response("admin", "hunter2", "GET", "/graphql", nonce);
    let header = format!("Digest nonce=\"{}\", response=\"{}\"", nonce, response);
    let r = auth.verify_digest(&header, "GET", "/graphql");
    assert!(matches!(r, Err(AuthorizationError::IncorrectResponse)));
}

#[test]
fn the_challenge_names_realm_nonce_and_opaque() {
    let auth = AuthorizationService::new("admin", "secret");
    let challenge = auth.www_authenticate();
    assert!(challenge.starts_with("Digest realm=\"administrator\", nonce=\""));
    assert!(challenge.contains("\", opaque=\""));
    assert!(challenge.ends_with('"'));
}

#[test]
fn nonces_are_fresh_md5_sized_tokens() {
    let auth = AuthorizationService::new("admin", "secret");
    let a = auth.nonce();
    let b = auth.nonce();
    assert_eq!(a.len(), 32);
    assert_eq!(b.len(), 32);
    assert!(a.chars().all(|c| c.is_ascii_hexdigit()));
    assert_ne!(a, b);
    assert_eq!(auth.opaque().len(), 32);
    assert_eq!(auth.realm(), "administrator");
}

#[test]
fn authorization_error_messages() {
    let missing = AuthorizationError::MissingField {
        field: "nonce".to_string(),
    };
    assert_eq!(
        missing.message(),
        "Digest does not contain required field: 'nonce'"
    );
    assert_eq!(
        AuthorizationError::IncorrectResponse.message(),
        "The 'response' field is incorrect or expired."
    );
}
