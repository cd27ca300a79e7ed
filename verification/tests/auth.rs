use picloud_http::apply::IriPlan;
use picloud_http::auth::{
    admin_reset_failure, admin_reset_refusal, authorize_links, client_credentials_failure,
    client_credentials_refusal, exchange_audience, identity_plan, issuer, passkey_failure_status,
    registration_identity, subject_token_failure, token_exchange_refusal, PasskeyStep,
};

#[test]
fn client_credentials_grant_checks() {
    let e = client_credentials_refusal(false, "client_credentials").unwrap();
    assert_eq!((e.status, e.error.as_str()), (503, "identity provider not available"));
    assert!(e.description.is_none());
    let e = client_credentials_refusal(true, "password").unwrap();
    assert_eq!(e.status, 400);
    assert_eq!(e.error, "unsupported_grant_type");
    assert_eq!(e.description.as_deref(), Some("Only client_credentials grant is supported"));
    assert!(client_credentials_refusal(true, "client_credentials").is_none());
}

#[test]
fn client_credentials_failures() {
    let e = client_credentials_failure(true, "whatever");
    assert_eq!((e.status, e.error.as_str()), (401, "invalid_client"));
    assert_eq!(e.description.as_deref(), Some("Invalid client_id or client_secret"));
    let e = client_credentials_failure(false, "store down");
    assert_eq!((e.status, e.error.as_str()), (500, "store down"));
    assert!(e.description.is_none());
}

#[test]
fn token_exchange_checks() {
    assert_eq!(token_exchange_refusal(false, "x").unwrap().status, 503);
    let e = token_exchange_refusal(true, "client_credentials").unwrap();
    assert_eq!(e.status, 400);
    assert_eq!(
        e.description.as_deref(),
        Some("Expected grant_type=urn:ietf:params:oauth:grant-type:token-exchange")
    );
    assert!(token_exchange_refusal(true, "urn:ietf:params:oauth:grant-type:token-exchange").is_none());
    let e = subject_token_failure(true, "");
    assert_eq!((e.status, e.error.as_str()), (401, "invalid_token"));
    assert_eq!(subject_token_failure(false, "boom").status, 500);
}

#[test]
fn audience_and_issuer() {
    assert_eq!(issuer("pi.local"), "https://pi.local");
    assert_eq!(exchange_audience(None, "pi.local"), "https://pi.local");
    assert_eq!(exchange_audience(Some("https://api.example"), "pi.local"), "https://api.example");
    let links = authorize_links("pi.local");
    assert_eq!(links.issuer, "https://pi.local");
    assert_eq!(links.register_begin, "https://pi.local/auth/register/begin");
    assert_eq!(links.register_complete, "https://pi.local/auth/register/complete");
    assert_eq!(links.login_begin, "https://pi.local/auth/login/begin");
    assert_eq!(links.login_complete, "https://pi.local/auth/login/complete");
    assert_eq!(links.enroll, "https://pi.local/auth/enroll");
    assert_eq!(links.device_begin, "https://pi.local/auth/device/begin");
    assert_eq!(links.device_poll, "https://pi.local/auth/device/poll");
}

#[test]
fn registration_takes_full_iris_or_user_names() {
    assert!(registration_identity("https://pi.local/products/platform/identities/bob").is_none());
    assert!(registration_identity("http://x/y").is_none());
    match registration_identity("bob") {
        Some(IriPlan::Resource { product, collection, name }) => {
            assert_eq!((product.as_str(), collection.as_str(), name.as_str()), ("platform", "identities", "bob"));
        }
        other => panic!("unexpected {:?}", other),
    }
    assert!(matches!(identity_plan("alice"), IriPlan::Resource { name, .. } if name == "alice"));
}

#[test]
fn passkey_failure_statuses() {
    assert_eq!(passkey_failure_status(PasskeyStep::LoginComplete, true), 401);
    assert_eq!(passkey_failure_status(PasskeyStep::LoginBegin, true), 400);
    assert_eq!(passkey_failure_status(PasskeyStep::RegistrationComplete, true), 400);
    assert_eq!(passkey_failure_status(PasskeyStep::Enrollment, true), 400);
    assert_eq!(passkey_failure_status(PasskeyStep::RegistrationBegin, true), 500);
    assert_eq!(passkey_failure_status(PasskeyStep::LoginComplete, false), 500);
}

#[test]
fn admin_reset_refusals() {
    assert_eq!(admin_reset_refusal(false, "alice"), Some((503, "identity provider not available".to_string())));
    assert_eq!(admin_reset_refusal(true, ""), Some((400, "username is required".to_string())));
    assert_eq!(admin_reset_refusal(true, "alice"), None);
}

#[test]
fn admin_reset_failure_distinguishes_missing_identity() {
    assert_eq!(
        admin_reset_failure("alice", "identity not found in store"),
        (404, "identity not found: alice".to_string())
    );
    assert_eq!(admin_reset_failure("alice", "disk on fire"), (500, "reset failed: disk on fire".to_string()));
}


#[test]
fn token_returns_503_without_iam() {
    let e = client_credentials_refusal(false, "client_credentials").unwrap();
    assert_eq!(e.status, 503);
}
