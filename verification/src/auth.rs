//! The identity endpoints: which OAuth grants are accepted and how their
//! refusals read, the audience and issuer links of issued tokens, how an
//! identity given by name becomes an IRI, and how passkey registration,
//! login and reset failures are answered.

use vstd::prelude::*;

use crate::apply::{IriPlan, IriPlanView};
use crate::text::{chars_of, contains_chars, contains_seq, starts_with, starts_with_chars, str_eq};

verus! {

broadcast use vstd::string::group_string_axioms;

/// An error answer of an identity endpoint: its status, its `error` text
/// and, for OAuth errors, its `error_description`.
#[derive(Debug)]
pub struct AuthError {
    pub status: u16,
    pub error: String,
    pub description: Option<String>,
}

/// The answer when no identity provider is configured.
pub open spec fn is_unavailable(e: AuthError) -> bool {
    e.status == 503 && e.error@ == "identity provider not available"@ && e.description is None
}

fn unavailable() -> (e: AuthError)
    ensures
        is_unavailable(e),
{
    AuthError { status: 503, error: String::from_str("identity provider not available"), description: None }
}

/// An OAuth error answer with a description.
pub open spec fn is_oauth_error(e: AuthError, status: u16, error: Seq<char>, description: Seq<char>) -> bool {
    &&& e.status == status
    &&& e.error@ == error
    &&& e.description matches Some(d) && d@ == description
}

fn oauth_error(status: u16, error: &str, description: &str) -> (e: AuthError)
    ensures
        is_oauth_error(e, status, error@, description@),
{
    AuthError { status, error: String::from_str(error), description: Some(String::from_str(description)) }
}

/// A plain 500 answer carrying the text of the provider's error.
pub open spec fn is_internal(e: AuthError, error: Seq<char>) -> bool {
    e.status == 500 && e.error@ == error && e.description is None
}

fn internal(error: &str) -> (e: AuthError)
    ensures
        is_internal(e, error@),
{
    AuthError { status: 500, error: String::from_str(error), description: None }
}

// ---------------------------------------------------------------------------
// OAuth grants
// ---------------------------------------------------------------------------

/// Why a client-credentials token request is refused before the provider
/// is asked: no provider (503), or a grant other than `client_credentials`
/// (400 `unsupported_grant_type`).
pub fn client_credentials_refusal(iam_available: bool, grant_type: &str) -> (r: Option<AuthError>)
    ensures
        !iam_available ==> (r matches Some(e) && is_unavailable(e)),
        iam_available && grant_type@ != "client_credentials"@ ==> (r matches Some(e) && is_oauth_error(
            e,
            400,
            "unsupported_grant_type"@,
            "Only client_credentials grant is supported"@,
        )),
        iam_available && grant_type@ == "client_credentials"@ ==> r is None,
{
    if !iam_available {
        return Some(unavailable());
    }
    if !str_eq(grant_type, "client_credentials") {
        return Some(oauth_error(400, "unsupported_grant_type", "Only client_credentials grant is supported"));
    }
    None
}

/// The answer to a client-credentials request the provider refused:
/// 401 `invalid_client` when the credentials did not authenticate, else
/// 500 with the provider's error.
pub fn client_credentials_failure(unauthenticated: bool, error: &str) -> (e: AuthError)
    ensures
        unauthenticated ==> is_oauth_error(e, 401, "invalid_client"@, "Invalid client_id or client_secret"@),
        !unauthenticated ==> is_internal(e, error@),
{
    if unauthenticated {
        oauth_error(401, "invalid_client", "Invalid client_id or client_secret")
    } else {
        internal(error)
    }
}

/// Why a token exchange (RFC 8693) is refused before the subject token is
/// validated: no provider (503), or another grant (400).
pub fn token_exchange_refusal(iam_available: bool, grant_type: &str) -> (r: Option<AuthError>)
    ensures
        !iam_available ==> (r matches Some(e) && is_unavailable(e)),
        iam_available && grant_type@ != "urn:ietf:params:oauth:grant-type:token-exchange"@ ==> (r matches Some(e)
            && is_oauth_error(
            e,
            400,
            "unsupported_grant_type"@,
            "Expected grant_type=urn:ietf:params:oauth:grant-type:token-exchange"@,
        )),
        iam_available && grant_type@ == "urn:ietf:params:oauth:grant-type:token-exchange"@ ==> r is None,
{
    if !iam_available {
        return Some(unavailable());
    }
    if !str_eq(grant_type, "urn:ietf:params:oauth:grant-type:token-exchange") {
        return Some(
            oauth_error(
                400,
                "unsupported_grant_type",
                "Expected grant_type=urn:ietf:params:oauth:grant-type:token-exchange",
            ),
        );
    }
    None
}

/// The answer to a token exchange whose subject token did not validate:
/// 401 `invalid_token` when it did not authenticate, else 500.
pub fn subject_token_failure(unauthenticated: bool, error: &str) -> (e: AuthError)
    ensures
        unauthenticated ==> is_oauth_error(e, 401, "invalid_token"@, "Subject token is invalid or expired"@),
        !unauthenticated ==> is_internal(e, error@),
{
    if unauthenticated {
        oauth_error(401, "invalid_token", "Subject token is invalid or expired")
    } else {
        internal(error)
    }
}

/// The issuer of the cluster's tokens: `https://{cluster_domain}`.
pub fn issuer(cluster_domain: &str) -> (r: String)
    ensures
        r@ == "https://"@ + cluster_domain@,
{
    let mut m = String::from_str("https://");
    m.append(cluster_domain);
    m
}

/// The audience of an exchanged token: the one asked for, else the
/// cluster's issuer.
pub fn exchange_audience(audience: Option<&str>, cluster_domain: &str) -> (r: String)
    ensures
        r@ == match audience {
            Some(a) => a@,
            None => "https://"@ + cluster_domain@,
        },
{
    match audience {
        Some(a) => String::from_str(a),
        None => issuer(cluster_domain),
    }
}

/// The endpoints the authorization document points browsers to.
#[derive(Debug)]
pub struct AuthorizeLinks {
    pub issuer: String,
    pub register_begin: String,
    pub register_complete: String,
    pub login_begin: String,
    pub login_complete: String,
    pub enroll: String,
    pub device_begin: String,
    pub device_poll: String,
}

fn issuer_link(issuer: &String, path: &str) -> (r: String)
    ensures
        r@ == issuer@ + path@,
{
    let mut m = issuer.clone();
    m.append(path);
    m
}

/// The issuer and each passkey, enrollment and device-flow endpoint under it.
pub fn authorize_links(cluster_domain: &str) -> (r: AuthorizeLinks)
    ensures
        r.issuer@ == "https://"@ + cluster_domain@,
        r.register_begin@ == r.issuer@ + "/auth/register/begin"@,
        r.register_complete@ == r.issuer@ + "/auth/register/complete"@,
        r.login_begin@ == r.issuer@ + "/auth/login/begin"@,
        r.login_complete@ == r.issuer@ + "/auth/login/complete"@,
        r.enroll@ == r.issuer@ + "/auth/enroll"@,
        r.device_begin@ == r.issuer@ + "/auth/device/begin"@,
        r.device_poll@ == r.issuer@ + "/auth/device/poll"@,
{
    let iss = issuer(cluster_domain);
    let register_begin = issuer_link(&iss, "/auth/register/begin");
    let register_complete = issuer_link(&iss, "/auth/register/complete");
    let login_begin = issuer_link(&iss, "/auth/login/begin");
    let login_complete = issuer_link(&iss, "/auth/login/complete");
    let enroll = issuer_link(&iss, "/auth/enroll");
    let device_begin = issuer_link(&iss, "/auth/device/begin");
    let device_poll = issuer_link(&iss, "/auth/device/poll");
    AuthorizeLinks {
        issuer: iss,
        register_begin,
        register_complete,
        login_begin,
        login_complete,
        enroll,
        device_begin,
        device_poll,
    }
}

// ---------------------------------------------------------------------------
// Passkeys
// ---------------------------------------------------------------------------

/// The IRI of a platform identity named `username`.
pub open spec fn identity_plan_spec(username: Seq<char>) -> IriPlanView {
    IriPlanView::Resource { product: "platform"@, collection: "identities"@, name: username }
}

/// How the IRI of a platform identity named `username` is formed.
pub fn identity_plan(username: &str) -> (r: IriPlan)
    ensures
        r@ == identity_plan_spec(username@),
{
    IriPlan::Resource {
        product: String::from_str("platform"),
        collection: String::from_str("identities"),
        name: String::from_str(username),
    }
}

/// The identity a passkey registration is for: a full `http://` or
/// `https://` IRI is taken as it is (`None`); anything else is a user name
/// of the platform.
pub fn registration_identity(identity: &str) -> (r: Option<IriPlan>)
    ensures
        starts_with(identity@, "http://"@) || starts_with(identity@, "https://"@) ==> r is None,
        !(starts_with(identity@, "http://"@) || starts_with(identity@, "https://"@)) ==> (r matches Some(p)
            && p@ == identity_plan_spec(identity@)),
{
    let v = chars_of(identity);
    let http = chars_of("http://");
    let https = chars_of("https://");
    if starts_with_chars(v.as_slice(), http.as_slice()) || starts_with_chars(v.as_slice(), https.as_slice()) {
        None
    } else {
        Some(identity_plan(identity))
    }
}

/// The passkey step a provider failure happened in.
#[derive(Debug, Clone, Copy, PartialEq, Eq)]
pub enum PasskeyStep {
    RegistrationBegin,
    RegistrationComplete,
    LoginBegin,
    LoginComplete,
    Enrollment,
}

/// The status of a passkey failure: a failed challenge is the client's
/// fault (400), or an authentication failure when completing a login
/// (401); other failures are 500. Starting a registration knows no failed
/// challenge.
pub open spec fn passkey_failure_status_spec(step: PasskeyStep, challenge_failed: bool) -> u16 {
    if challenge_failed && step != PasskeyStep::RegistrationBegin {
        if step == PasskeyStep::LoginComplete { 401 } else { 400 }
    } else {
        500
    }
}

/// The status answering a passkey failure.
pub fn passkey_failure_status(step: PasskeyStep, challenge_failed: bool) -> (s: u16)
    ensures
        s == passkey_failure_status_spec(step, challenge_failed),
{
    if challenge_failed {
        match step {
            PasskeyStep::RegistrationBegin => 500,
            PasskeyStep::LoginComplete => 401,
            _ => 400,
        }
    } else {
        500
    }
}

// ---------------------------------------------------------------------------
// Passkey reset
// ---------------------------------------------------------------------------

/// Why a passkey reset is refused before identity management is asked:
/// 503 without an identity provider, 400 for an empty user name.
pub fn admin_reset_refusal(iam_available: bool, username: &str) -> (r: Option<(u16, String)>)
    ensures
        !iam_available ==> (r matches Some(p) && p.0 == 503 && p.1@ == "identity provider not available"@),
        iam_available && username@.len() == 0 ==> (r matches Some(p) && p.0 == 400
            && p.1@ == "username is required"@),
        iam_available && username@.len() > 0 ==> r is None,
{
    if !iam_available {
        return Some((503, String::from_str("identity provider not available")));
    }
    if username.unicode_len() == 0 {
        return Some((400, String::from_str("username is required")));
    }
    None
}

/// The answer to a reset that identity management refused with `error`:
/// 404 `identity not found: {username}` when the error says "not found",
/// else 500 `reset failed: {error}`.
pub fn admin_reset_failure(username: &str, error: &str) -> (r: (u16, String))
    ensures
        contains_seq(error@, "not found"@) ==> r.0 == 404 && r.1@ == "identity not found: "@ + username@,
        !contains_seq(error@, "not found"@) ==> r.0 == 500 && r.1@ == "reset failed: "@ + error@,
{
    let e = chars_of(error);
    let pat = chars_of("not found");
    if contains_chars(e.as_slice(), pat.as_slice()) {
        let mut m = String::from_str("identity not found: ");
        m.append(username);
        (404, m)
    } else {
        let mut m = String::from_str("reset failed: ");
        m.append(error);
        (500, m)
    }
}

} // verus!
