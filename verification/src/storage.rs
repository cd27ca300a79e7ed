//! Volume synchronisation and node enrollment: decoding the base64 file
//! contents and CSRs clients send, the messages of the files that could
//! not be synced, the status of a sync, and what an enrollment request
//! asks for.

use vstd::prelude::*;

verus! {

broadcast use vstd::string::group_string_axioms;

/// The bytes, or the text of the decoding error, that the standard base64
/// engine (RFC 4648 alphabet, with padding) gives for a text.
pub uninterp spec fn spec_base64_decode(input: Seq<char>) -> Result<Seq<u8>, Seq<char>>;

/// The view of a decoding result.
pub open spec fn decoded_view(r: Result<Vec<u8>, String>) -> Result<Seq<u8>, Seq<char>> {
    match r {
        Ok(v) => Ok(v@),
        Err(e) => Err(e@),
    }
}

/// Calls `base64::engine::general_purpose::STANDARD.decode` on the text's
/// bytes. Claimed: the outcome (the bytes, or the text of base64's
/// `DecodeError`) is the fixed function `spec_base64_decode` of the text;
/// the base64 alphabet and padding rules are not restated.
#[verifier::external_body]
fn base64_decode(input: &str) -> (r: Result<Vec<u8>, String>)
    ensures
        decoded_view(r) == spec_base64_decode(input@),
{
    match base64::Engine::decode(&base64::engine::general_purpose::STANDARD, input) {
        Ok(bytes) => Ok(bytes),
        Err(e) => Err(e.to_string()),
    }
}

// ---------------------------------------------------------------------------
// Volume sync
// ---------------------------------------------------------------------------

/// The content of a synced file: its base64 text decoded, or the message
/// `{path}: base64 decode error: {error}`.
pub fn decode_sync_file(path: &str, data: &str) -> (r: Result<Vec<u8>, String>)
    ensures
        match spec_base64_decode(data@) {
            Ok(bytes) => r matches Ok(v) && v@ == bytes,
            Err(e) => r matches Err(m) && m@ == path@ + ": base64 decode error: "@ + e,
        },
{
    match base64_decode(data) {
        Ok(bytes) => Ok(bytes),
        Err(e) => {
            let mut m = String::from_str(path);
            m.append(": base64 decode error: ");
            m.append(e.as_str());
            Err(m)
        },
    }
}

/// The message of a file whose directory could not be created:
/// `{path}: {error}`.
pub fn directory_error_message(path: &str, error: &str) -> (r: String)
    ensures
        r@ == path@ + ": "@ + error@,
{
    let mut m = String::from_str(path);
    m.append(": ");
    m.append(error);
    m
}

/// The message of a file that could not be written:
/// `{path}: write error: {error}`.
pub fn write_error_message(path: &str, error: &str) -> (r: String)
    ensures
        r@ == path@ + ": write error: "@ + error@,
{
    let mut m = String::from_str(path);
    m.append(": write error: ");
    m.append(error);
    m
}

/// The outcome of a volume sync so far.
#[derive(Debug)]
pub struct SyncReport {
    /// Files written.
    pub synced: usize,
    /// The message of each file that failed, in order.
    pub errors: Vec<String>,
}

impl SyncReport {
    /// Nothing synced, nothing failed.
    pub fn new() -> (r: SyncReport)
        ensures
            r.synced == 0,
            r.errors@.len() == 0,
    {
        SyncReport { synced: 0, errors: Vec::new() }
    }

    /// One more file written.
    pub fn record_written(&mut self)
        requires
            old(self).synced < usize::MAX,
        ensures
            final(self).synced == old(self).synced + 1,
            final(self).errors@ == old(self).errors@,
    {
        self.synced = self.synced + 1;
    }

    /// One more file failed, with its message.
    pub fn record_error(&mut self, message: String)
        ensures
            final(self).synced == old(self).synced,
            final(self).errors@ == old(self).errors@.push(message),
    {
        self.errors.push(message);
    }

    /// The status of the sync: 200 when every file was written, 207 (multi
    /// status) when some failed.
    pub fn status(&self) -> (s: u16)
        ensures
            s == if self.errors@.len() == 0 { 200u16 } else { 207u16 },
    {
        if self.errors.len() == 0 {
            200
        } else {
            207
        }
    }
}

// ---------------------------------------------------------------------------
// Node enrollment
// ---------------------------------------------------------------------------

/// What a node enrollment request asks for.
#[derive(Debug)]
pub enum EnrollPlan {
    /// No CSR: issue an enrollment token valid for `ttl_seconds`.
    IssueToken { ttl_seconds: u64 },
    /// A CSR came but no CA is configured (503).
    NoAuthority,
    /// The CSR is not valid base64 (400), with the message.
    InvalidCsr(String),
    /// Sign the decoded CSR for the node.
    SignCsr { csr_der: Vec<u8>, node_name: String, node_ip: String },
}

/// The text of an optional `&str`, or a default.
pub open spec fn str_or(s: Option<&str>, default: Seq<char>) -> Seq<char> {
    match s {
        Some(x) => x@,
        None => default,
    }
}

/// Decide an enrollment: without a CSR, a token (valid 3600 seconds unless
/// the request says otherwise); with one, refuse when no CA is configured,
/// refuse a CSR that is not base64 (`invalid CSR encoding: {error}`), else
/// sign it for the node (named `unknown` and at `0.0.0.0` when the request
/// leaves them out).
pub fn enroll_plan(
    csr_der: Option<&str>,
    ttl_seconds: Option<u64>,
    ca_available: bool,
    node_name: Option<&str>,
    node_ip: Option<&str>,
) -> (r: EnrollPlan)
    ensures
        match csr_der {
            None => r == EnrollPlan::IssueToken {
                ttl_seconds: match ttl_seconds {
                    Some(t) => t,
                    None => 3600,
                },
            },
            Some(csr) => if !ca_available {
                r is NoAuthority
            } else {
                match spec_base64_decode(csr@) {
                    Err(e) => r matches EnrollPlan::InvalidCsr(m) && m@ == "invalid CSR encoding: "@ + e,
                    Ok(der) => r matches EnrollPlan::SignCsr { csr_der, node_name: n, node_ip: ip } && csr_der@ == der
                        && n@ == str_or(node_name, "unknown"@) && ip@ == str_or(node_ip, "0.0.0.0"@),
                }
            },
        },
{
    match csr_der {
        None => EnrollPlan::IssueToken {
            ttl_seconds: match ttl_seconds {
                Some(t) => t,
                None => 3600,
            },
        },
        Some(csr) => {
            if !ca_available {
                return EnrollPlan::NoAuthority;
            }
            let name = match node_name {
                Some(n) => String::from_str(n),
                None => String::from_str("unknown"),
            };
            let ip = match node_ip {
                Some(i) => String::from_str(i),
                None => String::from_str("0.0.0.0"),
            };
            match base64_decode(csr) {
                Ok(der) => EnrollPlan::SignCsr { csr_der: der, node_name: name, node_ip: ip },
                Err(e) => {
                    let mut m = String::from_str("invalid CSR encoding: ");
                    m.append(e.as_str());
                    EnrollPlan::InvalidCsr(m)
                },
            }
        },
    }
}

} // verus!
