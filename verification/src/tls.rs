//! Per-hostname TLS certificates issued by the platform CA: which
//! certificate a hostname has, when one must be issued or refreshed, and
//! which certificate a TLS handshake for a name is served.
//!
//! Signing and PEM parsing are done by the caller; this module keeps the
//! table and makes the decisions.

use vstd::prelude::*;

use crate::text::str_eq;

verus! {

broadcast use vstd::string::group_string_axioms;

/// A certificate without its hostname: PEM texts and expiry instant (Unix
/// seconds, nanoseconds).
pub struct CertModel {
    pub cert_pem: Seq<char>,
    pub key_pem: Seq<char>,
    pub expires_at: (i64, u32),
}

/// A TLS certificate issued by the platform CA for a hostname.
#[derive(Debug)]
pub struct IssuedCert {
    pub hostname: String,
    pub cert_pem: String,
    pub key_pem: String,
    /// Expiry, Unix seconds.
    pub expires_at_secs: i64,
    /// Expiry, nanoseconds within the second.
    pub expires_at_nanos: u32,
}

impl IssuedCert {
    /// The certificate without its hostname.
    pub open spec fn model(&self) -> CertModel {
        CertModel {
            cert_pem: self.cert_pem@,
            key_pem: self.key_pem@,
            expires_at: (self.expires_at_secs, self.expires_at_nanos),
        }
    }
}

/// The hostnames of a sequence of certificates.
pub open spec fn cert_hostnames(v: Seq<IssuedCert>) -> Seq<Seq<char>> {
    v.map_values(|c: IssuedCert| c.hostname@)
}

/// The position of a certificate for `h` in `v`.
pub open spec fn cert_index(v: Seq<IssuedCert>, h: Seq<char>) -> int {
    choose|i: int| 0 <= i < v.len() && (#[trigger] v[i]).hostname@ == h
}

/// Nanoseconds since the epoch of an instant.
pub open spec fn instant_nanos(t: (i64, u32)) -> int {
    t.0 * 1_000_000_000 + t.1
}

/// Twenty-four hours in nanoseconds.
pub open spec fn day_nanos() -> int {
    86_400_000_000_000
}

/// Does a certificate expiring at `expires_at` need refreshing at `now`?
/// It does when it expires within the next 24 hours.
pub open spec fn expires_soon(expires_at: (i64, u32), now: (i64, u32)) -> bool {
    instant_nanos(expires_at) < instant_nanos(now) + day_nanos()
}

/// What `ensure_cert` must do for a hostname.
#[derive(Debug, Clone, Copy, PartialEq, Eq)]
pub enum CertAction {
    /// A certificate valid for more than 24 hours is held: nothing to do.
    Keep,
    /// A certificate must be issued (none held, or it expires soon) but no
    /// CA is configured: nothing can be done; not an error.
    NoAuthority,
    /// A certificate must be issued by the CA and stored.
    Issue,
}

/// The per-hostname certificates and whether a CA can issue new ones.
pub struct TlsState {
    certs: Vec<IssuedCert>,
    has_ca: bool,
}

impl TlsState {
    /// The certificates held, by hostname.
    pub closed spec fn certs(&self) -> Map<Seq<char>, CertModel> {
        Map::new(
            |h: Seq<char>| cert_hostnames(self.certs@).contains(h),
            |h: Seq<char>| self.certs@[cert_index(self.certs@, h)].model(),
        )
    }

    /// Whether a CA is configured.
    pub closed spec fn has_ca(&self) -> bool {
        self.has_ca
    }

    /// One certificate per hostname.
    pub closed spec fn wf(&self) -> bool {
        cert_hostnames(self.certs@).no_duplicates()
    }

    proof fn lemma_cert_at(&self, k: int)
        requires
            self.wf(),
            0 <= k < self.certs@.len(),
        ensures
            self.certs().contains_key(self.certs@[k].hostname@),
            self.certs()[self.certs@[k].hostname@] == self.certs@[k].model(),
    {
        let h = self.certs@[k].hostname@;
        assert(cert_hostnames(self.certs@)[k] == h);
        assert(self.certs@[k].hostname@ == h);
        let i = cert_index(self.certs@, h);
        assert(0 <= i < self.certs@.len() && self.certs@[i].hostname@ == h);
        if i != k {
            assert(cert_hostnames(self.certs@)[i] == h);
            assert(false);
        }
        assert(cert_hostnames(self.certs@).contains(h));
        assert(self.certs().contains_key(h));
        assert(self.certs()[h] == self.certs@[i].model());
    }

    proof fn lemma_dom(&self)
        ensures
            self.certs().dom() == cert_hostnames(self.certs@).to_set(),
    {
        assert(self.certs().dom() =~= cert_hostnames(self.certs@).to_set());
    }

    /// No certificates and no CA.
    pub fn new() -> (t: TlsState)
        ensures
            t.wf(),
            t.certs() == Map::<Seq<char>, CertModel>::empty(),
            !t.has_ca(),
    {
        let t = TlsState { certs: Vec::new(), has_ca: false };
        assert(t.certs() =~= Map::<Seq<char>, CertModel>::empty());
        t
    }

    /// No certificates; a CA is configured.
    pub fn with_ca() -> (t: TlsState)
        ensures
            t.wf(),
            t.certs() == Map::<Seq<char>, CertModel>::empty(),
            t.has_ca(),
    {
        let t = TlsState { certs: Vec::new(), has_ca: true };
        assert(t.certs() =~= Map::<Seq<char>, CertModel>::empty());
        t
    }

    fn find(&self, hostname: &str) -> (r: Option<usize>)
        ensures
            match r {
                Some(k) => k < self.certs@.len() && self.certs@[k as int].hostname@ == hostname@,
                None => !cert_hostnames(self.certs@).contains(hostname@),
            },
    {
        let mut k: usize = 0;
        while k < self.certs.len()
            invariant
                k <= self.certs@.len(),
                forall|j: int| 0 <= j < k ==> self.certs@[j].hostname@ != hostname@,
            decreases self.certs@.len() - k,
        {
            if str_eq(self.certs[k].hostname.as_str(), hostname) {
                return Some(k);
            }
            k = k + 1;
        }
        proof {
            if cert_hostnames(self.certs@).contains(hostname@) {
                let j = choose|j: int| 0 <= j < cert_hostnames(self.certs@).len() && cert_hostnames(self.certs@)[j] == hostname@;
                assert(self.certs@[j].hostname@ == hostname@);
            }
        }
        None
    }

    /// What must be done to have a current certificate for `hostname` at
    /// `now`: keep one that expires more than 24 hours later; otherwise
    /// issue one, if a CA is configured.
    pub fn ensure_cert_action(&self, hostname: &str, now: (i64, u32)) -> (a: CertAction)
        requires
            self.wf(),
        ensures
            a == if self.certs().contains_key(hostname@) && !expires_soon(self.certs()[hostname@].expires_at, now) {
                CertAction::Keep
            } else if !self.has_ca() {
                CertAction::NoAuthority
            } else {
                CertAction::Issue
            },
    {
        match self.find(hostname) {
            Some(k) => {
                proof {
                    self.lemma_cert_at(k as int);
                }
                let c = &self.certs[k];
                let exp: i128 = c.expires_at_secs as i128 * 1_000_000_000 + c.expires_at_nanos as i128;
                let cur: i128 = now.0 as i128 * 1_000_000_000 + now.1 as i128;
                if !(exp < cur + 86_400_000_000_000) {
                    return CertAction::Keep;
                }
            },
            None => {},
        }
        if !self.has_ca {
            CertAction::NoAuthority
        } else {
            CertAction::Issue
        }
    }

    /// Store a certificate, replacing any held for its hostname.
    pub fn store_cert(&mut self, cert: IssuedCert)
        requires
            old(self).wf(),
        ensures
            final(self).wf(),
            final(self).certs() == old(self).certs().insert(cert.hostname@, cert.model()),
            final(self).has_ca() == old(self).has_ca(),
    {
        let ghost h = cert.hostname@;
        let ghost m = cert.model();
        let ghost old_v = self.certs@;
        let pos = self.find(cert.hostname.as_str());
        match pos {
            Some(k) => {
                self.certs.set(k, cert);
                proof {
                    assert(cert_hostnames(self.certs@) =~= cert_hostnames(old_v).update(k as int, h));
                    assert(cert_hostnames(old_v)[k as int] == h);
                    assert(cert_hostnames(self.certs@) =~= cert_hostnames(old_v));
                }
            },
            None => {
                self.certs.push(cert);
                proof {
                    assert(cert_hostnames(self.certs@) =~= cert_hostnames(old_v).push(h));
                    assert forall|a: int, b: int| 0 <= a < b < cert_hostnames(self.certs@).len() implies cert_hostnames(self.certs@)[a]
                        != cert_hostnames(self.certs@)[b] by {
                        if b == old_v.len() {
                            assert(cert_hostnames(old_v)[a] == cert_hostnames(self.certs@)[a]);
                        } else {
                            assert(cert_hostnames(old_v)[a] == cert_hostnames(self.certs@)[a]);
                            assert(cert_hostnames(old_v)[b] == cert_hostnames(self.certs@)[b]);
                        }
                    }
                }
            },
        }
        proof {
            let k: int = match pos {
                Some(k) => k as int,
                None => old_v.len() as int,
            };
            assert(self.wf());
            self.lemma_cert_at(k);
            let nv = self.certs@;
            assert forall|x: Seq<char>| #[trigger] self.certs().contains_key(x) == old(self).certs().insert(h, m).contains_key(x) by {
                if self.certs().contains_key(x) {
                    let j = choose|j: int| 0 <= j < cert_hostnames(nv).len() && cert_hostnames(nv)[j] == x;
                    if j != k {
                        assert(nv[j] == old_v[j]);
                        assert(cert_hostnames(old_v)[j] == x);
                    }
                }
                if old(self).certs().contains_key(x) {
                    let j = choose|j: int| 0 <= j < cert_hostnames(old_v).len() && cert_hostnames(old_v)[j] == x;
                    assert(nv[j].hostname@ == x || j == k);
                    assert(cert_hostnames(nv)[j] == x);
                }
            }
            assert forall|x: Seq<char>| #[trigger] self.certs().contains_key(x) implies self.certs()[x] == old(self).certs().insert(h, m)[x] by {
                if x != h {
                    let j = choose|j: int| 0 <= j < cert_hostnames(nv).len() && cert_hostnames(nv)[j] == x;
                    assert(j != k);
                    assert(nv[j] == old_v[j]);
                    self.lemma_cert_at(j);
                    old(self).lemma_cert_at(j);
                }
            }
            assert(self.certs() =~= old(self).certs().insert(h, m));
        }
    }

    /// Remove the certificate of a hostname (nothing happens when none is
    /// held).
    pub fn remove_cert(&mut self, hostname: &str)
        requires
            old(self).wf(),
        ensures
            final(self).wf(),
            final(self).certs() == old(self).certs().remove(hostname@),
            final(self).has_ca() == old(self).has_ca(),
    {
        let ghost old_v = self.certs@;
        match self.find(hostname) {
            Some(k) => {
                self.certs.remove(k);
                proof {
                    let nv = self.certs@;
                    assert(cert_hostnames(nv) =~= cert_hostnames(old_v).remove(k as int));
                    assert forall|a: int, b: int| 0 <= a < b < cert_hostnames(nv).len() implies cert_hostnames(nv)[a]
                        != cert_hostnames(nv)[b] by {
                        let a2 = if a < k { a } else { a + 1 };
                        let b2 = if b < k { b } else { b + 1 };
                        assert(cert_hostnames(nv)[a] == cert_hostnames(old_v)[a2]);
                        assert(cert_hostnames(nv)[b] == cert_hostnames(old_v)[b2]);
                    }
                    assert(self.wf());
                    assert forall|x: Seq<char>| #[trigger] self.certs().contains_key(x) == old(self).certs().remove(hostname@).contains_key(x) by {
                        if self.certs().contains_key(x) {
                            let j = choose|j: int| 0 <= j < cert_hostnames(nv).len() && cert_hostnames(nv)[j] == x;
                            let j2 = if j < k { j } else { j + 1 };
                            assert(cert_hostnames(old_v)[j2] == x);
                            assert(cert_hostnames(old_v)[k as int] == hostname@);
                            assert(j2 != k);
                            assert(x != hostname@);
                        }
                        if old(self).certs().contains_key(x) && x != hostname@ {
                            let j = choose|j: int| 0 <= j < cert_hostnames(old_v).len() && cert_hostnames(old_v)[j] == x;
                            assert(j != k);
                            let j2 = if j < k { j } else { j - 1 };
                            assert(cert_hostnames(nv)[j2] == x);
                        }
                    }
                    assert forall|x: Seq<char>| #[trigger] self.certs().contains_key(x) implies self.certs()[x] == old(self).certs().remove(hostname@)[x] by {
                        let j = choose|j: int| 0 <= j < cert_hostnames(nv).len() && cert_hostnames(nv)[j] == x;
                        let j2 = if j < k { j } else { j + 1 };
                        assert(nv[j] == old_v[j2]);
                        self.lemma_cert_at(j);
                        old(self).lemma_cert_at(j2);
                    }
                    assert(self.certs() =~= old(self).certs().remove(hostname@));
                }
            },
            None => {
                assert(self.certs() =~= old(self).certs().remove(hostname@));
            },
        }
    }

    /// The number of certificates held.
    pub fn cert_count(&self) -> (n: usize)
        requires
            self.wf(),
        ensures
            n == self.certs().len(),
    {
        proof {
            self.lemma_dom();
            cert_hostnames(self.certs@).unique_seq_to_set();
        }
        self.certs.len()
    }

    /// The certificate a TLS handshake for `hostname` is served: the one
    /// held for it, when both its certificate and key PEM are non-empty.
    pub fn sni_cert(&self, hostname: &str) -> (r: Option<&IssuedCert>)
        requires
            self.wf(),
        ensures
            match r {
                Some(c) => {
                    &&& self.certs().contains_key(hostname@)
                    &&& c.hostname@ == hostname@
                    &&& c.model() == self.certs()[hostname@]
                    &&& c.cert_pem@.len() > 0
                    &&& c.key_pem@.len() > 0
                },
                None => !self.certs().contains_key(hostname@) || self.certs()[hostname@].cert_pem.len() == 0
                    || self.certs()[hostname@].key_pem.len() == 0,
            },
    {
        match self.find(hostname) {
            Some(k) => {
                proof {
                    self.lemma_cert_at(k as int);
                }
                let c = &self.certs[k];
                if c.cert_pem.as_str().is_empty() || c.key_pem.as_str().is_empty() {
                    None
                } else {
                    Some(c)
                }
            },
            None => None,
        }
    }
}

/// A certificate stored for a hostname is the one then held for it, and a
/// removed hostname holds none; removing twice is removing once.
pub proof fn law_store_then_remove(certs: Map<Seq<char>, CertModel>, h: Seq<char>, c: CertModel)
    ensures
        certs.insert(h, c)[h] == c,
        !certs.insert(h, c).remove(h).contains_key(h),
        certs.remove(h).remove(h) == certs.remove(h),
{
    assert(certs.remove(h).remove(h) =~= certs.remove(h));
}

} // verus!
