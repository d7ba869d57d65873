use vstd::prelude::*;

verus! {

/// Lifetime of a session, in seconds: four weeks.
pub const SESSION_LIFETIME_SECONDS: u64 = 2419200;

/// The identity claims carried by a session token: the authenticated
/// user's id and email, and the issue / expiry instants (seconds since
/// the Unix epoch).
#[derive(Clone, Debug, PartialEq, Eq)]
pub struct SessionClaims {
    pub subject: u64,
    pub email: String,
    pub issued_at: u64,
    pub expires_at: u64,
}

/// Field-wise agreement of two claim sets, comparing the emails by their
/// character content.
pub open spec fn claims_eq(c1: SessionClaims, c2: SessionClaims) -> bool {
    &&& c1.subject == c2.subject
    &&& c1.email@ == c2.email@
    &&& c1.issued_at == c2.issued_at
    &&& c1.expires_at == c2.expires_at
}

impl SessionClaims {
    /// A well-formed set of claims: the expiry is exactly one session
    /// lifetime after the issue instant.
    pub open spec fn wf(self) -> bool {
        self.expires_at == self.issued_at + SESSION_LIFETIME_SECONDS
    }
}

/// Builds the claims for a session opened at `now` for the given user.
pub fn make_claims(subject: u64, email: String, now: u64) -> (c: SessionClaims)
    requires
        now + SESSION_LIFETIME_SECONDS <= u64::MAX,
    ensures
        c.subject == subject,
        c.email@ == email@,
        c.issued_at == now,
        c.expires_at == now + SESSION_LIFETIME_SECONDS,
        c.wf(),
{
    SessionClaims {
        subject,
        email,
        issued_at: now,
        expires_at: now + SESSION_LIFETIME_SECONDS,
    }
}

} // verus!
