//! Bearer-token claims: the data signed into a token.  Signing and
//! verification are cryptographic work done outside the library; the
//! claims themselves, and how the expiry is computed, live here.

use vstd::prelude::*;

verus! {

/// The claims carried inside a bearer token.
#[derive(Debug, Clone)]
pub struct Claims {
    pub sub: String,
    pub email: String,
    pub exp: i64,
    pub iat: i64,
}

impl Claims {
    /// Claims for a user, issued at the given moment and expiring the
    /// given number of hours later.
    pub fn new(user_id: String, email: String, expiration_hours: i64, now: i64) -> (r: Claims)
        requires
            0 <= expiration_hours <= 0x1_0000_0000,
            0 <= now,
            now + expiration_hours * 3600 <= i64::MAX,
        ensures
            r.sub == user_id,
            r.email == email,
            r.iat == now,
            r.exp == now + expiration_hours * 3600,
    {
        Claims { sub: user_id, email, exp: now + expiration_hours * 3600, iat: now }
    }
}

/// Whether claims are stale at the given moment.
pub fn token_expired(claims: &Claims, now: i64) -> (r: bool)
    ensures
        r == (claims.exp < now),
{
    claims.exp < now
}

} // verus!
