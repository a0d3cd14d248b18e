use vstd::prelude::*;

verus! {

/// Claims carried by an issued bearer token.
#[derive(Debug)]
pub struct Claims {
    /// Subject: the user the token was issued to.
    pub sub: String,
    /// Expiry, in seconds since the Unix epoch.
    pub exp: u64,
}

/// Rejection raised when a request carries no valid bearer token.
#[derive(Debug)]
pub struct InvalidJwt;

/// Expiry stamped on every issued token.
pub const TOKEN_EXPIRATION: u64 = 10000000000;

/// Builds the claims of a token issued to `user_id`.
pub fn claims_for(user_id: String) -> (c: Claims)
    ensures
        c.sub@ == user_id@,
        c.exp == TOKEN_EXPIRATION,
{
    Claims { sub: user_id, exp: TOKEN_EXPIRATION }
}

} // verus!
