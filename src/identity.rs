use vstd::prelude::*;

use crate::error::AuthError;

verus! {

/// How long an identity stays valid after it is issued, in seconds.
pub const TOKEN_LIFETIME: u64 = 24 * 60 * 60;

/// The claims that a signed identity carries: the user's id, the time (in
/// seconds since the epoch) at which it expires, and the user's names.
#[derive(Clone, Debug)]
pub struct Claims {
    pub cuid: u128,
    pub exp: u64,
    pub nickname: String,
    pub username: String,
}

impl Claims {
    /// The claims of an identity issued at time `now`: valid for
    /// `TOKEN_LIFETIME` seconds (up to the end of the clock's range).
    pub fn new(cuid: u128, nickname: String, username: String, now: u64) -> (r: Claims)
        ensures
            r.cuid == cuid,
            r.nickname == nickname,
            r.username == username,
            r.exp == if now as int + TOKEN_LIFETIME <= u64::MAX {
                now + TOKEN_LIFETIME
            } else {
                u64::MAX as int
            },
    {
        let exp = now.saturating_add(TOKEN_LIFETIME);
        Claims { cuid, exp, nickname, username }
    }

    /// Whether the identity is still valid at time `now`.
    pub fn is_live(&self, now: u64) -> (r: bool)
        ensures
            r == (now < self.exp),
    {
        now < self.exp
    }
}

/// Checks the identity of a protected call. `has_bearer` says whether the
/// request carried a bearer credential, `decoded` what the signature check
/// made of it (`None` where the check failed), `now` the current time.
pub fn verify_identity(has_bearer: bool, decoded: Option<Claims>, now: u64) -> (r: Result<
    Claims,
    AuthError,
>)
    ensures
        !has_bearer ==> r == Err::<Claims, AuthError>(AuthError::MissingCredentials),
        has_bearer && decoded is None ==> r == Err::<Claims, AuthError>(AuthError::InvalidToken),
        has_bearer && decoded is Some ==> r == if now < decoded->0.exp {
            Ok::<Claims, AuthError>(decoded->0)
        } else {
            Err(AuthError::ExpiredToken)
        },
{
    if !has_bearer {
        return Err(AuthError::MissingCredentials);
    }
    match decoded {
        None => Err(AuthError::InvalidToken),
        Some(c) => {
            if c.is_live(now) {
                Ok(c)
            } else {
                Err(AuthError::ExpiredToken)
            }
        },
    }
}

} // verus!
