use vstd::prelude::*;

use crate::error::AppError;

verus! {

/// The PHC string that Argon2 with its default parameters makes of a
/// password, salted with the base64 form of a secret; `None` where the salt
/// or the hashing is refused.
pub uninterp spec fn argon2_phc(password: Seq<char>, secret: Seq<char>) -> Option<Seq<char>>;

/// The shortest salt secret, in characters, that is hashed at all. A
/// secret of three characters has at least three bytes, whose base64 form
/// has the four characters that a salt string must have.
pub const MIN_SECRET_CHARS: usize = 3;

/// The digest that `hash` makes: none for a secret shorter than
/// `MIN_SECRET_CHARS`, else what Argon2 makes.
pub open spec fn digest_of(password: Seq<char>, secret: Seq<char>) -> Option<Seq<char>> {
    if secret.len() < MIN_SECRET_CHARS {
        None
    } else {
        argon2_phc(password, secret)
    }
}

/// Relies on argon2: `SaltString::encode_b64` of the secret's bytes, then
/// `Argon2::default().hash_password` of the password's bytes, written out by
/// `to_string`. Both steps report failure by `Err` and depend on their
/// arguments alone. A secret under three bytes gives a salt string under
/// four characters, which `hash_password` unwraps into a `Salt` and panics
/// on; such secrets are left out.
#[verifier::external_body]
fn argon2_hash(password: &str, secret: &str) -> (r: Option<String>)
    requires
        secret@.len() >= MIN_SECRET_CHARS,
    ensures
        r is Some <==> argon2_phc(password@, secret@) is Some,
        r matches Some(h) ==> argon2_phc(password@, secret@) == Some(h@),
{
    let salt = argon2::password_hash::SaltString::encode_b64(secret.as_bytes()).ok()?;
    let argon = argon2::Argon2::default();
    let hashed = argon2::PasswordHasher::hash_password(&argon, password.as_bytes(), &salt).ok()?;
    Some(hashed.to_string())
}

/// The credential digest of `password` under the salt secret `secret`;
/// `Internal` where the secret is shorter than `MIN_SECRET_CHARS` or Argon2
/// refuses them.
pub fn hash(password: &String, secret: &String) -> (r: Result<String, AppError>)
    ensures
        r is Err <==> digest_of(password@, secret@) is None,
        r matches Err(e) ==> e == AppError::Internal,
        r matches Ok(h) ==> digest_of(password@, secret@) == Some(h@),
{
    if secret.as_str().unicode_len() < MIN_SECRET_CHARS {
        return Err(AppError::Internal);
    }
    match argon2_hash(password.as_str(), secret.as_str()) {
        Some(h) => Ok(h),
        None => Err(AppError::Internal),
    }
}

} // verus!
