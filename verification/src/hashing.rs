use vstd::prelude::*;
use argon2::PasswordHasher;
use argon2::PasswordVerifier;

verus! {

/// Whether a password agrees with a stored password-hash string: the
/// outcome of re-deriving the hash under the salt and parameters carried
/// inside the string and comparing — a pure function of the two inputs.
/// An unparseable stored string matches no password.
pub uninterp spec fn password_matches(password: Seq<char>, stored: Seq<char>) -> bool;

/// Relies on `argon2::Argon2::hash_password` with a salt drawn freshly
/// from the operating system: on success the returned hash string embeds
/// algorithm, parameters and salt, and verifying the same password
/// against it succeeds. The salt is random, so nothing else is promised
/// of the string — two calls may (and all but surely do) differ.
#[verifier::external_body]
pub fn hash_password(password: &str) -> (r: Option<String>)
    ensures
        r matches Some(h) ==> password_matches(password@, h@),
{
    let salt = argon2::password_hash::SaltString::generate(&mut rand_core::OsRng);
    match argon2::Argon2::default().hash_password(password.as_bytes(), &salt) {
        Ok(h) => Some(h.to_string()),
        Err(_) => None,
    }
}

/// Relies on `argon2::PasswordHash::new` and
/// `argon2::Argon2::verify_password`: the stored string is parsed, the
/// hash re-derived under its own parameters and compared in constant
/// time. Fails closed: a stored string that does not parse, or any
/// mismatch, is `false`; no error escapes as success.
#[verifier::external_body]
pub fn verify_password(password: &str, stored: &str) -> (r: bool)
    ensures
        r == password_matches(password@, stored@),
{
    match argon2::PasswordHash::new(stored) {
        Ok(parsed) => {
            argon2::Argon2::default().verify_password(password.as_bytes(), &parsed).is_ok()
        },
        Err(_) => false,
    }
}

} // verus!
