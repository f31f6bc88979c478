//! Password hashing with Argon2id.
use argon2::password_hash::rand_core::OsRng;
use argon2::password_hash::{PasswordHash, PasswordHasher, PasswordVerifier, SaltString};
use argon2::{Argon2, ParamsBuilder};
use vstd::prelude::*;

verus! {

#[verifier::external_type_specification]
#[verifier::external_body]
pub struct ExArgon2<'a>(Argon2<'a>);

#[verifier::external_type_specification]
#[verifier::external_body]
pub struct ExSaltString(SaltString);

/// `PasswordHash::new` accepts the text as an encoded password hash.
pub uninterp spec fn argon2_hash_parses(hash: Seq<char>) -> bool;

/// `PasswordVerifier::verify_password` of the Argon2id instance accepts `password`
/// against the encoded hash `hash`; the algorithm, version and parameters used are
/// those the hash records.
pub uninterp spec fn argon2_verifies(password: Seq<char>, hash: Seq<char>) -> bool;

/// The hasher that `argon2id` builds: Argon2id, version 0x10, default parameters.
/// Nothing else in this module makes one.
struct DefaultArgon2 {
    inner: Argon2<'static>,
}

/// A salt that `new_salt` generated: 16 random bytes, B64-encoded. Nothing else in
/// this module makes one.
struct GeneratedSalt {
    inner: SaltString,
}

/// Largest password, in characters, whose UTF-8 encoding surely fits the
/// `argon2::MAX_PWD_LEN` of 0xFFFF_FFFF bytes (a character takes at most 4 bytes).
pub const MAX_PASSWORD_CHARS: usize = 0x3FFF_FFFF;

/// Builds `Argon2::new(Argon2id, V0x10, default parameters)`; building the
/// default parameters cannot fail.
#[verifier::external_body]
fn argon2id() -> DefaultArgon2 {
    let params = ParamsBuilder::default().build().unwrap();
    DefaultArgon2 { inner: Argon2::new(argon2::Algorithm::Argon2id, argon2::Version::V0x10, params) }
}

/// Calls `SaltString::generate` with the operating system's random source.
#[verifier::external_body]
fn new_salt() -> GeneratedSalt {
    GeneratedSalt { inner: SaltString::generate(&mut OsRng) }
}

/// Calls `PasswordHasher::hash_password` and encodes the result as a string. The
/// contract claims what the password-hash crate promises of a hash it produced:
/// the encoding parses, and verifying the same password against it succeeds. It
/// also claims success for a password of at most `MAX_PASSWORD_CHARS` characters:
/// in the argon2 source, with the default parameters (32-byte output) and a
/// generated 16-byte salt, the only error left is a password longer than
/// `MAX_PWD_LEN` bytes. Nothing is claimed of the error text, nor of which hash
/// comes back (the salt is random).
#[verifier::external_body]
fn hash_with(argon: &DefaultArgon2, password: &str, salt: &GeneratedSalt) -> (r: Result<String, String>)
    ensures
        r matches Ok(h) ==> argon2_hash_parses(h@) && argon2_verifies(password@, h@),
        password@.len() <= MAX_PASSWORD_CHARS ==> r is Ok,
{
    argon.inner.hash_password(password.as_bytes(), &salt.inner).map(|h| h.to_string()).map_err(|e| e.to_string())
}

/// Calls `PasswordHash::new` on `hash` and, when it parses, `PasswordVerifier::verify_password`.
/// The contract claims the named results; nothing is claimed of the error text.
#[verifier::external_body]
fn verify_with(argon: &DefaultArgon2, password: &str, hash: &str) -> (r: Result<bool, String>)
    ensures
        r is Ok <==> argon2_hash_parses(hash@),
        r matches Ok(b) ==> b == argon2_verifies(password@, hash@),
{
    PasswordHash::new(hash).map(|h| argon.inner.verify_password(password.as_bytes(), &h).is_ok()).map_err(
        |e| e.to_string(),
    )
}

/// Hashes and checks passwords.
pub struct Argon2Helper;

impl Argon2Helper {
    /// Hashes a password with a fresh random salt. A hash it returns verifies the
    /// same password; hashing succeeds for any password of at most
    /// `MAX_PASSWORD_CHARS` characters.
    pub fn hash_password(password: &str) -> (r: Result<String, String>)
        ensures
            r matches Ok(h) ==> argon2_hash_parses(h@) && argon2_verifies(password@, h@),
            password@.len() <= MAX_PASSWORD_CHARS ==> r is Ok,
    {
        let salt = new_salt();
        let argon = argon2id();
        hash_with(&argon, password, &salt)
    }

    /// Checks a password against an encoded hash; fails when the hash does not parse.
    pub fn verify_password(password: String, hash: String) -> (r: Result<bool, String>)
        ensures
            r is Ok <==> argon2_hash_parses(hash@),
            r matches Ok(b) ==> b == argon2_verifies(password@, hash@),
    {
        let argon = argon2id();
        verify_with(&argon, password.as_str(), hash.as_str())
    }
}

} // verus!
