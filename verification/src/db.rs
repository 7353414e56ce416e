//! Password hashing for offline accounts (Argon2id) and where the account
//! database lives. The database itself is opened and written by the
//! program around the library.
use vstd::prelude::*;

use argon2::password_hash::{PasswordHash, PasswordHasher, PasswordVerifier, SaltString};
use rand_core::RngCore;

use crate::text::{join_path, path_join, starts_with, string_of, to_chars};

verus! {

/// The database file name.
pub const DB_FILE: &'static str = "rustlauncher.db";

/// The database path: next to the running executable when its directory is
/// known (portable layout), else in the launcher home.
pub fn db_path(home_dir: &str, exe_dir: Option<&str>) -> (r: String)
    ensures
        r@ == path_join(
            match exe_dir {
                Some(d) => d@,
                None => home_dir@,
            },
            DB_FILE@,
        ),
{
    match exe_dir {
        Some(d) => join_path(d, DB_FILE),
        None => join_path(home_dir, DB_FILE),
    }
}

/// Whether Argon2 (default parameters) accepts `password` against the PHC
/// string `hash`: false when the string does not parse. The verdict depends
/// on the two arguments alone; it is named here, not stated.
pub uninterp spec fn argon2_verifies(password: Seq<u8>, hash: Seq<char>) -> bool;

/// Why a password could not be hashed.
#[derive(Debug, Clone, Copy, PartialEq, Eq, Structural)]
pub enum HashError {
    /// Argon2 refused the input (the message of its error is not kept).
    Failed,
}

/// The PHC string `Argon2::default().hash_password` gives for `password`
/// with the salt `salt` (B64), or `None` when the salt does not parse or
/// Argon2 refuses the input; it depends on the two arguments alone and is
/// named here, not stated.
pub uninterp spec fn argon2_phc(password: Seq<u8>, salt: Seq<char>) -> Option<Seq<char>>;

/// A fresh random 16-byte salt, B64-encoded as `SaltString::encode_b64`
/// gives it, from the operating system's random source
/// (`OsRng::try_fill_bytes`); `None` when that source fails. The salt is
/// random: nothing is stated of it.
#[verifier::external_body]
fn random_salt() -> (r: Option<String>) {
    let mut bytes = [0u8; 16];
    match rand_core::OsRng.try_fill_bytes(&mut bytes) {
        Ok(()) => SaltString::encode_b64(&bytes).ok().map(|s| s.as_str().to_string()),
        Err(_) => None,
    }
}

/// `Argon2::default().hash_password` of `password` with the B64 salt
/// `salt` (read by `SaltString::from_b64`), as a PHC string; an error when
/// the salt does not parse or Argon2 refuses the input. A hash starts with
/// `$argon2id$` (the default algorithm's identifier) and verifies against
/// the same password.
#[verifier::external_body]
fn argon2_hash(password: &[u8], salt: &str) -> (r: Result<String, HashError>)
    ensures
        match r {
            Ok(h) => argon2_phc(password@, salt@) == Some(h@) && starts_with(h@, "$argon2id$"@)
                && argon2_verifies(password@, h@),
            Err(e) => e == HashError::Failed && argon2_phc(password@, salt@) is None,
        },
{
    let salt = match SaltString::from_b64(salt) {
        Ok(s) => s,
        Err(_) => return Err(HashError::Failed),
    };
    match argon2::Argon2::default().hash_password(password, &salt) {
        Ok(h) => Ok(h.to_string()),
        Err(_) => Err(HashError::Failed),
    }
}

/// `PasswordHash::new` followed by `Argon2::default().verify_password`:
/// false when the hash does not parse or the password does not match. A
/// PHC string starts with `$`: `PasswordHash::new` refuses an empty string
/// and one whose first field is not empty before anything else.
#[verifier::external_body]
fn argon2_verify(password: &[u8], hash: &str) -> (r: bool)
    ensures
        r == argon2_verifies(password@, hash@),
        !(hash@.len() > 0 && hash@[0] == '$') ==> !r,
{
    match PasswordHash::new(hash) {
        Ok(parsed) => argon2::Argon2::default().verify_password(password, &parsed).is_ok(),
        Err(_) => false,
    }
}

/// The bytes a password is hashed as: its UTF-8 encoding.
pub open spec fn password_bytes(password: Seq<char>) -> Seq<u8> {
    vstd::utf8::encode_utf8(password)
}

/// Hash a password with Argon2id and a salt drawn beforehand (`None` when
/// no salt could be drawn): the PHC string Argon2 gives for the password's
/// UTF-8 bytes and that salt, or an error when there is no salt or Argon2
/// refuses.
pub fn hash_password_with_salt(password: &str, salt: Option<String>) -> (r: Result<String, HashError>)
    ensures
        match salt {
            None => r == Err::<String, HashError>(HashError::Failed),
            Some(s) => match argon2_phc(password_bytes(password@), s@) {
                Some(h) => r matches Ok(x) && x@ == h,
                None => r == Err::<String, HashError>(HashError::Failed),
            },
        },
        r matches Ok(h) ==> starts_with(h@, "$argon2id$"@) && argon2_verifies(
            password_bytes(password@),
            h@,
        ),
{
    match salt {
        Some(s) => argon2_hash(password.as_bytes(), s.as_str()),
        None => Err(HashError::Failed),
    }
}

/// Hash a password with Argon2id (random 16-byte salt, default OWASP
/// params); an error when no salt can be drawn or Argon2 refuses.
pub fn hash_password(password: &str) -> (r: Result<String, HashError>)
    ensures
        r matches Ok(h) ==> starts_with(h@, "$argon2id$"@) && argon2_verifies(
            password_bytes(password@),
            h@,
        ),
{
    hash_password_with_salt(password, random_salt())
}

/// Verify a password against a stored PHC-format Argon2id hash; a string
/// that is not a PHC string (empty, or not starting with `$`) never
/// verifies.
pub fn verify_password(password: &str, hash: &str) -> (r: bool)
    ensures
        r == argon2_verifies(password_bytes(password@), hash@),
        !(hash@.len() > 0 && hash@[0] == '$') ==> !r,
{
    argon2_verify(password.as_bytes(), hash)
}

} // verus!
