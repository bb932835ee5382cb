//! User accounts: password hashes, the check of a login, and the first user.
use vstd::prelude::*;
use crate::config::User;

verus! {

/// Whether argon2 accepts `password` against the PHC string `hash`: the string
/// parses as a password hash and the password, hashed with the algorithm,
/// version, parameters and salt that it names, gives its output.
pub uninterp spec fn argon2_accepts(password: Seq<char>, hash: Seq<char>) -> bool;

/// Whether `PasswordHash::new` parses `hash` as a PHC string
/// (`$<algorithm>[$v=<version>][$<params>][$<salt>[$<hash>]]`).
pub uninterp spec fn phc_parses(hash: Seq<char>) -> bool;

/// The most characters a password may have to be hashed: argon2 refuses a
/// password of more than `0xFFFF_FFFF` bytes, and a character takes at most four.
pub open spec fn hashable_len() -> nat {
    0x3FFF_FFFF
}

/// `PasswordHash::new` on `hash`, then `PasswordVerifier::verify_password` of
/// `Argon2::default()` with the password's bytes: the result is argon2's verdict
/// on the two strings and on nothing else (the parameters used are those written
/// in the hash). A hash string whose memory cost exceeds the machine's memory
/// makes the computation fail to allocate; that is not stated here.
#[verifier::external_body]
fn argon2_verify(password: &str, hash: &str) -> (r: bool)
    ensures
        r == argon2_accepts(password@, hash@),
{
    match argon2::PasswordHash::new(hash) {
        Ok(parsed) => argon2::PasswordVerifier::verify_password(
            &argon2::Argon2::default(),
            password.as_bytes(),
            &parsed,
        ).is_ok(),
        Err(_) => false,
    }
}

/// `PasswordHash::new(hash).is_ok()`: whether the string parses as a PHC string.
/// A string that does not parse is one that argon2 accepts no password against:
/// the verification above starts with the same `PasswordHash::new` and answers
/// false when it fails.
#[verifier::external_body]
fn phc_parse_ok(hash: &str) -> (r: bool)
    ensures
        r == phc_parses(hash@),
        !r ==> forall|p: Seq<char>| !#[trigger] argon2_accepts(p, hash@),
{
    argon2::PasswordHash::new(hash).is_ok()
}

/// `SaltString::generate` with `OsRng`, then `PasswordHasher::hash_password` of
/// `Argon2::default()`, written out as a PHC string. The salt is random, so only
/// this is stated: a hash it returns is one that argon2 accepts the same password
/// against (the verification recomputes the output with the salt and parameters
/// the string records, as the crate's documentation shows).
/// It succeeds whatever the salt: `SaltString::generate` always makes a valid
/// salt (a failing random source panics rather than returning), the default
/// parameters are valid, and argon2's only remaining check on the inputs refuses
/// passwords of more than `0xFFFF_FFFF` bytes (`MAX_PWD_LEN`).
#[verifier::external_body]
fn argon2_hash(password: &str) -> (r: Result<String, String>)
    ensures
        r matches Ok(h) ==> argon2_accepts(password@, h@),
        password@.len() <= hashable_len() ==> r is Ok,
{
    let salt = argon2::password_hash::SaltString::generate(
        &mut argon2::password_hash::rand_core::OsRng,
    );
    match argon2::PasswordHasher::hash_password(&argon2::Argon2::default(), password.as_bytes(), &salt) {
        Ok(h) => Ok(h.to_string()),
        Err(e) => Err(e.to_string()),
    }
}

/// Why an account operation was refused.
#[derive(Clone, Debug)]
pub enum AccountError {
    /// The password could not be hashed.
    InvalidInput(String),
    /// The first user can only be created while there is none.
    UsersExist,
}

/// The hash to store for a new password; hashing succeeds for every password
/// of at most `hashable_len()` characters.
pub fn hash_password(password: &str) -> (r: Result<String, AccountError>)
    ensures
        r matches Ok(h) ==> argon2_accepts(password@, h@),
        password@.len() <= hashable_len() ==> r is Ok,
        r matches Err(e) ==> e is InvalidInput,
{
    match argon2_hash(password) {
        Ok(h) => Ok(h),
        Err(e) => Err(AccountError::InvalidInput(e)),
    }
}

/// Whether `password` matches a stored hash; a string that is no PHC hash
/// matches no password.
pub fn verify_password(password: &str, hash: &str) -> (r: bool)
    ensures
        r == argon2_accepts(password@, hash@),
        !phc_parses(hash@) ==> !r,
{
    if !phc_parse_ok(hash) {
        return false;
    }
    argon2_verify(password, hash)
}

/// A login succeeds when the user has a stored hash and the password matches it.
pub open spec fn login_accepted(stored_hash: Option<String>, password: Seq<char>) -> bool {
    match stored_hash {
        Some(h) => argon2_accepts(password, h@),
        None => false,
    }
}

/// Whether a login with `password` succeeds for a user whose stored hash is
/// `stored_hash` (none for an unknown user).
pub fn check_login(stored_hash: &Option<String>, password: &str) -> (r: bool)
    ensures
        r == login_accepted(*stored_hash, password@),
{
    match stored_hash {
        Some(h) => verify_password(password, h.as_str()),
        None => false,
    }
}

/// A password logs in against the hash stored for it.
pub proof fn lemma_stored_password_logs_in(password: Seq<char>, stored: String)
    requires
        argon2_accepts(password, stored@),
    ensures
        login_accepted(Some(stored), password),
{
}

/// The first user may be created only while no user exists.
pub fn may_create_initial_user(existing_users: i64) -> (r: Result<(), AccountError>)
    ensures
        r is Ok <==> existing_users <= 0,
        r matches Err(e) ==> e is UsersExist,
{
    if existing_users > 0 {
        Err(AccountError::UsersExist)
    } else {
        Ok(())
    }
}

/// The user record created for a new account: an administrator.
pub fn new_admin_user(id: i64, username: &str) -> (r: User)
    ensures
        r.id == id,
        r.username@ == username@,
        r.role@ == "admin"@,
{
    User { id, username: username.to_owned(), role: String::from_str("admin") }
}

} // verus!
