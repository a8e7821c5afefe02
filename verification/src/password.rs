//! Password hashing with a declared salt policy.
//!
//! A password value is bound to a policy type: one policy grants fixed-salt
//! hashing, which is deterministic and meant for reproducible fixtures; a
//! separate policy grants random-salt hashing, the production path for new
//! credentials. Keeping the two apart at the type level stops a caller from
//! hashing a live secret deterministically by accident. Verification reads
//! the cost and salt back out of the stored hash, so it needs no policy.

use vstd::prelude::*;

verus! {

/// The bcrypt hash string (version `2b` form) of a password under a cost
/// and a 16-byte salt, as the `bcrypt` crate formats it. A function of its
/// three arguments alone; its value is never stated here.
pub uninterp spec fn bcrypt_hash_of(pw: Seq<char>, cost: u32, salt: Seq<u8>) -> Seq<char>;

/// What `bcrypt::verify` answers for a password against a stored hash:
/// `None` where the stored hash cannot be read back, otherwise whether the
/// password matches. A function of its two arguments alone.
pub uninterp spec fn bcrypt_verify_of(pw: Seq<char>, hash: Seq<char>) -> Option<bool>;

/// A hashing-layer fault; surfaced to callers as a server fault.
#[derive(Debug, PartialEq, Eq, Structural, Clone, Copy)]
pub enum HashError {
    /// The hash call itself refused (a cost outside 4..=31, or a stored
    /// hash that cannot be read back).
    HashFailure,
    /// The randomness source yielded no salt; never silently replaced by a
    /// fixed salt.
    RandomSourceFailure,
}

/// The modular-crypt frame of a version `2b` hash string: 60 characters,
/// the `$2b$` tag, the two-digit cost, then `$` and the base64 of salt and
/// digest. The hash describes itself, so verification needs no policy.
pub open spec fn bcrypt_frame(h: Seq<char>, cost: u32) -> bool {
    &&& h.len() == 60
    &&& h[0] == '$'
    &&& h[1] == '2'
    &&& h[2] == 'b'
    &&& h[3] == '$'
    &&& (h[4] as u32) == 0x30 + cost / 10
    &&& (h[5] as u32) == 0x30 + cost % 10
    &&& h[6] == '$'
}

/// Relies on `bcrypt::hash_with_salt` and the version `2b` formatting of
/// its result: deterministic in password, cost and salt; succeeds exactly
/// when the cost lies in 4..=31; the result carries the modular-crypt
/// frame with the given cost; and `bcrypt::verify` answers true for the
/// same password against the hash it returns.
#[verifier::external_body]
fn bcrypt_hash_with_salt(password: &str, cost: u32, salt: &[u8; 16]) -> (r: Option<String>)
    ensures
        r is Some <==> 4 <= cost <= 31,
        r is Some ==> r->0@ == bcrypt_hash_of(password@, cost, salt@),
        r is Some ==> bcrypt_frame(r->0@, cost),
        r is Some ==> bcrypt_verify_of(password@, bcrypt_hash_of(password@, cost, salt@)) == Some(
            true,
        ),
{
    match bcrypt::hash_with_salt(password, cost, *salt) {
        Ok(parts) => Some(parts.format_for_version(bcrypt::Version::TwoB)),
        Err(_) => None,
    }
}

/// Relies on `bcrypt::verify`: deterministic in password and stored hash;
/// it errs exactly where the stored hash cannot be read back or carries a
/// cost outside 4..=31, and otherwise recomputes the hash under the
/// embedded cost and salt and compares the digests in constant time.
#[verifier::external_body]
fn bcrypt_verify(password: &str, hash: &str) -> (r: Option<bool>)
    ensures
        r == bcrypt_verify_of(password@, hash@),
{
    bcrypt::verify(password, hash).ok()
}

/// Relies on `getrandom::fill`: 16 bytes from the operating system's
/// randomness source, or `None` where that source fails. Nothing is
/// promised of the bytes drawn.
#[verifier::external_body]
fn random_salt() -> (r: Option<[u8; 16]>)
{
    let mut salt = [0u8; 16];
    match getrandom::fill(&mut salt) {
        Ok(_) => Some(salt),
        Err(_) => None,
    }
}

/// A password bound to some salt policy.
pub trait PasswordProperties {

}

/// A policy that fixes cost and salt: hashing under it is deterministic.
pub trait PasswordWithSalt: PasswordProperties {
    spec fn spec_cost() -> u32;

    spec fn spec_salt() -> Seq<u8>;

    fn cost() -> (c: u32)
        ensures
            c == Self::spec_cost(),
    ;

    fn salt() -> (s: [u8; 16])
        ensures
            s@ == Self::spec_salt(),
    ;
}

/// A policy that fixes the cost and draws a fresh salt on every call.
pub trait PasswordWithRandomSalt: PasswordProperties {
    spec fn spec_random_cost() -> u32;

    fn random_cost() -> (c: u32)
        ensures
            c == Self::spec_random_cost(),
    ;
}

/// A password string carrying its policy as a type parameter.
#[derive(Debug)]
pub struct StringPassword<P: PasswordProperties> {
    pub value: String,
    pub _mark: core::marker::PhantomData<P>,
}

impl<P: PasswordProperties> StringPassword<P> {
    pub fn new(value: String) -> (r: Self)
        ensures
            r.value == value,
    {
        StringPassword { value, _mark: core::marker::PhantomData }
    }
}

impl<P: PasswordWithSalt> StringPassword<P> {
    /// Deterministic hash under the policy's fixed cost and salt: two calls
    /// on the same password return the same string, and the result verifies
    /// against the password.
    pub fn hash_with_salt(&self) -> (r: Result<String, HashError>)
        ensures
            r is Ok <==> 4 <= P::spec_cost() <= 31,
            r is Ok ==> r->Ok_0@ == bcrypt_hash_of(self.value@, P::spec_cost(), P::spec_salt()),
            r is Ok ==> bcrypt_frame(r->Ok_0@, P::spec_cost()),
            r is Ok ==> bcrypt_verify_of(self.value@, r->Ok_0@) == Some(true),
            r is Err ==> r->Err_0 == HashError::HashFailure,
    {
        let salt = P::salt();
        match bcrypt_hash_with_salt(self.value.as_str(), P::cost(), &salt) {
            Some(h) => Ok(h),
            None => Err(HashError::HashFailure),
        }
    }
}

impl<P: PasswordWithRandomSalt> StringPassword<P> {
    /// Hash under a salt drawn fresh from the randomness source; fails
    /// cleanly when that source does, never falling back to a fixed salt.
    /// Whatever salt was drawn, the result verifies against the password;
    /// a policy whose cost lies outside 4..=31 is refused on every call.
    pub fn hash_with_random_salt(&self) -> (r: Result<String, HashError>)
        ensures
            r is Ok ==> bcrypt_verify_of(self.value@, r->Ok_0@) == Some(true),
            r is Ok ==> bcrypt_frame(r->Ok_0@, P::spec_random_cost()),
            r is Ok ==> (exists|salt: Seq<u8>|
                r->Ok_0@ == bcrypt_hash_of(self.value@, P::spec_random_cost(), salt)),
            r is Err ==> (r->Err_0 == HashError::RandomSourceFailure || (r->Err_0
                == HashError::HashFailure && !(4 <= P::spec_random_cost() <= 31))),
            !(4 <= P::spec_random_cost() <= 31) ==> r is Err,
    {
        let salt = match random_salt() {
            Some(s) => s,
            None => {
                return Err(HashError::RandomSourceFailure);
            },
        };
        match bcrypt_hash_with_salt(self.value.as_str(), P::random_cost(), &salt) {
            Some(h) => Ok(h),
            None => Err(HashError::HashFailure),
        }
    }
}

/// Whether `password` matches `stored_hash`. The stored hash describes
/// itself (algorithm tag, cost, salt), so no policy is needed; the answer
/// is exactly what [`bcrypt_verify_of`] says, and an error comes exactly
/// where the stored hash cannot be read back.
pub fn verify_password(password: &str, stored_hash: &str) -> (r: Result<bool, HashError>)
    ensures
        r is Ok <==> bcrypt_verify_of(password@, stored_hash@) is Some,
        r is Ok ==> r->Ok_0 == bcrypt_verify_of(password@, stored_hash@)->0,
        r is Err ==> r->Err_0 == HashError::HashFailure,
{
    match bcrypt_verify(password, stored_hash) {
        Some(b) => Ok(b),
        None => Err(HashError::HashFailure),
    }
}

/// Fixed-salt hashing is deterministic: the contract of
/// [`StringPassword::hash_with_salt`] pins its result to
/// [`bcrypt_hash_of`], a function of password, cost and salt alone, so any
/// two hashes of one password under one policy are the same string.
pub proof fn lemma_fixed_salt_hash_deterministic(
    h1: Seq<char>,
    h2: Seq<char>,
    pw: Seq<char>,
    cost: u32,
    salt: Seq<u8>,
)
    requires
        h1 == bcrypt_hash_of(pw, cost, salt),
        h2 == bcrypt_hash_of(pw, cost, salt),
    ensures
        h1 == h2,
{
}

} // verus!
