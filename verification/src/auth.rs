//! The authorization decisions behind the two routes.
//!
//! Login: reject an empty password outright, pick the credential lookup by
//! id or by name, check the password against the stored hash, and issue a
//! one-hour token. A failed lookup answers exactly like a wrong token, so a
//! caller cannot probe which names exist.
//!
//! Protected routes: take the `Authorization` header, demand the `Bearer`
//! scheme, verify the token, and collapse every verification failure into
//! one answer so nothing leaks about why a token was refused.

use vstd::prelude::*;
use vstd::utf8::encode_utf8;

use crate::claims::claims_display_bytes;
use crate::claims::fmt_exp_of;
use crate::claims::Claims;
use crate::claims::ClaimsView;
use crate::keys::Keys;
use crate::password::bcrypt_verify_of;
use crate::password::verify_password;
use crate::strutil::string_from_utf8;
use crate::token::check_token;
use crate::token::issue_at;
use crate::token::now_unix;
use crate::token::token_of;
use crate::token::verify_token;

verus! {

/// How a request fails; each pairs with one status and one message.
#[derive(Debug, PartialEq, Eq, Structural, Clone, Copy)]
pub enum AuthError {
    /// The password did not match the stored credential.
    WrongCredentials,
    /// The password field was empty.
    MissingCredentials,
    /// The server could not build the token.
    TokenCreation,
    /// Any failure of token verification, and a failed credential lookup:
    /// the cases are collapsed on purpose.
    InvalidToken,
    /// No bearer token and no usable identity on the request.
    MissingToken,
    /// The hashing layer itself failed (a stored hash that cannot be read
    /// back): a server fault, never reported as wrong credentials, and
    /// answered with a generic message.
    HashFailure,
}

pub open spec fn spec_status(e: AuthError) -> int {
    match e {
        AuthError::WrongCredentials => 401,
        AuthError::MissingCredentials => 400,
        AuthError::TokenCreation => 500,
        AuthError::InvalidToken => 400,
        AuthError::MissingToken => 400,
        AuthError::HashFailure => 500,
    }
}

pub open spec fn spec_message(e: AuthError) -> Seq<char> {
    match e {
        AuthError::WrongCredentials => "Wrong credentials"@,
        AuthError::MissingCredentials => "Missing credentials"@,
        AuthError::TokenCreation => "Token creation error"@,
        AuthError::InvalidToken => "Invalid token"@,
        AuthError::MissingToken => "Missing token"@,
        AuthError::HashFailure => "Internal error"@,
    }
}

impl AuthError {
    /// The HTTP status this error answers with.
    pub fn status_code(&self) -> (s: u16)
        ensures
            s as int == spec_status(*self),
    {
        match self {
            AuthError::WrongCredentials => 401,
            AuthError::MissingCredentials => 400,
            AuthError::TokenCreation => 500,
            AuthError::InvalidToken => 400,
            AuthError::MissingToken => 400,
            AuthError::HashFailure => 500,
        }
    }

    /// The fixed client-facing message; no internal detail crosses here.
    pub fn message(&self) -> (m: String)
        ensures
            m@ == spec_message(*self),
    {
        match self {
            AuthError::WrongCredentials => String::from_str("Wrong credentials"),
            AuthError::MissingCredentials => String::from_str("Missing credentials"),
            AuthError::TokenCreation => String::from_str("Token creation error"),
            AuthError::InvalidToken => String::from_str("Invalid token"),
            AuthError::MissingToken => String::from_str("Missing token"),
            AuthError::HashFailure => String::from_str("Internal error"),
        }
    }
}

/// What a login request carries.
pub struct AuthPayload {
    pub id: Option<i32>,
    pub name: Option<String>,
    pub password: String,
}

/// A granted token, handed to the client as a bearer credential.
pub struct AuthBody {
    pub access_token: String,
    pub token_type: String,
}

impl AuthBody {
    pub fn new(access_token: String) -> (r: AuthBody)
        ensures
            r.access_token == access_token,
            r.token_type@ == "Bearer"@,
    {
        AuthBody { access_token, token_type: String::from_str("Bearer") }
    }
}

/// The lookup the credential store is asked to run.
pub enum CredentialQuery {
    ById(i32),
    ByName(String),
}

/// A stored credential, as the store hands it back.
pub struct Credential {
    pub id: i32,
    pub name: String,
    pub password_hash: String,
}

/// First step of login: an empty password is refused at once; then the id,
/// where present, names the credential, else the name; with neither there
/// is nothing to look up.
pub fn select_credential_query(payload: &AuthPayload) -> (r: Result<CredentialQuery, AuthError>)
    ensures
        payload.password@.len() == 0 ==> r == Err::<CredentialQuery, AuthError>(
            AuthError::MissingCredentials,
        ),
        payload.password@.len() > 0 && payload.id is Some ==> r == Ok::<CredentialQuery, AuthError>(
            CredentialQuery::ById(payload.id->0),
        ),
        payload.password@.len() > 0 && payload.id is None && payload.name is Some ==> (r is Ok
            && r->Ok_0 is ByName && r->Ok_0->ByName_0@ == payload.name->0@),
        payload.password@.len() > 0 && payload.id is None && payload.name is None ==> r == Err::<
            CredentialQuery,
            AuthError,
        >(AuthError::MissingToken),
{
    if payload.password.as_str().is_empty() {
        return Err(AuthError::MissingCredentials);
    }
    match payload.id {
        Some(id) => Ok(CredentialQuery::ById(id)),
        None => match &payload.name {
            Some(name) => Ok(CredentialQuery::ByName(name.clone())),
            None => Err(AuthError::MissingToken),
        },
    }
}

/// The token granted at login lives for one hour.
pub const TOKEN_TTL_SECONDS: i64 = 3600;

/// Second step of login, after the store answered. A missing credential
/// answers like a wrong token on purpose; a password mismatch answers as
/// wrong credentials; a stored hash the hashing layer cannot read is a
/// server fault, kept apart from a mismatch; a match issues a token that
/// expires one hour past `now`.
pub fn authorize_with_credential(
    keys: &Keys,
    password: &str,
    lookup: Option<Credential>,
    now: i64,
) -> (r: Result<AuthBody, AuthError>)
    ensures
        lookup is None ==> r == Err::<AuthBody, AuthError>(AuthError::InvalidToken),
        lookup is Some && bcrypt_verify_of(password@, lookup->0.password_hash@) == Some(false)
            ==> r == Err::<AuthBody, AuthError>(AuthError::WrongCredentials),
        lookup is Some && bcrypt_verify_of(password@, lookup->0.password_hash@) is None ==> r
            == Err::<AuthBody, AuthError>(AuthError::HashFailure),
        lookup is Some && bcrypt_verify_of(password@, lookup->0.password_hash@) == Some(true)
            && now + TOKEN_TTL_SECONDS <= i64::MAX ==> (r is Ok && r->Ok_0.token_type@ == "Bearer"@
            && encode_utf8(r->Ok_0.access_token@) == token_of(
            keys.secret_view(),
            (ClaimsView {
                id: lookup->0.id as int,
                name: lookup->0.name@,
                exp: now + TOKEN_TTL_SECONDS,
            }),
        )),
        lookup is Some && bcrypt_verify_of(password@, lookup->0.password_hash@) == Some(true)
            && now + TOKEN_TTL_SECONDS > i64::MAX ==> r == Err::<AuthBody, AuthError>(
            AuthError::TokenCreation,
        ),
{
    let cred = match lookup {
        Some(c) => c,
        None => {
            return Err(AuthError::InvalidToken);
        },
    };
    let matched = match verify_password(password, cred.password_hash.as_str()) {
        Ok(b) => b,
        Err(_) => {
            return Err(AuthError::HashFailure);
        },
    };
    if !matched {
        return Err(AuthError::WrongCredentials);
    }
    let exp = match now.checked_add(TOKEN_TTL_SECONDS) {
        Some(e) => e,
        None => {
            return Err(AuthError::TokenCreation);
        },
    };
    let claims = Claims { id: cred.id, name: cred.name, exp };
    let ghost cv = claims@;
    let token = issue_at(keys, &claims);
    proof {
        assert(cv =~= (ClaimsView {
            id: lookup->0.id as int,
            name: lookup->0.name@,
            exp: now + TOKEN_TTL_SECONDS,
        }));
    }
    Ok(AuthBody::new(token))
}

/// The header names the `Bearer` scheme: `Bearer ` and then the token.
pub open spec fn is_bearer(h: Seq<char>) -> bool {
    &&& h.len() >= 7
    &&& h[0] == 'B'
    &&& h[1] == 'e'
    &&& h[2] == 'a'
    &&& h[3] == 'r'
    &&& h[4] == 'e'
    &&& h[5] == 'r'
    &&& h[6] == ' '
}

/// Pulls the bearer token out of the `Authorization` header value: no
/// header is a missing token, another scheme an invalid one.
pub fn extract_bearer<'a>(header: Option<&'a str>) -> (r: Result<&'a str, AuthError>)
    ensures
        header is None ==> r == Err::<&'a str, AuthError>(AuthError::MissingToken),
        header is Some && !is_bearer(header->0@) ==> r == Err::<&'a str, AuthError>(
            AuthError::InvalidToken,
        ),
        header is Some && is_bearer(header->0@) ==> (r is Ok && r->Ok_0@ == header->0@.skip(7)),
{
    let h = match header {
        Some(h) => h,
        None => {
            return Err(AuthError::MissingToken);
        },
    };
    let n = h.unicode_len();
    if n < 7 {
        return Err(AuthError::InvalidToken);
    }
    if h.get_char(0) != 'B' || h.get_char(1) != 'e' || h.get_char(2) != 'a' || h.get_char(3) != 'r'
        || h.get_char(4) != 'e' || h.get_char(5) != 'r' || h.get_char(6) != ' ' {
        return Err(AuthError::InvalidToken);
    }
    let token = h.substring_char(7, n);
    proof {
        assert(token@ =~= h@.skip(7));
    }
    Ok(token)
}

/// The per-request gate: header to claims, or one uniform rejection.
/// Expired, forged and malformed tokens are indistinguishable to the
/// caller.
pub fn authorize_request(keys: &Keys, header: Option<&str>, now: i64) -> (r: Result<
    Claims,
    AuthError,
>)
    ensures
        header is None ==> r == Err::<Claims, AuthError>(AuthError::MissingToken),
        header is Some && !is_bearer(header->0@) ==> r == Err::<Claims, AuthError>(
            AuthError::InvalidToken,
        ),
        header is Some && is_bearer(header->0@) ==> {
            let verdict = check_token(
                keys.secret_view(),
                encode_utf8(header->0@.skip(7)),
                now as int,
            );
            &&& r is Ok <==> verdict is Ok
            &&& r is Ok ==> verdict == Ok::<ClaimsView, crate::token::TokenError>(r->Ok_0@)
            &&& r is Err ==> r->Err_0 == AuthError::InvalidToken
        },
{
    let token = match extract_bearer(header) {
        Ok(t) => t,
        Err(e) => {
            return Err(e);
        },
    };
    match verify_token(keys, token, now) {
        Ok(c) => Ok(c),
        Err(_) => Err(AuthError::InvalidToken),
    }
}

/// What the protected route answers: a fixed welcome and the claims,
/// line by line. `None` only where the expiry cannot be placed in a
/// calendar; the route reports that as a server fault.
pub fn protected(claims: &Claims) -> (r: Option<String>)
    ensures
        r is Some <==> fmt_exp_of(claims.exp as int) is Some,
        r is Some ==> encode_utf8(r->0@) == encode_utf8(
            "Welcome to the protected area :)\nYour data:\n"@,
        ) + claims_display_bytes(claims@),
{
    let body = match claims.display_string() {
        Some(b) => b,
        None => {
            return None;
        },
    };
    let mut out: Vec<u8> = Vec::new();
    let mut w = "Welcome to the protected area :)\nYour data:\n".as_bytes_vec();
    out.append(&mut w);
    let mut b = body.as_str().as_bytes_vec();
    out.append(&mut b);
    proof {
        vstd::utf8::encode_utf8_valid_utf8("Welcome to the protected area :)\nYour data:\n"@);
        vstd::utf8::encode_utf8_valid_utf8(body@);
        vstd::utf8::valid_utf8_concat(
            encode_utf8("Welcome to the protected area :)\nYour data:\n"@),
            encode_utf8(body@),
        );
        assert(out@ =~= encode_utf8("Welcome to the protected area :)\nYour data:\n"@)
            + encode_utf8(body@));
    }
    let ghost bytes = out@;
    match string_from_utf8(out) {
        Some(s) => {
            proof {
                vstd::utf8::decode_utf8_encode_utf8(bytes);
            }
            Some(s)
        },
        None => {
            proof {
                assert(false);
            }
            None
        },
    }
}

} // verus!
