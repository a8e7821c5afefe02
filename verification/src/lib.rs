//! Verified core of a small token-based authentication backend.
//!
//! The library covers password hashing policy (bcrypt with fixed or random
//! salt), symmetric key material, issuing and verifying signed bearer tokens,
//! and the request-authorization decisions that gate protected routes.

pub mod auth;
pub mod base64url;
pub mod claims;
pub mod database;
pub mod decimal;
pub mod jsonesc;
pub mod keys;
pub mod password;
pub mod strutil;
pub mod token;
pub mod user;
