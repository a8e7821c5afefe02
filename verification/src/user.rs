//! The user record and the decisions of the user routes.
//!
//! Creating a user hashes the password under the user policy (random salt,
//! cost 12) and stores the record; querying picks one of three lookups
//! from the optional id and name parameters. The store itself is outside
//! this library; these are the decisions it is driven by.

use vstd::prelude::*;

use crate::password::PasswordProperties;
use crate::password::PasswordWithRandomSalt;
use crate::password::PasswordWithSalt;
use crate::password::StringPassword;

verus! {

/// A row of the user table. The creation instant is carried as Unix
/// seconds; the store's driver converts at its edge.
#[derive(Debug)]
pub struct User {
    pub id: i32,
    pub name: String,
    pub password_hash: String,
    pub created_at: i64,
}

/// The hashing policy of user passwords: cost 12; a fixed 16-byte salt for
/// reproducible fixtures, a fresh random salt for live credentials.
#[derive(Debug)]
pub struct UserPasswordProperties;

impl PasswordProperties for UserPasswordProperties {

}

impl PasswordWithSalt for UserPasswordProperties {
    open spec fn spec_cost() -> u32 {
        12
    }

    open spec fn spec_salt() -> Seq<u8> {
        seq![3u8, 1u8, 4u8, 1u8, 5u8, 9u8, 2u8, 6u8, 5u8, 3u8, 5u8, 8u8, 9u8, 7u8, 9u8, 3u8]
    }

    fn cost() -> (c: u32) {
        12
    }

    fn salt() -> (s: [u8; 16]) {
        let s: [u8; 16] = [3, 1, 4, 1, 5, 9, 2, 6, 5, 3, 5, 8, 9, 7, 9, 3];
        proof {
            assert(s@ =~= Self::spec_salt());
        }
        s
    }
}

impl PasswordWithRandomSalt for UserPasswordProperties {
    open spec fn spec_random_cost() -> u32 {
        Self::spec_cost()
    }

    fn random_cost() -> (c: u32) {
        12
    }
}

/// A user password is a string bound to that policy.
pub type UserPassword = StringPassword<UserPasswordProperties>;

/// Which lookup a user query runs, picked from the optional parameters.
pub enum UserQuery {
    ByIdAndName(String, String),
    ById(String),
    ByName(String),
    Empty,
}

/// The lookup for the given parameters: both, one, or none.
pub fn user_query_plan(id: Option<String>, name: Option<String>) -> (r: UserQuery)
    ensures
        id is Some && name is Some ==> (r is ByIdAndName && r->ByIdAndName_0@ == id->0@
            && r->ByIdAndName_1@ == name->0@),
        id is Some && name is None ==> (r is ById && r->ById_0@ == id->0@),
        id is None && name is Some ==> (r is ByName && r->ByName_0@ == name->0@),
        id is None && name is None ==> r is Empty,
{
    match (id, name) {
        (Some(id), Some(name)) => UserQuery::ByIdAndName(id, name),
        (Some(id), None) => UserQuery::ById(id),
        (None, Some(name)) => UserQuery::ByName(name),
        (None, None) => UserQuery::Empty,
    }
}

impl UserQuery {
    /// The statement the store runs for this lookup; none for the empty
    /// lookup, which answers an empty list without touching the store.
    pub fn sql(&self) -> (r: Option<&str>)
        ensures
            self is ByIdAndName ==> (r is Some && r->0@
                == "SELECT id, name, password_hash, created_at FROM user WHERE id=? AND name=?"@),
            self is ById ==> (r is Some && r->0@
                == "SELECT id, name, password_hash, created_at FROM user WHERE id=?"@),
            self is ByName ==> (r is Some && r->0@
                == "SELECT id, name, password_hash, created_at FROM user WHERE name=?"@),
            self is Empty ==> r is None,
    {
        match self {
            UserQuery::ByIdAndName(_, _) => Some(
                "SELECT id, name, password_hash, created_at FROM user WHERE id=? AND name=?",
            ),
            UserQuery::ById(_) => Some(
                "SELECT id, name, password_hash, created_at FROM user WHERE id=?",
            ),
            UserQuery::ByName(_) => Some(
                "SELECT id, name, password_hash, created_at FROM user WHERE name=?",
            ),
            UserQuery::Empty => None,
        }
    }
}

} // verus!
