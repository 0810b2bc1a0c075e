//! The error taxonomy shared by every handler, and the ownership oracle.
//!
//! Authentication failures (`AuthError`) are detected before a handler runs;
//! everything else (`ServiceError`) is a handler-level outcome. Clients see a
//! status code and a short, fixed message: internal detail is never echoed.

use vstd::prelude::*;

use crate::store::Store;

verus! {

/// A handler-level failure. `Unauthorized` covers both "not the caller's own
/// account" and "not an owner of the budget"; `InvalidCredentials` is the one
/// uniform answer to a failed login, whatever its cause.
#[derive(Clone, Copy, PartialEq, Eq, Structural, Debug)]
pub enum ServiceError {
    Unauthorized,
    InvalidCredentials,
    NotFound,
    Conflict,
    BadRequest,
    DatabaseError,
    InternalServerError,
}

impl ServiceError {
    /// The HTTP status this failure is reported with.
    pub fn status_code(&self) -> (code: u16)
        ensures
            code == match self {
                ServiceError::Unauthorized => 401u16,
                ServiceError::InvalidCredentials => 401u16,
                ServiceError::NotFound => 404u16,
                ServiceError::Conflict => 409u16,
                ServiceError::BadRequest => 400u16,
                ServiceError::DatabaseError => 500u16,
                ServiceError::InternalServerError => 500u16,
            },
    {
        match self {
            ServiceError::Unauthorized => 401,
            ServiceError::InvalidCredentials => 401,
            ServiceError::NotFound => 404,
            ServiceError::Conflict => 409,
            ServiceError::BadRequest => 400,
            ServiceError::DatabaseError => 500,
            ServiceError::InternalServerError => 500,
        }
    }

    /// The fixed client-facing message; never carries internal detail.
    pub fn message(&self) -> (msg: String)
        ensures
            msg@ == match self {
                ServiceError::Unauthorized => "Unauthorized access"@,
                ServiceError::InvalidCredentials => "Invalid credentials"@,
                ServiceError::NotFound => "Not found"@,
                ServiceError::Conflict => "Conflict"@,
                ServiceError::BadRequest => "Bad request"@,
                ServiceError::DatabaseError => "Database error occurred"@,
                ServiceError::InternalServerError => "Internal server error"@,
            },
    {
        match self {
            ServiceError::Unauthorized => "Unauthorized access".to_owned(),
            ServiceError::InvalidCredentials => "Invalid credentials".to_owned(),
            ServiceError::NotFound => "Not found".to_owned(),
            ServiceError::Conflict => "Conflict".to_owned(),
            ServiceError::BadRequest => "Bad request".to_owned(),
            ServiceError::DatabaseError => "Database error occurred".to_owned(),
            ServiceError::InternalServerError => "Internal server error".to_owned(),
        }
    }
}

/// Does `user_id` own `budget_id`? An existence check against the
/// association table, the sole source of ownership truth; every budget-scoped
/// handler consults it before touching the resource.
pub fn user_owns_budget(store: &Store, user_id: i32, budget_id: i32) -> (r: bool)
    ensures
        r == crate::store::owns(store@, user_id as int, budget_id as int),
{
    let mut i: usize = 0;
    while i < store.assocs.len()
        invariant
            i <= store.assocs@.len(),
            forall|k: int|
                0 <= k < i ==> !(#[trigger] store.assocs@[k].user_id == user_id
                    && store.assocs@[k].budget_id == budget_id),
        decreases store.assocs@.len() - i,
    {
        if store.assocs[i].user_id == user_id && store.assocs[i].budget_id == budget_id {
            proof {
                assert(store@.assocs[i as int].user_id == user_id
                    && store@.assocs[i as int].budget_id == budget_id);
            }
            return true;
        }
        i = i + 1;
    }
    false
}

} // verus!
