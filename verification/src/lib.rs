//! A verified core for a personal-finance tracking service.
//!
//! The library owns everything with a decision in it: the bearer-token
//! lifecycle, the user/budget ownership rules, the per-request authorization
//! guards, the cascade deletions, and the exact-decimal expense arithmetic.
//! Persistence is modelled as an in-memory [`store::Store`]; the HTTP surface
//! around the library performs the I/O and hands plain values in and out.

pub mod amount;
pub mod auth;
pub mod budgets;
pub mod date;
pub mod digits;
pub mod expenses;
pub mod seq_util;
pub mod store;
pub mod user_budgets;
pub mod users;
pub mod utils;
