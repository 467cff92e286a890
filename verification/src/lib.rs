//! The core of a browser companion backend: federated login, signed session
//! credentials, the guard of the protected routes, the conversation ledger and the
//! relay that streams a language-model completion to the client.
//!
//! Everything here works on plain values. Network, storage and clock stay with
//! the caller, who hands their results in and performs what the library decides.

pub mod text;
pub mod user;
pub mod session;
pub mod requests;
pub mod identity;
pub mod auth;
pub mod ledger;
pub mod completion;
