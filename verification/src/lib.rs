//! A multi-protocol account authentication core: a player roster with a
//! uniform mutation policy (dedup, disambiguation, selection), a registry of
//! third-party identity servers, and the decision logic of the login flows
//! that feed the roster — offline, OAuth device-authorization, password grant
//! and a cookie-session flow with CSRF/XSRF handling.
//!
//! Network and file I/O live outside this crate; every function here computes
//! over plain values and carries a contract.

pub mod account;
pub mod cauc;
pub mod error;
pub mod models;
pub mod openlist;
pub mod text;
pub mod urls;
