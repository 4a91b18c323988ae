//! Account authentication and secret storage for a local application:
//! username and password policy, salted and peppered password hashing,
//! sign-up, login and password change over an account table, and a vault of
//! third-party credentials sealed under a key derived from the account's
//! password.

pub mod status;
pub mod text;
pub mod policy;
pub mod hasher;
pub mod cipher;
pub mod store;
pub mod account;
pub mod laws;
pub mod vault;
pub mod state;
