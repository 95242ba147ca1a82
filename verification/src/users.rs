//! Accounts: the registration form and its rules, password hashing and the
//! session cookie.

pub mod crypto;
pub mod model;
pub mod templates;
