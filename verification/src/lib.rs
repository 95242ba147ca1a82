//! An ordered todo list and the account rules that guard it.
//!
//! The heart of the crate is the ordering engine in [`todos`]: every item
//! carries an integer position, a larger position is shown first, and every
//! reordering is applied to the store as one indivisible batch.  [`users`]
//! holds the registration form rules and the password handling.

pub mod todos;
pub mod users;
