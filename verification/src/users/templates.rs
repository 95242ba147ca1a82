//! The registration form as plain data.

use vstd::prelude::*;

verus! {

/// The registration form: what the visitor typed, and what is wrong with
/// it.  The two error texts are empty until the form has been validated.
#[derive(Debug)]
pub struct UserForm {
    pub email: String,
    pub password: String,
    pub password_confirmation: String,
    pub password_errors: String,
    pub email_errors: String,
}

} // verus!
