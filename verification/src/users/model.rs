//! The account and the rules of registration.

use vstd::prelude::*;
use vstd::string::StringExecFns;
use vstd::utf8::{decode_utf8, encode_utf8, is_char_boundary};
use crate::users::crypto::{
    derive_key, hex_upper, hex_upper_of, is_hex_upper_digit, key_matches, lemma_hex_upper_of,
    ordinary_lengths, pbkdf2_hmac_sha512, pbkdf2_hmac_sha512_verifies, random_salt, verify_key,
};
use crate::users::templates::UserForm;

verus! {

/// An account.  It has no id until the store has saved it.
#[derive(Debug)]
pub struct User {
    pub id: Option<i32>,
    pub email: String,
    pub password_hash: String,
    pub salt: String,
}

impl Clone for User {
    fn clone(&self) -> (copy: Self)
        ensures
            copy == *self,
    {
        User {
            id: self.id,
            email: self.email.clone(),
            password_hash: self.password_hash.clone(),
            salt: self.salt.clone(),
        }
    }
}

impl Default for User {
    fn default() -> (user: Self)
        ensures
            user.id is None,
            user.email@.len() == 0,
            user.password_hash@.len() == 0,
            user.salt@.len() == 0,
    {
        User { id: None, email: String::new(), password_hash: String::new(), salt: String::new() }
    }
}

/// The shortest password the form accepts, counted in bytes.
pub const MIN_PASSWORD_LEN: usize = 10;

/// The length of a text in bytes, as a `String` reports it: the length of
/// its UTF-8 encoding.
pub open spec fn byte_len(text: Seq<char>) -> usize {
    encode_utf8(text).len() as usize
}

/// A password is too short when it has fewer than ten bytes.
pub open spec fn too_short(password: Seq<char>) -> bool {
    byte_len(password) < MIN_PASSWORD_LEN
}

/// What is wrong with a password and its confirmation: one sentence for
/// each rule they break, joined by a comma and a space; empty if they break
/// none.
pub open spec fn password_errors_of(password: Seq<char>, confirmation: Seq<char>) -> Seq<char> {
    let short = "passwords must be at least 10 characters long"@;
    let differ = "password and password confirmation must match"@;
    if too_short(password) && password != confirmation {
        short + ", "@ + differ
    } else if too_short(password) {
        short
    } else if password != confirmation {
        differ
    } else {
        Seq::empty()
    }
}

/// What is wrong with an email address: a sentence if an account already
/// uses it, nothing otherwise.
pub open spec fn email_errors_of(email_taken: bool) -> Seq<char> {
    if email_taken {
        "A user with this email already exists"@
    } else {
        Seq::empty()
    }
}

impl UserForm {
    /// Checks the form and writes down what is wrong with it.  Whether an
    /// account already uses the email address is for the caller to find
    /// out.  Nothing the visitor typed is changed.
    pub fn validate(self, email_taken: bool) -> (checked: Self)
        ensures
            checked.email@ == self.email@,
            checked.password@ == self.password@,
            checked.password_confirmation@ == self.password_confirmation@,
            checked.password_errors@ == password_errors_of(
                self.password@,
                self.password_confirmation@,
            ),
            checked.email_errors@ == email_errors_of(email_taken),
    {
        let mut password_errors = String::new();
        let short = self.password.as_str().len() < MIN_PASSWORD_LEN;
        let differ = !(self.password == self.password_confirmation);
        if short {
            password_errors.append("passwords must be at least 10 characters long");
        }
        if short && differ {
            password_errors.append(", ");
        }
        if differ {
            password_errors.append("password and password confirmation must match");
        }
        let mut email_errors = String::new();
        if email_taken {
            email_errors.append("A user with this email already exists");
        }
        assert(password_errors@ =~= password_errors_of(
            self.password@,
            self.password_confirmation@,
        ));
        assert(email_errors@ =~= email_errors_of(email_taken));
        UserForm {
            email: self.email,
            password: self.password,
            password_confirmation: self.password_confirmation,
            password_errors,
            email_errors,
        }
    }

    /// A form is valid when nothing is written down against it.
    pub fn is_valid(&self) -> (valid: bool)
        ensures
            valid == (self.password_errors@.len() == 0 && self.email_errors@.len() == 0),
    {
        self.password_errors.as_str().is_empty() && self.email_errors.as_str().is_empty()
    }
}

/// Why an account operation did not go through.
#[derive(Clone, Copy, Debug, PartialEq, Eq, Structural)]
pub enum UserError {
    /// The system's random number generator failed.
    RandomUnavailable,
    /// The password hash is too short to take the session key from.
    NoSessionKey,
    /// The account has not been saved yet.
    NoId,
}

impl UserError {
    /// The sentence that reports the error.
    pub fn message(&self) -> (text: String)
        ensures
            text@ == match *self {
                UserError::RandomUnavailable => "failed to gather randomness"@,
                UserError::NoSessionKey => "failed to set cookie"@,
                UserError::NoId => "user has no ID"@,
            },
    {
        match self {
            UserError::RandomUnavailable => "failed to gather randomness".to_owned(),
            UserError::NoSessionKey => "failed to set cookie".to_owned(),
            UserError::NoId => "user has no ID".to_owned(),
        }
    }
}

/// The number of PBKDF2 iterations a password goes through.
pub const PBKDF2_ITERATIONS: u32 = 100_000;

/// The longest password, in bytes, that can be hashed.
pub open spec fn hashable(password: Seq<char>) -> bool {
    encode_utf8(password).len() < 0x2000_0000_0000_0000
}

/// The salt and the password hash of a password under a salt, both as
/// upper-case hexadecimal text.
pub open spec fn credentials_of(password: Seq<char>, salt: Seq<u8>) -> (Seq<char>, Seq<char>) {
    (
        hex_upper_of(salt),
        hex_upper_of(pbkdf2_hmac_sha512(PBKDF2_ITERATIONS, salt, encode_utf8(password), 64)),
    )
}

/// A text of 128 upper-case hexadecimal digits: what 64 bytes are written
/// as.
pub open spec fn is_credential_text(text: Seq<char>) -> bool {
    &&& text.len() == 128
    &&& forall|i: int| 0 <= i < text.len() ==> is_hex_upper_digit(#[trigger] text[i])
}

/// Hashes a password under a given salt and returns the salt and the hash
/// as upper-case hexadecimal text, 128 digits each.
pub fn credentials(password: &str, salt: &[u8; 64]) -> (texts: (String, String))
    requires
        hashable(password@),
    ensures
        (texts.0@, texts.1@) == credentials_of(password@, salt@),
        is_credential_text(texts.0@),
        is_credential_text(texts.1@),
{
    let key = derive_key(PBKDF2_ITERATIONS, salt, password.as_bytes());
    proof {
        lemma_hex_upper_of(salt@);
        lemma_hex_upper_of(key@);
    }
    (hex_upper(salt), hex_upper(&key))
}

/// Hashes a password under a fresh random salt and returns the salt and
/// the hash as upper-case hexadecimal text.  Fails only if the system has
/// no randomness to give.
pub fn salted_hash(password: &str) -> (result: Result<(String, String), UserError>)
    requires
        hashable(password@),
    ensures
        match result {
            Ok(texts) => {
                &&& exists|salt: Seq<u8>|
                    salt.len() == 64 && (texts.0@, texts.1@) == #[trigger] credentials_of(
                        password@,
                        salt,
                    )
                &&& is_credential_text(texts.0@)
                &&& is_credential_text(texts.1@)
            },
            Err(e) => e == UserError::RandomUnavailable,
        },
{
    match random_salt() {
        Ok(salt) => {
            let texts = credentials(password, &salt);
            assert((texts.0@, texts.1@) == credentials_of(password@, salt@));
            Ok(texts)
        },
        Err(_) => Err(UserError::RandomUnavailable),
    }
}

/// The name of the session cookie.
pub open spec fn cookie_name() -> Seq<char> {
    "SESSION"@
}

/// The number of bytes of the password hash that go into the session key.
pub const SESSION_KEY_LEN: usize = 29;

/// The number of days a session lasts.
pub const SESSION_DAYS: i64 = 90;

/// The session cookie of an account, as plain data: what it is called, what
/// it says, where it applies and how long it lasts.
#[derive(Debug)]
pub struct SessionCookie {
    pub name: String,
    pub value: String,
    pub path: String,
    pub secure: bool,
    pub http_only: bool,
    pub days: i64,
}

/// The decimal digits of a natural number.
pub open spec fn natural_text(n: nat) -> Seq<char>
    decreases n,
{
    if n < 10 {
        seq![(n + 48) as char]
    } else {
        natural_text(n / 10).push((n % 10 + 48) as char)
    }
}

/// An integer in decimal, with a minus sign if it is negative.
pub open spec fn decimal_text(n: int) -> Seq<char> {
    if n < 0 {
        seq!['-'] + natural_text((-n) as nat)
    } else {
        natural_text(n as nat)
    }
}

/// The part of the password hash that goes into the session key: its first
/// 29 bytes, if it has that many and they end where a character ends.
pub open spec fn session_key_of(password_hash: Seq<char>) -> Option<Seq<char>> {
    let bytes = encode_utf8(password_hash);
    if is_char_boundary(bytes, SESSION_KEY_LEN as int) {
        Some(decode_utf8(bytes.subrange(0, SESSION_KEY_LEN as int)))
    } else {
        None
    }
}

/// What the session cookie of an account says: its id, four dashes and the
/// session key.
pub open spec fn session_value(id: int, key: Seq<char>) -> Seq<char> {
    decimal_text(id) + "----"@ + key
}

/// The text of one decimal digit.
fn digit_text(digit: u32) -> (text: &'static str)
    requires
        digit < 10,
    ensures
        text@ == seq![(digit + 48) as char],
{
    proof {
        reveal_strlit("0");
        reveal_strlit("1");
        reveal_strlit("2");
        reveal_strlit("3");
        reveal_strlit("4");
        reveal_strlit("5");
        reveal_strlit("6");
        reveal_strlit("7");
        reveal_strlit("8");
        reveal_strlit("9");
    }
    let text = if digit == 0 {
        "0"
    } else if digit == 1 {
        "1"
    } else if digit == 2 {
        "2"
    } else if digit == 3 {
        "3"
    } else if digit == 4 {
        "4"
    } else if digit == 5 {
        "5"
    } else if digit == 6 {
        "6"
    } else if digit == 7 {
        "7"
    } else if digit == 8 {
        "8"
    } else {
        "9"
    };
    assert(text@ =~= seq![(digit + 48) as char]);
    text
}

/// Writes a natural number in decimal.
fn natural_string(n: u32) -> (text: String)
    ensures
        text@ == natural_text(n as nat),
    decreases n,
{
    if n < 10 {
        digit_text(n).to_owned()
    } else {
        let mut text = natural_string(n / 10);
        text.append(digit_text(n % 10));
        text
    }
}

/// Writes an integer in decimal, with a minus sign if it is negative.
pub fn decimal_string(n: i32) -> (text: String)
    ensures
        text@ == decimal_text(n as int),
{
    if n < 0 {
        proof {
            reveal_strlit("-");
        }
        let mut text = "-".to_owned();
        let magnitude = (-(n as i64)) as u32;
        text.append(natural_string(magnitude).as_str());
        assert(text@ =~= seq!['-'] + natural_text((-n) as nat));
        text
    } else {
        natural_string(n as u32)
    }
}

impl User {
    /// Whether the password is the one the account was made with: whether
    /// PBKDF2 over the password, with the text of the salt as salt, matches
    /// the text of the password hash.  For texts of ordinary length that is
    /// so when the hash text is not empty and its bytes are the key of
    /// their length derived from the password and the bytes of the salt
    /// text.
    pub fn authenticate(&self, password: &str) -> (matches: bool)
        ensures
            matches == pbkdf2_hmac_sha512_verifies(
                PBKDF2_ITERATIONS,
                encode_utf8(self.salt@),
                encode_utf8(password@),
                encode_utf8(self.password_hash@),
            ),
            ordinary_lengths(
                encode_utf8(self.salt@),
                encode_utf8(password@),
                encode_utf8(self.password_hash@),
            ) ==> matches == key_matches(
                PBKDF2_ITERATIONS,
                encode_utf8(self.salt@),
                encode_utf8(password@),
                encode_utf8(self.password_hash@),
            ),
            self.password_hash@.len() == 0 ==> !matches,
    {
        proof {
            reveal_with_fuel(encode_utf8, 1);
        }
        verify_key(
            PBKDF2_ITERATIONS,
            self.salt.as_str().as_bytes(),
            password.as_bytes(),
            self.password_hash.as_str().as_bytes(),
        )
    }

    /// The session cookie that logs the account in: named `SESSION`, valid
    /// for the whole site for 90 days, sent over secure connections only
    /// and hidden from scripts.  It says the id of the account, four dashes
    /// and the first 29 bytes of the password hash.
    ///
    /// An account whose password hash has no such 29 bytes gets no cookie,
    /// and neither does one that has no id.
    pub fn set_cookie(&self) -> (result: Result<SessionCookie, UserError>)
        ensures
            match result {
                Ok(cookie) => {
                    &&& session_key_of(self.password_hash@) is Some
                    &&& self.id is Some
                    &&& cookie.name@ == cookie_name()
                    &&& cookie.value@ == session_value(
                        self.id->0 as int,
                        session_key_of(self.password_hash@)->0,
                    )
                    &&& cookie.path@ == "/"@
                    &&& cookie.secure
                    &&& cookie.http_only
                    &&& cookie.days == SESSION_DAYS
                },
                Err(UserError::NoSessionKey) => session_key_of(self.password_hash@) is None,
                Err(UserError::NoId) => session_key_of(self.password_hash@) is Some && self.id
                    is None,
                Err(UserError::RandomUnavailable) => false,
            },
    {
        let hash = self.password_hash.as_str();
        if !hash.is_char_boundary(SESSION_KEY_LEN) {
            return Err(UserError::NoSessionKey);
        }
        let (password_slice, _) = hash.split_at(SESSION_KEY_LEN);
        proof {
            vstd::utf8::encode_utf8_decode_utf8(password_slice@);
        }
        let id = match self.id {
            Some(id) => id,
            None => {
                return Err(UserError::NoId);
            },
        };
        let mut value = decimal_string(id);
        value.append("----");
        value.append(password_slice);
        Ok(
            SessionCookie {
                name: "SESSION".to_owned(),
                value,
                path: "/".to_owned(),
                secure: true,
                http_only: true,
                days: SESSION_DAYS,
            },
        )
    }
}

/// The account a form asks for: its email address, its password in the
/// place of the hash, the placeholder salt and no id yet.
pub open spec fn requested_account(form: UserForm, user: User) -> bool {
    &&& user.id is None
    &&& user.email == form.email
    &&& user.password_hash == form.password
    &&& user.salt@ == "1234"@
}

impl User {
    /// Makes the account a form asks for.  This never fails.
    pub fn try_from(form: UserForm) -> (result: Result<User, UserForm>)
        ensures
            result matches Ok(user) && requested_account(form, user),
    {
        Ok(
            User {
                email: form.email,
                password_hash: form.password,
                salt: "1234".to_owned(),
                id: None,
            },
        )
    }
}

} // verus!
