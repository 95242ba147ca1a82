use ordered_todos::users::model::{credentials, decimal_string, salted_hash, User, UserError};
use ordered_todos::users::templates::UserForm;
use std::num::NonZeroU32;

fn form(password: &str, confirmation: &str) -> UserForm {
    UserForm {
        email: "ada@example.org".to_string(),
        password: password.to_string(),
        password_confirmation: confirmation.to_string(),
        password_errors: String::new(),
        email_errors: String::new(),
    }
}

fn derive(salt: &[u8], password: &str, len: usize) -> Vec<u8> {
    let mut out = vec![0u8; len];
    ring::pbkdf2::derive(
        ring::pbkdf2::PBKDF2_HMAC_SHA512,
        NonZeroU32::new(100_000).unwrap(),
        salt,
        password.as_bytes(),
        &mut out,
    );
    out
}

#[test]
fn good_form_is_valid() {
    let checked = form("correct horse", "correct horse").validate(false);
    assert_eq!(checked.password_errors, "");
    assert_eq!(checked.email_errors, "");
    assert!(checked.is_valid());
    assert_eq!(checked.email, "ada@example.org");
    assert_eq!(checked.password, "correct horse");
    assert_eq!(checked.password_confirmation, "correct horse");
}

#[test]
fn short_password_is_reported() {
    let checked = form("123456789", "123456789").validate(false);
    assert_eq!(checked.password_errors, "passwords must be at least 10 characters long");
    assert!(!checked.is_valid());
    assert!(form("1234567890", "1234567890").validate(false).is_valid());
}

#[test]
fn password_length_counts_bytes() {
    assert!(form("ééééé", "ééééé").validate(false).is_valid());
    assert!(!form("éééé", "éééé").validate(false).is_valid());
}

#[test]
fn mismatch_is_reported() {
    let checked = form("correct horse", "correct horsf").validate(false);
    assert_eq!(checked.password_errors, "password and password confirmation must match");
    assert!(!checked.is_valid());
}

#[test]
fn both_password_errors_are_joined() {
    let checked = form("short", "other").validate(false);
    assert_eq!(
        checked.password_errors,
        "passwords must be at least 10 characters long, password and password confirmation must match"
    );
}

#[test]
fn taken_email_is_reported() {
    let checked = form("correct horse", "correct horse").validate(true);
    assert_eq!(checked.password_errors, "");
    assert_eq!(checked.email_errors, "A user with this email already exists");
    assert!(!checked.is_valid());
}

#[test]
fn is_valid_looks_at_both_error_texts() {
    let mut f = form("x", "y");
    assert!(f.is_valid());
    f.email_errors = "bad".to_string();
    assert!(!f.is_valid());
    f.email_errors = String::new();
    f.password_errors = "bad".to_string();
    assert!(!f.is_valid());
}

#[test]
fn try_from_copies_the_form() {
    let user = match User::try_from(form("correct horse", "whatever")) {
        Ok(user) => user,
        Err(_) => panic!("try_from never fails"),
    };
    assert_eq!(user.id, None);
    assert_eq!(user.email, "ada@example.org");
    assert_eq!(user.password_hash, "correct horse");
    assert_eq!(user.salt, "1234");
}

#[test]
fn default_user_is_empty() {
    let user = User::default();
    assert_eq!(user.id, None);
    assert_eq!(user.email, "");
    assert_eq!(user.password_hash, "");
    assert_eq!(user.salt, "");
    let copy = user.clone();
    assert_eq!(copy.email, "");
}

#[test]
fn credentials_are_hex_of_salt_and_derived_key() {
    let mut salt = [0u8; 64];
    for (i, byte) in salt.iter_mut().enumerate() {
        *byte = (i * 5 + 3) as u8;
    }
    salt[0] = 0x0a;
    salt[1] = 0xf0;
    salt[2] = 0xff;
    let (salt_text, hash_text) = credentials("open sesame", &salt);
    assert_eq!(salt_text.len(), 128);
    assert!(salt_text.starts_with("0AF0FF12"));
    assert_eq!(salt_text, data_encoding::HEXUPPER.encode(&salt));
    assert_eq!(hash_text, data_encoding::HEXUPPER.encode(&derive(&salt, "open sesame", 64)));
    assert_ne!(hash_text, salt_text);
    assert_eq!(hash_text.len(), 128);
    assert!(hash_text.chars().all(|c| c.is_ascii_digit() || ('A'..='F').contains(&c)));
}

#[test]
fn salted_hash_of_the_empty_password_has_128_digits() {
    let (salt, hash) = salted_hash("").unwrap();
    assert_eq!(salt.len(), 128);
    assert_eq!(hash.len(), 128);
    assert!(salt.chars().all(|c| c.is_ascii_digit() || ('A'..='F').contains(&c)));
    assert!(hash.chars().all(|c| c.is_ascii_digit() || ('A'..='F').contains(&c)));
}

#[test]
fn salted_hash_uses_a_fresh_salt() {
    let (salt_a, hash_a) = salted_hash("open sesame").unwrap();
    let (salt_b, hash_b) = salted_hash("open sesame").unwrap();
    assert_ne!(salt_a, salt_b);
    assert_ne!(hash_a, hash_b);
    let salt = data_encoding::HEXUPPER.decode(salt_a.as_bytes()).unwrap();
    assert_eq!(salt.len(), 64);
    assert_eq!(hash_a, data_encoding::HEXUPPER.encode(&derive(&salt, "open sesame", 64)));
}

#[test]
fn authenticate_checks_the_hash_text_against_the_salt_text() {
    let salt = "pepper".to_string();
    let mut found = None;
    for n in 0..64 {
        let password = format!("pw{}", n);
        let key = derive(salt.as_bytes(), &password, 2);
        if key[0] < 0x80 && key[1] < 0x80 {
            found = Some((password, String::from_utf8(key).unwrap()));
            break;
        }
    }
    let (password, password_hash) = found.expect("some candidate derives two ASCII bytes");
    let user = User { id: Some(1), email: String::new(), password_hash, salt };
    assert!(user.authenticate(&password));
    assert!(!user.authenticate("not the password"));
}

#[test]
fn authenticate_fails_on_empty_hash() {
    let user = User { id: None, email: String::new(), password_hash: String::new(), salt: "s".to_string() };
    assert!(!user.authenticate(""));
    assert!(!user.authenticate("anything"));
}

#[test]
fn set_cookie_says_id_and_start_of_hash() {
    let user = User {
        id: Some(42),
        email: "ada@example.org".to_string(),
        password_hash: "0123456789ABCDEF0123456789ABCDEF".to_string(),
        salt: String::new(),
    };
    let cookie = user.set_cookie().unwrap();
    assert_eq!(cookie.name, "SESSION");
    assert_eq!(cookie.value, "42----0123456789ABCDEF0123456789ABC");
    assert_eq!(cookie.path, "/");
    assert!(cookie.secure);
    assert!(cookie.http_only);
    assert_eq!(cookie.days, 90);
}

#[test]
fn set_cookie_writes_negative_and_extreme_ids() {
    let hash = "A".repeat(29);
    let user = |id: i32| User {
        id: Some(id),
        email: String::new(),
        password_hash: hash.clone(),
        salt: String::new(),
    };
    assert_eq!(user(0).set_cookie().unwrap().value, format!("0----{}", hash));
    assert_eq!(user(-7).set_cookie().unwrap().value, format!("-7----{}", hash));
    assert_eq!(user(i32::MAX).set_cookie().unwrap().value, format!("2147483647----{}", hash));
    assert_eq!(user(i32::MIN).set_cookie().unwrap().value, format!("-2147483648----{}", hash));
}

#[test]
fn set_cookie_needs_29_bytes_of_hash() {
    let short = User {
        id: Some(1),
        email: String::new(),
        password_hash: "A".repeat(28),
        salt: String::new(),
    };
    assert!(matches!(short.set_cookie(), Err(UserError::NoSessionKey)));
    let split = User {
        id: Some(1),
        email: String::new(),
        password_hash: format!("{}é{}", "A".repeat(28), "B".repeat(10)),
        salt: String::new(),
    };
    assert!(matches!(split.set_cookie(), Err(UserError::NoSessionKey)));
    let whole = User {
        id: Some(1),
        email: String::new(),
        password_hash: format!("{}é{}", "A".repeat(27), "B".repeat(10)),
        salt: String::new(),
    };
    assert_eq!(whole.set_cookie().unwrap().value, format!("1----{}é", "A".repeat(27)));
}

#[test]
fn set_cookie_needs_an_id() {
    let unsaved = User {
        id: None,
        email: String::new(),
        password_hash: "A".repeat(40),
        salt: String::new(),
    };
    assert!(matches!(unsaved.set_cookie(), Err(UserError::NoId)));
    let neither = User { id: None, email: String::new(), password_hash: String::new(), salt: String::new() };
    assert!(matches!(neither.set_cookie(), Err(UserError::NoSessionKey)));
}

#[test]
fn errors_have_messages() {
    assert_eq!(UserError::NoSessionKey.message(), "failed to set cookie");
    assert_eq!(UserError::NoId.message(), "user has no ID");
    assert_eq!(UserError::RandomUnavailable.message(), "failed to gather randomness");
}

#[test]
fn decimal_string_writes_integers() {
    assert_eq!(decimal_string(0), "0");
    assert_eq!(decimal_string(7), "7");
    assert_eq!(decimal_string(10), "10");
    assert_eq!(decimal_string(1203), "1203");
    assert_eq!(decimal_string(-1), "-1");
    assert_eq!(decimal_string(-450), "-450");
    assert_eq!(decimal_string(i32::MAX), "2147483647");
    assert_eq!(decimal_string(i32::MIN), "-2147483648");
}
