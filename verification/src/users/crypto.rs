//! Password hashing: PBKDF2 with HMAC-SHA512 and hexadecimal text.
//!
//! The key derivation itself is not spelled out here.  Its result has a
//! name, and the contracts say which inputs it is computed from.

use vstd::prelude::*;
use ring::rand::SecureRandom;

verus! {

/// The length in bytes of a salt and of a derived key: the output length of
/// SHA-512.
pub const CREDENTIAL_LEN: usize = 64;

/// The error `ring` reports without saying more.
#[verifier::external_type_specification]
#[verifier::external_body]
pub struct ExUnspecified(ring::error::Unspecified);

/// The first `len` bytes of the PBKDF2 key that HMAC-SHA512 derives from a
/// secret and a salt in the given number of iterations.
pub uninterp spec fn pbkdf2_hmac_sha512(
    iterations: u32,
    salt: Seq<u8>,
    secret: Seq<u8>,
    len: nat,
) -> Seq<u8>;

/// Whether `ring` finds that a previously derived PBKDF2 key matches the
/// key derived from a secret and a salt.  For inputs of ordinary length
/// this is [`key_matches`]; the name also covers inputs too long to hash,
/// which `ring` reports as no match.
pub uninterp spec fn pbkdf2_hmac_sha512_verifies(
    iterations: u32,
    salt: Seq<u8>,
    secret: Seq<u8>,
    previously_derived: Seq<u8>,
) -> bool;

/// The lengths `ring` can hash: a salt and a secret below 2^60 bytes, and a
/// key no longer than PBKDF2 can derive.
pub open spec fn ordinary_lengths(salt: Seq<u8>, secret: Seq<u8>, key: Seq<u8>) -> bool {
    &&& salt.len() < 0x1000_0000_0000_0000
    &&& secret.len() < 0x1000_0000_0000_0000
    &&& key.len() <= 64 * 0xffff_ffff
}

/// A previously derived key matches when it is not empty and is the key of
/// its length that PBKDF2 derives from the secret and the salt.
pub open spec fn key_matches(
    iterations: u32,
    salt: Seq<u8>,
    secret: Seq<u8>,
    previously_derived: Seq<u8>,
) -> bool {
    previously_derived.len() > 0 && pbkdf2_hmac_sha512(
        iterations,
        salt,
        secret,
        previously_derived.len(),
    ) == previously_derived
}

/// One of the sixteen upper-case hexadecimal digits.
pub open spec fn is_hex_upper_digit(c: char) -> bool {
    '0' <= c <= '9' || 'A' <= c <= 'F'
}

/// Hexadecimal text has two characters for each byte, every one of them
/// an upper-case hexadecimal digit.
pub proof fn lemma_hex_upper_of(bytes: Seq<u8>)
    ensures
        hex_upper_of(bytes).len() == 2 * bytes.len(),
        forall|i: int|
            0 <= i < hex_upper_of(bytes).len() ==> is_hex_upper_digit(
                #[trigger] hex_upper_of(bytes)[i],
            ),
{
    assert forall|i: int| 0 <= i < hex_upper_of(bytes).len() implies is_hex_upper_digit(
        #[trigger] hex_upper_of(bytes)[i],
    ) by {
        let byte = bytes[i / 2] as int;
        assert(0 <= byte / 16 < 16 && 0 <= byte % 16 < 16);
    }
}

/// The upper-case hexadecimal digit of a value below sixteen.
pub open spec fn hex_digit(value: int) -> char {
    if value < 10 {
        (value + 48) as char
    } else {
        (value + 55) as char
    }
}

/// The upper-case hexadecimal text of a byte sequence: two digits for each
/// byte, the high half of the byte first.
pub open spec fn hex_upper_of(bytes: Seq<u8>) -> Seq<char> {
    Seq::new(
        2 * bytes.len(),
        |i: int|
            if i % 2 == 0 {
                hex_digit(bytes[i / 2] as int / 16)
            } else {
                hex_digit(bytes[i / 2] as int % 16)
            },
    )
}

/// Asks the system's random number generator, through
/// `ring::rand::SystemRandom`, for as many bytes as a salt has.
///
/// Trusted, and nothing is claimed of the bytes: every call may answer
/// differently, and the generator may fail.
#[verifier::external_body]
pub(crate) fn random_salt() -> (salt: Result<[u8; 64], ring::error::Unspecified>) {
    let mut bytes = [0u8; 64];
    ring::rand::SystemRandom::new().fill(&mut bytes).map(|_| bytes)
}

/// Derives a key with `ring::pbkdf2::derive` and `PBKDF2_HMAC_SHA512`.
///
/// Trusted: the key is the one named by [`pbkdf2_hmac_sha512`] for these
/// inputs.  `ring` panics on no iterations and on a secret whose length in
/// bits does not fit in 64 bits; both are left out.
#[verifier::external_body]
pub(crate) fn derive_key(iterations: u32, salt: &[u8; 64], secret: &[u8]) -> (key: [u8; 64])
    requires
        iterations > 0,
        secret@.len() < 0x2000_0000_0000_0000,
    ensures
        key@ == pbkdf2_hmac_sha512(iterations, salt@, secret@, 64),
{
    let mut key = [0u8; 64];
    ring::pbkdf2::derive(
        ring::pbkdf2::PBKDF2_HMAC_SHA512,
        std::num::NonZeroU32::new(iterations).unwrap(),
        salt,
        secret,
        &mut key,
    );
    key
}

/// Checks a secret against a previously derived key with
/// `ring::pbkdf2::verify` and `PBKDF2_HMAC_SHA512`.
///
/// Trusted: the answer is the one named by [`pbkdf2_hmac_sha512_verifies`]
/// for these inputs.  `ring` derives the key anew, block by block, and
/// compares it with the one given, so for inputs of ordinary length the
/// answer is [`key_matches`]; an empty key never matches.  `ring` reports
/// every failure as an error, which counts as no match.
#[verifier::external_body]
pub(crate) fn verify_key(
    iterations: u32,
    salt: &[u8],
    secret: &[u8],
    previously_derived: &[u8],
) -> (matches: bool)
    requires
        iterations > 0,
    ensures
        matches == pbkdf2_hmac_sha512_verifies(iterations, salt@, secret@, previously_derived@),
        ordinary_lengths(salt@, secret@, previously_derived@) ==> matches == key_matches(
            iterations,
            salt@,
            secret@,
            previously_derived@,
        ),
        previously_derived@.len() == 0 ==> !matches,
{
    ring::pbkdf2::verify(
        ring::pbkdf2::PBKDF2_HMAC_SHA512,
        std::num::NonZeroU32::new(iterations).unwrap(),
        salt,
        secret,
        previously_derived,
    ).is_ok()
}

/// Writes bytes as upper-case hexadecimal text with
/// `data_encoding::HEXUPPER`.
///
/// Trusted: the encoding writes two digits for each byte, the high half
/// first, with the digits `0` to `9` and `A` to `F`.
#[verifier::external_body]
pub(crate) fn hex_upper(bytes: &[u8; 64]) -> (text: String)
    ensures
        text@ == hex_upper_of(bytes@),
{
    data_encoding::HEXUPPER.encode(bytes)
}

} // verus!
