use vstd::prelude::*;
use argon2::password_hash::rand_core::{OsRng, RngCore};
use argon2::password_hash::{PasswordHash, PasswordHasher, Salt, SaltString};
use argon2::Argon2;
use vstd::utf8::encode_utf8;

use crate::codec::{bytes_of, KEYLEN};
use crate::error::Error;
use crate::vault::same_bytes;

verus! {

/// What the PHC password-hash parser reads from a text: `None` where it does not parse,
/// else the hash output it holds, if any.
pub uninterp spec fn phc_hash_output(s: Seq<char>) -> Option<Option<Seq<u8>>>;

/// Relies on `argon2::password_hash::PasswordHash::new`: the parse depends on the text alone;
/// the hash output is returned as its bytes.
#[verifier::external_body]
fn parse_hash_output(s: &str) -> (r: Result<Option<Vec<u8>>, argon2::password_hash::Error>)
    ensures
        r is Ok <==> phc_hash_output(s@) is Some,
        r matches Ok(o) ==> phc_hash_output(s@) == Some(bytes_of(o)),
{
    match PasswordHash::new(s) {
        Ok(h) => Ok(h.hash.map(|o| o.as_bytes().to_vec())),
        Err(e) => Err(e),
    }
}

/// The B64 text (unpadded, PHC alphabet) of salt bytes, as `SaltString::encode_b64` writes it.
pub uninterp spec fn salt_b64(bytes: Seq<u8>) -> Seq<char>;

/// `s` is the B64 text of `n` salt bytes.
pub open spec fn is_salt_text(s: Seq<char>, n: nat) -> bool {
    exists|b: Seq<u8>| b.len() == n && s == #[trigger] salt_b64(b)
}

/// Relies on `RngCore::fill_bytes` of the system's random source: 16 random bytes, the length
/// that `Salt::RECOMMENDED_LENGTH` gives.
#[verifier::external_body]
fn fresh_salt_bytes() -> (r: Vec<u8>)
    ensures
        r@.len() == 16,
{
    let mut bytes = vec![0u8; 16];
    OsRng.fill_bytes(&mut bytes);
    bytes
}

/// Relies on `SaltString::encode_b64`: the B64 text of the bytes, which depends on them alone;
/// it fits the 64 characters of a salt for up to 48 bytes.
#[verifier::external_body]
fn salt_text(b: &[u8]) -> (r: Result<String, argon2::password_hash::Error>)
    ensures
        r is Ok <== b@.len() <= 48,
        r matches Ok(s) ==> s@ == salt_b64(b@),
{
    match SaltString::encode_b64(b) {
        Ok(s) => Ok(s.as_str().to_string()),
        Err(e) => Err(e),
    }
}

/// The PHC text of the default Argon2 hash of a password under a salt given as B64 text.
pub uninterp spec fn argon2_phc(pass: Seq<u8>, salt: Seq<char>) -> Seq<char>;

/// Relies on `PasswordHasher::hash_password` of the default `Argon2` hasher, with the salt read
/// by `Salt::from_b64`: the PHC text depends on the password and the salt alone. It succeeds on a
/// password of at most `u32::MAX` bytes and the B64 text of 8 to 48 salt bytes, and its text
/// holds a hash output of `Params::DEFAULT_OUTPUT_LEN` (32) bytes.
#[verifier::external_body]
fn hash_password(pass: &[u8], salt: &str) -> (r: Result<String, argon2::password_hash::Error>)
    ensures
        r is Ok <== pass@.len() <= 0xffff_ffff && exists|n: nat|
            8 <= n <= 48 && #[trigger] is_salt_text(salt@, n),
        r matches Ok(h) ==> h@ == argon2_phc(pass@, salt@),
        r matches Ok(h) ==> (phc_hash_output(h@) matches Some(Some(o)) && o.len() == 32),
{
    let salt = match Salt::from_b64(salt) {
        Ok(s) => s,
        Err(e) => return Err(e),
    };
    match Argon2::default().hash_password(pass, salt) {
        Ok(h) => Ok(h.to_string()),
        Err(e) => Err(e),
    }
}

/// The cipher key taken from an encoded password hash: the first `KEYLEN` bytes of its hash
/// output, where it has one that long.
pub open spec fn derived_key(s: Seq<char>) -> Option<Seq<u8>> {
    match phc_hash_output(s) {
        Some(Some(b)) => if b.len() >= KEYLEN {
            Some(b.subrange(0, KEYLEN as int))
        } else {
            None
        },
        _ => None,
    }
}

/// Takes the cipher key from an encoded password hash: the first 32 bytes of its hash output.
///
/// Fails with `DeriveKeyError` where the text is no password hash, and with `InvalidPassword`
/// where it holds no hash output or one shorter than the key.
pub fn derive_key(passwd: &str) -> (r: Result<[u8; 32], Error>)
    ensures
        phc_hash_output(passwd@) is None <==> r matches Err(Error::DeriveKeyError(_)),
        phc_hash_output(passwd@) is Some && derived_key(passwd@) is None <==> r matches Err(
            Error::InvalidPassword,
        ),
        derived_key(passwd@) is Some <==> r is Ok,
        r matches Ok(k) ==> derived_key(passwd@) == Some(k@),
{
    let hash = match parse_hash_output(passwd) {
        Ok(h) => h,
        Err(e) => return Err(Error::DeriveKeyError(e)),
    };
    let pwb = match hash {
        Some(b) => b,
        None => return Err(Error::InvalidPassword),
    };
    if pwb.len() < KEYLEN {
        return Err(Error::InvalidPassword);
    }
    let mut key: [u8; 32] = [0u8; 32];
    let mut i: usize = 0;
    while i < KEYLEN
        invariant
            i <= KEYLEN,
            pwb@.len() >= KEYLEN,
            key@.len() == KEYLEN,
            forall|j: int| 0 <= j < i ==> key@[j] == pwb@[j],
        decreases KEYLEN - i,
    {
        key[i] = pwb[i];
        i = i + 1;
    }
    assert(key@ =~= pwb@.subrange(0, KEYLEN as int));
    Ok(key)
}

/// Whether two texts are the same, compared by their UTF-8 bytes.
pub fn same_text(a: &str, b: &str) -> (r: bool)
    ensures
        r == (a@ == b@),
{
    proof {
        vstd::utf8::encode_utf8_decode_utf8(a@);
        vstd::utf8::encode_utf8_decode_utf8(b@);
    }
    same_bytes(a.as_bytes(), b.as_bytes())
}

/// Sets up the credential of a new store from a password typed twice: its Argon2 hash under
/// a fresh salt, and the cipher key taken from that hash.
///
/// Fails with `PasswordEmpty` on an empty password and with `PasswordMismatch` where the two
/// entries differ; in either case nothing is hashed.
pub fn collect_password(pass: &str, confirm: &str) -> (r: Result<(String, [u8; 32]), Error>)
    ensures
        pass@.len() == 0 <==> r matches Err(Error::PasswordEmpty),
        pass@.len() != 0 && pass@ != confirm@ <==> r matches Err(Error::PasswordMismatch),
        r matches Ok(c) ==> pass@.len() != 0 && pass@ == confirm@ && derived_key(c.0@) == Some(
            c.1@,
        ),
        r matches Ok(c) ==> exists|salt: Seq<char>| c.0@ == #[trigger] argon2_phc(encode_utf8(pass@), salt),
        pass@.len() != 0 && pass@ == confirm@ && encode_utf8(pass@).len() <= 0xffff_ffff ==> r is Ok,
{
    if pass.is_empty() {
        return Err(Error::PasswordEmpty);
    }
    if !same_text(pass, confirm) {
        return Err(Error::PasswordMismatch);
    }
    let bytes = fresh_salt_bytes();
    let salt = match salt_text(bytes.as_slice()) {
        Ok(s) => s,
        Err(e) => return Err(Error::Argon2Error(e)),
    };
    assert(is_salt_text(salt@, 16));
    let passwd = match hash_password(pass.as_bytes(), salt.as_str()) {
        Ok(h) => h,
        Err(e) => return Err(Error::Argon2Error(e)),
    };
    let key = match derive_key(passwd.as_str()) {
        Ok(k) => k,
        Err(e) => return Err(e),
    };
    assert(passwd@ == argon2_phc(encode_utf8(pass@), salt@));
    Ok((passwd, key))
}

} // verus!
