use vstd::prelude::*;
use base64::engine::general_purpose::STANDARD;
use base64::Engine;
use chacha20poly1305::aead::{Aead, AeadCore, KeyInit, OsRng};
use chacha20poly1305::{ChaCha20Poly1305, Key, Nonce};
use vstd::utf8::{decode_utf8, encode_utf8, valid_utf8};

use crate::error::Error;

verus! {

/// Length in bytes of a cipher key.
pub const KEYLEN: usize = 32;

/// Length in bytes of the authentication tag that follows each ciphertext.
pub const TAG_LEN: usize = 16;

/// Length in bytes of a cipher nonce.
pub const NONCE_LEN: usize = 12;

/// Whether a message is short enough for the cipher: fewer than `u32::MAX` blocks of 64 bytes.
pub open spec fn fits_cipher(len: nat) -> bool {
    len / 64 < 0xffff_ffff
}

/// The ChaCha20-Poly1305 ciphertext and tag of `msg` under `key` and `nonce`, with no associated data.
pub uninterp spec fn aead_seal(key: Seq<u8>, nonce: Seq<u8>, msg: Seq<u8>) -> Seq<u8>;

/// The padded standard base64 text of a byte sequence.
pub uninterp spec fn base64_of(b: Seq<u8>) -> Seq<u8>;

/// A byte of the standard base64 alphabet, padding included.
pub open spec fn is_base64_byte(c: u8) -> bool {
    (65 <= c <= 90) || (97 <= c <= 122) || (48 <= c <= 57) || c == 43 || c == 47 || c == 61
}

pub open spec fn is_base64_text(s: Seq<u8>) -> bool {
    forall|i: int| 0 <= i < s.len() ==> is_base64_byte(#[trigger] s[i])
}

/// The bytes held by an optional vector.
pub open spec fn bytes_of(o: Option<Vec<u8>>) -> Option<Seq<u8>> {
    match o {
        Some(v) => Some(v@),
        None => None,
    }
}

/// `{"nonce":"`
pub open spec fn nonce_open() -> Seq<u8> {
    seq![123u8, 34, 110, 111, 110, 99, 101, 34, 58, 34]
}

/// `","key":"`
pub open spec fn key_open() -> Seq<u8> {
    seq![34u8, 44, 34, 107, 101, 121, 34, 58, 34]
}

/// `","val":"`
pub open spec fn val_open() -> Seq<u8> {
    seq![34u8, 44, 34, 118, 97, 108, 34, 58, 34]
}

/// `"}`
pub open spec fn doc_close() -> Seq<u8> {
    seq![34u8, 125]
}

/// The envelope document: a JSON object with the string members `nonce`, `key` and `val`, in that order.
pub open spec fn envelope_text(nonce: Seq<u8>, key: Seq<u8>, val: Seq<u8>) -> Seq<u8> {
    nonce_open() + nonce + key_open() + key + val_open() + val + doc_close()
}

/// The envelope of the logical key `k` and the value `v` sealed under `key` with `nonce`.
pub open spec fn sealed_envelope(key: Seq<u8>, nonce: Seq<u8>, k: Seq<char>, v: Seq<u8>) -> Seq<u8> {
    envelope_text(
        base64_of(nonce),
        base64_of(aead_seal(key, nonce, encode_utf8(k))),
        base64_of(aead_seal(key, nonce, v)),
    )
}

/// Relies on `AeadCore::generate_nonce` of ChaCha20Poly1305 with the system's random source:
/// a 12-byte nonce; its bytes are random.
#[verifier::external_body]
fn fresh_nonce() -> (r: Vec<u8>)
    ensures
        r@.len() == NONCE_LEN,
{
    ChaCha20Poly1305::generate_nonce(&mut OsRng).to_vec()
}

/// Relies on `Aead::encrypt` of ChaCha20Poly1305: deterministic in key, nonce and message,
/// and failing only on a message of `u32::MAX` blocks of 64 bytes or more.
#[verifier::external_body]
fn aead_encrypt(key: &[u8; 32], nonce: &[u8], msg: &[u8]) -> (r: Result<Vec<u8>, chacha20poly1305::Error>)
    requires
        nonce@.len() == NONCE_LEN,
    ensures
        r is Ok <==> fits_cipher(msg@.len()),
        r matches Ok(c) ==> c@ == aead_seal(key@, nonce@, msg@),
        r matches Ok(c) ==> c@.len() == msg@.len() + TAG_LEN,
{
    ChaCha20Poly1305::new(Key::from_slice(key)).encrypt(Nonce::from_slice(nonce), msg)
}

/// Relies on `Aead::decrypt` of ChaCha20Poly1305: it returns the message that was sealed
/// under the same key and nonce, and succeeds only on a ciphertext whose tag verifies.
#[verifier::external_body]
fn aead_decrypt(key: &[u8; 32], nonce: &[u8], ct: &[u8]) -> (r: Result<Vec<u8>, chacha20poly1305::Error>)
    requires
        nonce@.len() == NONCE_LEN,
    ensures
        r is Ok <== exists|m: Seq<u8>|
            fits_cipher(m.len()) && ct@ == #[trigger] aead_seal(key@, nonce@, m),
        r matches Ok(p) ==> forall|m: Seq<u8>|
            fits_cipher(m.len()) && ct@ == #[trigger] aead_seal(key@, nonce@, m) ==> p@ == m,
        r matches Ok(p) ==> fits_cipher(p@.len()) && ct@ == aead_seal(key@, nonce@, p@),
{
    ChaCha20Poly1305::new(Key::from_slice(key)).decrypt(Nonce::from_slice(nonce), ct)
}

/// Relies on the `encode` of base64's standard engine: padded text over the standard
/// alphabet, depending on the input alone.
#[verifier::external_body]
fn base64_encode(b: &[u8]) -> (r: Vec<u8>)
    ensures
        r@ == base64_of(b@),
        is_base64_text(r@),
{
    STANDARD.encode(b).into_bytes()
}

/// What base64's standard decoder makes of a text: `None` where it refuses it.
pub uninterp spec fn base64_decoded(s: Seq<u8>) -> Option<Seq<u8>>;

/// Relies on the `decode` of base64's standard engine: the result depends on the text alone,
/// and text that `encode` wrote for some bytes decodes to those bytes.
#[verifier::external_body]
fn base64_decode(s: &[u8]) -> (r: Result<Vec<u8>, base64::DecodeError>)
    ensures
        r is Ok <==> base64_decoded(s@) is Some,
        r matches Ok(d) ==> base64_decoded(s@) == Some(d@),
        r is Ok <== exists|b: Seq<u8>| s@ == #[trigger] base64_of(b),
        r matches Ok(d) ==> forall|b: Seq<u8>| s@ == #[trigger] base64_of(b) ==> d@ == b,
{
    STANDARD.decode(s)
}

/// What serde_json reads from a document as a JSON object: `None` where it refuses it or where
/// one of the members `nonce`, `key` and `val` is not a string, else those members, each where
/// present; other members are ignored.
pub uninterp spec fn json_envelope_members(doc: Seq<u8>) -> Option<
    (Option<Seq<u8>>, Option<Seq<u8>>, Option<Seq<u8>>),
>;

/// Relies on `serde_json::from_slice` into a JSON object, of which the members `nonce`, `key`
/// and `val` are taken as strings by `serde_json::from_value`: the result depends on the bytes alone, and a JSON object whose
/// members are strings of base64 text reads back as those strings.
#[verifier::external_body]
fn read_envelope_members(doc: &[u8]) -> (r: Result<
    (Option<Vec<u8>>, Option<Vec<u8>>, Option<Vec<u8>>),
    serde_json::Error,
>)
    ensures
        r is Ok <==> json_envelope_members(doc@) is Some,
        r matches Ok(t) ==> json_envelope_members(doc@) == Some(
            (bytes_of(t.0), bytes_of(t.1), bytes_of(t.2)),
        ),
        r is Ok <== exists|n: Seq<u8>, k: Seq<u8>, v: Seq<u8>|
            doc@ == #[trigger] envelope_text(n, k, v) && is_base64_text(n) && is_base64_text(k)
                && is_base64_text(v),
        r matches Ok(t) ==> forall|n: Seq<u8>, k: Seq<u8>, v: Seq<u8>|
            doc@ == #[trigger] envelope_text(n, k, v) && is_base64_text(n) && is_base64_text(k)
                && is_base64_text(v) ==> bytes_of(t.0) == Some(n) && bytes_of(t.1) == Some(k) && bytes_of(t.2) == Some(v),
{
    let mut m: serde_json::Map<String, serde_json::Value> = serde_json::from_slice(doc)?;
    let n = m.remove("nonce").map(serde_json::from_value::<String>).transpose()?;
    let k = m.remove("key").map(serde_json::from_value::<String>).transpose()?;
    let v = m.remove("val").map(serde_json::from_value::<String>).transpose()?;
    Ok((n.map(String::into_bytes), k.map(String::into_bytes), v.map(String::into_bytes)))
}

/// Relies on `String::from_utf8`: it succeeds exactly on valid UTF-8 and then holds the
/// characters those bytes encode.
#[verifier::external_body]
fn string_from_utf8(b: Vec<u8>) -> (r: Result<String, std::string::FromUtf8Error>)
    ensures
        r is Ok <==> valid_utf8(b@),
        r matches Ok(s) ==> s@ == decode_utf8(b@),
{
    String::from_utf8(b)
}

/// Appends `src` to `out`.
fn append_bytes(out: &mut Vec<u8>, src: &[u8])
    ensures
        final(out)@ == old(out)@ + src@,
{
    let mut i: usize = 0;
    while i < src.len()
        invariant
            i <= src@.len(),
            out@ == old(out)@ + src@.subrange(0, i as int),
        decreases src@.len() - i,
    {
        out.push(src[i]);
        proof {
            assert(old(out)@ + src@.subrange(0, i + 1) =~= old(out)@ + src@.subrange(0, i as int) + seq![src@[i as int]]);
        }
        i = i + 1;
    }
    assert(src@.subrange(0, src@.len() as int) =~= src@);
}

/// Writes the envelope document of three base64 texts.
pub fn envelope_document(nonce: &[u8], key: &[u8], val: &[u8]) -> (r: Vec<u8>)
    ensures
        r@ == envelope_text(nonce@, key@, val@),
{
    let mut out: Vec<u8> = vec![123u8, 34, 110, 111, 110, 99, 101, 34, 58, 34];
    append_bytes(&mut out, nonce);
    let k_open: Vec<u8> = vec![34u8, 44, 34, 107, 101, 121, 34, 58, 34];
    append_bytes(&mut out, k_open.as_slice());
    append_bytes(&mut out, key);
    let v_open: Vec<u8> = vec![34u8, 44, 34, 118, 97, 108, 34, 58, 34];
    append_bytes(&mut out, v_open.as_slice());
    append_bytes(&mut out, val);
    out.push(34u8);
    out.push(125u8);
    assert(out@ =~= envelope_text(nonce@, key@, val@));
    out
}

/// The message that a ciphertext authenticates under `key` and `nonce`, if any.
pub open spec fn aead_opened(key: Seq<u8>, nonce: Seq<u8>, ct: Seq<u8>) -> Option<Seq<u8>> {
    if exists|m: Seq<u8>| fits_cipher(m.len()) && ct == #[trigger] aead_seal(key, nonce, m) {
        Some(choose|m: Seq<u8>| fits_cipher(m.len()) && ct == #[trigger] aead_seal(key, nonce, m))
    } else {
        None
    }
}

/// How opening a document goes, step by step.
pub ghost enum Opening {
    /// The document is not a JSON object of strings.
    Malformed,
    /// A member is missing.
    Missing,
    /// A member is not base64.
    BadBase64,
    /// The nonce is not `NONCE_LEN` bytes long.
    BadNonce,
    /// A ciphertext does not authenticate.
    Rejected,
    /// The key's bytes are not UTF-8.
    NotUtf8,
    /// The logical key and the value.
    Opened(Seq<char>, Seq<u8>),
}

/// Opening `doc` under `key`: read the members; decode the nonce and check its length;
/// decode and open the key; decode and open the value; read the key as UTF-8.
pub open spec fn opening(key: Seq<u8>, doc: Seq<u8>) -> Opening {
    match json_envelope_members(doc) {
        None => Opening::Malformed,
        Some((Some(n64), Some(k64), Some(v64))) => match base64_decoded(n64) {
            None => Opening::BadBase64,
            Some(n) => if n.len() != NONCE_LEN {
                Opening::BadNonce
            } else {
                match base64_decoded(k64) {
                    None => Opening::BadBase64,
                    Some(ck) => match aead_opened(key, n, ck) {
                        None => Opening::Rejected,
                        Some(pk) => match base64_decoded(v64) {
                            None => Opening::BadBase64,
                            Some(cv) => match aead_opened(key, n, cv) {
                                None => Opening::Rejected,
                                Some(pv) => if valid_utf8(pk) {
                                    Opening::Opened(decode_utf8(pk), pv)
                                } else {
                                    Opening::NotUtf8
                                },
                            },
                        },
                    },
                }
            },
        },
        Some(_) => Opening::Missing,
    }
}

/// `r` is what `unwrap` returns where opening goes as `o`.
pub open spec fn reports(r: Result<(String, Vec<u8>), Error>, o: Opening) -> bool {
    match o {
        Opening::Malformed => r matches Err(Error::SerdeError(_)),
        Opening::Missing => r matches Err(Error::MissingField),
        Opening::BadBase64 => r matches Err(Error::DecodeError(_)),
        Opening::BadNonce => r matches Err(Error::InvalidNonce),
        Opening::Rejected => r matches Err(Error::CipherError(_)),
        Opening::NotUtf8 => r matches Err(Error::Utf8Error(_)),
        Opening::Opened(k, v) => r matches Ok(p) && p.0@ == k && p.1@ == v,
    }
}

/// The cipher key under which records are sealed and opened.
pub struct Context {
    pub key: [u8; 32],
}

/// `doc` is an envelope, as `wrap` writes it with `nonce`, of the logical key `k` and the
/// value `v` under `key`: all three fields are base64 text, and both messages fit the cipher.
pub open spec fn seals(key: Seq<u8>, doc: Seq<u8>, k: Seq<char>, v: Seq<u8>, nonce: Seq<u8>) -> bool {
    &&& nonce.len() == NONCE_LEN
    &&& fits_cipher(encode_utf8(k).len())
    &&& fits_cipher(v.len())
    &&& doc == sealed_envelope(key, nonce, k, v)
    &&& is_base64_text(base64_of(nonce))
    &&& is_base64_text(base64_of(aead_seal(key, nonce, encode_utf8(k))))
    &&& is_base64_text(base64_of(aead_seal(key, nonce, v)))
    &&& aead_seal(key, nonce, encode_utf8(k)).len() == encode_utf8(k).len() + TAG_LEN
    &&& aead_seal(key, nonce, v).len() == v.len() + TAG_LEN
}

/// Seals the logical key and the value under the given nonce, into an envelope document.
///
/// Fails with `InvalidNonce` where the nonce is not `NONCE_LEN` bytes long, and with
/// `CipherError` where the key's bytes or the value are too long for the cipher.
pub fn seal_with_nonce(cxt: &Context, key: &str, val: &[u8], nonce: &[u8]) -> (r: Result<Vec<u8>, Error>)
    ensures
        nonce@.len() != NONCE_LEN <==> r matches Err(Error::InvalidNonce),
        nonce@.len() == NONCE_LEN && !(fits_cipher(encode_utf8(key@).len()) && fits_cipher(val@.len()))
            <==> r matches Err(Error::CipherError(_)),
        r is Ok <==> nonce@.len() == NONCE_LEN && fits_cipher(encode_utf8(key@).len()) && fits_cipher(
            val@.len(),
        ),
        r matches Ok(doc) ==> seals(cxt.key@, doc@, key@, val@, nonce@),
{
    if nonce.len() != NONCE_LEN {
        return Err(Error::InvalidNonce);
    }
    let enckey = match aead_encrypt(&cxt.key, nonce, key.as_bytes()) {
        Ok(c) => c,
        Err(e) => return Err(Error::CipherError(e)),
    };
    let encval = match aead_encrypt(&cxt.key, nonce, val) {
        Ok(c) => c,
        Err(e) => return Err(Error::CipherError(e)),
    };
    let n64 = base64_encode(nonce);
    let k64 = base64_encode(enckey.as_slice());
    let v64 = base64_encode(encval.as_slice());
    let doc = envelope_document(n64.as_slice(), k64.as_slice(), v64.as_slice());
    assert(seals(cxt.key@, doc@, key@, val@, nonce@));
    Ok(doc)
}

/// Seals the logical key and the value under one fresh random nonce, into an envelope document.
pub fn wrap(cxt: &Context, key: &str, val: &[u8]) -> (r: Result<Vec<u8>, Error>)
    ensures
        r is Ok <==> fits_cipher(encode_utf8(key@).len()) && fits_cipher(val@.len()),
        r matches Ok(doc) ==> exists|n: Seq<u8>| #[trigger] seals(cxt.key@, doc@, key@, val@, n),
        r matches Err(e) ==> e is CipherError,
{
    let nonce = fresh_nonce();
    let r = seal_with_nonce(cxt, key, val, nonce.as_slice());
    assert(r matches Ok(d) ==> seals(cxt.key@, d@, key@, val@, nonce@));
    r
}

/// Opens an envelope document: the logical key and the value it seals.
///
/// Every envelope that `wrap` writes under the same key opens to the key and value sealed in it.
pub fn unwrap(cxt: &Context, data: &[u8]) -> (r: Result<(String, Vec<u8>), Error>)
    ensures
        forall|k: Seq<char>, v: Seq<u8>, n: Seq<u8>|
            #[trigger] seals(cxt.key@, data@, k, v, n) ==> (r matches Ok(p) && p.0@ == k && p.1@
                == v),
        reports(r, opening(cxt.key@, data@)),
{
    let ghost key = cxt.key@;
    let members = read_envelope_members(data);
    assert forall|k: Seq<char>, v: Seq<u8>, n: Seq<u8>| #[trigger] seals(key, data@, k, v, n) implies (
    members matches Ok(t) && bytes_of(t.0) == Some(base64_of(n)) && bytes_of(t.1) == Some(
        base64_of(aead_seal(key, n, encode_utf8(k))),
    ) && bytes_of(t.2) == Some(base64_of(aead_seal(key, n, v)))) by {
        let n64 = base64_of(n);
        let k64 = base64_of(aead_seal(key, n, encode_utf8(k)));
        let v64 = base64_of(aead_seal(key, n, v));
        assert(data@ == envelope_text(n64, k64, v64));
    }
    let (n_opt, k_opt, v_opt) = match members {
        Ok(t) => t,
        Err(e) => return Err(Error::SerdeError(e)),
    };
    let n64 = match n_opt {
        Some(x) => x,
        None => return Err(Error::MissingField),
    };
    let k64 = match k_opt {
        Some(x) => x,
        None => return Err(Error::MissingField),
    };
    let v64 = match v_opt {
        Some(x) => x,
        None => return Err(Error::MissingField),
    };
    let nonce = match base64_decode(n64.as_slice()) {
        Ok(d) => d,
        Err(e) => return Err(Error::DecodeError(e)),
    };
    if nonce.len() != NONCE_LEN {
        return Err(Error::InvalidNonce);
    }
    let enckey = match base64_decode(k64.as_slice()) {
        Ok(d) => d,
        Err(e) => return Err(Error::DecodeError(e)),
    };
    let plnkey = match aead_decrypt(&cxt.key, nonce.as_slice(), enckey.as_slice()) {
        Ok(p) => p,
        Err(e) => return Err(Error::CipherError(e)),
    };
    let encval = match base64_decode(v64.as_slice()) {
        Ok(d) => d,
        Err(e) => return Err(Error::DecodeError(e)),
    };
    let plnval = match aead_decrypt(&cxt.key, nonce.as_slice(), encval.as_slice()) {
        Ok(p) => p,
        Err(e) => return Err(Error::CipherError(e)),
    };
    proof {
        assert forall|k: Seq<char>, v: Seq<u8>, n: Seq<u8>| #[trigger]
            seals(key, data@, k, v, n) implies valid_utf8(plnkey@) && decode_utf8(plnkey@) == k
            && plnval@ == v by {
            vstd::utf8::encode_utf8_valid_utf8(k);
            vstd::utf8::encode_utf8_decode_utf8(k);
        }
    }
    let k = match string_from_utf8(plnkey) {
        Ok(s) => s,
        Err(e) => return Err(Error::Utf8Error(e)),
    };
    Ok((k, plnval))
}

} // verus!
