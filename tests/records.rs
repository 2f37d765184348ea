use base64::engine::general_purpose::STANDARD;
use base64::Engine;
use chacha20poly1305::aead::{Aead, KeyInit};
use chacha20poly1305::{ChaCha20Poly1305, Key, Nonce};
use pvs::codec::{envelope_document, seal_with_nonce, unwrap, wrap, Context};
use pvs::error::Error;
use pvs::index::{hash_key, to_hex};

fn document(nonce: &[u8], key: &[u8], val: &[u8]) -> Vec<u8> {
    format!(
        "{{\"nonce\":\"{}\",\"key\":\"{}\",\"val\":\"{}\"}}",
        STANDARD.encode(nonce),
        STANDARD.encode(key),
        STANDARD.encode(val)
    )
    .into_bytes()
}

fn members(doc: &[u8]) -> (Vec<u8>, Vec<u8>, Vec<u8>) {
    let m: std::collections::BTreeMap<String, String> = serde_json::from_slice(doc).unwrap();
    (
        STANDARD.decode(&m["nonce"]).unwrap(),
        STANDARD.decode(&m["key"]).unwrap(),
        STANDARD.decode(&m["val"]).unwrap(),
    )
}

#[test]
fn round_trip_recovers_key_and_value() {
    let cxt = Context { key: [7u8; 32] };
    let cases: Vec<(&str, Vec<u8>)> = vec![
        ("alpha", b"hello".to_vec()),
        ("k", Vec::new()),
        ("schlüssel ✓", vec![0u8, 255, 1, 128]),
        ("long", vec![42u8; 5000]),
    ];
    for (k, v) in cases {
        let doc = wrap(&cxt, k, &v).unwrap();
        let (rk, rv) = unwrap(&cxt, &doc).unwrap();
        assert_eq!(rk, k);
        assert_eq!(rv, v);
    }
}

#[test]
fn envelope_has_canonical_members() {
    let cxt = Context { key: [9u8; 32] };
    let doc = wrap(&cxt, "alpha", b"hello").unwrap();
    let text = String::from_utf8(doc.clone()).unwrap();
    assert!(text.starts_with("{\"nonce\":\""));
    assert!(text.contains("\",\"key\":\""));
    assert!(text.contains("\",\"val\":\""));
    assert!(text.ends_with("\"}"));
    let (n, k, v) = members(&doc);
    assert_eq!(n.len(), 12);
    assert_eq!(k.len(), "alpha".len() + 16);
    assert_eq!(v.len(), 5 + 16);
}

#[test]
fn wrong_key_fails_authentication() {
    let doc = wrap(&Context { key: [1u8; 32] }, "alpha", b"hello").unwrap();
    let r = unwrap(&Context { key: [2u8; 32] }, &doc);
    assert!(matches!(r, Err(Error::CipherError(_))));
}

#[test]
fn two_seals_use_different_nonces() {
    let cxt = Context { key: [3u8; 32] };
    let a = wrap(&cxt, "alpha", b"hello").unwrap();
    let b = wrap(&cxt, "alpha", b"hello").unwrap();
    let (na, ka, va) = members(&a);
    let (nb, kb, vb) = members(&b);
    assert_ne!(na, nb);
    assert_ne!(ka, kb);
    assert_ne!(va, vb);
    assert_ne!(a, b);
}

#[test]
fn flipped_bytes_fail_authentication() {
    let cxt = Context { key: [4u8; 32] };
    let doc = wrap(&cxt, "alpha", b"hello").unwrap();
    let (n, k, v) = members(&doc);
    for i in 0..v.len() {
        let mut t = v.clone();
        t[i] ^= 1;
        let r = unwrap(&cxt, &document(&n, &k, &t));
        assert!(matches!(r, Err(Error::CipherError(_))));
    }
    for i in 0..k.len() {
        let mut t = k.clone();
        t[i] ^= 0x80;
        let r = unwrap(&cxt, &document(&n, &t, &v));
        assert!(matches!(r, Err(Error::CipherError(_))));
    }
    for i in 0..n.len() {
        let mut t = n.clone();
        t[i] ^= 0x10;
        let r = unwrap(&cxt, &document(&t, &k, &v));
        assert!(matches!(r, Err(Error::CipherError(_))));
    }
    assert!(unwrap(&cxt, &document(&n, &k, &v)).is_ok());
}

#[test]
fn malformed_documents_are_refused() {
    let cxt = Context { key: [5u8; 32] };
    assert!(matches!(unwrap(&cxt, b"not json"), Err(Error::SerdeError(_))));
    assert!(matches!(
        unwrap(&cxt, b"{\"nonce\":\"AAAAAAAAAAAAAAAA\",\"key\":\"AA==\"}"),
        Err(Error::MissingField)
    ));
    assert!(matches!(
        unwrap(&cxt, b"{\"nonce\":\"@@@\",\"key\":\"AA==\",\"val\":\"AA==\"}"),
        Err(Error::DecodeError(_))
    ));
    assert!(matches!(
        unwrap(&cxt, &document(&[0u8; 11], &[0u8; 20], &[0u8; 20])),
        Err(Error::InvalidNonce)
    ));
}

#[test]
fn key_that_is_not_utf8_is_refused() {
    let key = [6u8; 32];
    let nonce = [0u8; 12];
    let cipher = ChaCha20Poly1305::new(Key::from_slice(&key));
    let ck = cipher.encrypt(Nonce::from_slice(&nonce), &[0xffu8, 0xfe][..]).unwrap();
    let cv = cipher.encrypt(Nonce::from_slice(&nonce), &b"v"[..]).unwrap();
    let r = unwrap(&Context { key }, &document(&nonce, &ck, &cv));
    assert!(matches!(r, Err(Error::Utf8Error(_))));
}

#[test]
fn envelope_document_layout() {
    let d = envelope_document(b"AA", b"BB", b"CC");
    assert_eq!(d, b"{\"nonce\":\"AA\",\"key\":\"BB\",\"val\":\"CC\"}".to_vec());
}

#[test]
fn hex_digits_are_lower_case() {
    assert_eq!(to_hex(&[0x00, 0xab, 0x10, 0xff]), b"00ab10ff".to_vec());
    assert_eq!(to_hex(&[]), Vec::<u8>::new());
}

#[test]
fn index_is_sha512_hex() {
    let abc = String::from_utf8(hash_key("abc")).unwrap();
    assert_eq!(
        abc,
        "ddaf35a193617abacc417349ae20413112e6fa4e89a97ea20a9eeee64b55d39a\
         2192992a274fc1a836ba3c23a3feebbd454d4423643ce80e2a9ac94fa54ca49f"
    );
}

#[test]
fn index_is_deterministic() {
    let a = hash_key("alpha");
    assert_eq!(a, hash_key("alpha"));
    assert_eq!(a.len(), 128);
    assert_ne!(a, hash_key("beta"));
    assert_ne!(a, hash_key("Alpha"));
}

#[test]
fn sealing_with_a_given_nonce_is_deterministic() {
    let cxt = Context { key: [10u8; 32] };
    let nonce = [5u8; 12];
    let a = seal_with_nonce(&cxt, "alpha", b"hello", &nonce).unwrap();
    let b = seal_with_nonce(&cxt, "alpha", b"hello", &nonce).unwrap();
    assert_eq!(a, b);
    let (n, k, v) = members(&a);
    assert_eq!(n, nonce.to_vec());
    let cipher = ChaCha20Poly1305::new(Key::from_slice(&cxt.key));
    assert_eq!(k, cipher.encrypt(Nonce::from_slice(&nonce), &b"alpha"[..]).unwrap());
    assert_eq!(v, cipher.encrypt(Nonce::from_slice(&nonce), &b"hello"[..]).unwrap());
    let (rk, rv) = unwrap(&cxt, &a).unwrap();
    assert_eq!((rk.as_str(), rv.as_slice()), ("alpha", &b"hello"[..]));
}

#[test]
fn sealing_refuses_a_nonce_of_other_length() {
    let cxt = Context { key: [11u8; 32] };
    assert!(matches!(seal_with_nonce(&cxt, "k", b"v", &[0u8; 11]), Err(Error::InvalidNonce)));
    assert!(matches!(seal_with_nonce(&cxt, "k", b"v", &[]), Err(Error::InvalidNonce)));
}

#[test]
fn extra_members_are_ignored_and_members_must_be_strings() {
    let cxt = Context { key: [12u8; 32] };
    let doc = String::from_utf8(wrap(&cxt, "alpha", b"hello").unwrap()).unwrap();
    let extended = format!("{},\"extra\":[1,2]}}", &doc[..doc.len() - 1]);
    let (k, v) = unwrap(&cxt, extended.as_bytes()).unwrap();
    assert_eq!((k.as_str(), v.as_slice()), ("alpha", &b"hello"[..]));
    let bad = b"{\"nonce\":7,\"key\":\"AA==\",\"val\":\"AA==\"}";
    assert!(matches!(unwrap(&cxt, bad), Err(Error::SerdeError(_))));
}
