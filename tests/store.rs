use base64::engine::general_purpose::STANDARD_NO_PAD;
use base64::Engine;
use pvs::credential::{collect_password, derive_key, same_text};
use pvs::error::Error;
use pvs::index::hash_key;
use pvs::vault::{check_store_version, check_version, list_entries, same_bytes, Listed, Vault};
use pvs::codec::Context;

fn trees() -> (sled::Db, sled::Tree, sled::Tree) {
    let db = sled::Config::new().temporary(true).open().unwrap();
    let data = db.open_tree("data").unwrap();
    let meta = db.open_tree("meta").unwrap();
    (db, meta, data)
}

#[test]
fn bootstrap_store_fetch_and_list() {
    let (hash, key) = collect_password("correct-horse", "correct-horse").unwrap();
    assert_eq!(derive_key(&hash).unwrap(), key);
    let (_db, meta, data) = trees();
    let mut vault = Vault::open(meta, data, key, "0.1.0").unwrap();
    vault.store_record("alpha", b"hello").unwrap();
    let (k, v) = vault.fetch_record("alpha").unwrap();
    assert_eq!(k, "alpha");
    assert_eq!(v, b"hello".to_vec());
    let items = vault.list_records().unwrap();
    assert_eq!(items.len(), 1);
    assert_eq!(items[0].0, hash_key("alpha"));
    match &items[0].2 {
        Listed::Record(k, v) => {
            assert_eq!(k, "alpha");
            assert_eq!(v, &b"hello".to_vec());
        }
        Listed::Invalid => panic!("record did not open"),
    }
}

#[test]
fn fetch_of_missing_key_is_not_found() {
    let (_db, meta, data) = trees();
    let vault = Vault::open(meta, data, [1u8; 32], "0.1.0").unwrap();
    assert!(matches!(vault.fetch_record("missing-key"), Err(Error::NotFound)));
}

#[test]
fn mismatched_confirmation_is_refused() {
    assert!(matches!(collect_password("abc", "xyz"), Err(Error::PasswordMismatch)));
}

#[test]
fn empty_password_is_refused() {
    assert!(matches!(collect_password("", ""), Err(Error::PasswordEmpty)));
    assert!(matches!(collect_password("", "x"), Err(Error::PasswordEmpty)));
}

#[test]
fn overwrite_keeps_one_envelope() {
    let (_db, meta, data) = trees();
    let mut vault = Vault::open(meta, data.clone(), [2u8; 32], "0.1.0").unwrap();
    vault.store_record("k", b"one").unwrap();
    vault.store_record("k", b"two").unwrap();
    let (_, v) = vault.fetch_record("k").unwrap();
    assert_eq!(v, b"two".to_vec());
    assert_eq!(data.len(), 1);
    assert!(data.get(hash_key("k")).unwrap().is_some());
    assert_eq!(vault.list_records().unwrap().len(), 1);
}

#[test]
fn version_mismatch_stops_open() {
    let (_db, meta, data) = trees();
    meta.insert("version", "0.0.9").unwrap();
    data.insert(hash_key("a"), b"whatever".to_vec()).unwrap();
    let r = Vault::open(meta.clone(), data, [3u8; 32], "0.1.0");
    assert!(matches!(r, Err(Error::VersionMismatch)));
    assert_eq!(meta.get("version").unwrap().unwrap().to_vec(), b"0.0.9".to_vec());
}

#[test]
fn first_open_writes_version() {
    let (_db, meta, data) = trees();
    let vault = Vault::open(meta.clone(), data.clone(), [3u8; 32], "0.1.0").unwrap();
    drop(vault);
    assert_eq!(meta.get("version").unwrap().unwrap().to_vec(), b"0.1.0".to_vec());
    assert!(Vault::open(meta, data, [3u8; 32], "0.1.0").is_ok());
}

#[test]
fn listing_skips_records_that_do_not_open() {
    let (_db, meta, data) = trees();
    let mut vault = Vault::open(meta, data.clone(), [4u8; 32], "0.1.0").unwrap();
    vault.store_record("good", b"value").unwrap();
    data.insert(b"zzzz", b"garbage".to_vec()).unwrap();
    let items = vault.list_records().unwrap();
    assert_eq!(items.len(), 2);
    let records = items.iter().filter(|i| matches!(i.2, Listed::Record(_, _))).count();
    let invalid = items.iter().filter(|i| matches!(i.2, Listed::Invalid)).count();
    assert_eq!(records, 1);
    assert_eq!(invalid, 1);
}

#[test]
fn other_cipher_key_lists_invalid() {
    let (_db, meta, data) = trees();
    let mut vault = Vault::open(meta.clone(), data.clone(), [5u8; 32], "0.1.0").unwrap();
    vault.store_record("x", b"y").unwrap();
    drop(vault);
    let other = Vault::open(meta, data, [6u8; 32], "0.1.0").unwrap();
    assert!(matches!(other.fetch_record("x"), Err(Error::CipherError(_))));
    let items = other.list_records().unwrap();
    assert!(matches!(items[0].2, Listed::Invalid));
}

#[test]
fn version_decisions() {
    assert!(matches!(check_version(&None, b"1.0"), Ok(true)));
    assert!(matches!(check_version(&Some(b"1.0".to_vec()), b"1.0"), Ok(false)));
    assert!(matches!(check_version(&Some(b"1.1".to_vec()), b"1.0"), Err(Error::VersionMismatch)));
    assert!(matches!(check_version(&Some(Vec::new()), b"1.0"), Err(Error::VersionMismatch)));
}

#[test]
fn derive_key_takes_first_32_hash_bytes() {
    let bytes: Vec<u8> = (1u8..=40).collect();
    let phc = format!("$argon2id$v=19$m=19456,t=2,p=1$c2FsdHNhbHQ${}", STANDARD_NO_PAD.encode(&bytes));
    let key = derive_key(&phc).unwrap();
    assert_eq!(key.to_vec(), bytes[..32].to_vec());
}

#[test]
fn derive_key_errors() {
    assert!(matches!(derive_key("not a hash"), Err(Error::DeriveKeyError(_))));
    assert!(matches!(
        derive_key("$argon2id$v=19$m=19456,t=2,p=1$c2FsdHNhbHQ"),
        Err(Error::InvalidPassword)
    ));
    assert!(matches!(
        derive_key("$argon2id$v=19$m=19456,t=2,p=1$c2FsdHNhbHQ$AAAAAAAAAAAAAAAAAAAAAA"),
        Err(Error::InvalidPassword)
    ));
}

#[test]
fn text_and_byte_comparison() {
    assert!(same_text("abc", "abc"));
    assert!(!same_text("abc", "abd"));
    assert!(!same_text("abc", "ab"));
    assert!(same_bytes(&[], &[]));
    assert!(!same_bytes(&[1], &[2]));
}

#[test]
fn new_credential_is_an_argon2_hash() {
    let (hash, key) = collect_password("pw", "pw").unwrap();
    assert!(hash.starts_with("$argon2id$"));
    assert_eq!(derive_key(&hash).unwrap(), key);
    let (other, _) = collect_password("pw", "pw").unwrap();
    assert_ne!(hash, other);
}

#[test]
fn store_returns_the_envelope_written() {
    let (_db, meta, data) = trees();
    let mut vault = Vault::open(meta, data.clone(), [7u8; 32], "0.1.0").unwrap();
    let env = vault.store_record("k", b"v").unwrap();
    assert_eq!(data.get(hash_key("k")).unwrap().unwrap().to_vec(), env);
    assert_eq!(vault.raw_record("k").unwrap(), Some(env));
    assert_eq!(vault.raw_record("absent").unwrap(), None);
}

#[test]
fn listing_is_in_index_order_and_repeatable() {
    let (_db, meta, data) = trees();
    let mut vault = Vault::open(meta, data, [8u8; 32], "0.1.0").unwrap();
    for k in ["one", "two", "three", "four", "five"] {
        vault.store_record(k, k.as_bytes()).unwrap();
    }
    let first = vault.list_records().unwrap();
    let second = vault.list_records().unwrap();
    assert_eq!(first.len(), 5);
    for w in first.windows(2) {
        assert!(w[0].0 < w[1].0);
    }
    let keys = |items: &Vec<(Vec<u8>, Vec<u8>, Listed)>| -> Vec<(Vec<u8>, String)> {
        items
            .iter()
            .map(|(i, _, l)| match l {
                Listed::Record(k, _) => (i.clone(), k.clone()),
                Listed::Invalid => (i.clone(), String::new()),
            })
            .collect()
    };
    assert_eq!(keys(&first), keys(&second));
}

#[test]
fn list_entries_opens_each_entry() {
    let cxt = Context { key: [9u8; 32] };
    let good = pvs::codec::wrap(&cxt, "a", b"b").unwrap();
    let entries = vec![(b"i1".to_vec(), good.clone()), (b"i2".to_vec(), b"junk".to_vec())];
    let items = list_entries(&cxt, &entries);
    assert_eq!(items.len(), 2);
    assert_eq!(items[0].0, b"i1".to_vec());
    assert_eq!(items[0].1, good);
    assert!(matches!(&items[0].2, Listed::Record(k, v) if k == "a" && v == b"b"));
    assert!(matches!(items[1].2, Listed::Invalid));
    assert!(list_entries(&cxt, &Vec::new()).is_empty());
}

#[test]
fn store_version_gate() {
    let (_db, mut meta, _data) = trees();
    check_store_version(&mut meta, "1.0").unwrap();
    assert_eq!(meta.get("version").unwrap().unwrap().to_vec(), b"1.0".to_vec());
    check_store_version(&mut meta, "1.0").unwrap();
    assert!(matches!(check_store_version(&mut meta, "2.0"), Err(Error::VersionMismatch)));
    assert_eq!(meta.get("version").unwrap().unwrap().to_vec(), b"1.0".to_vec());
}

#[test]
fn own_error_messages() {
    assert_eq!(Error::NotFound.message(), Some("Not found".to_string()));
    assert_eq!(Error::VersionMismatch.message(), Some("Version mismatch".to_string()));
    assert_eq!(Error::PasswordMismatch.message(), Some("Passwords do not match".to_string()));
    assert_eq!(Error::PasswordEmpty.message(), Some("Password is empty".to_string()));
}
