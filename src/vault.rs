use vstd::prelude::*;
use sled::Error as SledError;
use sled::Tree;
use vstd::utf8::encode_utf8;

use crate::codec::{bytes_of, fits_cipher, opening, reports, seals, unwrap, wrap, Context, Opening};
use crate::error::Error;
use crate::index::{hash_key, storage_index};

verus! {

/// Declared so that a tree of the embedded store can be held.
#[verifier::external_type_specification]
#[verifier::external_body]
pub struct ExTree(Tree);

/// Declared so that the embedded store's error can be carried.
#[verifier::external_type_specification]
#[verifier::external_body]
pub struct ExSledError(SledError);

/// What a tree of the embedded store holds, key to value.
pub uninterp spec fn tree_contents(t: Tree) -> Map<Seq<u8>, Seq<u8>>;

/// The value a map holds under a key, if any.
pub open spec fn lookup(m: Map<Seq<u8>, Seq<u8>>, k: Seq<u8>) -> Option<Seq<u8>> {
    if m.contains_key(k) {
        Some(m[k])
    } else {
        None
    }
}

/// Byte sequences in lexicographic order: `a` comes strictly before `b`.
pub open spec fn lex_lt(a: Seq<u8>, b: Seq<u8>) -> bool
    decreases a.len(),
{
    if a.len() == 0 {
        b.len() > 0
    } else if b.len() == 0 {
        false
    } else if a[0] != b[0] {
        a[0] < b[0]
    } else {
        lex_lt(a.drop_first(), b.drop_first())
    }
}

/// `es` holds each pair of `m` once, and nothing else, in ascending order of keys.
pub open spec fn lists_all(es: Seq<(Vec<u8>, Vec<u8>)>, m: Map<Seq<u8>, Seq<u8>>) -> bool {
    &&& forall|i: int| 0 <= i < es.len() ==> lookup(m, #[trigger] es[i].0@) == Some(es[i].1@)
    &&& forall|i: int, j: int| 0 <= i < j < es.len() ==> es[i].0@ != es[j].0@
    &&& forall|i: int, j: int| 0 <= i < j < es.len() ==> lex_lt(es[i].0@, es[j].0@)
    &&& forall|k: Seq<u8>| m.contains_key(k) ==> exists|i: int| 0 <= i < es.len() && #[trigger] es[i].0@ == k
}

/// Relies on `sled::Tree::get`: the value stored under the key, if any.
#[verifier::external_body]
fn tree_get(t: &Tree, k: &[u8]) -> (r: Result<Option<Vec<u8>>, SledError>)
    ensures
        r matches Ok(o) ==> bytes_of(o) == lookup(tree_contents(*t), k@),
{
    match t.get(k) {
        Ok(o) => Ok(o.map(|v| v.to_vec())),
        Err(e) => Err(e),
    }
}

/// Relies on `sled::Tree::insert`: once it succeeds the key holds the value and the other keys
/// are as they were. The tree is taken by `&mut` because the caller holds its only handle.
#[verifier::external_body]
fn tree_insert(t: &mut Tree, k: &[u8], v: &[u8]) -> (r: Result<(), SledError>)
    ensures
        r is Ok ==> tree_contents(*final(t)) == tree_contents(*old(t)).insert(k@, v@),
{
    match t.insert(k, v) {
        Ok(_) => Ok(()),
        Err(e) => Err(e),
    }
}

/// Relies on `sled::Tree::iter`: it yields each stored pair once, in ascending lexicographic
/// order of the keys.
#[verifier::external_body]
fn tree_entries(t: &Tree) -> (r: Result<Vec<(Vec<u8>, Vec<u8>)>, SledError>)
    ensures
        r matches Ok(es) ==> lists_all(es@, tree_contents(*t)),
{
    t.iter().map(|e| e.map(|(k, v)| (k.to_vec(), v.to_vec()))).collect()
}

/// Whether two byte sequences are equal.
pub fn same_bytes(x: &[u8], y: &[u8]) -> (r: bool)
    ensures
        r == (x@ == y@),
{
    if x.len() != y.len() {
        return false;
    }
    let mut i: usize = 0;
    while i < x.len()
        invariant
            i <= x@.len(),
            x@.len() == y@.len(),
            forall|j: int| 0 <= j < i ==> x@[j] == y@[j],
        decreases x@.len() - i,
    {
        if x[i] != y[i] {
            assert(x@[i as int] != y@[i as int]);
            return false;
        }
        i = i + 1;
    }
    assert(x@ =~= y@);
    true
}

/// Decides on the version marker found in the metadata: where there is none the running
/// version is to be written (`Ok(true)`); a marker equal to the running version lets the store
/// be used (`Ok(false)`); any other marker is `VersionMismatch`.
pub fn check_version(stored: &Option<Vec<u8>>, running: &[u8]) -> (r: Result<bool, Error>)
    ensures
        stored is None ==> r matches Ok(true),
        stored matches Some(v) && v@ == running@ ==> r matches Ok(false),
        stored matches Some(v) && v@ != running@ ==> r matches Err(Error::VersionMismatch),
{
    match stored {
        None => Ok(true),
        Some(v) => if same_bytes(v.as_slice(), running) {
            Ok(false)
        } else {
            Err(Error::VersionMismatch)
        },
    }
}

/// `version`
pub open spec fn version_slot() -> Seq<u8> {
    seq![118u8, 101, 114, 115, 105, 111, 110]
}

/// The metadata holds a version marker other than `version`.
pub open spec fn version_differs(meta: Map<Seq<u8>, Seq<u8>>, version: Seq<char>) -> bool {
    meta.contains_key(version_slot()) && meta[version_slot()] != encode_utf8(version)
}

/// Checks the version marker of a store's metadata before anything else of the store is
/// opened: a marker other than `version` is `VersionMismatch`, and the metadata stays as it
/// was; where there is none, `version` is written; an equal marker is left as it is.
pub fn check_store_version(meta: &mut Tree, version: &str) -> (r: Result<(), Error>)
    ensures
        version_differs(tree_contents(*old(meta)), version@) ==> (r matches Err(e) && (
        e is VersionMismatch || e is SledError)),
        r matches Err(Error::VersionMismatch) ==> version_differs(tree_contents(*old(meta)), version@)
            && tree_contents(*final(meta)) == tree_contents(*old(meta)),
        !version_differs(tree_contents(*old(meta)), version@) ==> (r is Ok || r matches Err(
            Error::SledError(_),
        )),
        r is Ok ==> lookup(tree_contents(*final(meta)), version_slot()) == Some(encode_utf8(version@))
            && tree_contents(*final(meta)) == tree_contents(*old(meta)).insert(
            version_slot(),
            encode_utf8(version@),
        ),
{
    let slot: Vec<u8> = vec![118u8, 101, 114, 115, 105, 111, 110];
    assert(slot@ =~= version_slot());
    let stored = match tree_get(meta, slot.as_slice()) {
        Ok(o) => o,
        Err(e) => return Err(Error::SledError(e)),
    };
    let fresh = match check_version(&stored, version.as_bytes()) {
        Ok(b) => b,
        Err(e) => return Err(e),
    };
    if fresh {
        match tree_insert(meta, slot.as_slice(), version.as_bytes()) {
            Ok(()) => {},
            Err(e) => return Err(Error::SledError(e)),
        }
    } else {
        assert(tree_contents(*meta).insert(version_slot(), encode_utf8(version@)) =~= tree_contents(
            *meta,
        ));
    }
    Ok(())
}

/// What a listed record shows: the logical key and value, or nothing where it did not open.
pub open spec fn listed_as(l: Listed) -> Option<(Seq<char>, Seq<u8>)> {
    match l {
        Listed::Record(k, v) => Some((k@, v@)),
        Listed::Invalid => None,
    }
}

/// Opens each envelope of a listing, in order; one that does not open is listed as `Invalid`.
pub fn list_entries(cxt: &Context, entries: &Vec<(Vec<u8>, Vec<u8>)>) -> (r: Vec<(Vec<u8>, Vec<u8>, Listed)>)
    ensures
        r@.len() == entries@.len(),
        forall|i: int| 0 <= i < r@.len() ==> #[trigger] r@[i].0@ == entries@[i].0@,
        forall|i: int| 0 <= i < r@.len() ==> #[trigger] r@[i].1@ == entries@[i].1@,
        forall|i: int| 0 <= i < r@.len() ==> lists_opened(cxt.key@, entries@[i].1@, #[trigger] r@[i].2),
{
    let mut items: Vec<(Vec<u8>, Vec<u8>, Listed)> = Vec::new();
    let mut i: usize = 0;
    while i < entries.len()
        invariant
            i <= entries@.len(),
            items@.len() == i,
            forall|j: int| 0 <= j < i ==> #[trigger] items@[j].0@ == entries@[j].0@,
            forall|j: int| 0 <= j < i ==> #[trigger] items@[j].1@ == entries@[j].1@,
            forall|j: int| 0 <= j < i ==> lists_opened(cxt.key@, entries@[j].1@, #[trigger] items@[j].2),
        decreases entries@.len() - i,
    {
        let doc = entries[i].1.as_slice();
        let item = match unwrap(cxt, doc) {
            Ok((k, v)) => Listed::Record(k, v),
            Err(_) => Listed::Invalid,
        };
        let index = entries[i].0.clone();
        assert(index@ =~= entries@[i as int].0@);
        let env = entries[i].1.clone();
        assert(env@ =~= entries@[i as int].1@);
        let ghost before = items@;
        items.push((index, env, item));
        assert forall|j: int| 0 <= j < i + 1 implies #[trigger] items@[j].0@ == entries@[j].0@
            && items@[j].1@ == entries@[j].1@ && lists_opened(cxt.key@, entries@[j].1@, items@[j].2) by {
            if j < i {
                assert(items@[j] == before[j]);
            }
        }
        i = i + 1;
    }
    items
}

/// One record of a listing: the logical key and value it opened to, or a record that did not open.
#[derive(Debug)]
pub enum Listed {
    Record(String, Vec<u8>),
    Invalid,
}

/// An envelope is listed as the record it opens to under `key`, or as `Invalid` where it does
/// not open; in particular each envelope that seals a key and value is listed as that record.
pub open spec fn lists_opened(key: Seq<u8>, doc: Seq<u8>, item: Listed) -> bool {
    &&& match opening(key, doc) {
        Opening::Opened(k, v) => item matches Listed::Record(a, b) && a@ == k && b@ == v,
        _ => item is Invalid,
    }
    &&& forall|k: Seq<char>, v: Seq<u8>, n: Seq<u8>|
        #[trigger] seals(key, doc, k, v, n) ==> (item matches Listed::Record(a, b) && a@ == k && b@
            == v)
}

/// `items` lists each record of `records` once, in ascending order of storage index, with its
/// envelope and what that envelope opens to under `key`.
pub open spec fn lists_records(
    items: Seq<(Vec<u8>, Vec<u8>, Listed)>,
    key: Seq<u8>,
    records: Map<Seq<u8>, Seq<u8>>,
) -> bool {
    &&& forall|i: int, j: int| 0 <= i < j < items.len() ==> items[i].0@ != items[j].0@
    &&& forall|i: int, j: int| 0 <= i < j < items.len() ==> lex_lt(items[i].0@, items[j].0@)
    &&& forall|i: int|
        0 <= i < items.len() ==> records.contains_key(#[trigger] items[i].0@) && items[i].1@
            == records[items[i].0@] && lists_opened(key, records[items[i].0@], items[i].2)
    &&& forall|k: Seq<u8>|
        records.contains_key(k) ==> exists|i: int| 0 <= i < items.len() && #[trigger] items[i].0@ == k
}

/// An open store: its metadata and data trees, and the cipher key its records are sealed under.
pub struct Vault {
    meta: Tree,
    data: Tree,
    cxt: Context,
}

impl Vault {
    /// The records of the store, storage index to envelope.
    pub closed spec fn records(&self) -> Map<Seq<u8>, Seq<u8>> {
        tree_contents(self.data)
    }

    /// The metadata of the store, its version marker among it.
    pub closed spec fn metadata(&self) -> Map<Seq<u8>, Seq<u8>> {
        tree_contents(self.meta)
    }

    /// The cipher key of the store.
    pub closed spec fn cipher_key(&self) -> Seq<u8> {
        self.cxt.key@
    }

    /// Opens a store from its two trees, checking its version marker first (see
    /// `check_store_version`): a marker other than `version` is `VersionMismatch` and the data
    /// tree is not read; where there is none, `version` is written.
    pub fn open(meta: Tree, data: Tree, key: [u8; 32], version: &str) -> (r: Result<Vault, Error>)
        ensures
            version_differs(tree_contents(meta), version@) ==> (r matches Err(e) && (e is VersionMismatch
                || e is SledError)),
            r matches Err(Error::VersionMismatch) ==> version_differs(tree_contents(meta), version@),
            !version_differs(tree_contents(meta), version@) ==> (r is Ok || r matches Err(
                Error::SledError(_),
            )),
            r matches Ok(v) ==> v.records() == tree_contents(data) && v.cipher_key() == key@ && lookup(
                v.metadata(),
                version_slot(),
            ) == Some(encode_utf8(version@)),
    {
        let mut meta = meta;
        match check_store_version(&mut meta, version) {
            Ok(()) => {},
            Err(e) => return Err(e),
        }
        Ok(Vault { meta, data, cxt: Context { key } })
    }

    /// Seals the value under the logical key and stores its envelope at the key's storage
    /// index, in place of any envelope there; returns the envelope written.
    pub fn store_record(&mut self, key: &str, val: &[u8]) -> (r: Result<Vec<u8>, Error>)
        ensures
            final(self).cipher_key() == old(self).cipher_key(),
            final(self).metadata() == old(self).metadata(),
            r matches Ok(doc) ==> (exists|n: Seq<u8>| #[trigger] seals(old(self).cipher_key(), doc@, key@, val@, n))
                && final(self).records() == old(self).records().insert(storage_index(key@), doc@),
            !(fits_cipher(encode_utf8(key@).len()) && fits_cipher(val@.len())) <==> r matches Err(
                Error::CipherError(_),
            ),
            r matches Err(Error::CipherError(_)) ==> final(self).records() == old(self).records(),
            r matches Err(e) ==> e is CipherError || e is SledError,
    {
        let index = hash_key(key);
        let env = match wrap(&self.cxt, key, val) {
            Ok(d) => d,
            Err(e) => return Err(e),
        };
        let ghost n = choose|n: Seq<u8>| #[trigger] seals(self.cipher_key(), env@, key@, val@, n);
        match tree_insert(&mut self.data, index.as_slice(), env.as_slice()) {
            Ok(()) => {},
            Err(e) => return Err(Error::SledError(e)),
        }
        assert(seals(old(self).cipher_key(), env@, key@, val@, n));
        let r: Result<Vec<u8>, Error> = Ok(env);
        assert(r matches Ok(d) && seals(old(self).cipher_key(), d@, key@, val@, n));
        r
    }

    /// The envelope stored under the logical key's storage index, if any.
    pub fn raw_record(&self, key: &str) -> (r: Result<Option<Vec<u8>>, Error>)
        ensures
            r matches Ok(o) ==> bytes_of(o) == lookup(self.records(), storage_index(key@)),
            r matches Err(e) ==> e is SledError,
    {
        let index = hash_key(key);
        match tree_get(&self.data, index.as_slice()) {
            Ok(o) => Ok(o),
            Err(e) => Err(Error::SledError(e)),
        }
    }

    /// Fetches the record stored under the logical key: the logical key and value its envelope
    /// opens to. `NotFound` where the store holds nothing at the key's storage index.
    pub fn fetch_record(&self, key: &str) -> (r: Result<(String, Vec<u8>), Error>)
        ensures
            r matches Err(Error::NotFound) ==> !self.records().contains_key(storage_index(key@)),
            !self.records().contains_key(storage_index(key@)) ==> (r matches Err(e) && (e is NotFound
                || e is SledError)),
            self.records().contains_key(storage_index(key@)) ==> reports(
                r,
                opening(self.cipher_key(), self.records()[storage_index(key@)]),
            ) || r matches Err(Error::SledError(_)),
            forall|k: Seq<char>, v: Seq<u8>, n: Seq<u8>|
                self.records().contains_key(storage_index(key@)) && #[trigger] seals(
                    self.cipher_key(),
                    self.records()[storage_index(key@)],
                    k,
                    v,
                    n,
                ) ==> (r matches Ok(p) && p.0@
                    == k && p.1@ == v) || r matches Err(Error::SledError(_)),
    {
        let index = hash_key(key);
        let raw = match tree_get(&self.data, index.as_slice()) {
            Ok(Some(raw)) => raw,
            Ok(None) => return Err(Error::NotFound),
            Err(e) => return Err(Error::SledError(e)),
        };
        unwrap(&self.cxt, raw.as_slice())
    }

    /// Lists every record in the store in ascending order of storage index, with its envelope;
    /// an envelope that does not open is listed as `Invalid` and the listing goes on. Only
    /// reading the data tree can fail.
    pub fn list_records(&self) -> (r: Result<Vec<(Vec<u8>, Vec<u8>, Listed)>, Error>)
        ensures
            r matches Ok(items) ==> lists_records(items@, self.cipher_key(), self.records()),
            r matches Err(e) ==> e is SledError,
    {
        let entries = match tree_entries(&self.data) {
            Ok(es) => es,
            Err(e) => return Err(Error::SledError(e)),
        };
        let items = list_entries(&self.cxt, &entries);
        assert forall|k: Seq<u8>| self.records().contains_key(k) implies exists|j: int|
            0 <= j < items@.len() && #[trigger] items@[j].0@ == k by {
            let j = choose|j: int| 0 <= j < entries@.len() && #[trigger] entries@[j].0@ == k;
            assert(items@[j].0@ == k);
        }
        assert forall|a: int, b: int| 0 <= a < b < items@.len() implies items@[a].0@ != items@[b].0@
            && lex_lt(items@[a].0@, items@[b].0@) by {
            assert(items@[a].0@ == entries@[a].0@);
            assert(items@[b].0@ == entries@[b].0@);
        }
        assert forall|j: int| 0 <= j < items@.len() implies self.records().contains_key(
            #[trigger] items@[j].0@,
        ) && items@[j].1@ == self.records()[items@[j].0@] && lists_opened(
            self.cipher_key(),
            self.records()[items@[j].0@],
            items@[j].2,
        ) by {
            assert(items@[j].0@ == entries@[j].0@);
            assert(items@[j].1@ == entries@[j].1@);
            assert(lookup(self.records(), entries@[j].0@) == Some(entries@[j].1@));
        }
        assert(lists_records(items@, self.cipher_key(), self.records()));
        Ok(items)
    }
}

/// Storing twice under one logical key leaves one envelope at its storage index, the second,
/// and that envelope opens to the second value; the other records stay as they were.
pub proof fn lemma_overwrite(
    records: Map<Seq<u8>, Seq<u8>>,
    key: Seq<u8>,
    k: Seq<char>,
    v1: Seq<u8>,
    v2: Seq<u8>,
    doc1: Seq<u8>,
    doc2: Seq<u8>,
    n1: Seq<u8>,
    n2: Seq<u8>,
)
    requires
        seals(key, doc1, k, v1, n1),
        seals(key, doc2, k, v2, n2),
    ensures
        ({
            let after = records.insert(storage_index(k), doc1).insert(storage_index(k), doc2);
            &&& after.contains_key(storage_index(k))
            &&& after[storage_index(k)] == doc2
            &&& seals(key, after[storage_index(k)], k, v2, n2)
            &&& after.dom() == records.dom().insert(storage_index(k))
            &&& forall|i: Seq<u8>| i != storage_index(k) ==> lookup(after, i) == lookup(records, i)
        }),
{
    let after = records.insert(storage_index(k), doc1).insert(storage_index(k), doc2);
    assert(after.dom() =~= records.dom().insert(storage_index(k)));
}

/// No byte sequence comes before itself.
pub proof fn lemma_lex_irreflexive(a: Seq<u8>)
    ensures
        !lex_lt(a, a),
    decreases a.len(),
{
    if a.len() > 0 {
        lemma_lex_irreflexive(a.drop_first());
    }
}

/// Of two byte sequences at most one comes before the other.
pub proof fn lemma_lex_asymmetric(a: Seq<u8>, b: Seq<u8>)
    requires
        lex_lt(a, b),
    ensures
        !lex_lt(b, a),
    decreases a.len(),
{
    if a.len() > 0 && b.len() > 0 && a[0] == b[0] {
        lemma_lex_asymmetric(a.drop_first(), b.drop_first());
    }
}

/// Two sequences of keys, each in strictly ascending order, that hold the same keys are equal.
pub proof fn lemma_sorted_keys_unique(a: Seq<Seq<u8>>, b: Seq<Seq<u8>>)
    requires
        forall|i: int, j: int| 0 <= i < j < a.len() ==> lex_lt(a[i], a[j]),
        forall|i: int, j: int| 0 <= i < j < b.len() ==> lex_lt(b[i], b[j]),
        forall|x: Seq<u8>| a.contains(x) <==> b.contains(x),
    ensures
        a == b,
    decreases a.len(),
{
    if a.len() == 0 {
        if b.len() > 0 {
            assert(b.contains(b[0]));
        }
        assert(a =~= b);
    } else {
        assert(a.contains(a[0]));
        assert(b.len() > 0);
        if a[0] != b[0] {
            assert(b.contains(b[0]));
            let j = choose|j: int| 0 <= j < a.len() && a[j] == b[0];
            let k = choose|k: int| 0 <= k < b.len() && b[k] == a[0];
            assert(j > 0);
            assert(k > 0);
            assert(lex_lt(a[0], a[j]));
            assert(lex_lt(b[0], b[k]));
            lemma_lex_asymmetric(a[0], b[0]);
        }
        let ta = a.drop_first();
        let tb = b.drop_first();
        assert forall|x: Seq<u8>| ta.contains(x) <==> tb.contains(x) by {
            if ta.contains(x) {
                let i = choose|i: int| 0 <= i < ta.len() && ta[i] == x;
                assert(a[i + 1] == x);
                assert(lex_lt(a[0], a[i + 1]));
                lemma_lex_irreflexive(x);
                assert(b.contains(x));
                let k = choose|k: int| 0 <= k < b.len() && b[k] == x;
                assert(k != 0);
                assert(tb[k - 1] == x);
            }
            if tb.contains(x) {
                let i = choose|i: int| 0 <= i < tb.len() && tb[i] == x;
                assert(b[i + 1] == x);
                assert(lex_lt(b[0], b[i + 1]));
                lemma_lex_irreflexive(x);
                assert(a.contains(x));
                let k = choose|k: int| 0 <= k < a.len() && a[k] == x;
                assert(k != 0);
                assert(ta[k - 1] == x);
            }
        }
        assert forall|i: int, j: int| 0 <= i < j < ta.len() implies lex_lt(ta[i], ta[j]) by {
            assert(ta[i] == a[i + 1] && ta[j] == a[j + 1]);
        }
        assert forall|i: int, j: int| 0 <= i < j < tb.len() implies lex_lt(tb[i], tb[j]) by {
            assert(tb[i] == b[i + 1] && tb[j] == b[j + 1]);
        }
        lemma_sorted_keys_unique(ta, tb);
        assert(a =~= seq![a[0]] + ta);
        assert(b =~= seq![b[0]] + tb);
    }
}

/// The storage indices of a listing, in listing order.
pub open spec fn listed_indices(items: Seq<(Vec<u8>, Vec<u8>, Listed)>) -> Seq<Seq<u8>> {
    items.map_values(|it: (Vec<u8>, Vec<u8>, Listed)| it.0@)
}

/// Two listings of the same records under the same key agree: the same indices in the same
/// order, the same envelopes, and each record shown the same way.
pub proof fn lemma_listings_agree(
    a: Seq<(Vec<u8>, Vec<u8>, Listed)>,
    b: Seq<(Vec<u8>, Vec<u8>, Listed)>,
    key: Seq<u8>,
    records: Map<Seq<u8>, Seq<u8>>,
)
    requires
        lists_records(a, key, records),
        lists_records(b, key, records),
    ensures
        a.len() == b.len(),
        forall|i: int|
            0 <= i < a.len() ==> #[trigger] a[i].0@ == b[i].0@ && a[i].1@ == b[i].1@ && listed_as(
                a[i].2,
            ) == listed_as(b[i].2),
{
    let ka = listed_indices(a);
    let kb = listed_indices(b);
    assert forall|i: int, j: int| 0 <= i < j < ka.len() implies lex_lt(ka[i], ka[j]) by {
        assert(ka[i] == a[i].0@ && ka[j] == a[j].0@);
    }
    assert forall|i: int, j: int| 0 <= i < j < kb.len() implies lex_lt(kb[i], kb[j]) by {
        assert(kb[i] == b[i].0@ && kb[j] == b[j].0@);
    }
    assert forall|x: Seq<u8>| ka.contains(x) <==> kb.contains(x) by {
        if ka.contains(x) {
            let i = choose|i: int| 0 <= i < ka.len() && ka[i] == x;
            assert(a[i].0@ == x);
            assert(records.contains_key(x));
            let j = choose|j: int| 0 <= j < b.len() && #[trigger] b[j].0@ == x;
            assert(kb[j] == x);
        }
        if kb.contains(x) {
            let i = choose|i: int| 0 <= i < kb.len() && kb[i] == x;
            assert(b[i].0@ == x);
            assert(records.contains_key(x));
            let j = choose|j: int| 0 <= j < a.len() && #[trigger] a[j].0@ == x;
            assert(ka[j] == x);
        }
    }
    lemma_sorted_keys_unique(ka, kb);
    assert forall|i: int| 0 <= i < a.len() implies #[trigger] a[i].0@ == b[i].0@ && a[i].1@ == b[i].1@
        && listed_as(a[i].2) == listed_as(b[i].2) by {
        assert(ka[i] == a[i].0@ && kb[i] == b[i].0@);
        assert(records.contains_key(a[i].0@));
        assert(records.contains_key(b[i].0@));
    }
}

} // verus!
