use vstd::prelude::*;
use vstd::utf8::encode_utf8;

verus! {

/// The SHA-512 digest of a byte sequence.
pub uninterp spec fn sha512_of(b: Seq<u8>) -> Seq<u8>;

/// Relies on sha2::Sha512::digest: a 64-byte digest that depends on the input alone.
#[verifier::external_body]
fn sha512(b: &[u8]) -> (r: Vec<u8>)
    ensures
        r@ == sha512_of(b@),
        r@.len() == 64,
{
    <sha2::Sha512 as sha2::Digest>::digest(b).to_vec()
}

/// The lower-case hex digit of a value below 16.
pub open spec fn hex_digit(v: u8) -> u8 {
    if v < 10 { (48 + v) as u8 } else { (87 + v) as u8 }
}

/// Two lower-case hex digits per byte, high nibble first.
pub open spec fn hex_text(b: Seq<u8>) -> Seq<u8>
    decreases b.len(),
{
    if b.len() == 0 {
        Seq::empty()
    } else {
        hex_text(b.drop_last()) + seq![hex_digit(b.last() / 16), hex_digit(b.last() % 16)]
    }
}

/// The storage index of a logical key: the hex text of the SHA-512 digest of its UTF-8 bytes.
pub open spec fn storage_index(key: Seq<char>) -> Seq<u8> {
    hex_text(sha512_of(encode_utf8(key)))
}

/// Hex text has two digits per byte.
pub proof fn lemma_hex_text_len(b: Seq<u8>)
    ensures
        hex_text(b).len() == 2 * b.len(),
    decreases b.len(),
{
    if b.len() > 0 {
        lemma_hex_text_len(b.drop_last());
    }
}

fn hex_char(v: u8) -> (r: u8)
    requires
        v < 16,
    ensures
        r == hex_digit(v),
{
    if v < 10 { 48 + v } else { 87 + v }
}

/// Writes each byte as two lower-case hex digits.
pub fn to_hex(b: &[u8]) -> (r: Vec<u8>)
    ensures
        r@ == hex_text(b@),
        r@.len() == 2 * b@.len(),
{
    let mut out: Vec<u8> = Vec::new();
    let mut i: usize = 0;
    while i < b.len()
        invariant
            i <= b@.len(),
            out@ == hex_text(b@.subrange(0, i as int)),
        decreases b@.len() - i,
    {
        let v = b[i];
        out.push(hex_char(v / 16));
        out.push(hex_char(v % 16));
        proof {
            let s = b@.subrange(0, i + 1);
            assert(s.drop_last() =~= b@.subrange(0, i as int));
        }
        i = i + 1;
    }
    assert(b@.subrange(0, b@.len() as int) =~= b@);
    proof {
        lemma_hex_text_len(b@);
    }
    out
}

/// The storage index of a logical key: 128 lower-case hex digits of the
/// SHA-512 digest of the key's UTF-8 bytes.
pub fn hash_key(key: &str) -> (r: Vec<u8>)
    ensures
        r@ == storage_index(key@),
        r@.len() == 128,
{
    let d = sha512(key.as_bytes());
    to_hex(&d)
}

/// The storage index is a function of the logical key alone: equal keys give equal indices,
/// each 128 hex digits long wherever a digest of 64 bytes is taken.
pub proof fn lemma_index_deterministic(k1: Seq<char>, k2: Seq<char>)
    requires
        k1 == k2,
    ensures
        storage_index(k1) == storage_index(k2),
        sha512_of(encode_utf8(k1)).len() == 64 ==> storage_index(k1).len() == 128,
{
    lemma_hex_text_len(sha512_of(encode_utf8(k1)));
}

} // verus!
