//! The trusted boundary to the outside crates: the double-SHA-256 digest and
//! base58check decoding from the bitcoin crate, and query-string splitting
//! from the url crate. Each result is a function of the arguments alone.
use vstd::prelude::*;

verus! {

/// The double-SHA-256 digest of a byte string.
pub uninterp spec fn sha256d_of(b: Seq<u8>) -> Seq<u8>;

/// Relies on bitcoin::hashes::sha256d::Hash::hash: the 32-byte double-SHA-256
/// digest, a function of the input bytes alone.
#[verifier::external_body]
pub fn sha256d(b: &[u8]) -> (r: Vec<u8>)
    ensures
        r@ == sha256d_of(b@),
        r@.len() == 32,
{
    let h: [u8; 32] = <bitcoin::hashes::sha256d::Hash as bitcoin::hashes::Hash>::to_byte_array(
        <bitcoin::hashes::sha256d::Hash as bitcoin::hashes::Hash>::hash(b),
    );
    h.to_vec()
}

/// The base58check decoding of a byte string, `None` when the bytes are not
/// UTF-8 or fail base58 or checksum validation.
pub uninterp spec fn base58check_of(s: Seq<u8>) -> Option<Seq<u8>>;

/// Relies on bitcoin::base58::decode_check: decoding with checksum
/// verification, a function of the input alone.
#[verifier::external_body]
pub fn base58check_decode(s: &[u8]) -> (r: Option<Vec<u8>>)
    ensures
        match r {
            Some(v) => base58check_of(s@) == Some(v@),
            None => base58check_of(s@) is None,
        },
{
    match std::str::from_utf8(s) {
        Ok(st) => bitcoin::base58::decode_check(st).ok(),
        Err(_) => None,
    }
}

/// The percent-decoded key/value pairs of a URL query string.
pub uninterp spec fn query_pairs_of(q: Seq<char>) -> Seq<(Seq<u8>, Seq<u8>)>;

/// Relies on url::Url::parse and Url::query_pairs: splitting at `&` and `=`
/// with percent-decoding, a function of the query string alone. Parsing
/// cannot fail here: the fixed authority accepts any query suffix.
#[verifier::external_body]
pub fn query_pairs(q: &str) -> (r: Vec<(Vec<u8>, Vec<u8>)>)
    ensures
        r@.len() == query_pairs_of(q@).len(),
        forall|i: int|
            0 <= i < r@.len() ==> (#[trigger] r@[i]).0@ == query_pairs_of(q@)[i].0 && r@[i].1@
                == query_pairs_of(q@)[i].1,
{
    match url::Url::parse(&format!("http://localhost/q?{}", q)) {
        Ok(u) => u.query_pairs().map(
            |(k, v)| (k.into_owned().into_bytes(), v.into_owned().into_bytes()),
        ).collect(),
        Err(_) => Vec::new(),
    }
}

} // verus!
