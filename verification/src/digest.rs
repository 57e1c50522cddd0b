//! Hashes of text and bytes, as names of cached files.

use std::collections::hash_map::DefaultHasher;
use std::hash::Hasher;
use vstd::prelude::*;
use vstd::std_specs::hash::DefaultHasherAdditionalSpecFns;
use vstd::string::*;
use vstd::utf8::encode_utf8;

use crate::number::{
    all_hex, hex_bytes, hex_fixed, hex_of_bytes, hex_u64, hexadecimal, hexadecimal_fixed,
    hex_value, law_fixed_hexadecimal_reads_back, law_hexadecimal_reads_back, lemma_hex_of_bytes,
};

verus! {

/// The SHA-256 digest of a sequence of bytes.
pub uninterp spec fn sha256(bytes: Seq<u8>) -> Seq<u8>;

/// Calls `sha2::Sha256::digest`. The digest is a function of the bytes alone
/// and has 32 bytes.
#[verifier::external_body]
pub(crate) fn sha256_digest(bytes: &Vec<u8>) -> (r: Vec<u8>)
    ensures
        r@ == sha256(bytes@),
        r@.len() == 32,
{
    <sha2::Sha256 as sha2::Digest>::digest(bytes).to_vec()
}

/// The SHA-256 digest of bytes as 64 hexadecimal digits.
pub fn sha256_hex(bytes: &Vec<u8>) -> (r: String)
    ensures
        r@ == hex_of_bytes(sha256(bytes@)),
        r@.len() == 64,
        all_hex(r@),
{
    let digest = sha256_digest(bytes);
    proof {
        lemma_hex_of_bytes(digest@);
    }
    hex_bytes(&digest)
}

/// The SHA-256 digest of a text in UTF-8 as 64 hexadecimal digits.
pub open spec fn sha256_of_text(s: Seq<char>) -> Seq<char> {
    hex_of_bytes(sha256(encode_utf8(s)))
}

/// The SHA-256 digest of a text in UTF-8 as 64 hexadecimal digits.
pub fn sha256_text(s: &str) -> (r: String)
    ensures
        r@ == sha256_of_text(s@),
        r@.len() == 64,
        all_hex(r@),
{
    sha256_hex(&s.as_bytes_vec())
}

/// The hash of a text: that of its bytes in UTF-8, ended by the byte 0xff,
/// with the hasher of the standard library and its fixed initial keys.
pub open spec fn text_hash(s: Seq<char>) -> u64 {
    DefaultHasher::spec_finish(seq![encode_utf8(s), seq![0xffu8]])
}

/// The hash of a text.
pub fn hash_text(s: &str) -> (r: u64)
    ensures
        r == text_hash(s@),
{
    let mut hasher = DefaultHasher::new();
    hasher.write(s.as_bytes());
    let end: Vec<u8> = vec![0xffu8];
    hasher.write(end.as_slice());
    assert(end@ =~= seq![0xffu8]);
    assert(hasher@ =~= seq![encode_utf8(s@), seq![0xffu8]]);
    hasher.finish()
}

/// The hash of a text as 16 hexadecimal digits.
pub open spec fn stable_name(s: Seq<char>) -> Seq<char> {
    hexadecimal_fixed(text_hash(s) as nat, 16)
}

/// The hash of a text as 16 hexadecimal digits: the name of its directory in
/// the page and raw caches.
pub fn stable_hash(s: &str) -> (r: String)
    ensures
        r@ == stable_name(s@),
{
    hex_fixed(hash_text(s), 16)
}

/// The hash of a text in hexadecimal, without leading zeros.
pub fn short_hash(s: &str) -> (r: String)
    ensures
        r@ == hexadecimal(text_hash(s@) as nat),
{
    hex_u64(hash_text(s))
}

/// The name of a directory in the page and raw caches is sixteen digits that
/// stand for the hash of its key; the hash is that of the bytes of the key
/// in UTF-8 and one more.
pub proof fn law_stable_names_stand_for_the_hash(s: Seq<char>)
    ensures
        stable_name(s).len() == 16,
        hex_value(stable_name(s)) == text_hash(s),
        hex_value(hexadecimal(text_hash(s) as nat)) == text_hash(s),
        text_hash(s) == DefaultHasher::spec_finish(seq![encode_utf8(s), seq![0xffu8]]),
        sha256_of_text(s) == hex_of_bytes(sha256(encode_utf8(s))),
{
    vstd::arithmetic::power::lemma_pow_adds(16, 8, 8);
    assert(vstd::arithmetic::power::pow(16, 8) == 0x1_0000_0000) by {
        reveal_with_fuel(vstd::arithmetic::power::pow, 9);
    }
    assert(0x1_0000_0000 * 0x1_0000_0000 == 0x1_0000_0000_0000_0000) by (nonlinear_arith);
    law_fixed_hexadecimal_reads_back(text_hash(s) as nat, 16);
    law_hexadecimal_reads_back(text_hash(s) as nat);
}

} // verus!
