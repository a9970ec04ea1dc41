//! The outside functions that the library calls, with what is believed of them.
//!
//! Nothing in this file is proved: each item states what its source or its
//! documentation gives, and everything else in the library rests on that.
use rand::seq::IndexedRandom;
use sha2::Digest;
use vstd::prelude::*;

use crate::paths;
use crate::text;
use crate::url;

verus! {

/// `String::push`: afterwards the string is the old one with the character at its end.
pub assume_specification[ String::push ](s: &mut String, c: char)
    ensures
        final(s)@ == old(s)@.push(c),
;

/// `char::is_whitespace`: true of the characters that have Unicode's White_Space
/// property, and of no others.
pub assume_specification[ char::is_whitespace ](c: char) -> (r: bool)
    ensures
        r == text::white_space(c),
;

/// What `str::to_lowercase` makes of a string: its lowercase as Unicode has it.
pub uninterp spec fn lowercase(s: Seq<char>) -> Seq<char>;

/// `str::to_lowercase`: the lowercase of the string, which is a function of the string
/// alone. Of a string of ASCII characters only the letters change, each to its lowercase;
/// and ASCII characters at the end of a string come out so at the end, whatever stands in
/// front of them.
///
/// What becomes of other characters is not stated.
#[verifier::external_body]
pub(crate) fn to_lowercase(s: &str) -> (r: String)
    ensures
        r@ == lowercase(s@),
        text::all_ascii(s@) ==> r@ == text::ascii_lowered(s@),
        forall|k: int|
            0 <= k <= s@.len() && text::all_ascii(#[trigger] s@.skip(k)) ==> text::ascii_lowered(
                s@.skip(k),
            ).is_suffix_of(r@),
{
    s.to_lowercase()
}

/// What `String::from_utf8_lossy` makes of some bytes.
pub uninterp spec fn lossy_text(bytes: Seq<u8>) -> Seq<char>;

/// `String::from_utf8_lossy`: the text that the bytes encode where they are UTF-8, and
/// a text that is a function of the bytes alone where they are not.
#[verifier::external_body]
pub(crate) fn text_of_bytes(bytes: &Vec<u8>) -> (r: String)
    ensures
        r@ == lossy_text(bytes@),
        vstd::utf8::valid_utf8(bytes@) ==> r@ == vstd::utf8::decode_utf8(bytes@),
{
    String::from_utf8_lossy(bytes).into_owned()
}

/// `std::path::Path::file_name`: the last component of a path, where that is a name.
/// Which name that is, is stated of the paths that every platform reads alike; of any
/// path, that it is not empty and a part of the path.
#[verifier::external_body]
pub(crate) fn file_name(path: &str) -> (r: Option<String>)
    ensures
        paths::portable(path@) ==> text::opt_string(r) == paths::name_in(path@),
        r matches Some(n) ==> n@.len() > 0 && text::occurs_in(n@, path@),
{
    std::path::Path::new(path).file_name().and_then(|n| n.to_str()).map(|n| n.to_owned())
}

/// `std::path::Path::parent`: the path without its last component, where it has one.
/// Which path that is, is stated of the paths that every platform reads alike; of any
/// path, that it is a part of the path.
#[verifier::external_body]
pub(crate) fn parent(path: &str) -> (r: Option<String>)
    ensures
        paths::portable(path@) ==> text::opt_string(r) == paths::directory_of(path@),
        r matches Some(p) ==> text::occurs_in(p@, path@),
{
    std::path::Path::new(path).parent().and_then(|p| p.to_str()).map(|p| p.to_owned())
}

/// `urlencoding::encode`: keeps the ASCII letters and digits and `-`, `.`, `_`, `~`,
/// and writes every other byte of the UTF-8 encoding as a percent sign and two
/// upper-case hexadecimal digits.
#[verifier::external_body]
pub(crate) fn url_encode(s: &str) -> (r: String)
    ensures
        r@ == url::percent_encoded(vstd::utf8::encode_utf8(s@)),
{
    urlencoding::encode(s).into_owned()
}

/// The SHA-256 digest of some bytes.
pub uninterp spec fn sha256(bytes: Seq<u8>) -> Seq<u8>;

/// `sha2::Sha256`, fed with all the bytes at once: their digest, which is 32 bytes long
/// and a function of the bytes alone.
#[verifier::external_body]
pub(crate) fn sha256_digest(bytes: &[u8]) -> (r: Vec<u8>)
    ensures
        r@ == sha256(bytes@),
        r@.len() == 32,
{
    let mut hasher = sha2::Sha256::new();
    hasher.update(bytes);
    hasher.finalize().to_vec()
}

/// What an HTTP status code is called, as `reqwest::StatusCode` has it.
pub uninterp spec fn status_reason(code: u16) -> Seq<char>;

/// How `reqwest::StatusCode` prints: the number of the code, a space and the reason
/// that belongs to the code.
///
/// What the reasons are is not stated.
#[verifier::external_body]
pub(crate) fn status_text(code: u16) -> (r: String)
    requires
        100 <= code <= 999,
    ensures
        r@ == text::decimal(code as nat) + " "@ + status_reason(code),
{
    reqwest::StatusCode::from_u16(code).unwrap().to_string()
}

/// `reqwest::StatusCode::is_success`: the codes from 200 to 299 are a success.
#[verifier::external_body]
pub(crate) fn status_is_success(code: u16) -> (r: bool)
    requires
        100 <= code <= 999,
    ensures
        r == (200 <= code < 300),
{
    reqwest::StatusCode::from_u16(code).unwrap().is_success()
}

/// `serde_json::Value`, which the identifier of a request is. It is carried through
/// and never looked into.
#[verifier::external_type_specification]
#[verifier::external_body]
pub struct ExValue(serde_json::Value);

/// `rand::seq::IndexedRandom::choose_multiple` on a slice, with `rand::rng`: as many
/// items as are asked for, or all where there are fewer, none of them more often than
/// the slice holds it.
///
/// Which items these are, and in which order, is left to chance. Left out is the choice
/// of all of more than `u32::MAX` items, which panics where debug assertions are on.
#[verifier::external_body]
pub(crate) fn choose_multiple(pool: &Vec<usize>, amount: usize) -> (r: Vec<usize>)
    requires
        pool@.len() <= 0xffff_ffff || amount < pool@.len(),
    ensures
        r@.len() == if amount < pool@.len() {
            amount as nat
        } else {
            pool@.len()
        },
        r@.to_multiset().subset_of(pool@.to_multiset()),
{
    pool.choose_multiple(&mut rand::rng(), amount).copied().collect()
}

} // verus!
