//! Digests of text, and fresh identifiers.

use sha2::Digest;
use vstd::prelude::*;

verus! {

/// The SHA-256 digest of a sequence of bytes.
pub uninterp spec fn sha256(data: Seq<u8>) -> Seq<u8>;

/// The hexadecimal digit of `d`, for `d` below sixteen.
pub open spec fn hex_digit(d: int) -> char {
    if d < 10 {
        (48 + d) as char
    } else {
        (87 + d) as char
    }
}

/// Two lower-case hexadecimal digits for each byte, the high one first.
pub open spec fn hex_spec(data: Seq<u8>) -> Seq<char> {
    Seq::new(
        data.len() * 2,
        |i: int|
            hex_digit(
                if i % 2 == 0 {
                    data[i / 2] as int / 16
                } else {
                    data[i / 2] as int % 16
                },
            ),
    )
}

/// The first eight bytes of the digest of a text, in hexadecimal.
pub open spec fn stable_hash_spec(value: Seq<char>) -> Seq<char> {
    hex_spec(sha256(vstd::utf8::encode_utf8(value)).take(8))
}

/// `sha2::Sha256::digest`: the digest is named, and is thirty-two bytes long.
#[verifier::external_body]
fn sha256_digest(data: &[u8]) -> (res: Vec<u8>)
    ensures
        res@ == sha256(data@),
        res@.len() == 32,
{
    sha2::Sha256::digest(data).to_vec()
}

/// `hex::encode`: two lower-case digits for each byte.
#[verifier::external_body]
fn hex_encode(data: &Vec<u8>) -> (res: String)
    ensures
        res@ == hex_spec(data@),
{
    hex::encode(data)
}

/// Whether `c` is a lower-case hexadecimal digit.
pub open spec fn is_hex_digit(c: char) -> bool {
    '0' <= c <= '9' || 'a' <= c <= 'f'
}

/// Whether a hyphen stands here in the hyphenated form of a UUID.
pub open spec fn uuid_hyphen(i: int) -> bool {
    i == 8 || i == 13 || i == 18 || i == 23
}

/// Whether `s` has the hyphenated form of a random UUID: thirty-two
/// hexadecimal digits in five groups, with those that give the version and the
/// variant.
pub open spec fn is_uuid(s: Seq<char>) -> bool {
    &&& s.len() == 36
    &&& forall|i: int|
        0 <= i < 36 ==> if uuid_hyphen(i) {
            #[trigger] s[i] == '-'
        } else {
            is_hex_digit(s[i])
        }
    &&& s[14] == '4'
    &&& s[19] == '8' || s[19] == '9' || s[19] == 'a' || s[19] == 'b'
}

/// `uuid::Uuid::new_v4`, in its hyphenated form. Of the random text only its
/// form. The call does not return where the system gives no random bytes.
#[verifier::external_body]
pub(crate) fn fresh_uuid() -> (res: String)
    ensures
        is_uuid(res@),
{
    uuid::Uuid::new_v4().to_string()
}

pub fn stable_hash(value: &str) -> (res: String)
    ensures
        res@ == stable_hash_spec(value@),
        res@.len() == 16,
{
    let mut digest = sha256_digest(value.as_bytes());
    digest.truncate(8);
    assert(digest@ =~= sha256(vstd::utf8::encode_utf8(value@)).take(8));
    hex_encode(&digest)
}

/// The whole digest of a text, in hexadecimal.
pub open spec fn full_hash_spec(value: Seq<char>) -> Seq<char> {
    hex_spec(sha256(vstd::utf8::encode_utf8(value)))
}

pub fn full_hash(value: &str) -> (res: String)
    ensures
        res@ == full_hash_spec(value@),
        res@.len() == 64,
{
    let digest = sha256_digest(value.as_bytes());
    hex_encode(&digest)
}

/// The short digest of a text is the beginning of its whole digest, where that
/// is as long as a digest is.
pub proof fn law_short_digests_begin_whole_ones(value: Seq<char>)
    requires
        sha256(vstd::utf8::encode_utf8(value)).len() == 32,
    ensures
        full_hash_spec(value).len() == 64,
        stable_hash_spec(value) == full_hash_spec(value).take(16),
        full_hash_spec(value) == hex_spec(sha256(vstd::utf8::encode_utf8(value))),
{
    let data = sha256(vstd::utf8::encode_utf8(value));
    assert(stable_hash_spec(value) =~= full_hash_spec(value).take(16));
}

} // verus!
