//! Content addressing: the identity of an image payload is the SHA-256
//! digest of its bytes in lower-case hexadecimal. The same bytes always give
//! the same name, so a payload that is captured twice is stored once.

use vstd::prelude::*;
use vstd::string::StringExecFns;
use sha2::Digest;

verus! {

/// The SHA-256 digest of `data`, as `sha2::Sha256` computes it.
pub uninterp spec fn sha256(data: Seq<u8>) -> Seq<u8>;

/// The lower-case hexadecimal digit for a value below sixteen.
pub open spec fn hex_digit(value: int) -> char {
    if value == 0 {
        '0'
    } else if value == 1 {
        '1'
    } else if value == 2 {
        '2'
    } else if value == 3 {
        '3'
    } else if value == 4 {
        '4'
    } else if value == 5 {
        '5'
    } else if value == 6 {
        '6'
    } else if value == 7 {
        '7'
    } else if value == 8 {
        '8'
    } else if value == 9 {
        '9'
    } else if value == 10 {
        'a'
    } else if value == 11 {
        'b'
    } else if value == 12 {
        'c'
    } else if value == 13 {
        'd'
    } else if value == 14 {
        'e'
    } else {
        'f'
    }
}

/// `bytes` in lower-case hexadecimal: two digits for each byte, the high
/// half first.
pub open spec fn hex_of(bytes: Seq<u8>) -> Seq<char> {
    Seq::new(
        2 * bytes.len(),
        |i: int|
            if i % 2 == 0 {
                hex_digit(bytes[i / 2] as int / 16)
            } else {
                hex_digit(bytes[i / 2] as int % 16)
            },
    )
}

/// Different values below sixteen have different digits.
proof fn lemma_hex_digit_is_injective(x: int, y: int)
    requires
        0 <= x < 16,
        0 <= y < 16,
        hex_digit(x) == hex_digit(y),
    ensures
        x == y,
{
}

/// Hexadecimal loses nothing: byte sequences with the same digits are the
/// same, so different digests never share a name.
pub proof fn lemma_hex_is_injective(a: Seq<u8>, b: Seq<u8>)
    requires
        hex_of(a) == hex_of(b),
    ensures
        a == b,
{
    assert(hex_of(a).len() == 2 * a.len());
    assert(hex_of(b).len() == 2 * b.len());
    assert(a.len() == b.len());
    assert forall|i: int| 0 <= i < a.len() implies a[i] == b[i] by {
        let high = 2 * i;
        let low = 2 * i + 1;
        assert(high / 2 == i && high % 2 == 0);
        assert(low / 2 == i && low % 2 == 1);
        assert(hex_of(a)[high] == hex_digit(a[i] as int / 16));
        assert(hex_of(b)[high] == hex_digit(b[i] as int / 16));
        assert(hex_of(a)[low] == hex_digit(a[i] as int % 16));
        assert(hex_of(b)[low] == hex_digit(b[i] as int % 16));
        lemma_hex_digit_is_injective(a[i] as int / 16, b[i] as int / 16);
        lemma_hex_digit_is_injective(a[i] as int % 16, b[i] as int % 16);
    }
    assert(a =~= b);
}

/// The file name of the payload with the given hash.
pub open spec fn payload_name(hash: Seq<char>) -> Seq<char> {
    hash + ".png"@
}

/// Two payloads are stored under one file name exactly when they have one
/// digest: the same bytes always give the same name, and the name tells
/// digests apart.
pub proof fn lemma_payload_name_identifies_digest(a: Seq<u8>, b: Seq<u8>)
    ensures
        payload_name(hex_of(sha256(a))) == payload_name(hex_of(sha256(b))) <==> sha256(a)
            == sha256(b),
{
    let x = hex_of(sha256(a));
    let y = hex_of(sha256(b));
    if payload_name(x) == payload_name(y) {
        let suffix = ".png"@;
        assert(payload_name(x).len() == x.len() + suffix.len());
        assert(payload_name(y).len() == y.len() + suffix.len());
        assert(x =~= payload_name(x).subrange(0, x.len() as int));
        assert(y =~= payload_name(y).subrange(0, y.len() as int));
        lemma_hex_is_injective(sha256(a), sha256(b));
    }
}

/// Computes a SHA-256 digest with `sha2::Sha256`: `new`, `update` and
/// `finalize` of its `Digest` trait.
///
/// The contract gives the result its name and the 32 bytes that the crate
/// fixes as the output size.
#[verifier::external_body]
fn sha256_digest(data: &[u8]) -> (digest: Vec<u8>)
    ensures
        digest@ == sha256(data@),
        digest@.len() == 32,
{
    let mut hasher = sha2::Sha256::new();
    hasher.update(data);
    hasher.finalize().to_vec()
}

/// Writes bytes in hexadecimal with `hex::encode`.
///
/// The contract says what the crate documents and its source shows: for
/// each byte two lower-case digits from `0123456789abcdef`, the high four
/// bits first.
#[verifier::external_body]
fn hex_encode(bytes: &[u8]) -> (text: String)
    ensures
        text@ == hex_of(bytes@),
{
    hex::encode(bytes)
}

/// A digest in the form in which it names a payload: lower-case
/// hexadecimal, two digits for each byte.
pub fn digest_text(digest: &[u8]) -> (text: String)
    ensures
        text@ == hex_of(digest@),
        text@.len() == 2 * digest@.len(),
{
    hex_encode(digest)
}

/// The content-addressed identity of a payload: its SHA-256 digest in
/// lower-case hexadecimal, 64 digits.
pub fn content_hash(bytes: &[u8]) -> (hash: String)
    ensures
        hash@ == hex_of(sha256(bytes@)),
        hash@.len() == 64,
{
    let digest = sha256_digest(bytes);
    digest_text(digest.as_slice())
}

/// The file name under which the payload with the given hash is stored: the
/// hash followed by `.png`.
pub fn image_file_name(hash: &str) -> (name: String)
    ensures
        name@ == payload_name(hash@),
{
    let mut name = hash.to_owned();
    name.append(".png");
    name
}

} // verus!
