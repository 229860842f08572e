use hmac::Mac;
use sha2::Digest;
use vstd::prelude::*;

verus! {

/// The HMAC-SHA256 tag of `message` under `key`.
pub uninterp spec fn hmac_sha256_of(key: Seq<u8>, message: Seq<u8>) -> Seq<u8>;

/// The SHA-256 digest of `message`.
pub uninterp spec fn sha256_of(message: Seq<u8>) -> Seq<u8>;

/// The lowercase hexadecimal writing of `b`, two digits per byte.
pub open spec fn hex_of(b: Seq<u8>) -> Seq<char>
    decreases b.len(),
{
    if b.len() == 0 {
        Seq::empty()
    } else {
        hex_of(b.drop_last()).push("0123456789abcdef"@[(b.last() / 16) as int]).push(
            "0123456789abcdef"@[(b.last() % 16) as int],
        )
    }
}

/// Relies on `hmac::Hmac<sha2::Sha256>`: `new_from_slice` accepts a key of any
/// length, and the tag depends on the key and the message alone.
#[verifier::external_body]
fn hmac_sha256(message: &[u8], secret: &[u8]) -> (r: Vec<u8>)
    ensures
        r@ == hmac_sha256_of(secret@, message@),
{
    let mut mac = hmac::Hmac::<sha2::Sha256>::new_from_slice(secret).unwrap();
    mac.update(message);
    mac.finalize().into_bytes().to_vec()
}

/// Relies on `sha2::Sha256`: the digest depends on the message alone.
#[verifier::external_body]
fn sha256_digest(message: &[u8]) -> (r: Vec<u8>)
    ensures
        r@ == sha256_of(message@),
{
    let mut hasher = sha2::Sha256::new();
    hasher.update(message);
    hasher.finalize().to_vec()
}

/// Relies on `hex::encode`: two lowercase digits for each byte, high half first.
#[verifier::external_body]
fn hex_encode(b: &[u8]) -> (r: String)
    ensures
        r@ == hex_of(b@),
{
    hex::encode(b)
}

/// The HMAC-SHA256 tag of `message` under the key `secret`.
pub fn sha256(message: &[u8], secret: &[u8]) -> (r: Vec<u8>)
    ensures
        r@ == hmac_sha256_of(secret@, message@),
{
    hmac_sha256(message, secret)
}

/// The SHA-256 digest of `message`, in lowercase hexadecimal.
pub fn get_hash(message: &[u8]) -> (r: String)
    ensures
        r@ == hex_of(sha256_of(message@)),
{
    let digest = sha256_digest(message);
    hex_encode(digest.as_slice())
}

/// The tag of `message` under `secret`, in lowercase hexadecimal.
pub fn hmac_hex(message: &[u8], secret: &[u8]) -> (r: String)
    ensures
        r@ == hex_of(hmac_sha256_of(secret@, message@)),
{
    let tag = hmac_sha256(message, secret);
    hex_encode(tag.as_slice())
}

} // verus!
