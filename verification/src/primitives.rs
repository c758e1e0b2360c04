//! The cryptographic and encoding primitives this library builds on, each
//! computed by an outside crate. The functions here make one call each; their
//! contracts are trusted, and everything proved elsewhere rests on them.

use aes_gcm_siv::aead::{Aead, KeyInit, Payload};
use aes_gcm_siv::{Aes256GcmSiv, Nonce};
use base64::engine::general_purpose::STANDARD;
use base64::Engine;
use hkdf::Hkdf;
use rand::rngs::OsRng;
use rand::RngCore;
use sha2::{Digest, Sha256};
use std::path::Path;
use vstd::prelude::*;
use x25519_dalek::{PublicKey, StaticSecret};
use zeroize::Zeroize;

verus! {

/// Largest message and associated-data length AES-GCM-SIV accepts (RFC 8452).
pub const AEAD_MAX_INPUT: u64 = 0x10_0000_0000;

/// Length in bytes of an AES-GCM-SIV authentication tag.
pub const AEAD_TAG_LEN: usize = 16;

/// The SHA-256 digest of `data`.
pub uninterp spec fn sha256(data: Seq<u8>) -> Seq<u8>;

/// The 32 bytes that HKDF-SHA256 derives from `ikm` with salt `salt` and
/// context `info`.
pub uninterp spec fn hkdf_sha256_32(salt: Seq<u8>, ikm: Seq<u8>, info: Seq<u8>) -> Seq<u8>;

/// The AES-256-GCM-SIV ciphertext (with its tag appended) of `msg` under
/// `key`, `nonce` and associated data `aad`.
pub uninterp spec fn aead_seal(key: Seq<u8>, nonce: Seq<u8>, msg: Seq<u8>, aad: Seq<u8>) -> Seq<u8>;

/// The plaintext that AES-256-GCM-SIV recovers from `ct` under `key`,
/// `nonce` and `aad`, or `None` where authentication fails.
pub uninterp spec fn aead_open(key: Seq<u8>, nonce: Seq<u8>, ct: Seq<u8>, aad: Seq<u8>) -> Option<Seq<u8>>;

/// The X25519 public key of the secret key `secret`.
pub uninterp spec fn x25519_public(secret: Seq<u8>) -> Seq<u8>;

/// The X25519 shared secret of secret key `secret` and public key `public`.
pub uninterp spec fn x25519_dh(secret: Seq<u8>, public: Seq<u8>) -> Seq<u8>;

/// The standard (padded) base64 encoding of `bytes`.
pub uninterp spec fn b64_encode(bytes: Seq<u8>) -> Seq<char>;

/// The bytes that standard base64 decoding gives for `text`, or `None` where
/// `text` is not valid standard base64.
pub uninterp spec fn b64_decode(text: Seq<char>) -> Option<Seq<u8>>;

/// The text `json` with its top-level field `key` set to the number
/// `value`, pretty-printed, or `None` where `json` is not JSON.
pub uninterp spec fn json_set_u8_pretty(json: Seq<u8>, key: Seq<char>, value: u8) -> Option<Seq<char>>;

/// The view of an optional string.
pub open spec fn opt_chars(o: Option<String>) -> Option<Seq<char>> {
    match o {
        Some(s) => Some(s@),
        None => None,
    }
}

/// The view of an optional byte vector.
pub open spec fn opt_bytes(o: Option<Vec<u8>>) -> Option<Seq<u8>> {
    match o {
        Some(v) => Some(v@),
        None => None,
    }
}

/// `Sha256::digest` (sha2): the 32-byte SHA-256 digest of `data`.
#[verifier::external_body]
pub(crate) fn sha256_digest(data: &[u8]) -> (digest: Vec<u8>)
    ensures
        digest@ == sha256(data@),
        digest@.len() == 32,
{
    Sha256::digest(data).to_vec()
}

/// `Hkdf::<Sha256>::new(Some(salt), ikm)` followed by `expand(info, ..)` into
/// 32 bytes (hkdf): the HKDF-SHA256 output of that length. Expansion fails
/// only for outputs longer than 255 hash lengths, never for 32 bytes.
#[verifier::external_body]
pub(crate) fn hkdf_sha256_expand32(salt: &[u8], ikm: &[u8], info: &[u8]) -> (okm: Vec<u8>)
    ensures
        okm@ == hkdf_sha256_32(salt@, ikm@, info@),
        okm@.len() == 32,
{
    let hk = Hkdf::<Sha256>::new(Some(salt), ikm);
    let mut okm = [0u8; 32];
    hk.expand(info, &mut okm).expect("HKDF expand failed");
    okm.to_vec()
}

/// `Aes256GcmSiv::new_from_slice(key)` then `Aead::encrypt` with a payload
/// of `msg` and `aad` (aes-gcm-siv). The cipher accepts any 32-byte key;
/// encryption fails exactly when the message or the associated data is longer
/// than 2^36 bytes. The ciphertext is the message length plus a 16-byte tag,
/// and decrypting it with the same key, nonce and associated data gives the
/// message back.
#[verifier::external_body]
pub(crate) fn aes_gcm_siv_seal(key: &[u8], nonce: &[u8], msg: &[u8], aad: &[u8]) -> (ct: Option<Vec<u8>>)
    requires
        key@.len() == 32,
        nonce@.len() == 12,
    ensures
        ct is Some <==> (msg@.len() <= AEAD_MAX_INPUT && aad@.len() <= AEAD_MAX_INPUT),
        ct matches Some(c) ==> {
            &&& c@ == aead_seal(key@, nonce@, msg@, aad@)
            &&& c@.len() == msg@.len() + AEAD_TAG_LEN
            &&& aead_open(key@, nonce@, c@, aad@) == Some(msg@)
        },
{
    let cipher = match Aes256GcmSiv::new_from_slice(key) {
        Ok(c) => c,
        Err(_) => return None,
    };
    cipher.encrypt(Nonce::from_slice(nonce), Payload { msg, aad }).ok()
}

/// `Aes256GcmSiv::new_from_slice(key)` then `Aead::decrypt` with a payload
/// of `ct` and `aad` (aes-gcm-siv): the authenticated plaintext, which is 16
/// bytes shorter than the ciphertext, or `None`.
#[verifier::external_body]
pub(crate) fn aes_gcm_siv_open(key: &[u8], nonce: &[u8], ct: &[u8], aad: &[u8]) -> (msg: Option<Vec<u8>>)
    requires
        key@.len() == 32,
        nonce@.len() == 12,
    ensures
        opt_bytes(msg) == aead_open(key@, nonce@, ct@, aad@),
        msg matches Some(m) ==> m@.len() + AEAD_TAG_LEN == ct@.len(),
{
    let cipher = match Aes256GcmSiv::new_from_slice(key) {
        Ok(c) => c,
        Err(_) => return None,
    };
    cipher.decrypt(Nonce::from_slice(nonce), Payload { msg: ct, aad }).ok()
}

/// `PublicKey::from(&StaticSecret::from(secret))` (x25519-dalek): the public
/// key of a 32-byte secret. As the crate documents, two parties reach the same
/// shared secret: any other secret combined with this public key agrees with
/// this secret combined with the other secret's public key.
#[verifier::external_body]
pub(crate) fn x25519_public_key(secret: &[u8]) -> (public: Vec<u8>)
    requires
        secret@.len() == 32,
    ensures
        public@ == x25519_public(secret@),
        public@.len() == 32,
        forall|other: Seq<u8>|
            other.len() == 32 ==> #[trigger] x25519_dh(other, public@) == x25519_dh(
                secret@,
                x25519_public(other),
            ),
{
    let mut bytes = [0u8; 32];
    bytes.copy_from_slice(secret);
    PublicKey::from(&StaticSecret::from(bytes)).as_bytes().to_vec()
}

/// `StaticSecret::diffie_hellman` (x25519-dalek): the 32-byte shared secret
/// of a secret key and a peer's public key.
#[verifier::external_body]
pub(crate) fn x25519_shared_secret(secret: &[u8], public: &[u8]) -> (shared: Vec<u8>)
    requires
        secret@.len() == 32,
        public@.len() == 32,
    ensures
        shared@ == x25519_dh(secret@, public@),
        shared@.len() == 32,
{
    let mut s = [0u8; 32];
    s.copy_from_slice(secret);
    let mut p = [0u8; 32];
    p.copy_from_slice(public);
    StaticSecret::from(s).diffie_hellman(&PublicKey::from(p)).as_bytes().to_vec()
}

/// `Engine::encode` of the standard engine (base64): the padded base64 text
/// of `bytes`, four characters for every three bytes or part of three, which
/// the same engine decodes back to `bytes`.
#[verifier::external_body]
pub(crate) fn base64_encode(bytes: &[u8]) -> (text: String)
    requires
        bytes@.len() / 3 * 4 + 4 <= usize::MAX,
    ensures
        text@ == b64_encode(bytes@),
        text@.len() == 4 * ((bytes@.len() + 2) / 3),
        b64_decode(text@) == Some(bytes@),
{
    STANDARD.encode(bytes)
}

/// `Engine::decode` of the standard engine (base64): the decoded bytes, or
/// `None` where the text is not valid base64.
#[verifier::external_body]
pub(crate) fn base64_decode(text: &str) -> (bytes: Option<Vec<u8>>)
    ensures
        opt_bytes(bytes) == b64_decode(text@),
{
    STANDARD.decode(text).ok()
}

/// `OsRng::fill_bytes` (rand): `len` bytes from the operating system's
/// random source. Which bytes come back is not stated: only their number.
/// Where the operating system cannot supply random bytes, `fill_bytes` panics
/// instead of returning; that depends on the machine, not on `len`.
#[verifier::external_body]
pub(crate) fn os_random_bytes(len: usize) -> (bytes: Vec<u8>)
    ensures
        bytes@.len() == len,
{
    let mut buf = vec![0u8; len];
    OsRng.fill_bytes(&mut buf);
    buf
}

/// `Zeroize::zeroize` on a byte vector (zeroize): overwrites the contents
/// with zeros and leaves the vector empty.
#[verifier::external_body]
pub(crate) fn wipe(bytes: &mut Vec<u8>)
    ensures
        final(bytes)@ == Seq::<u8>::empty(),
{
    bytes.zeroize();
}

/// `String::push` (std): appends one character.
#[verifier::external_body]
pub(crate) fn push_char(s: &mut String, c: char)
    ensures
        final(s)@ == old(s)@.push(c),
{
    s.push(c);
}

/// `serde_json::from_slice` into a `Value`, `insert` of the number `value`
/// under `key` where that value is an object, then `to_string_pretty`
/// (serde_json): `None` exactly where the bytes are not JSON. Objects are
/// kept in key order, so the text depends on the arguments alone.
#[verifier::external_body]
pub(crate) fn json_set_u8_pretty_exec(json: &[u8], key: &str, value: u8) -> (out: Option<String>)
    ensures
        opt_chars(out) == json_set_u8_pretty(json@, key@, value),
{
    let mut v: serde_json::Value = match serde_json::from_slice(json) {
        Ok(v) => v,
        Err(_) => return None,
    };
    if let Some(obj) = v.as_object_mut() {
        obj.insert(key.to_string(), serde_json::Value::from(value));
    }
    serde_json::to_string_pretty(&v).ok()
}

/// Whether `s` is a plain file name on every platform: not empty, not `.`
/// or `..`, and without the separators `/` and `\\` and the drive mark `:`.
pub open spec fn is_plain_file_name(s: Seq<char>) -> bool {
    &&& s.len() > 0
    &&& s != "."@
    &&& s != ".."@
    &&& !s.contains('/')
    &&& !s.contains('\\')
    &&& !s.contains(':')
}

/// `Path::file_name` of `path`, as text (std): the last component of the
/// path, which holds no `/` and is never `..`; `None` where the path ends in
/// `..` or has no last component, or where that component is not UTF-8. A
/// plain file name is a path of one component, which is its own file name.
#[verifier::external_body]
pub(crate) fn path_file_name(path: &str) -> (name: Option<String>)
    ensures
        name matches Some(n) ==> !n@.contains('/') && n@ != ".."@,
        is_plain_file_name(path@) ==> opt_chars(name) == Some(path@),
{
    Path::new(path).file_name().and_then(|n| n.to_str()).map(|n| n.to_string())
}

} // verus!
