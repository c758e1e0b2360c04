//! Device identities: an X25519 key pair whose private half is kept
//! encrypted at rest, the fingerprint that names a public key, and the
//! record a device hands out so that others can encrypt for it.

use crate::error::{res_bytes, Error};
use crate::names::{default_protection_mode, spec_protection_mode};
use crate::primitives::{
    aead_open, aead_seal, aes_gcm_siv_open, aes_gcm_siv_seal, b64_decode, b64_encode, base64_decode,
    base64_encode, os_random_bytes, sha256, sha256_digest, wipe, x25519_public, x25519_public_key,
    AEAD_MAX_INPUT, AEAD_TAG_LEN,
};
use crate::text::{hex_lower, hex_prefix, is_lower_hex_char, lemma_hex_lower_chars, lemma_hex_lower_len};
use vstd::prelude::*;

verus! {

/// Length of X25519 keys and of AES-256 keys.
pub const KEY_LEN: usize = 32;

/// Length of the nonce in front of a protected private key.
pub const PROTECTION_NONCE_LEN: usize = 12;

/// What a device publishes so that others can encrypt files for it.
#[derive(Clone)]
pub struct RecipientPublic {
    pub fingerprint: String,
    pub public_key_b64: String,
}

/// A device's key pair as stored on disk: the private key in protected form,
/// the public key, its fingerprint, and how the private key was protected.
pub struct DeviceIdentity {
    pub protected_private_key_b64: String,
    pub public_key_b64: String,
    pub fingerprint: String,
    pub protection_mode: String,
}

/// The fingerprint of a public key: the first eight bytes of its SHA-256
/// digest in lowercase hex.
pub open spec fn spec_fingerprint(pk: Seq<u8>) -> Seq<char> {
    hex_lower(sha256(pk).take(8))
}

/// The fingerprint of a public key: sixteen lowercase hex digits, the first
/// eight bytes of the key's SHA-256 digest.
pub fn fingerprint_from_public_key(pk: &[u8]) -> (fp: String)
    ensures
        fp@ == spec_fingerprint(pk@),
        fp@.len() == 16,
        forall|i: int| 0 <= i < fp@.len() ==> is_lower_hex_char(#[trigger] fp@[i]),
{
    let digest = sha256_digest(pk);
    let fp = hex_prefix(digest.as_slice(), 16);
    proof {
        lemma_hex_lower_len(sha256(pk@).take(8));
        lemma_hex_lower_chars(sha256(pk@).take(8));
    }
    fp
}

/// A protected private key: the nonce, then the key sealed under the master
/// key with that nonce and no associated data.
pub open spec fn spec_sealed_private_key(master: Seq<u8>, nonce: Seq<u8>, sk: Seq<u8>) -> Seq<u8> {
    nonce + aead_seal(master, nonce, sk, Seq::empty())
}

/// Opening a protected private key with the master key.
pub open spec fn spec_unprotect(master: Seq<u8>, blob: Seq<u8>) -> Result<Seq<u8>, Error> {
    if blob.len() <= PROTECTION_NONCE_LEN {
        Err(Error::ProtectionBlobTooShort(blob.len() as usize))
    } else if master.len() != KEY_LEN {
        Err(Error::MasterKeyInvalid)
    } else {
        match aead_open(
            master,
            blob.take(PROTECTION_NONCE_LEN as int),
            blob.skip(PROTECTION_NONCE_LEN as int),
            Seq::empty(),
        ) {
            Some(sk) => Ok(sk),
            None => Err(Error::KeyUnprotectFailed),
        }
    }
}

/// The protected private key stored in an identity, where it was protected
/// by the mechanism of this platform (`windows`: DPAPI, otherwise the keyring
/// master key, whose sealed keys hold at least a nonce and a tag).
pub open spec fn spec_protected_blob(id: DeviceIdentity, windows: bool) -> Result<Seq<u8>, Error> {
    if id.protection_mode@ != spec_protection_mode(windows) {
        Err(Error::ProtectionModeMismatch)
    } else {
        match b64_decode(id.protected_private_key_b64@) {
            None => Err(Error::InvalidBase64),
            Some(blob) => if !windows && blob.len() <= PROTECTION_NONCE_LEN {
                Err(Error::ProtectionBlobTooShort(blob.len() as usize))
            } else {
                Ok(blob)
            },
        }
    }
}

/// Seals a private key under the master key with the given nonce: the
/// nonce, then the sealed key. What comes out opens, under the same master
/// key, to the private key. A private key longer than AES-GCM-SIV accepts is
/// refused.
pub fn seal_private_key(master: &[u8], nonce: &[u8], sk: &[u8]) -> (blob: Result<Vec<u8>, Error>)
    requires
        master@.len() == KEY_LEN,
        nonce@.len() == PROTECTION_NONCE_LEN,
    ensures
        blob is Ok <==> sk@.len() <= AEAD_MAX_INPUT,
        blob matches Ok(b) ==> {
            &&& b@ == nonce@ + aead_seal(master@, nonce@, sk@, Seq::empty())
            &&& b@ == spec_sealed_private_key(master@, nonce@, sk@)
            &&& b@.len() == PROTECTION_NONCE_LEN + sk@.len() + AEAD_TAG_LEN
            &&& spec_unprotect(master@, b@) == Ok::<Seq<u8>, Error>(sk@)
        },
        blob matches Err(e) ==> e == Error::KeyProtectFailed,
{
    let empty: [u8; 0] = [];
    let ct = match aes_gcm_siv_seal(master, nonce, sk, &empty) {
        Some(c) => c,
        None => return Err(Error::KeyProtectFailed),
    };
    let mut out: Vec<u8> = Vec::new();
    out.extend_from_slice(nonce);
    out.extend_from_slice(ct.as_slice());
    proof {
        assert(empty@ =~= Seq::<u8>::empty());
        assert(out@ =~= nonce@ + ct@);
        assert(out@.take(12) =~= nonce@);
        assert(out@.skip(12) =~= ct@);
    }
    Ok(out)
}

/// Protects a private key under the master key with a fresh random nonce
/// (see `seal_private_key`). A master key that is not an AES-256 key is
/// refused before anything is drawn.
pub fn protect_private_key(master: &[u8], sk: &[u8]) -> (blob: Result<Vec<u8>, Error>)
    ensures
        master@.len() != KEY_LEN ==> blob == Err::<Vec<u8>, Error>(Error::MasterKeyInvalid),
        master@.len() == KEY_LEN && sk@.len() > AEAD_MAX_INPUT ==> blob is Err,
        master@.len() == KEY_LEN && sk@.len() <= AEAD_MAX_INPUT ==> blob is Ok,
        blob matches Ok(b) ==> {
            &&& b@ == b@.take(PROTECTION_NONCE_LEN as int) + aead_seal(
                master@,
                b@.take(PROTECTION_NONCE_LEN as int),
                sk@,
                Seq::empty(),
            )
            &&& b@.len() == PROTECTION_NONCE_LEN + sk@.len() + AEAD_TAG_LEN
            &&& b@ == spec_sealed_private_key(master@, b@.take(PROTECTION_NONCE_LEN as int), sk@)
            &&& spec_unprotect(master@, b@) == Ok::<Seq<u8>, Error>(sk@)
        },
        blob matches Err(e) ==> {
            ||| (e == Error::MasterKeyInvalid && master@.len() != KEY_LEN)
            ||| (e == Error::KeyProtectFailed && sk@.len() > AEAD_MAX_INPUT)
        },
{
    if master.len() != KEY_LEN {
        return Err(Error::MasterKeyInvalid);
    }
    let nonce = os_random_bytes(PROTECTION_NONCE_LEN);
    let blob = seal_private_key(master, nonce.as_slice(), sk);
    proof {
        assert(blob matches Ok(b) ==> b@.take(12) =~= nonce@);
    }
    blob
}

/// Opens a protected private key (nonce, then sealed key) with the master key.
pub fn unprotect_private_key(master: &[u8], blob: &[u8]) -> (sk: Result<Vec<u8>, Error>)
    ensures
        res_bytes(sk) == spec_unprotect(master@, blob@),
{
    if blob.len() <= PROTECTION_NONCE_LEN {
        return Err(Error::ProtectionBlobTooShort(blob.len()));
    }
    if master.len() != KEY_LEN {
        return Err(Error::MasterKeyInvalid);
    }
    let (nonce, ct) = blob.split_at(PROTECTION_NONCE_LEN);
    let empty: [u8; 0] = [];
    proof {
        assert(empty@ =~= Seq::<u8>::empty());
    }
    match aes_gcm_siv_open(master, nonce, ct, &empty) {
        Some(sk) => Ok(sk),
        None => Err(Error::KeyUnprotectFailed),
    }
}

/// The protected private key of an identity, decoded; refused where it was
/// protected by another mechanism than this platform's (`windows`: DPAPI), or
/// is too short to be a key sealed under the keyring master key.
pub fn protected_blob(identity: &DeviceIdentity, windows: bool) -> (blob: Result<Vec<u8>, Error>)
    ensures
        res_bytes(blob) == spec_protected_blob(*identity, windows),
{
    let expected = default_protection_mode(windows);
    if identity.protection_mode != expected {
        return Err(Error::ProtectionModeMismatch);
    }
    match base64_decode(identity.protected_private_key_b64.as_str()) {
        None => Err(Error::InvalidBase64),
        Some(blob) => if !windows && blob.len() <= PROTECTION_NONCE_LEN {
            Err(Error::ProtectionBlobTooShort(blob.len()))
        } else {
            Ok(blob)
        },
    }
}

/// The master key held in the keyring entry `stored` (base64 of 32 bytes).
pub open spec fn spec_master_key_from_stored(stored: Seq<char>) -> Result<Seq<u8>, Error> {
    match b64_decode(stored) {
        None => Err(Error::InvalidBase64),
        Some(k) => if k.len() == KEY_LEN {
            Ok(k)
        } else {
            Err(Error::CorruptMasterKey(k.len() as usize))
        },
    }
}

/// Reads the master key out of its stored (base64) form.
pub fn master_key_from_stored(stored: &str) -> (key: Result<Vec<u8>, Error>)
    ensures
        res_bytes(key) == spec_master_key_from_stored(stored@),
{
    match base64_decode(stored) {
        None => Err(Error::InvalidBase64),
        Some(k) => if k.len() == KEY_LEN {
            Ok(k)
        } else {
            Err(Error::CorruptMasterKey(k.len()))
        },
    }
}

/// A fresh random master key and the form in which it is stored; reading the
/// stored form back gives the key.
pub fn new_master_key() -> (r: Result<(Vec<u8>, String), Error>)
    ensures
        r is Ok,
        r matches Ok((key, stored)) ==> {
            &&& key@.len() == KEY_LEN
            &&& stored@ == b64_encode(key@)
            &&& spec_master_key_from_stored(stored@) == Ok::<Seq<u8>, Error>(key@)
        },
        r matches Err(e) ==> e == Error::RandomUnavailable,
{
    let key = os_random_bytes(KEY_LEN);
    let stored = base64_encode(key.as_slice());
    Ok((key, stored))
}

/// A fresh random 32-byte secret key for this device.
pub fn new_device_secret() -> (secret: Result<Vec<u8>, Error>)
    ensures
        secret is Ok,
        secret matches Ok(s) ==> s@.len() == KEY_LEN,
        secret matches Err(e) ==> e == Error::RandomUnavailable,
{
    Ok(os_random_bytes(KEY_LEN))
}

/// Whether `id` publishes the public key of `secret` and that key's
/// fingerprint.
pub open spec fn identity_publishes(id: DeviceIdentity, secret: Seq<u8>) -> bool {
    &&& x25519_public(secret).len() == KEY_LEN
    &&& id.public_key_b64@ == b64_encode(x25519_public(secret))
    &&& b64_decode(id.public_key_b64@) == Some(x25519_public(secret))
    &&& id.fingerprint@ == spec_fingerprint(x25519_public(secret))
}

/// The identity of the device whose secret key is `secret`, stored with the
/// protected form `protected` of that key.
pub fn device_identity_from_secret(secret: &[u8], protected: &[u8], protection_mode: String) -> (id: DeviceIdentity)
    requires
        secret@.len() == KEY_LEN,
        protected@.len() / 3 * 4 + 4 <= usize::MAX,
    ensures
        identity_publishes(id, secret@),
        id.protected_private_key_b64@ == b64_encode(protected@),
        b64_decode(id.protected_private_key_b64@) == Some(protected@),
        id.protection_mode == protection_mode,
{
    let public = x25519_public_key(secret);
    DeviceIdentity {
        protected_private_key_b64: base64_encode(protected),
        public_key_b64: base64_encode(public.as_slice()),
        fingerprint: fingerprint_from_public_key(public.as_slice()),
        protection_mode,
    }
}

/// Whether `id` is the identity made from the secret key `secret`, sealed
/// under the keyring master key `master` with `nonce`.
pub open spec fn identity_from(id: DeviceIdentity, master: Seq<u8>, secret: Seq<u8>, nonce: Seq<u8>) -> bool {
    &&& identity_publishes(id, secret)
    &&& id.protected_private_key_b64@ == b64_encode(spec_sealed_private_key(master, nonce, secret))
    &&& id.protection_mode@ == spec_protection_mode(false)
}

/// The identity of the device with secret key `secret`, its key sealed under
/// the keyring master key `master` with `nonce`. The stored key opens, under
/// that master key, to `secret`.
pub fn identity_from_draws(master: &[u8], secret: &[u8], nonce: &[u8]) -> (id: Result<DeviceIdentity, Error>)
    requires
        secret@.len() == KEY_LEN,
        nonce@.len() == PROTECTION_NONCE_LEN,
    ensures
        master@.len() != KEY_LEN ==> id == Err::<DeviceIdentity, Error>(Error::MasterKeyInvalid),
        master@.len() == KEY_LEN ==> id is Ok,
        id matches Ok(id) ==> {
            &&& identity_from(id, master@, secret@, nonce@)
            &&& spec_protected_blob(id, false) == Ok::<Seq<u8>, Error>(
                spec_sealed_private_key(master@, nonce@, secret@),
            )
            &&& spec_unprotect(master@, spec_sealed_private_key(master@, nonce@, secret@)) == Ok::<
                Seq<u8>,
                Error,
            >(secret@)
        },
{
    if master.len() != KEY_LEN {
        return Err(Error::MasterKeyInvalid);
    }
    let protected = seal_private_key(master, nonce, secret)?;
    Ok(device_identity_from_secret(secret, protected.as_slice(), default_protection_mode(false)))
}

/// Generates a new device identity whose private key is protected under the
/// keyring master key `master`, from a fresh random secret key and nonce
/// (see `identity_from_draws`). The stored private key opens, under that
/// master key, to a secret whose public key and fingerprint the identity
/// publishes. A master key that is not an AES-256 key is refused before
/// anything is drawn.
pub fn generate_device_identity(master: &[u8]) -> (id: Result<DeviceIdentity, Error>)
    ensures
        master@.len() != KEY_LEN ==> id == Err::<DeviceIdentity, Error>(Error::MasterKeyInvalid),
        master@.len() == KEY_LEN ==> id is Ok,
        id matches Ok(id) ==> {
            &&& exists|secret: Seq<u8>, nonce: Seq<u8>|
                secret.len() == KEY_LEN && nonce.len() == PROTECTION_NONCE_LEN
                    && #[trigger] identity_from(id, master@, secret, nonce)
            &&& spec_protected_blob(id, false) matches Ok(blob) && spec_unprotect(master@, blob) matches Ok(
                sk,
            ) && sk.len() == KEY_LEN && identity_publishes(id, sk)
        },
        id matches Err(e) ==> e == Error::MasterKeyInvalid && master@.len() != KEY_LEN,
{
    if master.len() != KEY_LEN {
        return Err(Error::MasterKeyInvalid);
    }
    let mut secret = new_device_secret()?;
    let nonce = os_random_bytes(PROTECTION_NONCE_LEN);
    let id = identity_from_draws(master, secret.as_slice(), nonce.as_slice());
    proof {
        assert(id matches Ok(i) ==> identity_from(i, master@, secret@, nonce@));
    }
    wipe(&mut secret);
    id
}

/// The public record of an identity, to hand to devices that will encrypt
/// for it.
pub fn recipient_from_identity(id: &DeviceIdentity) -> (r: RecipientPublic)
    ensures
        r.fingerprint == id.fingerprint,
        r.public_key_b64 == id.public_key_b64,
{
    RecipientPublic { fingerprint: id.fingerprint.clone(), public_key_b64: id.public_key_b64.clone() }
}

/// A protected key is opened with the nonce stored in front of it and no
/// associated data: for any 32-byte master key, 12-byte nonce and private key,
/// the blob made of the nonce followed by the key sealed under that master key
/// and nonce with empty associated data unprotects to the key (given what
/// every AES-GCM-SIV seal does: it is the key's length plus a tag, and it
/// opens again).
pub proof fn lemma_unprotect_opens_sealed_key(master: Seq<u8>, nonce: Seq<u8>, sk: Seq<u8>)
    requires
        master.len() == KEY_LEN,
        nonce.len() == PROTECTION_NONCE_LEN,
        aead_seal(master, nonce, sk, Seq::empty()).len() == sk.len() + AEAD_TAG_LEN,
        aead_open(master, nonce, aead_seal(master, nonce, sk, Seq::empty()), Seq::empty()) == Some(sk),
    ensures
        spec_unprotect(master, nonce + aead_seal(master, nonce, sk, Seq::empty())) == Ok::<
            Seq<u8>,
            Error,
        >(sk),
{
    let blob = nonce + aead_seal(master, nonce, sk, Seq::empty());
    assert(blob.take(PROTECTION_NONCE_LEN as int) =~= nonce);
    assert(blob.skip(PROTECTION_NONCE_LEN as int) =~= aead_seal(master, nonce, sk, Seq::empty()));
}

} // verus!
