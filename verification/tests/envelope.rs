use aes_gcm_siv::aead::{Aead, KeyInit, Payload};
use aes_gcm_siv::{Aes256GcmSiv, Nonce};
use base64::engine::general_purpose::STANDARD;
use base64::Engine;
use hkdf::Hkdf;
use sha2::Sha256;
use twobsecret::envelope::{
    device_public_key, open_header, prepare_encryption, recipient_key, seal_file_key_with,
    ChunkOpener, ChunkSealer,
};
use twobsecret::error::Error;
use twobsecret::format::{Header, CHUNK_SIZE, VERSION};
use twobsecret::keys::{
    generate_device_identity, protected_blob, recipient_from_identity, unprotect_private_key,
    DeviceIdentity, RecipientPublic,
};
use twobsecret::nonce::nonce_from_index;
use x25519_dalek::{PublicKey, StaticSecret};

struct Device {
    id: DeviceIdentity,
    secret: Vec<u8>,
    public: Vec<u8>,
}

fn device(master: [u8; 32]) -> Device {
    let id = generate_device_identity(&master).unwrap();
    let blob = protected_blob(&id, false).unwrap();
    let secret = unprotect_private_key(&master, &blob).unwrap();
    let public = device_public_key(&id, &secret).unwrap();
    Device { id, secret, public }
}

fn seal(recipient: &RecipientPublic, name: &str, data: &[u8]) -> (Header, Vec<Vec<u8>>) {
    let rk = recipient_key(recipient).unwrap();
    let (header, mut sealer) = prepare_encryption(recipient, &rk, name, data.len() as u64).unwrap();
    let frames: Vec<Vec<u8>> = data.chunks(CHUNK_SIZE).map(|c| sealer.seal_chunk(c)).collect();
    sealer.finish().unwrap();
    (header, frames)
}

fn open_all(dev: &Device, version: u8, header: &Header, frames: &[Vec<u8>]) -> Result<Vec<u8>, Error> {
    let mut opener = open_header(&dev.secret, &dev.public, version, header)?;
    let mut out = Vec::new();
    for f in frames {
        let (p, n) = opener.open_frame(f)?;
        assert_eq!(n, f.len());
        out.extend_from_slice(&p);
    }
    opener.finish()?;
    Ok(out)
}

#[test]
fn sealed_file_opens_on_the_recipient_device() {
    let bob = device([1u8; 32]);
    let rec = recipient_from_identity(&bob.id);
    let data: Vec<u8> = (0..(2 * CHUNK_SIZE + 17)).map(|i| (i % 251) as u8).collect();
    let (header, frames) = seal(&rec, "data.bin", &data);
    assert_eq!(frames.len(), 3);
    assert_eq!(header.version, VERSION);
    assert_eq!(header.chunk_count, Some(3));
    assert_eq!(header.algorithm, "aes-256-gcm-siv");
    assert_eq!(header.key_wrap, "x25519-hkdf-sha256-wrap");
    assert_eq!(header.magic_b64, "MkJSRUNJUAA=");
    assert_eq!(header.original_name, "data.bin");
    assert_eq!(header.recipient_fingerprint, bob.id.fingerprint);
    assert_eq!(open_all(&bob, 4, &header, &frames), Ok(data));
}

#[test]
fn small_and_empty_files_roundtrip() {
    let bob = device([2u8; 32]);
    let rec = recipient_from_identity(&bob.id);
    let msg = b"Ez egy titkos uzenet a jovobol, amit a 2BSecret v3-nak hibatlanul kell kezelnie!";
    let (header, frames) = seal(&rec, "szupertitkos_adat.txt", msg);
    assert_eq!(open_all(&bob, 4, &header, &frames), Ok(msg.to_vec()));
    let (header, frames) = seal(&rec, "empty", b"");
    assert!(frames.is_empty());
    assert_eq!(header.chunk_count, Some(0));
    assert_eq!(open_all(&bob, 4, &header, &frames), Ok(Vec::new()));
}

#[test]
fn another_device_is_the_wrong_recipient() {
    let bob = device([1u8; 32]);
    let eve = device([5u8; 32]);
    let (header, frames) = seal(&recipient_from_identity(&bob.id), "x", b"secret");
    assert_eq!(open_all(&eve, 4, &header, &frames), Err(Error::WrongRecipient));
}

#[test]
fn forged_fingerprint_does_not_unwrap() {
    let bob = device([1u8; 32]);
    let eve = device([5u8; 32]);
    // Sealed to Bob's key, but naming Eve's fingerprint.
    let rec = RecipientPublic {
        fingerprint: eve.id.fingerprint.clone(),
        public_key_b64: bob.id.public_key_b64.clone(),
    };
    let (header, frames) = seal(&rec, "x", b"secret");
    assert_eq!(open_all(&eve, 4, &header, &frames), Err(Error::HeaderAuthFailed));
}

#[test]
fn altered_header_fields_are_detected() {
    let bob = device([1u8; 32]);
    let rec = recipient_from_identity(&bob.id);
    let (mut header, frames) = seal(&rec, "name.txt", b"secret");
    header.original_name = "other.txt".to_string();
    assert_eq!(open_all(&bob, 4, &header, &frames), Err(Error::HeaderAuthFailed));
    let (mut header, frames) = seal(&rec, "name.txt", b"secret");
    header.chunk_count = Some(2);
    assert_eq!(open_all(&bob, 4, &header, &frames), Err(Error::HeaderAuthFailed));
    let (header, frames) = seal(&rec, "name.txt", b"secret");
    assert_eq!(open_all(&bob, 3, &header, &frames), Err(Error::HeaderAuthFailed));
}

#[test]
fn header_field_checks() {
    let bob = device([1u8; 32]);
    let rec = recipient_from_identity(&bob.id);
    let (mut h, f) = seal(&rec, "n", b"x");
    h.chunk_size = 4096;
    assert_eq!(open_all(&bob, 4, &h, &f), Err(Error::UnsupportedChunkSize(4096)));
    let (mut h, f) = seal(&rec, "n", b"x");
    h.ephemeral_public_key_b64 = STANDARD.encode([1u8; 31]);
    assert_eq!(open_all(&bob, 4, &h, &f), Err(Error::InvalidEphemeralKeyLength));
    let (mut h, f) = seal(&rec, "n", b"x");
    h.ephemeral_public_key_b64 = "!!".to_string();
    assert_eq!(open_all(&bob, 4, &h, &f), Err(Error::InvalidBase64));
    let (mut h, f) = seal(&rec, "n", b"x");
    h.wrap_nonce_b64 = STANDARD.encode([1u8; 11]);
    assert_eq!(open_all(&bob, 4, &h, &f), Err(Error::InvalidWrapNonceLength));
    let (mut h, f) = seal(&rec, "n", b"x");
    h.wrapped_file_key_b64 = "*".to_string();
    assert_eq!(open_all(&bob, 4, &h, &f), Err(Error::InvalidBase64));
}

#[test]
fn reordered_chunks_are_detected() {
    let bob = device([1u8; 32]);
    let rec = recipient_from_identity(&bob.id);
    let data = vec![7u8; CHUNK_SIZE + 5];
    let (header, mut frames) = seal(&rec, "x", &data);
    frames.swap(0, 1);
    assert_eq!(open_all(&bob, 4, &header, &frames), Err(Error::ChunkOutOfOrder(0)));
}

#[test]
fn dropped_chunk_is_detected() {
    let bob = device([1u8; 32]);
    let rec = recipient_from_identity(&bob.id);
    let data = vec![7u8; 2 * CHUNK_SIZE + 5];
    let (header, mut frames) = seal(&rec, "x", &data);
    frames.pop();
    assert_eq!(open_all(&bob, 4, &header, &frames), Err(Error::TruncatedFile { expected: 3, got: 2 }));
    let (header, mut frames) = seal(&rec, "x", &data);
    frames.remove(1);
    assert_eq!(open_all(&bob, 4, &header, &frames), Err(Error::ChunkOutOfOrder(1)));
}

#[test]
fn tampered_chunk_is_detected() {
    let bob = device([1u8; 32]);
    let rec = recipient_from_identity(&bob.id);
    let (header, mut frames) = seal(&rec, "x", b"hello world");
    let last = frames[0].len() - 1;
    frames[0][last] ^= 0x80;
    assert_eq!(open_all(&bob, 4, &header, &frames), Err(Error::ChunkTampered));
}

#[test]
fn frame_checks() {
    let key = vec![4u8; 32];
    let mut sealer = ChunkSealer::new(key.clone(), 1);
    let frame = sealer.seal_chunk(b"abc");
    assert_eq!(frame.len(), 8 + 12 + 3 + 16);
    assert_eq!(&frame[..8], &[0, 0, 0, 3, 0, 0, 0, 19]);
    assert_eq!(&frame[8..20], &nonce_from_index(0));
    assert_eq!(sealer.next_index(), 1);
    assert_eq!(sealer.finish(), Ok(()));

    let mut opener = ChunkOpener::new(key.clone(), Some(1));
    assert_eq!(opener.open_frame(&frame[..7]), Err(Error::UnexpectedEof));
    assert_eq!(opener.open_frame(&frame[..19]), Err(Error::UnexpectedEof));
    assert_eq!(opener.open_frame(&frame[..frame.len() - 1]), Err(Error::UnexpectedEof));
    let mut wrong_len = frame.clone();
    wrong_len[3] = 4;
    assert_eq!(opener.open_frame(&wrong_len), Err(Error::LengthMismatch));
    assert_eq!(opener.next_index(), 0);
    assert_eq!(opener.finish(), Err(Error::TruncatedFile { expected: 1, got: 0 }));
    assert_eq!(opener.open_frame(&frame), Ok((b"abc".to_vec(), frame.len())));
    assert_eq!(opener.next_index(), 1);
    assert_eq!(opener.finish(), Ok(()));

    let mut other_key = ChunkOpener::new(vec![5u8; 32], None);
    assert_eq!(other_key.open_frame(&frame), Err(Error::ChunkTampered));
    assert_eq!(other_key.finish(), Ok(()));
}

#[test]
fn frame_lengths_limit() {
    assert_eq!(ChunkOpener::frame_lengths(&[0, 0, 0, 1, 0, 0x10, 0, 0x20]), Ok((1, 1048608)));
    assert_eq!(ChunkOpener::frame_lengths(&[0, 0, 0, 1, 0, 0x10, 0, 0x21]), Err(Error::ChunkTooLarge));
    let mut frame = vec![0u8, 0, 0, 1, 0, 0x10, 0, 0x21];
    frame.extend_from_slice(&[0u8; 40]);
    assert_eq!(ChunkOpener::new(vec![0u8; 32], None).open_frame(&frame), Err(Error::ChunkTooLarge));
}

#[test]
fn check_nonce_of_position() {
    let mut opener = ChunkOpener::new(vec![1u8; 32], None);
    assert_eq!(opener.check_nonce(&nonce_from_index(0)), Ok(()));
    assert_eq!(opener.check_nonce(&nonce_from_index(1)), Err(Error::ChunkOutOfOrder(0)));
    assert_eq!(opener.check_nonce(&[0u8; 11]), Err(Error::ChunkOutOfOrder(0)));
    assert_eq!(opener.open_chunk(0, &nonce_from_index(3), b""), Err(Error::ChunkOutOfOrder(0)));
}

#[test]
fn sealer_counts_chunks() {
    let mut sealer = ChunkSealer::new(vec![1u8; 32], 2);
    sealer.seal_chunk(b"a");
    assert_eq!(sealer.finish(), Err(Error::ChunkCountMismatch { expected: 2, written: 1 }));
    sealer.seal_chunk(b"b");
    assert_eq!(sealer.finish(), Ok(()));
    sealer.seal_chunk(b"c");
    assert_eq!(sealer.finish(), Err(Error::ChunkCountMismatch { expected: 2, written: 3 }));
}

#[test]
fn recipient_key_checks() {
    let rec = RecipientPublic { fingerprint: "f".into(), public_key_b64: STANDARD.encode([1u8; 31]) };
    assert_eq!(recipient_key(&rec), Err(Error::InvalidRecipientKeyLength));
    let rec = RecipientPublic { fingerprint: "f".into(), public_key_b64: "###".into() };
    assert_eq!(recipient_key(&rec), Err(Error::InvalidBase64));
    let rec = RecipientPublic { fingerprint: "f".into(), public_key_b64: STANDARD.encode([9u8; 32]) };
    assert_eq!(recipient_key(&rec), Ok(vec![9u8; 32]));
}

#[test]
fn sealing_is_deterministic_given_its_randomness() {
    let bob = device([1u8; 32]);
    let fp = bob.id.fingerprint.clone();
    let a = seal_file_key_with(&fp, &bob.public, "n", 10, &[6u8; 32], &[7u8; 32], &[8u8; 12]).unwrap();
    let b = seal_file_key_with(&fp, &bob.public, "n", 10, &[6u8; 32], &[7u8; 32], &[8u8; 12]).unwrap();
    assert_eq!(a.wrapped_file_key_b64, b.wrapped_file_key_b64);
    assert_eq!(a.wrap_nonce_b64, STANDARD.encode([8u8; 12]));
    let eph = PublicKey::from(&StaticSecret::from([7u8; 32]));
    assert_eq!(a.ephemeral_public_key_b64, STANDARD.encode(eph.as_bytes()));
    assert_eq!(a.chunk_count, Some(1));
    let opener = open_header(&bob.secret, &bob.public, 4, &a).unwrap();
    let mut sealer = ChunkSealer::new(vec![6u8; 32], 1);
    let frame = sealer.seal_chunk(b"0123456789");
    let mut opener = opener;
    assert_eq!(opener.open_frame(&frame), Ok((b"0123456789".to_vec(), frame.len())));
}

/// Builds a header the way a version-3 or -4 writer would, with any file key.
fn handmade_header(bob: &Device, version: u8, file_key: &[u8], chunk_count: Option<u64>) -> Header {
    let eph_secret = StaticSecret::from([11u8; 32]);
    let eph_public = PublicKey::from(&eph_secret);
    let mut bob_pk = [0u8; 32];
    bob_pk.copy_from_slice(&bob.public);
    let shared = eph_secret.diffie_hellman(&PublicKey::from(bob_pk));
    let hk = Hkdf::<Sha256>::new(Some(eph_public.as_bytes()), shared.as_bytes());
    let mut wrap_key = [0u8; 32];
    hk.expand(b"2BSecret v3 file-key wrap", &mut wrap_key).unwrap();
    let eph_b64 = STANDARD.encode(eph_public.as_bytes());
    let name = "legacy.txt";
    let fp = bob.id.fingerprint.clone();
    let aad = if version == 4 {
        format!("2BRECIP_v4|{}|{}|{}|{}|{}", fp, eph_b64, name, CHUNK_SIZE, chunk_count.unwrap_or(0))
    } else {
        match chunk_count {
            Some(c) => format!("2BRECIP_v3|{}|{}|{}|{}", fp, name, CHUNK_SIZE, c),
            None => format!("2BRECIP_v3|{}|{}", fp, name),
        }
    };
    let nonce = [3u8; 12];
    let wrapped = Aes256GcmSiv::new_from_slice(&wrap_key)
        .unwrap()
        .encrypt(Nonce::from_slice(&nonce), Payload { msg: file_key, aad: aad.as_bytes() })
        .unwrap();
    Header {
        magic_b64: "MkJSRUNJUAA=".into(),
        version,
        algorithm: "aes-256-gcm-siv".into(),
        key_wrap: "x25519-hkdf-sha256-wrap".into(),
        recipient_fingerprint: fp,
        ephemeral_public_key_b64: eph_b64,
        wrap_nonce_b64: STANDARD.encode(nonce),
        wrapped_file_key_b64: STANDARD.encode(wrapped),
        original_name: name.into(),
        chunk_size: CHUNK_SIZE,
        chunk_count,
    }
}

#[test]
fn legacy_version_3_headers_open() {
    let bob = device([1u8; 32]);
    let key = [12u8; 32];
    let mut sealer = ChunkSealer::new(key.to_vec(), 1);
    let frame = sealer.seal_chunk(b"legacy");
    let h = handmade_header(&bob, 3, &key, Some(1));
    assert_eq!(open_all(&bob, 3, &h, &[frame.clone()]), Ok(b"legacy".to_vec()));
    let h = handmade_header(&bob, 3, &key, None);
    assert_eq!(open_all(&bob, 3, &h, &[frame.clone()]), Ok(b"legacy".to_vec()));
    let h = handmade_header(&bob, 4, &key, None);
    assert_eq!(open_all(&bob, 4, &h, &[frame]), Ok(b"legacy".to_vec()));
}

#[test]
fn wrapped_key_of_wrong_length_is_refused() {
    let bob = device([1u8; 32]);
    let h = handmade_header(&bob, 4, &[1u8; 16], Some(0));
    assert_eq!(open_all(&bob, 4, &h, &[]).unwrap_err(), Error::ContentKeyInvalid);
}
