//! Sealing a file for one recipient and opening it again: the file key is
//! wrapped with a key agreed between a fresh ephemeral X25519 key and the
//! recipient's key, and the content is encrypted chunk by chunk under the
//! file key, each chunk with the nonce of its position.

use crate::error::Error;
use crate::format::{
    aad_v4, chunk_count, lemma_aad_v4_utf8_len, MAX_NAME_FIELDS_LEN, header_aad, spec_aad_v4, spec_chunk_count, spec_header_aad, Header, CHUNK_SIZE,
    MAGIC, MAX_CIPHER_LEN, VERSION, magic,
};
use crate::keys::{fingerprint_from_public_key, spec_fingerprint, DeviceIdentity, RecipientPublic, KEY_LEN};
use crate::nonce::{lemma_nonce_injective, nonce_from_index, spec_nonce, NONCE_LEN};
use crate::primitives::{
    aead_open, aead_seal, aes_gcm_siv_open, aes_gcm_siv_seal, b64_decode, b64_encode, base64_decode,
    base64_encode, hkdf_sha256_32, hkdf_sha256_expand32, os_random_bytes, wipe, x25519_dh,
    x25519_public, x25519_public_key, x25519_shared_secret, AEAD_MAX_INPUT, AEAD_TAG_LEN,
};
use crate::text::{be_u32, decode_be_u32, lemma_be_u32_roundtrip, push_be_u32, read_be_u32};
use vstd::prelude::*;
use vstd::utf8::encode_utf8;

verus! {

/// The HKDF context string of the key that wraps the file key.
pub open spec fn wrap_info() -> Seq<u8> {
    seq![
        0x32u8, 0x42u8, 0x53u8, 0x65u8, 0x63u8, 0x72u8, 0x65u8, 0x74u8, 0x20u8, 0x76u8, 0x33u8,
        0x20u8, 0x66u8, 0x69u8, 0x6cu8, 0x65u8, 0x2du8, 0x6bu8, 0x65u8, 0x79u8, 0x20u8, 0x77u8,
        0x72u8, 0x61u8, 0x70u8,
    ]
}

/// `2BSecret v3 file-key wrap`
const WRAP_INFO: [u8; 25] = [
    0x32, 0x42, 0x53, 0x65, 0x63, 0x72, 0x65, 0x74, 0x20, 0x76, 0x33, 0x20, 0x66, 0x69, 0x6c, 0x65,
    0x2d, 0x6b, 0x65, 0x79, 0x20, 0x77, 0x72, 0x61, 0x70,
];

/// The key that wraps a file key: HKDF-SHA256 of the X25519 shared secret,
/// salted with the ephemeral public key.
pub open spec fn spec_wrap_key(ephemeral_public: Seq<u8>, shared: Seq<u8>) -> Seq<u8> {
    hkdf_sha256_32(ephemeral_public, shared, wrap_info())
}

fn derive_wrap_key(shared: &[u8], ephemeral_public: &[u8]) -> (k: Vec<u8>)
    ensures
        k@ == spec_wrap_key(ephemeral_public@, shared@),
        k@.len() == KEY_LEN,
{
    proof {
        assert(WRAP_INFO@ =~= wrap_info());
    }
    hkdf_sha256_expand32(ephemeral_public, shared, WRAP_INFO.as_slice())
}

/// Whether two byte strings are equal.
fn bytes_equal(a: &[u8], b: &[u8]) -> (eq: bool)
    ensures
        eq == (a@ == b@),
{
    if a.len() != b.len() {
        return false;
    }
    let mut i: usize = 0;
    while i < a.len()
        invariant
            a@.len() == b@.len(),
            i <= a@.len(),
            a@.take(i as int) == b@.take(i as int),
        decreases a@.len() - i,
    {
        if a[i] != b[i] {
            return false;
        }
        proof {
            assert(a@.take(i + 1) =~= a@.take(i as int).push(a@[i as int]));
            assert(b@.take(i + 1) =~= b@.take(i as int).push(b@[i as int]));
        }
        i = i + 1;
    }
    proof {
        assert(a@ =~= a@.take(a@.len() as int));
        assert(b@ =~= b@.take(b@.len() as int));
    }
    true
}

/// The recipient's public key, decoded: 32 bytes or an error.
pub open spec fn spec_recipient_key(recipient: RecipientPublic) -> Result<Seq<u8>, Error> {
    match b64_decode(recipient.public_key_b64@) {
        None => Err(Error::InvalidBase64),
        Some(k) => if k.len() == KEY_LEN {
            Ok(k)
        } else {
            Err(Error::InvalidRecipientKeyLength)
        },
    }
}

/// Decodes the recipient's public key.
pub fn recipient_key(recipient: &RecipientPublic) -> (k: Result<Vec<u8>, Error>)
    ensures
        crate::error::res_bytes(k) == spec_recipient_key(*recipient),
{
    match base64_decode(recipient.public_key_b64.as_str()) {
        None => Err(Error::InvalidBase64),
        Some(k) => if k.len() == KEY_LEN {
            Ok(k)
        } else {
            Err(Error::InvalidRecipientKeyLength)
        },
    }
}

/// The associated data a version-4 header for these values is sealed with,
/// as bytes.
pub open spec fn spec_wrap_aad(
    recipient_fingerprint: Seq<char>,
    ephemeral_public: Seq<u8>,
    name: Seq<char>,
    file_size: nat,
) -> Seq<u8> {
    encode_utf8(
        spec_aad_v4(
            recipient_fingerprint,
            b64_encode(ephemeral_public),
            name,
            CHUNK_SIZE as nat,
            spec_chunk_count(file_size),
        ),
    )
}

/// Whether `h` is the header that wraps `file_key` for the recipient with
/// public key `recipient_key` and fingerprint `recipient_fingerprint`, using
/// the ephemeral secret `ephemeral_secret` and nonce `wrap_nonce`, for a file
/// named `name` of `file_size` bytes.
pub open spec fn header_seals(
    h: Header,
    recipient_fingerprint: Seq<char>,
    recipient_key: Seq<u8>,
    name: Seq<char>,
    file_size: nat,
    file_key: Seq<u8>,
    ephemeral_secret: Seq<u8>,
    wrap_nonce: Seq<u8>,
) -> bool {
    let eph = x25519_public(ephemeral_secret);
    let wrap_key = spec_wrap_key(eph, x25519_dh(ephemeral_secret, recipient_key));
    &&& h.magic_b64@ == b64_encode(magic())
    &&& h.version == VERSION
    &&& h.algorithm@ == "aes-256-gcm-siv"@
    &&& h.key_wrap@ == "x25519-hkdf-sha256-wrap"@
    &&& h.recipient_fingerprint@ == recipient_fingerprint
    &&& h.ephemeral_public_key_b64@ == b64_encode(eph)
    &&& h.wrap_nonce_b64@ == b64_encode(wrap_nonce)
    &&& h.wrapped_file_key_b64@ == b64_encode(
        aead_seal(wrap_key, wrap_nonce, file_key, spec_wrap_aad(recipient_fingerprint, eph, name, file_size)),
    )
    &&& h.original_name@ == name
    &&& h.chunk_size == CHUNK_SIZE
    &&& h.chunk_count == Some(spec_chunk_count(file_size) as u64)
}

/// What a device with secret key `secret` and published public key `public`
/// recovers from a header of a file with version byte `version`: the file
/// key, or why not.
pub open spec fn spec_open_header(secret: Seq<u8>, public: Seq<u8>, version: u8, h: Header) -> Result<Seq<u8>, Error> {
    if h.chunk_size != CHUNK_SIZE {
        Err(Error::UnsupportedChunkSize(h.chunk_size))
    } else if spec_fingerprint(public) != h.recipient_fingerprint@ {
        Err(Error::WrongRecipient)
    } else {
        match b64_decode(h.ephemeral_public_key_b64@) {
            None => Err(Error::InvalidBase64),
            Some(eph) => if eph.len() != KEY_LEN {
                Err(Error::InvalidEphemeralKeyLength)
            } else {
                match b64_decode(h.wrap_nonce_b64@) {
                    None => Err(Error::InvalidBase64),
                    Some(n) => if n.len() != NONCE_LEN {
                        Err(Error::InvalidWrapNonceLength)
                    } else {
                        match b64_decode(h.wrapped_file_key_b64@) {
                            None => Err(Error::InvalidBase64),
                            Some(w) => match aead_open(
                                spec_wrap_key(eph, x25519_dh(secret, eph)),
                                n,
                                w,
                                encode_utf8(
                                    spec_header_aad(
                                        version,
                                        h.recipient_fingerprint@,
                                        h.ephemeral_public_key_b64@,
                                        h.original_name@,
                                        h.chunk_size as nat,
                                        h.chunk_count,
                                    ),
                                ),
                            ) {
                                None => Err(Error::HeaderAuthFailed),
                                Some(fk) => if fk.len() != KEY_LEN {
                                    Err(Error::ContentKeyInvalid)
                                } else {
                                    Ok(fk)
                                },
                            },
                        }
                    },
                }
            },
        }
    }
}

/// Wraps `file_key` for a recipient, with the given ephemeral secret and
/// nonce, into the header of a file named `original_name` of `file_size`
/// bytes. Whatever device holds a secret key whose public key is the
/// recipient's, and publishes the fingerprint the header names, recovers
/// `file_key` from the header.
pub fn seal_file_key_with(
    recipient_fingerprint: &str,
    recipient_key: &[u8],
    original_name: &str,
    file_size: u64,
    file_key: &[u8],
    ephemeral_secret: &[u8],
    wrap_nonce: &[u8],
) -> (h: Result<Header, Error>)
    requires
        recipient_key@.len() == KEY_LEN,
        file_key@.len() == KEY_LEN,
        ephemeral_secret@.len() == KEY_LEN,
        wrap_nonce@.len() == NONCE_LEN,
        file_size + CHUNK_SIZE <= u64::MAX,
    ensures
        h is Err <==> spec_wrap_aad(
            recipient_fingerprint@,
            x25519_public(ephemeral_secret@),
            original_name@,
            file_size as nat,
        ).len() > AEAD_MAX_INPUT,
        h matches Err(e) ==> e == Error::WrapFailed,
        recipient_fingerprint@.len() + original_name@.len() <= MAX_NAME_FIELDS_LEN ==> h is Ok,
        h matches Ok(h) ==> header_seals(
            h,
            recipient_fingerprint@,
            recipient_key@,
            original_name@,
            file_size as nat,
            file_key@,
            ephemeral_secret@,
            wrap_nonce@,
        ),
        h matches Ok(h) ==> forall|sk: Seq<u8>|
            sk.len() == KEY_LEN && #[trigger] x25519_public(sk) == recipient_key@ && spec_fingerprint(
                recipient_key@,
            ) == recipient_fingerprint@ ==> spec_open_header(sk, recipient_key@, VERSION, h) == Ok::<
                Seq<u8>,
                Error,
            >(file_key@),
{
    let eph_public = x25519_public_key(ephemeral_secret);
    let mut shared = x25519_shared_secret(ephemeral_secret, recipient_key);
    let mut wrap_key = derive_wrap_key(shared.as_slice(), eph_public.as_slice());
    wipe(&mut shared);
    let count = chunk_count(file_size);
    let eph_b64 = base64_encode(eph_public.as_slice());
    let aad = aad_v4(recipient_fingerprint, eph_b64.as_str(), original_name, CHUNK_SIZE, count);
    proof {
        lemma_aad_v4_utf8_len(
            recipient_fingerprint@,
            eph_b64@,
            original_name@,
            CHUNK_SIZE as nat,
            count as nat,
        );
    }
    let wrapped = aes_gcm_siv_seal(wrap_key.as_slice(), wrap_nonce, file_key, aad.as_str().as_bytes());
    wipe(&mut wrap_key);
    let wrapped = match wrapped {
        Some(w) => w,
        None => return Err(Error::WrapFailed),
    };
    let algorithm = "aes-256-gcm-siv";
    let key_wrap = "x25519-hkdf-sha256-wrap";
    let h = Header {
        magic_b64: base64_encode(MAGIC.as_slice()),
        version: VERSION,
        algorithm: String::from_str(algorithm),
        key_wrap: String::from_str(key_wrap),
        recipient_fingerprint: String::from_str(recipient_fingerprint),
        ephemeral_public_key_b64: eph_b64,
        wrap_nonce_b64: base64_encode(wrap_nonce),
        wrapped_file_key_b64: base64_encode(wrapped.as_slice()),
        original_name: String::from_str(original_name),
        chunk_size: CHUNK_SIZE,
        chunk_count: Some(count),
    };
    proof {
        assert(MAGIC@ =~= magic());
        assert forall|sk: Seq<u8>|
            sk.len() == KEY_LEN && #[trigger] x25519_public(sk) == recipient_key@ && spec_fingerprint(
                recipient_key@,
            ) == recipient_fingerprint@ implies spec_open_header(sk, recipient_key@, VERSION, h)
            == Ok::<Seq<u8>, Error>(file_key@) by {
            assert(x25519_dh(sk, eph_public@) == x25519_dh(ephemeral_secret@, x25519_public(sk)));
        }
    }
    Ok(h)
}


/// The frame written for one chunk: plaintext length and ciphertext length
/// (big-endian), the chunk's nonce, then the ciphertext.
pub open spec fn spec_chunk_frame(key: Seq<u8>, index: u64, plaintext: Seq<u8>) -> Seq<u8> {
    be_u32(plaintext.len() as u32) + be_u32((plaintext.len() + AEAD_TAG_LEN) as u32) + spec_nonce(index)
        + aead_seal(key, spec_nonce(index), plaintext, Seq::empty())
}

/// What opening a chunk at position `index` gives: the plaintext, where the
/// nonce is that of the position, the ciphertext authenticates, and the
/// plaintext has the declared length.
pub open spec fn spec_open_chunk(
    key: Seq<u8>,
    index: u64,
    plain_len: u32,
    nonce: Seq<u8>,
    ciphertext: Seq<u8>,
) -> Result<Seq<u8>, Error> {
    if nonce != spec_nonce(index) {
        Err(Error::ChunkOutOfOrder(index))
    } else {
        match aead_open(key, nonce, ciphertext, Seq::empty()) {
            None => Err(Error::ChunkTampered),
            Some(p) => if p.len() != plain_len {
                Err(Error::LengthMismatch)
            } else {
                Ok(p)
            },
        }
    }
}

/// What reading one chunk frame from the start of `frame` gives: the
/// plaintext and the number of bytes the frame took, or why not. Each field
/// is checked as soon as it has been read.
pub open spec fn spec_open_frame(key: Seq<u8>, index: u64, frame: Seq<u8>) -> Result<(Seq<u8>, nat), Error> {
    if frame.len() < 8 {
        Err(Error::UnexpectedEof)
    } else {
        let plain_len = decode_be_u32(frame.subrange(0, 4));
        let cipher_len = decode_be_u32(frame.subrange(4, 8));
        if cipher_len > MAX_CIPHER_LEN {
            Err(Error::ChunkTooLarge)
        } else if frame.len() < 20 {
            Err(Error::UnexpectedEof)
        } else if frame.subrange(8, 20) != spec_nonce(index) {
            Err(Error::ChunkOutOfOrder(index))
        } else if frame.len() < 20 + cipher_len {
            Err(Error::UnexpectedEof)
        } else {
            match spec_open_chunk(
                key,
                index,
                plain_len,
                frame.subrange(8, 20),
                frame.subrange(20, 20 + cipher_len),
            ) {
                Ok(p) => Ok((p, (20 + cipher_len) as nat)),
                Err(e) => Err(e),
            }
        }
    }
}

/// Encrypts a file's content chunk by chunk under its file key, numbering
/// the chunks.
pub struct ChunkSealer {
    file_key: Vec<u8>,
    next_index: u64,
    expected_chunks: u64,
}

impl ChunkSealer {
    #[verifier::type_invariant]
    spec fn inv(self) -> bool {
        self.file_key@.len() == KEY_LEN
    }

    /// The key the content is encrypted under.
    pub closed spec fn file_key(&self) -> Seq<u8> {
        self.file_key@
    }

    /// Position of the next chunk.
    pub closed spec fn index(&self) -> u64 {
        self.next_index
    }

    /// Number of chunks the file's size calls for.
    pub closed spec fn expected_chunks(&self) -> u64 {
        self.expected_chunks
    }

    /// A sealer for a file of `expected_chunks` chunks, at its first chunk.
    pub fn new(file_key: Vec<u8>, expected_chunks: u64) -> (s: Self)
        requires
            file_key@.len() == KEY_LEN,
        ensures
            s.file_key() == file_key@,
            s.index() == 0,
            s.expected_chunks() == expected_chunks,
    {
        ChunkSealer { file_key, next_index: 0, expected_chunks }
    }

    /// Position of the next chunk.
    pub fn next_index(&self) -> (i: u64)
        ensures
            i == self.index(),
    {
        self.next_index
    }

    /// Encrypts the next chunk into its frame and moves to the following
    /// position. Opening the frame at the same position under the same key
    /// gives the chunk back and takes the whole frame.
    pub fn seal_chunk(&mut self, plaintext: &[u8]) -> (frame: Vec<u8>)
        requires
            0 < plaintext@.len() <= CHUNK_SIZE,
            old(self).index() < u64::MAX,
        ensures
            frame@ == spec_chunk_frame(old(self).file_key(), old(self).index(), plaintext@),
            spec_open_frame(old(self).file_key(), old(self).index(), frame@) == Ok::<
                (Seq<u8>, nat),
                Error,
            >((plaintext@, frame@.len())),
            final(self).file_key() == old(self).file_key(),
            final(self).index() == old(self).index() + 1,
            final(self).expected_chunks() == old(self).expected_chunks(),
    {
        proof {
            use_type_invariant(&*self);
        }
        let nonce = nonce_from_index(self.next_index);
        let empty: [u8; 0] = [];
        let ct = match aes_gcm_siv_seal(self.file_key.as_slice(), nonce.as_slice(), plaintext, &empty) {
            Some(c) => c,
            None => {
                proof {
                    assert(false);
                }
                Vec::new()
            },
        };
        let mut frame: Vec<u8> = Vec::new();
        push_be_u32(&mut frame, plaintext.len() as u32);
        push_be_u32(&mut frame, ct.len() as u32);
        frame.extend_from_slice(nonce.as_slice());
        frame.extend_from_slice(ct.as_slice());
        proof {
            let n = plaintext@.len();
            assert(empty@ =~= Seq::<u8>::empty());
            assert(frame@ =~= spec_chunk_frame(self.file_key@, self.next_index, plaintext@));
            lemma_be_u32_roundtrip(n as u32);
            lemma_be_u32_roundtrip((n + AEAD_TAG_LEN) as u32);
            assert(frame@.subrange(0, 4) =~= be_u32(n as u32));
            assert(frame@.subrange(4, 8) =~= be_u32((n + AEAD_TAG_LEN) as u32));
            assert(frame@.subrange(8, 20) =~= nonce@);
            assert(frame@.subrange(20, 20 + n + AEAD_TAG_LEN) =~= ct@);
        }
        self.next_index = self.next_index + 1;
        frame
    }

    /// Checks, once the source is exhausted, that it gave as many chunks as
    /// its size called for.
    pub fn finish(&self) -> (r: Result<(), Error>)
        ensures
            r is Ok <==> self.index() == self.expected_chunks(),
            r matches Err(e) ==> e == (Error::ChunkCountMismatch {
                expected: self.expected_chunks(),
                written: self.index(),
            }),
    {
        if self.next_index != self.expected_chunks {
            Err(Error::ChunkCountMismatch { expected: self.expected_chunks, written: self.next_index })
        } else {
            Ok(())
        }
    }
}

/// Decrypts a file's content chunk by chunk under its file key, checking
/// that every chunk sits at its own position and that none is missing.
pub struct ChunkOpener {
    file_key: Vec<u8>,
    next_index: u64,
    expected_chunks: Option<u64>,
}

impl ChunkOpener {
    #[verifier::type_invariant]
    spec fn inv(self) -> bool {
        self.file_key@.len() == KEY_LEN
    }

    /// The key the content is encrypted under.
    pub closed spec fn file_key(&self) -> Seq<u8> {
        self.file_key@
    }

    /// Position of the next chunk.
    pub closed spec fn index(&self) -> u64 {
        self.next_index
    }

    /// Number of chunks the header declares, where it declares one.
    pub closed spec fn expected_chunks(&self) -> Option<u64> {
        self.expected_chunks
    }

    /// An opener at the first chunk of a file.
    pub fn new(file_key: Vec<u8>, expected_chunks: Option<u64>) -> (o: Self)
        requires
            file_key@.len() == KEY_LEN,
        ensures
            o.file_key() == file_key@,
            o.index() == 0,
            o.expected_chunks() == expected_chunks,
    {
        ChunkOpener { file_key, next_index: 0, expected_chunks }
    }

    /// Position of the next chunk.
    pub fn next_index(&self) -> (i: u64)
        ensures
            i == self.index(),
    {
        self.next_index
    }

    /// Reads a chunk's two length fields (plaintext, ciphertext) and refuses
    /// a ciphertext longer than a chunk can be.
    pub fn frame_lengths(lengths: &[u8]) -> (r: Result<(u32, u32), Error>)
        requires
            lengths@.len() == 8,
        ensures
            decode_be_u32(lengths@.subrange(4, 8)) > MAX_CIPHER_LEN ==> r == Err::<(u32, u32), Error>(
                Error::ChunkTooLarge,
            ),
            decode_be_u32(lengths@.subrange(4, 8)) <= MAX_CIPHER_LEN ==> r == Ok::<(u32, u32), Error>(
                (decode_be_u32(lengths@.subrange(0, 4)), decode_be_u32(lengths@.subrange(4, 8))),
            ),
    {
        let plain_len = read_be_u32(lengths, 0);
        let cipher_len = read_be_u32(lengths, 4);
        if cipher_len as usize > MAX_CIPHER_LEN {
            Err(Error::ChunkTooLarge)
        } else {
            Ok((plain_len, cipher_len))
        }
    }

    /// Checks that a chunk carries the nonce of the next position.
    pub fn check_nonce(&self, nonce: &[u8]) -> (r: Result<(), Error>)
        ensures
            r is Ok <==> nonce@ == spec_nonce(self.index()),
            r matches Err(e) ==> e == Error::ChunkOutOfOrder(self.index()),
    {
        let expected = nonce_from_index(self.next_index);
        if bytes_equal(nonce, expected.as_slice()) {
            Ok(())
        } else {
            Err(Error::ChunkOutOfOrder(self.next_index))
        }
    }

    /// Decrypts the chunk at the next position and moves past it.
    pub fn open_chunk(&mut self, plain_len: u32, nonce: &[u8], ciphertext: &[u8]) -> (r: Result<Vec<u8>, Error>)
        requires
            old(self).index() < u64::MAX,
        ensures
            crate::error::res_bytes(r) == spec_open_chunk(
                old(self).file_key(),
                old(self).index(),
                plain_len,
                nonce@,
                ciphertext@,
            ),
            final(self).file_key() == old(self).file_key(),
            final(self).expected_chunks() == old(self).expected_chunks(),
            final(self).index() == if r is Ok {
                old(self).index() + 1
            } else {
                old(self).index() as int
            },
    {
        proof {
            use_type_invariant(&*self);
        }
        self.check_nonce(nonce)?;
        let empty: [u8; 0] = [];
        proof {
            assert(empty@ =~= Seq::<u8>::empty());
        }
        let plaintext = match aes_gcm_siv_open(self.file_key.as_slice(), nonce, ciphertext, &empty) {
            Some(p) => p,
            None => return Err(Error::ChunkTampered),
        };
        if plaintext.len() != plain_len as usize {
            return Err(Error::LengthMismatch);
        }
        self.next_index = self.next_index + 1;
        Ok(plaintext)
    }

    /// Reads and decrypts one whole chunk frame from the start of `frame`,
    /// returning the plaintext and the number of bytes the frame took.
    pub fn open_frame(&mut self, frame: &[u8]) -> (r: Result<(Vec<u8>, usize), Error>)
        requires
            old(self).index() < u64::MAX,
        ensures
            match r {
                Ok((p, n)) => spec_open_frame(old(self).file_key(), old(self).index(), frame@) == Ok::<
                    (Seq<u8>, nat),
                    Error,
                >((p@, n as nat)),
                Err(e) => spec_open_frame(old(self).file_key(), old(self).index(), frame@) == Err::<
                    (Seq<u8>, nat),
                    Error,
                >(e),
            },
            final(self).file_key() == old(self).file_key(),
            final(self).expected_chunks() == old(self).expected_chunks(),
            final(self).index() == if r is Ok {
                old(self).index() + 1
            } else {
                old(self).index() as int
            },
    {
        if frame.len() < 8 {
            return Err(Error::UnexpectedEof);
        }
        let (lengths, rest) = frame.split_at(8);
        let (plain_len, cipher_len) = Self::frame_lengths(lengths)?;
        if frame.len() < 20 {
            return Err(Error::UnexpectedEof);
        }
        let (nonce, rest) = rest.split_at(12);
        proof {
            assert(lengths@ =~= frame@.subrange(0, 8));
            assert(lengths@.subrange(0, 4) =~= frame@.subrange(0, 4));
            assert(lengths@.subrange(4, 8) =~= frame@.subrange(4, 8));
            assert(nonce@ =~= frame@.subrange(8, 20));
        }
        self.check_nonce(nonce)?;
        if rest.len() < cipher_len as usize {
            return Err(Error::UnexpectedEof);
        }
        let (ciphertext, _) = rest.split_at(cipher_len as usize);
        proof {
            assert(ciphertext@ =~= frame@.subrange(20, 20 + cipher_len));
        }
        let plaintext = self.open_chunk(plain_len, nonce, ciphertext)?;
        Ok((plaintext, 20 + cipher_len as usize))
    }

    /// Checks, once the input is exhausted, that as many chunks were read as
    /// the header declares (where it declares a number).
    pub fn finish(&self) -> (r: Result<(), Error>)
        ensures
            r is Ok <==> (self.expected_chunks() matches Some(c) ==> c == self.index()),
            r matches Err(e) ==> self.expected_chunks() matches Some(c) && e == (Error::TruncatedFile {
                expected: c,
                got: self.index(),
            }),
    {
        match self.expected_chunks {
            Some(c) => if c != self.next_index {
                Err(Error::TruncatedFile { expected: c, got: self.next_index })
            } else {
                Ok(())
            },
            None => Ok(()),
        }
    }
}

/// A chunk moved to another position is refused: opening the frame sealed
/// for position `sealed_at` at any other position fails with the position
/// that was expected.
pub proof fn lemma_moved_chunk_rejected(key: Seq<u8>, sealed_at: u64, opened_at: u64, plaintext: Seq<u8>)
    requires
        sealed_at != opened_at,
        plaintext.len() <= CHUNK_SIZE,
    ensures
        spec_open_frame(key, opened_at, spec_chunk_frame(key, sealed_at, plaintext)) == Err::<
            (Seq<u8>, nat),
            Error,
        >(Error::ChunkOutOfOrder(opened_at)),
{
    let frame = spec_chunk_frame(key, sealed_at, plaintext);
    let n = plaintext.len();
    lemma_be_u32_roundtrip((n + AEAD_TAG_LEN) as u32);
    assert(frame.subrange(4, 8) =~= be_u32((n + AEAD_TAG_LEN) as u32));
    assert(frame.subrange(8, 20) =~= spec_nonce(sealed_at));
    lemma_nonce_injective(sealed_at, opened_at);
}


/// What the device's own public key is, given its identity and unprotected
/// secret key: both must be 32 bytes long.
pub open spec fn spec_device_public_key(identity: DeviceIdentity, secret: Seq<u8>) -> Result<Seq<u8>, Error> {
    if secret.len() != KEY_LEN {
        Err(Error::InvalidPrivateKeyLength)
    } else {
        match b64_decode(identity.public_key_b64@) {
            None => Err(Error::InvalidBase64),
            Some(pk) => if pk.len() != KEY_LEN {
                Err(Error::InvalidLocalPublicKeyLength)
            } else {
                Ok(pk)
            },
        }
    }
}

/// Checks the unprotected secret key and decodes the identity's public key.
pub fn device_public_key(identity: &DeviceIdentity, secret: &[u8]) -> (pk: Result<Vec<u8>, Error>)
    ensures
        crate::error::res_bytes(pk) == spec_device_public_key(*identity, secret@),
{
    if secret.len() != KEY_LEN {
        return Err(Error::InvalidPrivateKeyLength);
    }
    match base64_decode(identity.public_key_b64.as_str()) {
        None => Err(Error::InvalidBase64),
        Some(pk) => if pk.len() != KEY_LEN {
            Err(Error::InvalidLocalPublicKeyLength)
        } else {
            Ok(pk)
        },
    }
}

/// Recovers the file key from a header with this device's secret key
/// `secret` and published public key `public`, and returns an opener for the
/// content at its first chunk.
pub fn open_header(secret: &[u8], public: &[u8], version: u8, header: &Header) -> (r: Result<ChunkOpener, Error>)
    requires
        secret@.len() == KEY_LEN,
        public@.len() == KEY_LEN,
    ensures
        match r {
            Ok(o) => {
                &&& spec_open_header(secret@, public@, version, *header) == Ok::<Seq<u8>, Error>(
                    o.file_key(),
                )
                &&& o.index() == 0
                &&& o.expected_chunks() == header.chunk_count
            },
            Err(e) => spec_open_header(secret@, public@, version, *header) == Err::<Seq<u8>, Error>(e),
        },
{
    if header.chunk_size != CHUNK_SIZE {
        return Err(Error::UnsupportedChunkSize(header.chunk_size));
    }
    let local_fingerprint = fingerprint_from_public_key(public);
    if local_fingerprint != header.recipient_fingerprint {
        return Err(Error::WrongRecipient);
    }
    let eph = match base64_decode(header.ephemeral_public_key_b64.as_str()) {
        None => return Err(Error::InvalidBase64),
        Some(e) => e,
    };
    if eph.len() != KEY_LEN {
        return Err(Error::InvalidEphemeralKeyLength);
    }
    let mut shared = x25519_shared_secret(secret, eph.as_slice());
    let mut wrap_key = derive_wrap_key(shared.as_slice(), eph.as_slice());
    wipe(&mut shared);
    let wrap_nonce = match base64_decode(header.wrap_nonce_b64.as_str()) {
        None => {
            wipe(&mut wrap_key);
            return Err(Error::InvalidBase64);
        },
        Some(n) => n,
    };
    if wrap_nonce.len() != NONCE_LEN {
        wipe(&mut wrap_key);
        return Err(Error::InvalidWrapNonceLength);
    }
    let wrapped = match base64_decode(header.wrapped_file_key_b64.as_str()) {
        None => {
            wipe(&mut wrap_key);
            return Err(Error::InvalidBase64);
        },
        Some(w) => w,
    };
    let aad = header_aad(version, header);
    let file_key = aes_gcm_siv_open(wrap_key.as_slice(), wrap_nonce.as_slice(), wrapped.as_slice(), aad.as_str().as_bytes());
    wipe(&mut wrap_key);
    let file_key = match file_key {
        None => return Err(Error::HeaderAuthFailed),
        Some(k) => k,
    };
    if file_key.len() != KEY_LEN {
        return Err(Error::ContentKeyInvalid);
    }
    Ok(ChunkOpener::new(file_key, header.chunk_count))
}

/// Prepares to encrypt a file of `file_size` bytes named `original_name` for
/// `recipient`, whose decoded public key is `recipient_key`: draws a random
/// file key, ephemeral secret and wrap nonce, wraps the file key into the
/// header, and returns the header with a sealer for the content. The device
/// holding the secret key of `recipient_key`, where that key's fingerprint is
/// the one the record names, recovers from the header the sealer's key.
pub fn prepare_encryption(
    recipient: &RecipientPublic,
    recipient_key: &[u8],
    original_name: &str,
    file_size: u64,
) -> (r: Result<(Header, ChunkSealer), Error>)
    requires
        recipient_key@.len() == KEY_LEN,
        file_size + CHUNK_SIZE <= u64::MAX,
    ensures
        r matches Ok((h, s)) ==> {
            &&& s.index() == 0
            &&& s.expected_chunks() == spec_chunk_count(file_size as nat)
            &&& h.chunk_count == Some(spec_chunk_count(file_size as nat) as u64)
            &&& h.recipient_fingerprint@ == recipient.fingerprint@
            &&& h.original_name@ == original_name@
            &&& exists|eph: Seq<u8>, wrap_nonce: Seq<u8>|
                eph.len() == KEY_LEN && wrap_nonce.len() == NONCE_LEN && #[trigger] header_seals(
                    h,
                    recipient.fingerprint@,
                    recipient_key@,
                    original_name@,
                    file_size as nat,
                    s.file_key(),
                    eph,
                    wrap_nonce,
                )
            &&& forall|sk: Seq<u8>|
                sk.len() == KEY_LEN && #[trigger] x25519_public(sk) == recipient_key@
                    && spec_fingerprint(recipient_key@) == recipient.fingerprint@ ==> spec_open_header(
                    sk,
                    recipient_key@,
                    VERSION,
                    h,
                ) == Ok::<Seq<u8>, Error>(s.file_key())
        },
        recipient.fingerprint@.len() + original_name@.len() <= MAX_NAME_FIELDS_LEN ==> r is Ok,
        r matches Err(e) ==> e == Error::WrapFailed,
        r matches Err(e) ==> (e == Error::WrapFailed
            && recipient.fingerprint@.len() + original_name@.len() > MAX_NAME_FIELDS_LEN && exists|
            eph: Seq<u8>,
        |
            eph.len() == KEY_LEN && #[trigger] spec_wrap_aad(
                recipient.fingerprint@,
                x25519_public(eph),
                original_name@,
                file_size as nat,
            ).len() > AEAD_MAX_INPUT),
{
    let file_key = os_random_bytes(KEY_LEN);
    let mut eph_secret = os_random_bytes(KEY_LEN);
    let wrap_nonce = os_random_bytes(NONCE_LEN);
    let ghost eph_v = eph_secret@;
    let header = seal_file_key_with(
        recipient.fingerprint.as_str(),
        recipient_key,
        original_name,
        file_size,
        file_key.as_slice(),
        eph_secret.as_slice(),
        wrap_nonce.as_slice(),
    );
    wipe(&mut eph_secret);
    let header = match header {
        Ok(h) => h,
        Err(e) => {
            proof {
                assert(spec_wrap_aad(
                    recipient.fingerprint@,
                    x25519_public(eph_v),
                    original_name@,
                    file_size as nat,
                ).len() > AEAD_MAX_INPUT);
            }
            return Err(e);
        },
    };
    let count = chunk_count(file_size);
    let sealer = ChunkSealer::new(file_key, count);
    proof {
        assert(header_seals(
            header,
            recipient.fingerprint@,
            recipient_key@,
            original_name@,
            file_size as nat,
            sealer.file_key(),
            eph_v,
            wrap_nonce@,
        ));
    }
    Ok((header, sealer))
}

/// A file sealed for a device's published record opens on that device: where
/// the device's stored private key opens to `sk`, its identity publishes the
/// public key and fingerprint of `sk`, and the header wraps `file_key` for
/// that public key and fingerprint (as `prepare_encryption` promises), the
/// device's own public key decodes and the header yields `file_key`.
pub proof fn lemma_sealed_for_device_opens(
    id: DeviceIdentity,
    sk: Seq<u8>,
    h: Header,
    file_key: Seq<u8>,
)
    requires
        sk.len() == KEY_LEN,
        crate::keys::identity_publishes(id, sk),
        forall|s: Seq<u8>|
            s.len() == KEY_LEN && #[trigger] x25519_public(s) == x25519_public(sk) && spec_fingerprint(
                x25519_public(sk),
            ) == id.fingerprint@ ==> spec_open_header(s, x25519_public(sk), VERSION, h) == Ok::<
                Seq<u8>,
                Error,
            >(file_key),
    ensures
        spec_device_public_key(id, sk) == Ok::<Seq<u8>, Error>(x25519_public(sk)),
        spec_open_header(sk, x25519_public(sk), VERSION, h) == Ok::<Seq<u8>, Error>(file_key),
{
}


/// A frame that opens takes at least its twenty bytes of lengths and nonce,
/// and no more than it holds.
pub proof fn lemma_open_frame_extent(key: Seq<u8>, index: u64, frame: Seq<u8>)
    ensures
        spec_open_frame(key, index, frame) matches Ok((p, n)) ==> 20 <= n <= frame.len(),
{
}

/// Reading frames one after another from `body`, from position `index` on,
/// until fewer than four bytes are left (where the reader stops): the
/// plaintexts in order and the position reached.
pub open spec fn spec_open_stream(key: Seq<u8>, index: u64, body: Seq<u8>) -> Result<(Seq<u8>, u64), Error>
    decreases body.len(),
{
    if body.len() < 4 {
        Ok((Seq::empty(), index))
    } else {
        match spec_open_frame(key, index, body) {
            Err(e) => Err(e),
            Ok((p, n)) => {
                proof {
                    lemma_open_frame_extent(key, index, body);
                }
                match spec_open_stream(key, (index + 1) as u64, body.skip(n as int)) {
                    Err(e) => Err(e),
                    Ok((rest, end)) => Ok((p + rest, end)),
                }
            },
        }
    }
}

/// Reading a frame looks only at the frame's own bytes: whatever follows it
/// does not change what it opens to.
pub proof fn lemma_open_frame_prefix(key: Seq<u8>, index: u64, frame: Seq<u8>, rest: Seq<u8>, p: Seq<u8>)
    requires
        spec_open_frame(key, index, frame) == Ok::<(Seq<u8>, nat), Error>((p, frame.len())),
    ensures
        spec_open_frame(key, index, frame + rest) == Ok::<(Seq<u8>, nat), Error>((p, frame.len())),
{
    let whole = frame + rest;
    let cl = decode_be_u32(frame.subrange(4, 8));
    assert(whole.subrange(0, 4) =~= frame.subrange(0, 4));
    assert(whole.subrange(4, 8) =~= frame.subrange(4, 8));
    assert(whole.subrange(8, 20) =~= frame.subrange(8, 20));
    assert(whole.subrange(20, 20 + cl) =~= frame.subrange(20, 20 + cl));
}

/// The content comes back whole and in order: reading, one after another,
/// frames that each open at their own position (as every frame that
/// `seal_chunk` writes does) gives the chunks concatenated, and stops at the
/// position after the last frame.
pub proof fn lemma_frames_read_back_in_order(
    key: Seq<u8>,
    start: u64,
    frames: Seq<Seq<u8>>,
    chunks: Seq<Seq<u8>>,
)
    requires
        frames.len() == chunks.len(),
        start + frames.len() <= u64::MAX,
        forall|i: int|
            0 <= i < frames.len() ==> spec_open_frame(key, (start + i) as u64, #[trigger] frames[i])
                == Ok::<(Seq<u8>, nat), Error>((chunks[i], frames[i].len())),
    ensures
        spec_open_stream(key, start, frames.flatten()) == Ok::<(Seq<u8>, u64), Error>(
            (chunks.flatten(), (start + frames.len()) as u64),
        ),
    decreases frames.len(),
{
    if frames.len() == 0 {
        assert(frames.flatten() =~= Seq::<u8>::empty());
        assert(chunks.flatten() =~= Seq::<u8>::empty());
    } else {
        let f0 = frames[0];
        let rest = frames.drop_first().flatten();
        assert(spec_open_frame(key, start, f0) == Ok::<(Seq<u8>, nat), Error>((chunks[0], f0.len())));
        lemma_open_frame_extent(key, start, f0);
        lemma_open_frame_prefix(key, start, f0, rest, chunks[0]);
        assert(frames.flatten() == f0 + rest);
        assert((f0 + rest).skip(f0.len() as int) =~= rest);
        assert forall|i: int| 0 <= i < frames.drop_first().len() implies spec_open_frame(
            key,
            ((start + 1) as u64 + i) as u64,
            #[trigger] frames.drop_first()[i],
        ) == Ok::<(Seq<u8>, nat), Error>((chunks.drop_first()[i], frames.drop_first()[i].len())) by {
            assert(frames.drop_first()[i] == frames[i + 1]);
            assert(chunks.drop_first()[i] == chunks[i + 1]);
            assert(((start + 1) as u64 + i) as u64 == (start + (i + 1)) as u64);
        }
        lemma_frames_read_back_in_order(key, (start + 1) as u64, frames.drop_first(), chunks.drop_first());
        assert(chunks.flatten() == chunks[0] + chunks.drop_first().flatten());
    }
}

/// A header that names another device's fingerprint is refused as meant for
/// another recipient (once its chunk size is the expected one), whatever the
/// rest of the header holds.
pub proof fn lemma_wrong_recipient_refused(secret: Seq<u8>, public: Seq<u8>, version: u8, h: Header)
    requires
        h.chunk_size == CHUNK_SIZE,
        h.recipient_fingerprint@ != spec_fingerprint(public),
    ensures
        spec_open_header(secret, public, version, h) == Err::<Seq<u8>, Error>(Error::WrongRecipient),
{
}

/// What a device recovers from a file whose header is `h` and whose content
/// frames are `body`: the header yields the file key, the frames are read in
/// order from position 0, and the number read must be the one the header
/// declares.
pub open spec fn spec_decrypt_content(
    secret: Seq<u8>,
    public: Seq<u8>,
    version: u8,
    h: Header,
    body: Seq<u8>,
) -> Result<Seq<u8>, Error> {
    match spec_open_header(secret, public, version, h) {
        Err(e) => Err(e),
        Ok(file_key) => match spec_open_stream(file_key, 0, body) {
            Err(e) => Err(e),
            Ok((content, read)) => match h.chunk_count {
                Some(c) => if c != read {
                    Err(Error::TruncatedFile { expected: c, got: read })
                } else {
                    Ok(content)
                },
                None => Ok(content),
            },
        },
    }
}

/// A file encrypted for a device decrypts on that device to its content:
/// where the device's identity publishes the public key and fingerprint of
/// its secret `sk`, the header wraps `file_key` for that key and fingerprint
/// and declares as many chunks as there are frames (as `prepare_encryption`
/// promises), and each frame opens at its own position under `file_key` to
/// its chunk (as `seal_chunk` promises), the device's public key decodes and
/// the header and frames give back the chunks concatenated.
pub proof fn lemma_file_round_trip(
    id: DeviceIdentity,
    sk: Seq<u8>,
    h: Header,
    file_key: Seq<u8>,
    frames: Seq<Seq<u8>>,
    chunks: Seq<Seq<u8>>,
)
    requires
        sk.len() == KEY_LEN,
        crate::keys::identity_publishes(id, sk),
        forall|s: Seq<u8>|
            s.len() == KEY_LEN && #[trigger] x25519_public(s) == x25519_public(sk) && spec_fingerprint(
                x25519_public(sk),
            ) == id.fingerprint@ ==> spec_open_header(s, x25519_public(sk), VERSION, h) == Ok::<
                Seq<u8>,
                Error,
            >(file_key),
        h.chunk_count == Some(frames.len() as u64),
        frames.len() == chunks.len(),
        frames.len() <= u64::MAX,
        forall|i: int|
            0 <= i < frames.len() ==> spec_open_frame(file_key, i as u64, #[trigger] frames[i]) == Ok::<
                (Seq<u8>, nat),
                Error,
            >((chunks[i], frames[i].len())),
    ensures
        spec_device_public_key(id, sk) == Ok::<Seq<u8>, Error>(x25519_public(sk)),
        spec_decrypt_content(sk, x25519_public(sk), VERSION, h, frames.flatten()) == Ok::<
            Seq<u8>,
            Error,
        >(chunks.flatten()),
{
    lemma_sealed_for_device_opens(id, sk, h, file_key);
    assert forall|i: int| 0 <= i < frames.len() implies spec_open_frame(
        file_key,
        (0 + i) as u64,
        #[trigger] frames[i],
    ) == Ok::<(Seq<u8>, nat), Error>((chunks[i], frames[i].len())) by {
        assert((0 + i) as u64 == i as u64);
    }
    lemma_frames_read_back_in_order(file_key, 0, frames, chunks);
}

/// The layout of a chunk frame does not depend on the chunk's bytes: two
/// chunks of equal length sealed at the same position under the same key
/// give frames with the same length fields and nonce, and, where the
/// ciphertexts are the message length plus a tag (as every ciphertext
/// `seal_chunk` writes is), frames of the same length. Only the ciphertext
/// differs.
pub proof fn lemma_frame_layout_independent_of_content(key: Seq<u8>, index: u64, p1: Seq<u8>, p2: Seq<u8>)
    requires
        p1.len() == p2.len(),
    ensures
        spec_chunk_frame(key, index, p1).take(20) == spec_chunk_frame(key, index, p2).take(20),
        aead_seal(key, spec_nonce(index), p1, Seq::empty()).len() == p1.len() + AEAD_TAG_LEN
            && aead_seal(key, spec_nonce(index), p2, Seq::empty()).len() == p2.len() + AEAD_TAG_LEN
            ==> spec_chunk_frame(key, index, p1).len() == spec_chunk_frame(key, index, p2).len(),
{
    let f1 = spec_chunk_frame(key, index, p1);
    let f2 = spec_chunk_frame(key, index, p2);
    assert(f1.take(20) =~= be_u32(p1.len() as u32) + be_u32((p1.len() + AEAD_TAG_LEN) as u32)
        + spec_nonce(index));
    assert(f2.take(20) =~= be_u32(p2.len() as u32) + be_u32((p2.len() + AEAD_TAG_LEN) as u32)
        + spec_nonce(index));
}

/// The header does not depend on the file's content: with the same
/// recipient, name, size and random draws, every field of the header is the
/// same.
pub proof fn lemma_header_independent_of_content(
    h1: Header,
    h2: Header,
    recipient_fingerprint: Seq<char>,
    recipient_key: Seq<u8>,
    name: Seq<char>,
    file_size: nat,
    file_key: Seq<u8>,
    ephemeral_secret: Seq<u8>,
    wrap_nonce: Seq<u8>,
)
    requires
        header_seals(h1, recipient_fingerprint, recipient_key, name, file_size, file_key, ephemeral_secret, wrap_nonce),
        header_seals(h2, recipient_fingerprint, recipient_key, name, file_size, file_key, ephemeral_secret, wrap_nonce),
    ensures
        h1.magic_b64@ == h2.magic_b64@,
        h1.version == h2.version,
        h1.algorithm@ == h2.algorithm@,
        h1.key_wrap@ == h2.key_wrap@,
        h1.recipient_fingerprint@ == h2.recipient_fingerprint@,
        h1.ephemeral_public_key_b64@ == h2.ephemeral_public_key_b64@,
        h1.wrap_nonce_b64@ == h2.wrap_nonce_b64@,
        h1.wrapped_file_key_b64@ == h2.wrapped_file_key_b64@,
        h1.original_name@ == h2.original_name@,
        h1.chunk_size == h2.chunk_size,
        h1.chunk_count == h2.chunk_count,
{
}

} // verus!
