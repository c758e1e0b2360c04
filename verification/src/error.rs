//! Why an operation of this library can fail.

use vstd::prelude::*;

verus! {

/// A failure of key handling or of encrypting or decrypting a file.
#[derive(Debug, Clone, Copy, PartialEq, Eq, Structural)]
pub enum Error {
    /// The operating system's random source failed.
    RandomUnavailable,
    /// A field that should hold base64 does not.
    InvalidBase64,
    /// The recipient's public key is not 32 bytes long.
    InvalidRecipientKeyLength,
    /// The file key could not be wrapped (its associated data is too long).
    WrapFailed,
    /// The source yielded a different number of chunks than its size promised.
    ChunkCountMismatch { expected: u64, written: u64 },
    /// The unprotected private key is not 32 bytes long.
    InvalidPrivateKeyLength,
    /// The identity's public key is not 32 bytes long.
    InvalidLocalPublicKeyLength,
    /// The input does not begin with the file signature.
    NotSupportedFile,
    /// The input ended in the middle of a field.
    UnexpectedEof,
    /// The file's version byte is not one this operation accepts.
    UnsupportedVersion(u8),
    /// The header is not JSON.
    InvalidHeaderJson,
    /// The declared header is longer than 1 MiB.
    HeaderTooLarge,
    /// The header declares a chunk size other than 1 MiB.
    UnsupportedChunkSize(usize),
    /// The file was sealed for another device.
    WrongRecipient,
    /// The header's ephemeral public key is not 32 bytes long.
    InvalidEphemeralKeyLength,
    /// The header's wrap nonce is not 12 bytes long.
    InvalidWrapNonceLength,
    /// The wrapped file key does not authenticate: the header was altered or
    /// the key is wrong.
    HeaderAuthFailed,
    /// The unwrapped file key is not an AES-256 key.
    ContentKeyInvalid,
    /// A chunk declares a ciphertext longer than a chunk can be.
    ChunkTooLarge,
    /// A chunk carries the nonce of another position: chunks were reordered,
    /// dropped or replayed.
    ChunkOutOfOrder(u64),
    /// A chunk does not authenticate.
    ChunkTampered,
    /// A chunk decrypts to a length other than the one it declares.
    LengthMismatch,
    /// Fewer or more chunks than the header declares.
    TruncatedFile { expected: u64, got: u64 },
    /// The identity's private key was protected by another mechanism.
    ProtectionModeMismatch,
    /// The protected private key is too short to hold a nonce and a tag.
    ProtectionBlobTooShort(usize),
    /// The protected private key does not authenticate under the master key.
    KeyUnprotectFailed,
    /// The stored master key is not 32 bytes long.
    CorruptMasterKey(usize),
    /// The master key is not an AES-256 key.
    MasterKeyInvalid,
    /// The private key could not be sealed (it is longer than AES-GCM-SIV
    /// accepts).
    KeyProtectFailed,
}

/// The view of a byte-vector result.
pub open spec fn res_bytes(r: Result<Vec<u8>, Error>) -> Result<Seq<u8>, Error> {
    match r {
        Ok(v) => Ok(v@),
        Err(e) => Err(e),
    }
}

} // verus!
