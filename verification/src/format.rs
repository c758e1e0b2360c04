//! The `.2brecip` container: a fixed preamble (signature, version, header
//! length), a JSON header, then a sequence of encrypted chunks.

use crate::error::Error;
use crate::primitives::{json_set_u8_pretty, json_set_u8_pretty_exec};
use crate::names::lemma_encode_utf8_len_bound;
use crate::text::{
    be_u32, decimal, decode_be_u32, lemma_be_u32_roundtrip, lemma_decimal_u64_len, push_be_u32, push_decimal,
    read_be_u32,
};
use vstd::utf8::encode_utf8;
use vstd::prelude::*;

verus! {

/// The eight bytes every file begins with: `2BRECIP` and a zero byte.
pub const MAGIC: [u8; 8] = [0x32, 0x42, 0x52, 0x45, 0x43, 0x49, 0x50, 0x00];

/// The format version this library writes.
pub const VERSION: u8 = 4;

/// Plaintext bytes per chunk.
pub const CHUNK_SIZE: usize = 1048576;

/// Longest header the reader accepts.
pub const MAX_HEADER_LEN: usize = 1048576;

/// Longest chunk ciphertext the reader accepts.
pub const MAX_CIPHER_LEN: usize = 1048608;

/// Length of the preamble: signature, version byte, header length.
pub const PREAMBLE_LEN: usize = 13;

/// Length of a chunk's leading fields: plaintext length, ciphertext length.
pub const FRAME_LENGTHS_LEN: usize = 8;

/// The signature as a sequence.
pub open spec fn magic() -> Seq<u8> {
    seq![0x32u8, 0x42u8, 0x52u8, 0x45u8, 0x43u8, 0x49u8, 0x50u8, 0x00u8]
}

/// The header of an encrypted file: how the file key was wrapped for the
/// recipient, and what the content is.
pub struct Header {
    pub magic_b64: String,
    pub version: u8,
    pub algorithm: String,
    pub key_wrap: String,
    pub recipient_fingerprint: String,
    pub ephemeral_public_key_b64: String,
    pub wrap_nonce_b64: String,
    pub wrapped_file_key_b64: String,
    pub original_name: String,
    pub chunk_size: usize,
    pub chunk_count: Option<u64>,
}

/// What the preamble of a file declares.
#[derive(Debug, Clone, Copy, PartialEq, Eq, Structural)]
pub struct Preamble {
    pub version: u8,
    pub header_len: usize,
}

/// The preamble written before a header of `header_len` bytes.
pub open spec fn spec_preamble(header_len: nat) -> Seq<u8> {
    magic() + seq![VERSION] + be_u32(header_len as u32)
}

/// Which version bytes a reader accepts: decryption takes versions 3 and 4,
/// inspection any version from 1 to 4.
pub open spec fn version_accepted(version: u8, inspecting: bool) -> bool {
    if inspecting {
        1 <= version <= 4
    } else {
        version == 3 || version == 4
    }
}

/// What reading a preamble from the first bytes of a file gives, checking
/// each field as soon as it has been read.
pub open spec fn spec_read_preamble(prefix: Seq<u8>, inspecting: bool) -> Result<Preamble, Error> {
    if prefix.len() < 8 {
        Err(Error::UnexpectedEof)
    } else if prefix.take(8) != magic() {
        Err(Error::NotSupportedFile)
    } else if prefix.len() < 9 {
        Err(Error::UnexpectedEof)
    } else if !version_accepted(prefix[8], inspecting) {
        Err(Error::UnsupportedVersion(prefix[8]))
    } else if prefix.len() < 13 {
        Err(Error::UnexpectedEof)
    } else if decode_be_u32(prefix.subrange(9, 13)) > MAX_HEADER_LEN {
        Err(Error::HeaderTooLarge)
    } else {
        Ok(Preamble { version: prefix[8], header_len: decode_be_u32(prefix.subrange(9, 13)) as usize })
    }
}

/// The preamble followed by the header, as written at the start of a file.
/// Where the header fits the reader's limit, reading the preamble back gives
/// the current version and the header's length.
pub fn encode_preamble(header_json: &[u8]) -> (out: Vec<u8>)
    ensures
        out@ == spec_preamble(header_json@.len()) + header_json@,
        header_json@.len() <= MAX_HEADER_LEN ==> spec_read_preamble(out@, false) == Ok::<
            Preamble,
            Error,
        >(Preamble { version: VERSION, header_len: header_json@.len() as usize }),
        header_json@.len() <= MAX_HEADER_LEN ==> spec_read_preamble(out@, true) == Ok::<
            Preamble,
            Error,
        >(Preamble { version: VERSION, header_len: header_json@.len() as usize }),
{
    let mut out: Vec<u8> = Vec::new();
    let mut i: usize = 0;
    while i < 8
        invariant
            i <= 8,
            out@ == magic().take(i as int),
        decreases 8 - i,
    {
        out.push(MAGIC[i]);
        proof {
            assert(out@ =~= magic().take(i + 1));
        }
        i = i + 1;
    }
    out.push(VERSION);
    push_be_u32(&mut out, header_json.len() as u32);
    let ghost pre = out@;
    out.extend_from_slice(header_json);
    proof {
        assert(pre =~= spec_preamble(header_json@.len()));
        assert(out@ =~= pre + header_json@);
        lemma_be_u32_roundtrip(header_json@.len() as u32);
        assert(out@.take(8) =~= magic());
        assert(out@.subrange(9, 13) =~= be_u32(header_json@.len() as u32));
    }
    out
}

fn read_preamble(prefix: &[u8], inspecting: bool) -> (p: Result<Preamble, Error>)
    ensures
        p == spec_read_preamble(prefix@, inspecting),
{
    if prefix.len() < 8 {
        return Err(Error::UnexpectedEof);
    }
    let mut i: usize = 0;
    while i < 8
        invariant
            8 <= prefix@.len(),
            i <= 8,
            prefix@.take(i as int) == magic().take(i as int),
        decreases 8 - i,
    {
        if prefix[i] != MAGIC[i] {
            proof {
                assert(prefix@.take(8)[i as int] != magic()[i as int]);
            }
            return Err(Error::NotSupportedFile);
        }
        proof {
            assert(prefix@.take(i + 1) =~= magic().take(i + 1));
        }
        i = i + 1;
    }
    proof {
        assert(prefix@.take(8) =~= magic());
    }
    if prefix.len() < 9 {
        return Err(Error::UnexpectedEof);
    }
    let version = prefix[8];
    let accepted = if inspecting {
        1 <= version && version <= 4
    } else {
        version == 3 || version == 4
    };
    if !accepted {
        return Err(Error::UnsupportedVersion(version));
    }
    if prefix.len() < 13 {
        return Err(Error::UnexpectedEof);
    }
    let header_len = read_be_u32(prefix, 9);
    if header_len as usize > MAX_HEADER_LEN {
        return Err(Error::HeaderTooLarge);
    }
    Ok(Preamble { version, header_len: header_len as usize })
}

/// Reads the preamble of a file to decrypt from its first bytes (at most
/// thirteen are looked at): the signature must match, the version must be 3
/// or 4, and the header at most 1 MiB long.
pub fn parse_preamble(prefix: &[u8]) -> (p: Result<Preamble, Error>)
    ensures
        p == spec_read_preamble(prefix@, false),
{
    read_preamble(prefix, false)
}

/// Reads the preamble of a file to inspect: as for decryption, but any
/// version from 1 to 4 is accepted.
pub fn inspect_preamble(prefix: &[u8]) -> (p: Result<Preamble, Error>)
    ensures
        p == spec_read_preamble(prefix@, true),
{
    read_preamble(prefix, true)
}

/// Number of chunks a file of `file_size` bytes is cut into.
pub open spec fn spec_chunk_count(file_size: nat) -> nat {
    ((file_size + CHUNK_SIZE - 1) / (CHUNK_SIZE as int)) as nat
}

/// Number of chunks of at most 1 MiB that hold `file_size` bytes: none for
/// an empty file, and just enough to hold every byte otherwise.
pub fn chunk_count(file_size: u64) -> (n: u64)
    requires
        file_size + CHUNK_SIZE <= u64::MAX,
    ensures
        n == spec_chunk_count(file_size as nat),
        n == 0 <==> file_size == 0,
        n * CHUNK_SIZE >= file_size,
        n > 0 ==> (n - 1) * CHUNK_SIZE < file_size,
{
    let n = (file_size + CHUNK_SIZE as u64 - 1) / CHUNK_SIZE as u64;
    assert(n * 1048576 >= file_size && (n > 0 ==> (n - 1) * 1048576 < file_size) && (n == 0
        <==> file_size == 0)) by (nonlinear_arith)
        requires
            n == (file_size + 1048576 - 1) / 1048576,
    ;
    n
}

/// `2BRECIP_v4|`
pub open spec fn aad_v4_tag() -> Seq<char> {
    seq!['2', 'B', 'R', 'E', 'C', 'I', 'P', '_', 'v', '4', '|']
}

/// `2BRECIP_v3|`
pub open spec fn aad_v3_tag() -> Seq<char> {
    seq!['2', 'B', 'R', 'E', 'C', 'I', 'P', '_', 'v', '3', '|']
}

/// The associated data that binds a version-4 header's fields to its
/// wrapped file key.
pub open spec fn spec_aad_v4(
    fingerprint: Seq<char>,
    ephemeral_b64: Seq<char>,
    name: Seq<char>,
    chunk_size: nat,
    chunk_count: nat,
) -> Seq<char> {
    aad_v4_tag() + fingerprint + seq!['|'] + ephemeral_b64 + seq!['|'] + name + seq!['|'] + decimal(
        chunk_size,
    ) + seq!['|'] + decimal(chunk_count)
}

/// The associated data a reader rebuilds from a header: the version-4 form,
/// or for version 3 the legacy form, which leaves out the ephemeral key and,
/// where the header has no chunk count, the chunk fields too.
pub open spec fn spec_header_aad(
    version: u8,
    fingerprint: Seq<char>,
    ephemeral_b64: Seq<char>,
    name: Seq<char>,
    chunk_size: nat,
    chunk_count: Option<u64>,
) -> Seq<char> {
    if version == 4 {
        spec_aad_v4(
            fingerprint,
            ephemeral_b64,
            name,
            chunk_size,
            match chunk_count {
                Some(c) => c as nat,
                None => 0,
            },
        )
    } else {
        match chunk_count {
            Some(c) => aad_v3_tag() + fingerprint + seq!['|'] + name + seq!['|'] + decimal(
                chunk_size,
            ) + seq!['|'] + decimal(c as nat),
            None => aad_v3_tag() + fingerprint + seq!['|'] + name,
        }
    }
}

/// Builds the version-4 associated data.
pub fn aad_v4(fingerprint: &str, ephemeral_b64: &str, name: &str, chunk_size: usize, chunk_count: u64) -> (aad: String)
    ensures
        aad@ == spec_aad_v4(fingerprint@, ephemeral_b64@, name@, chunk_size as nat, chunk_count as nat),
{
    proof {
        reveal_strlit("2BRECIP_v4|");
        reveal_strlit("|");
    }
    let mut s = String::from_str("2BRECIP_v4|");
    s.append(fingerprint);
    s.append("|");
    s.append(ephemeral_b64);
    s.append("|");
    s.append(name);
    s.append("|");
    push_decimal(&mut s, chunk_size as u64);
    s.append("|");
    push_decimal(&mut s, chunk_count);
    proof {
        assert(s@ =~= spec_aad_v4(fingerprint@, ephemeral_b64@, name@, chunk_size as nat, chunk_count as nat));
    }
    s
}

/// Rebuilds, from a header, the associated data its file key was wrapped
/// with.
pub fn header_aad(version: u8, header: &Header) -> (aad: String)
    ensures
        aad@ == spec_header_aad(
            version,
            header.recipient_fingerprint@,
            header.ephemeral_public_key_b64@,
            header.original_name@,
            header.chunk_size as nat,
            header.chunk_count,
        ),
{
    if version == 4 {
        let count = match header.chunk_count {
            Some(c) => c,
            None => 0,
        };
        aad_v4(
            header.recipient_fingerprint.as_str(),
            header.ephemeral_public_key_b64.as_str(),
            header.original_name.as_str(),
            header.chunk_size,
            count,
        )
    } else {
        proof {
            reveal_strlit("2BRECIP_v3|");
            reveal_strlit("|");
        }
        let mut s = String::from_str("2BRECIP_v3|");
        s.append(header.recipient_fingerprint.as_str());
        s.append("|");
        s.append(header.original_name.as_str());
        match header.chunk_count {
            Some(c) => {
                s.append("|");
                push_decimal(&mut s, header.chunk_size as u64);
                s.append("|");
                push_decimal(&mut s, c);
            },
            None => {},
        }
        proof {
            assert(s@ =~= spec_header_aad(
                version,
                header.recipient_fingerprint@,
                header.ephemeral_public_key_b64@,
                header.original_name@,
                header.chunk_size as nat,
                header.chunk_count,
            ));
        }
        s
    }
}

/// What inspecting a file shows: its header, read after the preamble, with
/// the version byte added as the field `file_version_byte`, pretty-printed.
/// `header_json` is what follows the preamble; only the declared header
/// length of it is read.
pub open spec fn spec_inspect_header(prefix: Seq<u8>, header_json: Seq<u8>) -> Result<Seq<char>, Error> {
    match spec_read_preamble(prefix, true) {
        Err(e) => Err(e),
        Ok(p) => if header_json.len() < p.header_len {
            Err(Error::UnexpectedEof)
        } else {
            match json_set_u8_pretty(header_json.take(p.header_len as int), "file_version_byte"@, p.version) {
                Some(text) => Ok(text),
                None => Err(Error::InvalidHeaderJson),
            }
        },
    }
}

/// The metadata view of a file: from its first bytes (`prefix`, at least the
/// thirteen of the preamble where the file has them) and the bytes after the
/// preamble, the header as pretty JSON with the version byte added.
pub fn inspect_header(prefix: &[u8], header_json: &[u8]) -> (r: Result<String, Error>)
    ensures
        match r {
            Ok(s) => spec_inspect_header(prefix@, header_json@) == Ok::<Seq<char>, Error>(s@),
            Err(e) => spec_inspect_header(prefix@, header_json@) == Err::<Seq<char>, Error>(e),
        },
{
    let p = inspect_preamble(prefix)?;
    if header_json.len() < p.header_len {
        return Err(Error::UnexpectedEof);
    }
    let (header, _) = header_json.split_at(p.header_len);
    let key = "file_version_byte";
    match json_set_u8_pretty_exec(header, key, p.version) {
        Some(text) => Ok(text),
        None => Err(Error::InvalidHeaderJson),
    }
}

/// Longest recipient fingerprint and file name, together, for which the
/// wrap associated data is sure to stay within what AES-GCM-SIV accepts.
pub const MAX_NAME_FIELDS_LEN: u64 = 0x3_0000_0000;

/// The version-4 associated data, as UTF-8, is at most four bytes for each
/// character of the fingerprint and name and of the 99 characters around
/// them; with fields within `MAX_NAME_FIELDS_LEN` it stays within what
/// AES-GCM-SIV accepts.
pub proof fn lemma_aad_v4_utf8_len(
    fingerprint: Seq<char>,
    ephemeral_b64: Seq<char>,
    name: Seq<char>,
    chunk_size: nat,
    chunk_count: nat,
)
    requires
        ephemeral_b64.len() == 44,
        chunk_size <= u64::MAX,
        chunk_count <= u64::MAX,
    ensures
        encode_utf8(spec_aad_v4(fingerprint, ephemeral_b64, name, chunk_size, chunk_count)).len() <= 4 * (
        fingerprint.len() + name.len() + 99),
        fingerprint.len() + name.len() <= MAX_NAME_FIELDS_LEN ==> encode_utf8(
            spec_aad_v4(fingerprint, ephemeral_b64, name, chunk_size, chunk_count),
        ).len() <= crate::primitives::AEAD_MAX_INPUT,
{
    lemma_decimal_u64_len(chunk_size as u64);
    lemma_decimal_u64_len(chunk_count as u64);
    lemma_encode_utf8_len_bound(spec_aad_v4(fingerprint, ephemeral_b64, name, chunk_size, chunk_count));
}

} // verus!
