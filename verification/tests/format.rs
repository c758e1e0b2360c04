use twobsecret::error::Error;
use twobsecret::format::{
    aad_v4, chunk_count, encode_preamble, header_aad, inspect_header, inspect_preamble, parse_preamble, Header,
    Preamble, CHUNK_SIZE, MAX_HEADER_LEN, VERSION,
};

fn sample_header(chunk_count: Option<u64>) -> Header {
    Header {
        magic_b64: "MkJSRUNJUAA=".to_string(),
        version: 4,
        algorithm: "aes-256-gcm-siv".to_string(),
        key_wrap: "x25519-hkdf-sha256-wrap".to_string(),
        recipient_fingerprint: "0011223344556677".to_string(),
        ephemeral_public_key_b64: "EPH".to_string(),
        wrap_nonce_b64: "N".to_string(),
        wrapped_file_key_b64: "W".to_string(),
        original_name: "notes.txt".to_string(),
        chunk_size: CHUNK_SIZE,
        chunk_count,
    }
}

#[test]
fn preamble_layout() {
    let out = encode_preamble(b"{}");
    assert_eq!(&out[..8], b"2BRECIP\0");
    assert_eq!(out[8], 4);
    assert_eq!(&out[9..13], &[0, 0, 0, 2]);
    assert_eq!(&out[13..], b"{}");
}

#[test]
fn preamble_roundtrip() {
    let json = vec![b'x'; 300];
    let out = encode_preamble(&json);
    assert_eq!(parse_preamble(&out[..13]), Ok(Preamble { version: VERSION, header_len: 300 }));
    assert_eq!(inspect_preamble(&out), Ok(Preamble { version: VERSION, header_len: 300 }));
}

#[test]
fn preamble_refuses_other_signatures() {
    let mut out = encode_preamble(b"{}");
    out[0] = b'X';
    assert_eq!(parse_preamble(&out), Err(Error::NotSupportedFile));
    assert_eq!(inspect_preamble(&out), Err(Error::NotSupportedFile));
}

#[test]
fn preamble_short_input() {
    let out = encode_preamble(b"{}");
    assert_eq!(parse_preamble(&out[..5]), Err(Error::UnexpectedEof));
    assert_eq!(parse_preamble(&out[..8]), Err(Error::UnexpectedEof));
    assert_eq!(parse_preamble(&out[..11]), Err(Error::UnexpectedEof));
    let mut bad = out.clone();
    bad[0] = 0;
    assert_eq!(parse_preamble(&bad[..8]), Err(Error::NotSupportedFile));
}

#[test]
fn preamble_versions() {
    let mut out = encode_preamble(b"{}");
    for v in [3u8, 4] {
        out[8] = v;
        assert_eq!(parse_preamble(&out), Ok(Preamble { version: v, header_len: 2 }));
    }
    for v in [0u8, 1, 2, 5, 255] {
        out[8] = v;
        assert_eq!(parse_preamble(&out), Err(Error::UnsupportedVersion(v)));
    }
    for v in [1u8, 2, 3, 4] {
        out[8] = v;
        assert_eq!(inspect_preamble(&out), Ok(Preamble { version: v, header_len: 2 }));
    }
    for v in [0u8, 5] {
        out[8] = v;
        assert_eq!(inspect_preamble(&out), Err(Error::UnsupportedVersion(v)));
    }
}

#[test]
fn preamble_refuses_large_headers() {
    let mut out = encode_preamble(b"{}");
    out[9..13].copy_from_slice(&((MAX_HEADER_LEN as u32) + 1).to_be_bytes());
    assert_eq!(parse_preamble(&out), Err(Error::HeaderTooLarge));
    out[9..13].copy_from_slice(&(MAX_HEADER_LEN as u32).to_be_bytes());
    assert_eq!(parse_preamble(&out), Ok(Preamble { version: 4, header_len: MAX_HEADER_LEN }));
}

#[test]
fn chunk_counts() {
    let c = CHUNK_SIZE as u64;
    assert_eq!(chunk_count(0), 0);
    assert_eq!(chunk_count(1), 1);
    assert_eq!(chunk_count(c), 1);
    assert_eq!(chunk_count(c + 1), 2);
    assert_eq!(chunk_count(10 * c), 10);
    assert_eq!(chunk_count(u64::MAX - c), (u64::MAX - c) / c + 1);
}

#[test]
fn aad_v4_layout() {
    assert_eq!(
        aad_v4("fp", "EPH=", "a.txt", CHUNK_SIZE, 3),
        "2BRECIP_v4|fp|EPH=|a.txt|1048576|3"
    );
}

#[test]
fn header_aad_by_version() {
    let h = sample_header(Some(2));
    assert_eq!(header_aad(4, &h), "2BRECIP_v4|0011223344556677|EPH|notes.txt|1048576|2");
    assert_eq!(header_aad(3, &h), "2BRECIP_v3|0011223344556677|notes.txt|1048576|2");
    let h = sample_header(None);
    assert_eq!(header_aad(4, &h), "2BRECIP_v4|0011223344556677|EPH|notes.txt|1048576|0");
    assert_eq!(header_aad(3, &h), "2BRECIP_v3|0011223344556677|notes.txt");
}

#[test]
fn inspect_shows_header_with_version_byte() {
    let json = br#"{"version":4,"algorithm":"aes-256-gcm-siv"}"#;
    let file = encode_preamble(json);
    let shown = inspect_header(&file[..13], &file[13..]).unwrap();
    assert_eq!(
        shown,
        "{\n  \"algorithm\": \"aes-256-gcm-siv\",\n  \"file_version_byte\": 4,\n  \"version\": 4\n}"
    );
}

#[test]
fn inspect_reads_only_the_declared_header() {
    let mut file = encode_preamble(br#"{"a":1}"#);
    file.extend_from_slice(b"trailing chunk bytes");
    let shown = inspect_header(&file[..13], &file[13..]).unwrap();
    assert_eq!(shown, "{\n  \"a\": 1,\n  \"file_version_byte\": 4\n}");
}

#[test]
fn inspect_keeps_non_objects_and_refuses_non_json() {
    let file = encode_preamble(b"[1,2]");
    assert_eq!(inspect_header(&file[..13], &file[13..]).unwrap(), "[\n  1,\n  2\n]");
    let file = encode_preamble(b"not json");
    assert_eq!(inspect_header(&file[..13], &file[13..]), Err(Error::InvalidHeaderJson));
    let file = encode_preamble(b"{}");
    assert_eq!(inspect_header(&file[..13], &file[13..14]), Err(Error::UnexpectedEof));
    let mut old = encode_preamble(b"{}");
    old[8] = 1;
    assert_eq!(inspect_header(&old[..13], &old[13..]).unwrap(), "{\n  \"file_version_byte\": 1\n}");
    old[8] = 7;
    assert_eq!(inspect_header(&old[..13], &old[13..]), Err(Error::UnsupportedVersion(7)));
    old[0] = 0;
    assert_eq!(inspect_header(&old[..13], &old[13..]), Err(Error::NotSupportedFile));
}
