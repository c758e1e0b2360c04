# twobsecret

Recipient-locked file encryption. Each device owns an X25519 key pair; a
file is encrypted for one chosen device and only that device's private key
unwraps the file key.

- `src/` is the verified library (Verus):
  - `primitives` — the calls into outside crates (SHA-256, HKDF-SHA256,
    AES-256-GCM-SIV, X25519, base64, the OS random source, zeroize), with
    their trusted contracts;
  - `text` — lowercase hex, decimal numbers, big-endian length fields;
  - `nonce` — per-chunk nonces;
  - `names` — file-name sanitizing and the names files are stored under;
  - `keys` — fingerprints, device identities, protection of the private key
    under a master key;
  - `format` — the `.2brecip` preamble, header and associated data;
  - `envelope` — wrapping the file key for a recipient, sealing and opening
    chunks.
- `app/` is the desktop program: window, file dialogs, file and keyring I/O,
  JSON (de)serialization.
- `tests/` exercise the library.

File layout: `2BRECIP\0`, a version byte (4), the header length as a
big-endian `u32`, the JSON header, then one frame per 1 MiB chunk: plaintext
length and ciphertext length (big-endian `u32`), the 12-byte nonce (four zero
bytes and the chunk index, big-endian), the ciphertext.

The window (`app/gui.rs`, `app/main.rs`) is drawn with `eframe`, and on
Windows the private key is protected with DPAPI through `windows-dpapi`.
Building the desktop program takes both under `[dependencies]`
(`eframe = "0.27"`; `windows-dpapi` on Windows); the library and its tests
use neither.
