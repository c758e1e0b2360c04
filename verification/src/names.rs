//! File names: how a name taken from a file header is made safe to write, and
//! the names under which keys and outputs are stored.

use crate::primitives::{is_plain_file_name, path_file_name, push_char};
use crate::text::{decimal, push_decimal};
use vstd::prelude::*;
use vstd::utf8::{encode_scalar, encode_utf8};

verus! {

broadcast use vstd::utf8::char_is_scalar;

/// Longest UTF-8 encoding, in bytes, that a sanitized file name may have.
pub const MAX_NAME_BYTES: usize = 200;

/// Characters that could steer a path elsewhere or that common file systems
/// refuse.
pub open spec fn is_forbidden_char(c: char) -> bool {
    c == '/' || c == '\\' || c == '\0' || c == ':' || c == '*' || c == '?' || c == '"' || c == '<'
        || c == '>' || c == '|'
}

/// A forbidden character becomes `_`; every other character stays.
pub open spec fn replace_forbidden(c: char) -> char {
    if is_forbidden_char(c) {
        '_'
    } else {
        c
    }
}

/// Characters that may not begin a sanitized name.
pub open spec fn is_leading_trimmed(c: char) -> bool {
    c == '.' || c == ' '
}

/// `s` with its forbidden characters replaced.
pub open spec fn replace_all(s: Seq<char>) -> Seq<char> {
    s.map_values(|c: char| replace_forbidden(c))
}

/// `s` without its leading dots and spaces.
pub open spec fn trim_leading(s: Seq<char>) -> Seq<char>
    decreases s.len(),
{
    if s.len() > 0 && is_leading_trimmed(s[0]) {
        trim_leading(s.drop_first())
    } else {
        s
    }
}

/// Number of bytes in the UTF-8 encoding of `c`.
pub open spec fn utf8_width(c: char) -> nat {
    encode_scalar(c as u32).len()
}

/// The longest prefix of `s` whose UTF-8 encoding fits in `limit` bytes, so
/// that no character is split.
pub open spec fn utf8_prefix(s: Seq<char>, limit: int) -> Seq<char>
    decreases s.len(),
{
    if s.len() > 0 && utf8_width(s[0]) <= limit {
        seq![s[0]] + utf8_prefix(s.drop_first(), limit - utf8_width(s[0]))
    } else {
        Seq::empty()
    }
}

/// The name used when nothing of the given name survives.
pub open spec fn fallback_name() -> Seq<char> {
    seq!['d', 'e', 'c', 'r', 'y', 'p', 't', 'e', 'd', '_', 'f', 'i', 'l', 'e', '.', 'b', 'i', 'n']
}

/// The sanitized form of a file name: forbidden characters replaced by `_`,
/// leading dots and spaces removed, cut to at most 200 bytes of UTF-8 without
/// splitting a character, and the fallback name where nothing is left.
pub open spec fn spec_sanitize(name: Seq<char>) -> Seq<char> {
    let kept = utf8_prefix(trim_leading(replace_all(name)), MAX_NAME_BYTES as int);
    if kept.len() == 0 {
        fallback_name()
    } else {
        kept
    }
}

proof fn lemma_encode_utf8_push(s: Seq<char>, c: char)
    ensures
        encode_utf8(s.push(c)) == encode_utf8(s) + encode_scalar(c as u32),
    decreases s.len(),
{
    if s.len() == 0 {
        assert(s.push(c).drop_first() =~= Seq::<char>::empty());
        assert(encode_utf8(Seq::<char>::empty()) == Seq::<u8>::empty());
        assert(encode_utf8(s) == Seq::<u8>::empty());
        assert(encode_utf8(s.push(c)) == encode_scalar(s.push(c)[0] as u32) + encode_utf8(
            s.push(c).drop_first(),
        ));
        assert(encode_utf8(s.push(c)) =~= encode_utf8(s) + encode_scalar(c as u32));
    } else {
        lemma_encode_utf8_push(s.drop_first(), c);
        assert(s.push(c).drop_first() =~= s.drop_first().push(c));
        assert(encode_utf8(s.push(c)) =~= encode_utf8(s) + encode_scalar(c as u32));
    }
}

proof fn lemma_trim_leading_push(s: Seq<char>, c: char)
    ensures
        trim_leading(s.push(c)) == if trim_leading(s).len() == 0 && is_leading_trimmed(c) {
            Seq::<char>::empty()
        } else {
            trim_leading(s).push(c)
        },
    decreases s.len(),
{
    if s.len() == 0 {
        assert(s.push(c).drop_first() =~= Seq::<char>::empty());
        assert(trim_leading(Seq::<char>::empty()) == Seq::<char>::empty());
        assert(trim_leading(s) == s);
        assert(s.push(c)[0] == c);
    } else {
        assert(s.push(c).drop_first() =~= s.drop_first().push(c));
        assert(s.push(c)[0] == s[0]);
        if is_leading_trimmed(s[0]) {
            lemma_trim_leading_push(s.drop_first(), c);
        }
    }
}

proof fn lemma_trim_leading_append(p: Seq<char>, rest: Seq<char>)
    requires
        trim_leading(p).len() > 0,
    ensures
        trim_leading(p + rest) == trim_leading(p) + rest,
    decreases p.len(),
{
    if is_leading_trimmed(p[0]) {
        assert((p + rest).drop_first() =~= p.drop_first() + rest);
        lemma_trim_leading_append(p.drop_first(), rest);
    }
}

proof fn lemma_trim_leading_empty_append(p: Seq<char>, rest: Seq<char>)
    requires
        trim_leading(p).len() == 0,
    ensures
        trim_leading(p + rest) == trim_leading(rest),
    decreases p.len(),
{
    if p.len() == 0 {
        assert(p + rest =~= rest);
    } else {
        assert((p + rest).drop_first() =~= p.drop_first() + rest);
        lemma_trim_leading_empty_append(p.drop_first(), rest);
    }
}

proof fn lemma_utf8_prefix_fits(s: Seq<char>, limit: int)
    requires
        encode_utf8(s).len() <= limit,
    ensures
        utf8_prefix(s, limit) == s,
    decreases s.len(),
{
    if s.len() > 0 {
        lemma_utf8_prefix_fits(s.drop_first(), limit - utf8_width(s[0]));
        assert(seq![s[0]] + s.drop_first() =~= s);
    }
}

proof fn lemma_utf8_prefix_stops(p: Seq<char>, rest: Seq<char>, limit: int)
    requires
        encode_utf8(p).len() <= limit,
        rest.len() > 0,
        encode_utf8(p).len() + utf8_width(rest[0]) > limit,
    ensures
        utf8_prefix(p + rest, limit) == p,
    decreases p.len(),
{
    if p.len() == 0 {
        assert(p + rest =~= rest);
    } else {
        assert((p + rest).drop_first() =~= p.drop_first() + rest);
        assert((p + rest)[0] == p[0]);
        lemma_utf8_prefix_stops(p.drop_first(), rest, limit - utf8_width(p[0]));
        assert(seq![p[0]] + p.drop_first() =~= p);
    }
}

fn utf8_width_exec(c: char) -> (w: usize)
    ensures
        w == utf8_width(c),
        1 <= w <= 4,
{
    let v = c as u32;
    if v < 0x80 {
        1
    } else if v < 0x800 {
        2
    } else if v < 0x10000 {
        3
    } else {
        4
    }
}

fn replace_forbidden_exec(c: char) -> (r: char)
    ensures
        r == replace_forbidden(c),
{
    if c == '/' || c == '\\' || c == '\0' || c == ':' || c == '*' || c == '?' || c == '"' || c
        == '<' || c == '>' || c == '|' {
        '_'
    } else {
        c
    }
}

/// Makes a file name taken from an untrusted header safe to create: forbidden
/// characters become `_`, leading dots and spaces go, the name is cut to 200
/// bytes at a character boundary, and an empty result becomes
/// `decrypted_file.bin`.
pub fn sanitize_filename(name: &str) -> (safe: String)
    ensures
        safe@ == spec_sanitize(name@),
{
    let mut out = String::new();
    let mut used: usize = 0;
    assert(name@.take(name@.len() as int) =~= name@);
    assert(replace_all(name@.take(0)) =~= Seq::<char>::empty());
    assert(encode_utf8(Seq::<char>::empty()) == Seq::<u8>::empty());
    for c in it: name.chars()
        invariant_except_break
            it.seq() == name@,
            0 <= it.index() <= name@.len(),
            out@ == trim_leading(replace_all(name@.take(it.index() as int))),
            used == encode_utf8(out@).len(),
            used <= MAX_NAME_BYTES,
            out@.len() == 0 <==> used == 0,
            name@.take(name@.len() as int) == name@,
            utf8_prefix(trim_leading(replace_all(name@.take(it.index() as int))), MAX_NAME_BYTES as int)
                == out@,
        ensures
            out@.len() == 0 <==> used == 0,
            out@ == utf8_prefix(trim_leading(replace_all(name@)), MAX_NAME_BYTES as int),
    {
        let ghost i = it.index();
        let r = replace_forbidden_exec(c);
        let ghost before = replace_all(name@.take(i as int));
        proof {
            assert(replace_all(name@.take(i + 1)) =~= before.push(r));
            lemma_trim_leading_push(before, r);
        }
        if used == 0 && (c == '.' || c == ' ') {
            // still inside the leading run of dots and spaces
        } else {
            let w = utf8_width_exec(r);
            if w > MAX_NAME_BYTES - used {
                proof {
                    let full = replace_all(name@);
                    let rest = full.subrange(i as int, full.len() as int);
                    assert(before + rest =~= full);
                    assert(trim_leading(before).len() > 0 || !is_leading_trimmed(r));
                    if trim_leading(before).len() > 0 {
                        lemma_trim_leading_append(before, rest);
                    } else {
                        lemma_trim_leading_empty_append(before, rest);
                        assert(rest[0] == r);
                        assert(trim_leading(rest) == rest);
                    }
                    assert(trim_leading(full) == out@ + rest);
                    lemma_utf8_prefix_stops(out@, rest, MAX_NAME_BYTES as int);
                }
                break;
            }
            proof {
                lemma_encode_utf8_push(out@, r);
            }
            push_char(&mut out, r);
            used = used + w;
        }
        proof {
            lemma_utf8_prefix_fits(out@, MAX_NAME_BYTES as int);
        }
    }
    if used == 0 {
        let fallback = "decrypted_file.bin";
        proof {
            reveal_strlit("decrypted_file.bin");
        }
        String::from_str(fallback)
    } else {
        out
    }
}


/// Whether `s` holds no forbidden character.
pub open spec fn no_forbidden(s: Seq<char>) -> bool {
    forall|i: int| 0 <= i < s.len() ==> !is_forbidden_char(#[trigger] s[i])
}

proof fn lemma_replace_all_clean(s: Seq<char>)
    ensures
        no_forbidden(replace_all(s)),
        no_forbidden(s) ==> replace_all(s) == s,
{
    assert forall|i: int| 0 <= i < replace_all(s).len() implies !is_forbidden_char(
        #[trigger] replace_all(s)[i],
    ) by {
        assert(replace_all(s)[i] == replace_forbidden(s[i]));
    }
    if no_forbidden(s) {
        assert(replace_all(s) =~= s);
    }
}

proof fn lemma_trim_leading_shape(s: Seq<char>)
    ensures
        no_forbidden(s) ==> no_forbidden(trim_leading(s)),
        trim_leading(s).len() > 0 ==> !is_leading_trimmed(trim_leading(s)[0]),
        trim_leading(s).len() <= s.len(),
    decreases s.len(),
{
    if s.len() > 0 && is_leading_trimmed(s[0]) {
        lemma_trim_leading_shape(s.drop_first());
        if no_forbidden(s) {
            assert(no_forbidden(s.drop_first())) by {
                assert forall|i: int| 0 <= i < s.drop_first().len() implies !is_forbidden_char(
                    #[trigger] s.drop_first()[i],
                ) by {
                    assert(s.drop_first()[i] == s[i + 1]);
                }
            }
        }
    }
}

proof fn lemma_utf8_prefix_shape(s: Seq<char>, limit: int)
    requires
        limit >= 0,
    ensures
        utf8_prefix(s, limit).len() <= s.len(),
        utf8_prefix(s, limit) == s.take(utf8_prefix(s, limit).len() as int),
        encode_utf8(utf8_prefix(s, limit)).len() <= limit,
    decreases s.len(),
{
    if s.len() > 0 && utf8_width(s[0]) <= limit {
        let rest = utf8_prefix(s.drop_first(), limit - utf8_width(s[0]));
        lemma_utf8_prefix_shape(s.drop_first(), limit - utf8_width(s[0]));
        let p = seq![s[0]] + rest;
        assert(p =~= s.take(p.len() as int));
        assert(p.drop_first() =~= rest);
        assert(encode_utf8(p) == encode_scalar(p[0] as u32) + encode_utf8(p.drop_first()));
    } else {
        assert(encode_utf8(Seq::<char>::empty()) == Seq::<u8>::empty());
        assert(Seq::<char>::empty() =~= s.take(0));
    }
}

/// A UTF-8 encoding takes at most four bytes per character, and at least
/// one byte where there is a character.
pub proof fn lemma_encode_utf8_len_bound(s: Seq<char>)
    ensures
        encode_utf8(s).len() <= 4 * s.len(),
        s.len() > 0 ==> encode_utf8(s).len() > 0,
    decreases s.len(),
{
    if s.len() > 0 {
        lemma_encode_utf8_len_bound(s.drop_first());
    }
}

/// What a sanitized name is like, whatever name came in: it is not empty, it
/// holds no forbidden character, it does not begin with a dot or a space
/// (so it is neither hidden nor `..`), and its UTF-8 encoding is at most 200
/// bytes long.
pub proof fn lemma_sanitize_safe(name: Seq<char>)
    ensures
        spec_sanitize(name).len() > 0,
        no_forbidden(spec_sanitize(name)),
        !is_leading_trimmed(spec_sanitize(name)[0]),
        encode_utf8(spec_sanitize(name)).len() <= MAX_NAME_BYTES,
        spec_sanitize(name) != seq!['.', '.'],
{
    let t = trim_leading(replace_all(name));
    let kept = utf8_prefix(t, MAX_NAME_BYTES as int);
    lemma_replace_all_clean(name);
    lemma_trim_leading_shape(replace_all(name));
    lemma_utf8_prefix_shape(t, MAX_NAME_BYTES as int);
    if kept.len() == 0 {
        let f = fallback_name();
        lemma_encode_utf8_len_bound(f);
        assert(no_forbidden(f)) by {
            assert forall|i: int| 0 <= i < f.len() implies !is_forbidden_char(#[trigger] f[i]) by {
            }
        }
        assert(f[0] == 'd');
    } else {
        assert(kept[0] == t[0]);
        assert(no_forbidden(kept)) by {
            assert forall|i: int| 0 <= i < kept.len() implies !is_forbidden_char(
                #[trigger] kept[i],
            ) by {
                assert(kept[i] == t[i]);
            }
        }
    }
}

/// Sanitizing is idempotent: a sanitized name comes through sanitizing again
/// unchanged.
pub proof fn lemma_sanitize_idempotent(name: Seq<char>)
    ensures
        spec_sanitize(spec_sanitize(name)) == spec_sanitize(name),
{
    let s = spec_sanitize(name);
    lemma_sanitize_safe(name);
    lemma_replace_all_clean(s);
    assert(replace_all(s) == s);
    assert(trim_leading(s) == s);
    lemma_utf8_prefix_fits(s, MAX_NAME_BYTES as int);
}

/// File in the device directory that holds this device's identity.
pub const IDENTITY_FILE_NAME: &'static str = "identity.json";

/// File in the device directory that holds the current recipient.
pub const RECIPIENT_FILE_NAME: &'static str = "recipient.json";

/// Extension of encrypted files.
pub const ENCRYPTED_EXTENSION: &'static str = ".2brecip";

/// Prefix of decrypted output files.
pub const DECRYPTED_PREFIX: &'static str = "decrypted_";

/// `recipient_<fingerprint>.json`.
pub open spec fn spec_exported_public_key_file_name(fingerprint: Seq<char>) -> Seq<char> {
    seq!['r', 'e', 'c', 'i', 'p', 'i', 'e', 'n', 't', '_'] + fingerprint + seq!['.', 'j', 's', 'o', 'n']
}

/// Name of the file a public key is exported to: `recipient_<fingerprint>.json`.
pub fn exported_public_key_file_name(fingerprint: &str) -> (name: String)
    ensures
        name@ == spec_exported_public_key_file_name(fingerprint@),
        name@ == "recipient_"@ + fingerprint@ + ".json"@,
{
    let prefix = "recipient_";
    let suffix = ".json";
    proof {
        reveal_strlit("recipient_");
        reveal_strlit(".json");
    }
    let mut name = String::from_str(prefix);
    name.append(fingerprint);
    name.append(suffix);
    name
}

/// The `attempt`-th candidate output name: `<prefix><name><ext>` first, then
/// `<prefix><name>_<attempt><ext>`.
pub open spec fn spec_output_file_name(prefix: Seq<char>, name: Seq<char>, ext: Seq<char>, attempt: nat) -> Seq<char> {
    if attempt == 0 {
        prefix + name + ext
    } else {
        prefix + name + seq!['_'] + decimal(attempt) + ext
    }
}

/// Candidate name for an output file; callers try attempt 0, 1, 2, ... until
/// they find a name that is not taken.
pub fn output_file_name(prefix: &str, name: &str, ext: &str, attempt: u64) -> (out: String)
    ensures
        out@ == spec_output_file_name(prefix@, name@, ext@, attempt as nat),
{
    let mut out = String::from_str(prefix);
    out.append(name);
    if attempt != 0 {
        push_char(&mut out, '_');
        push_decimal(&mut out, attempt);
    }
    out.append(ext);
    out
}

/// Distinct attempts give distinct candidate names, so counting attempts up
/// never offers the same taken name twice.
pub proof fn lemma_output_file_names_distinct(
    prefix: Seq<char>,
    name: Seq<char>,
    ext: Seq<char>,
    a: nat,
    b: nat,
)
    requires
        a != b,
    ensures
        spec_output_file_name(prefix, name, ext, a) != spec_output_file_name(prefix, name, ext, b),
{
    crate::text::lemma_decimal_injective(a, b);
    let base = prefix + name;
    if a == 0 || b == 0 {
        let nz = if a == 0 { b } else { a };
        crate::text::lemma_decimal_len(nz);
        assert((base + seq!['_'] + decimal(nz) + ext).len() > (base + ext).len());
    } else {
        let x = base + seq!['_'] + decimal(a) + ext;
        let y = base + seq!['_'] + decimal(b) + ext;
        if x == y {
            let da = decimal(a);
            let db = decimal(b);
            crate::text::lemma_decimal_len(a);
            crate::text::lemma_decimal_len(b);
            if da.len() == db.len() {
                assert forall|i: int| 0 <= i < da.len() implies da[i] == db[i] by {
                    assert(x[base.len() + 1 + i] == da[i]);
                    assert(y[base.len() + 1 + i] == db[i]);
                }
                assert(da =~= db);
            } else {
                assert(x.len() != y.len());
            }
        }
    }
}

/// Which way private keys are protected at rest: `dpapi` on Windows, a
/// keyring-held AES-256-GCM-SIV key elsewhere.
pub open spec fn spec_protection_mode(windows: bool) -> Seq<char> {
    if windows {
        seq!['d', 'p', 'a', 'p', 'i']
    } else {
        seq!['k', 'e', 'y', 'r', 'i', 'n', 'g', '-', 'a', 'e', 's', '2', '5', '6', 'g', 'c', 'm', 's', 'i', 'v']
    }
}

/// The protection mode recorded for new identities on this platform.
pub fn default_protection_mode(windows: bool) -> (mode: String)
    ensures
        mode@ == spec_protection_mode(windows),
{
    if windows {
        proof {
            reveal_strlit("dpapi");
        }
        String::from_str("dpapi")
    } else {
        proof {
            reveal_strlit("keyring-aes256gcmsiv");
        }
        String::from_str("keyring-aes256gcmsiv")
    }
}

/// The name a decrypted file is written under, from the name its header
/// records: the last path component of that name (or `decrypted_file.bin`
/// where it has none), sanitized. A plain file name is simply sanitized; in
/// every case the result is the sanitized form of a name with no `/` that is
/// not `..`, and so has every property of a sanitized name.
pub fn decrypted_file_name(header_name: &str) -> (name: String)
    ensures
        is_plain_file_name(header_name@) ==> name@ == spec_sanitize(header_name@),
        exists|c: Seq<char>| name@ == spec_sanitize(c) && !c.contains('/') && c != ".."@,
        name@.len() > 0,
        no_forbidden(name@),
        !is_leading_trimmed(name@[0]),
        encode_utf8(name@).len() <= MAX_NAME_BYTES,
{
    let raw = match path_file_name(header_name) {
        Some(n) => n,
        None => {
            proof {
                reveal_strlit("decrypted_file.bin");
                reveal_strlit("..");
                assert(!"decrypted_file.bin"@.contains('/'));
            }
            String::from_str("decrypted_file.bin")
        },
    };
    let name = sanitize_filename(raw.as_str());
    proof {
        lemma_sanitize_safe(raw@);
    }
    name
}

/// The characters sanitizing replaces: path separators, NUL, the drive mark
/// and the characters Windows refuses in names.
pub open spec fn is_unsafe_name_char(c: char) -> bool {
    ||| c == '/'
    ||| c == '\\'
    ||| c == '\0'
    ||| c == ':'
    ||| c == '*'
    ||| c == '?'
    ||| c == '"'
    ||| c == '<'
    ||| c == '>'
    ||| c == '|'
}

/// Sanitizing changes exactly the ten unsafe characters, each to `_`, and
/// keeps every other character as it is.
pub proof fn lemma_replace_changes_only_unsafe_chars(c: char)
    ensures
        is_unsafe_name_char(c) ==> replace_forbidden(c) == '_',
        !is_unsafe_name_char(c) ==> replace_forbidden(c) == c,
{
}

/// A name that is already safe comes back unchanged: where it is not
/// empty, holds none of the ten unsafe characters, does not begin with a dot
/// or a space, and is at most 200 bytes of UTF-8, its sanitized form is the
/// name itself.
pub proof fn lemma_sanitize_keeps_safe_names(name: Seq<char>)
    requires
        name.len() > 0,
        forall|i: int| 0 <= i < name.len() ==> !is_unsafe_name_char(#[trigger] name[i]),
        name[0] != '.' && name[0] != ' ',
        encode_utf8(name).len() <= 200,
    ensures
        spec_sanitize(name) == name,
{
    assert(no_forbidden(name));
    lemma_replace_all_clean(name);
    lemma_utf8_prefix_fits(name, MAX_NAME_BYTES as int);
}

/// Whatever name comes in, its sanitized form holds none of the ten unsafe
/// characters, does not begin with a dot or a space, is not empty, and is at
/// most 200 bytes of UTF-8.
pub proof fn lemma_sanitized_names_are_safe(name: Seq<char>)
    ensures
        spec_sanitize(name).len() > 0,
        forall|i: int|
            0 <= i < spec_sanitize(name).len() ==> !is_unsafe_name_char(#[trigger] spec_sanitize(name)[i]),
        spec_sanitize(name)[0] != '.' && spec_sanitize(name)[0] != ' ',
        encode_utf8(spec_sanitize(name)).len() <= 200,
{
    lemma_sanitize_safe(name);
    let s = spec_sanitize(name);
    assert forall|i: int| 0 <= i < s.len() implies !is_unsafe_name_char(#[trigger] s[i]) by {
        assert(!is_forbidden_char(s[i]));
    }
}

/// The export file of a public key is named `recipient_`, then the whole
/// fingerprint, then `.json`; it is fifteen characters longer than the
/// fingerprint, and distinct fingerprints give distinct names.
pub proof fn lemma_exported_name_holds_whole_fingerprint(f: Seq<char>, g: Seq<char>)
    ensures
        spec_exported_public_key_file_name(f) == "recipient_"@ + f + ".json"@,
        spec_exported_public_key_file_name(f).len() == f.len() + 15,
        spec_exported_public_key_file_name(f).subrange(10, 10 + f.len() as int) == f,
        f != g ==> spec_exported_public_key_file_name(f) != spec_exported_public_key_file_name(g),
{
    reveal_strlit("recipient_");
    reveal_strlit(".json");
    let nf = spec_exported_public_key_file_name(f);
    let ng = spec_exported_public_key_file_name(g);
    assert(nf =~= "recipient_"@ + f + ".json"@);
    assert(nf.subrange(10, 10 + f.len() as int) =~= f);
    if f != g && nf == ng {
        assert(ng.subrange(10, 10 + g.len() as int) =~= g);
        assert(f.len() == g.len());
    }
}

} // verus!
