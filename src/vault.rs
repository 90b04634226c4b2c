//! A password-protected envelope for text at rest.
//!
//! The envelope is the header line `VAULT;AES256` followed by one base64
//! line. That line decodes to four base64 fields joined by newlines: the
//! PBKDF2 salt, the PBKDF2-derived key, the AES-GCM nonce, and the sealed
//! plaintext with its tag.
//!
//! The derived key travels inside the envelope and is the AES key itself, so
//! whoever holds an envelope can open it without the password; the password
//! check only compares the password against that stored key. The format is
//! kept as it is for compatibility with existing envelopes.
use crate::crypto::{
    aes256_gcm_open, aes256_gcm_open_of, aes256_gcm_seal, aes256_gcm_seal_of, pbkdf2_derive_sha256,
    pbkdf2_sha256_of, pbkdf2_verify_sha256, random_bytes, AEAD_KEY_LEN, MAX_SEAL_LEN, NONCE_LEN,
    TAG_LEN,
};
use crate::encoding::{
    ascii_chars, base64_decode, base64_decoding_of, base64_encode, base64_encoding_of,
    is_base64_symbol, lemma_ascii_utf8, utf8_string,
};
use crate::error::Error;
use vstd::prelude::*;
use vstd::string::StringSliceAdditionalSpecFns;
use vstd::utf8::{decode_utf8, encode_utf8, valid_utf8};

verus! {

/// Length of the salt and of the derived key.
pub const CREDENTIAL_LEN: usize = 32;

/// PBKDF2 rounds.
pub const ITERATIONS: u32 = 100_000;

/// The newline byte that separates lines and fields.
pub const NEWLINE: u8 = 10;

/// The header line, `VAULT;AES256`, as bytes.
pub open spec fn header() -> Seq<u8> {
    seq![86u8, 65u8, 85u8, 76u8, 84u8, 59u8, 65u8, 69u8, 83u8, 50u8, 53u8, 54u8]
}

/// Whether a byte string begins with the header.
pub open spec fn starts_with_header(text: Seq<u8>) -> bool {
    text.len() >= header().len() && text.subrange(0, header().len() as int) == header()
}

/// A byte string cut at each occurrence of `sep`; the pieces hold no `sep`,
/// and there is one more piece than there are separators.
pub open spec fn split_bytes(s: Seq<u8>, sep: u8) -> Seq<Seq<u8>>
    decreases s.len(),
{
    if s.len() == 0 {
        seq![Seq::empty()]
    } else {
        let pieces = split_bytes(s.drop_last(), sep);
        if s.last() == sep {
            pieces.push(Seq::empty())
        } else {
            pieces.update(pieces.len() - 1, pieces.last().push(s.last()))
        }
    }
}

/// The four fields joined by newlines, each in base64.
pub open spec fn inner_text(salt: Seq<u8>, key: Seq<u8>, nonce: Seq<u8>, sealed: Seq<u8>) -> Seq<u8> {
    base64_encoding_of(salt) + seq![NEWLINE] + base64_encoding_of(key) + seq![NEWLINE]
        + base64_encoding_of(nonce) + seq![NEWLINE] + base64_encoding_of(sealed)
}

/// The envelope of the four fields: the header, a newline, and the inner text in base64.
pub open spec fn envelope_bytes(salt: Seq<u8>, key: Seq<u8>, nonce: Seq<u8>, sealed: Seq<u8>) -> Seq<u8> {
    header() + seq![NEWLINE] + base64_encoding_of(inner_text(salt, key, nonce, sealed))
}

/// The key derived from a password and a salt.
pub open spec fn derived_key(salt: Seq<u8>, password: Seq<char>) -> Seq<u8> {
    pbkdf2_sha256_of(ITERATIONS, salt, encode_utf8(password), CREDENTIAL_LEN as nat)
}

/// The envelope that sealing `plaintext` under `password` with `salt` and
/// `nonce` gives.
pub open spec fn sealed_envelope(
    salt: Seq<u8>,
    nonce: Seq<u8>,
    plaintext: Seq<char>,
    password: Seq<char>,
) -> Seq<char> {
    let key = derived_key(salt, password);
    ascii_chars(
        envelope_bytes(salt, key, nonce, aes256_gcm_seal_of(key, nonce, encode_utf8(plaintext))),
    )
}

/// The salt, key, nonce and sealed data that an envelope holds, when it is
/// well formed: it begins with the header, its second line is base64 of four
/// newline-separated base64 fields, and the key and nonce have their lengths.
pub open spec fn envelope_fields(text: Seq<u8>) -> Option<(Seq<u8>, Seq<u8>, Seq<u8>, Seq<u8>)> {
    let lines = split_bytes(text, NEWLINE);
    if !starts_with_header(text) || lines.len() < 2 {
        None
    } else {
        match base64_decoding_of(lines[1]) {
            None => None,
            Some(inner) => {
                let f = split_bytes(inner, NEWLINE);
                if f.len() != 4 {
                    None
                } else {
                    match (
                        base64_decoding_of(f[0]),
                        base64_decoding_of(f[1]),
                        base64_decoding_of(f[2]),
                        base64_decoding_of(f[3]),
                    ) {
                        (Some(salt), Some(key), Some(nonce), Some(sealed)) => {
                            if key.len() == AEAD_KEY_LEN && nonce.len() == NONCE_LEN {
                                Some((salt, key, nonce, sealed))
                            } else {
                                None
                            }
                        },
                        _ => None,
                    }
                }
            },
        }
    }
}

/// What decrypting `text` with `password` gives: the empty text for the empty
/// text; `FileNotEncrypted` for text that is not a well-formed envelope;
/// `WrongPassword` when the password does not derive the stored key;
/// `DecryptionError` when the sealed data does not authenticate or is not
/// UTF-8; the plaintext otherwise.
pub open spec fn decrypt_outcome(text: Seq<char>, password: Seq<char>) -> Result<Seq<char>, Error> {
    if text.len() == 0 {
        Ok(Seq::empty())
    } else {
        match envelope_fields(encode_utf8(text)) {
            None => Err(Error::FileNotEncrypted),
            Some((salt, key, nonce, sealed)) => {
                if key != pbkdf2_sha256_of(ITERATIONS, salt, encode_utf8(password), key.len()) {
                    Err(Error::WrongPassword)
                } else {
                    match aes256_gcm_open_of(key, nonce, sealed) {
                        None => Err(Error::DecryptionError),
                        Some(p) => {
                            if valid_utf8(p) {
                                Ok(decode_utf8(p))
                            } else {
                                Err(Error::DecryptionError)
                            }
                        },
                    }
                }
            },
        }
    }
}

/// Whether `text` decrypts to `plaintext` with every password that derives,
/// with `salt`, the same key as `password`, and is refused as `WrongPassword`
/// with every other password.
pub open spec fn opens_only_with(
    text: Seq<char>,
    salt: Seq<u8>,
    plaintext: Seq<char>,
    password: Seq<char>,
) -> bool {
    forall|other: Seq<char>| #[trigger]
        decrypt_outcome(text, other) == if derived_key(salt, other) == derived_key(salt, password) {
            Ok::<Seq<char>, Error>(plaintext)
        } else {
            Err::<Seq<char>, Error>(Error::WrongPassword)
        }
}

/// Whether `text` has the outer shape of an envelope: the header, a newline
/// right after it, and printable ASCII everywhere else, so exactly one newline.
pub open spec fn envelope_shaped(text: Seq<char>) -> bool {
    &&& text.len() > header().len()
    &&& text[header().len() as int] == '\n'
    &&& forall|i: int|
        0 <= i < text.len() && i != header().len() ==> ' ' <= #[trigger] text[i] <= '~'
}

/// Whether `text` is the envelope that sealing `plaintext` under `password`
/// with `salt` and `nonce` gives, with all that holds of it: its shape, the
/// fields it carries (the sealed field 16 bytes longer than the plaintext),
/// and what it decrypts to with each password.
pub open spec fn sealed_with(
    text: Seq<char>,
    salt: Seq<u8>,
    nonce: Seq<u8>,
    plaintext: Seq<char>,
    password: Seq<char>,
) -> bool {
    let key = derived_key(salt, password);
    let sealed = aes256_gcm_seal_of(key, nonce, encode_utf8(plaintext));
    &&& text == sealed_envelope(salt, nonce, plaintext, password)
    &&& envelope_shaped(text)
    &&& envelope_fields(encode_utf8(text)) == Some((salt, key, nonce, sealed))
    &&& sealed.len() == encode_utf8(plaintext).len() + TAG_LEN
    &&& opens_only_with(text, salt, plaintext, password)
}

/// Envelopes that carry different salts or different nonces are different
/// texts: two sealings with fresh draws never give the same envelope.
pub proof fn lemma_distinct_draws_distinct_envelopes(
    text1: Seq<char>,
    salt1: Seq<u8>,
    nonce1: Seq<u8>,
    plaintext1: Seq<char>,
    password1: Seq<char>,
    text2: Seq<char>,
    salt2: Seq<u8>,
    nonce2: Seq<u8>,
    plaintext2: Seq<char>,
    password2: Seq<char>,
)
    requires
        sealed_with(text1, salt1, nonce1, plaintext1, password1),
        sealed_with(text2, salt2, nonce2, plaintext2, password2),
        salt1 != salt2 || nonce1 != nonce2,
    ensures
        text1 != text2,
{
}

/// Text that is not empty and does not begin with the header is refused as
/// not encrypted, whatever the password.
pub proof fn lemma_headerless_text_refused(text: Seq<char>, password: Seq<char>)
    requires
        text.len() > 0,
        !starts_with_header(encode_utf8(text)),
    ensures
        decrypt_outcome(text, password) == Err::<Seq<char>, Error>(Error::FileNotEncrypted),
{
}

/// Seals `plaintext` under `password` into an envelope. The empty text is
/// returned as it is, with no header. Otherwise a fresh random salt and nonce
/// are drawn, and the envelope is the one they give. Decrypting it gives the
/// plaintext back with the same password (or one that derives the same key
/// from that salt) and `WrongPassword` with any other. The only failure is
/// `EncryptionError`, when no random bytes can be drawn or sealing fails.
pub fn encrypt(plaintext: &str, password: &str) -> (r: Result<String, Error>)
    ensures
        plaintext@.len() == 0 ==> r is Ok && r->Ok_0@ == Seq::<char>::empty(),
        r is Ok && plaintext@.len() > 0 ==> exists|salt: Seq<u8>, nonce: Seq<u8>|
            salt.len() == CREDENTIAL_LEN && nonce.len() == NONCE_LEN && #[trigger] sealed_with(
                r->Ok_0@,
                salt,
                nonce,
                plaintext@,
                password@,
            ),
        r is Ok ==> decrypt_outcome(r->Ok_0@, password@) == Ok::<Seq<char>, Error>(plaintext@),
        r is Err ==> r->Err_0 is EncryptionError,
{
    if plaintext.is_empty() {
        assert(plaintext@ =~= Seq::<char>::empty());
        return Ok(String::new());
    }
    let salt = match random_bytes(CREDENTIAL_LEN) {
        Some(s) => s,
        None => return Err(Error::EncryptionError),
    };
    let nonce = match random_bytes(NONCE_LEN) {
        Some(n) => n,
        None => return Err(Error::EncryptionError),
    };
    let r = seal_envelope(plaintext, password, salt.as_slice(), nonce.as_slice());
    proof {
        if r is Ok {
            assert(sealed_with(r->Ok_0@, salt@, nonce@, plaintext@, password@));
        }
    }
    r
}

/// Seals `plaintext` under `password` with the given salt and nonce. Fails
/// with `EncryptionError` exactly when the nonce is not 12 bytes or the
/// plaintext is longer than AES-GCM seals; otherwise returns the envelope they
/// give, which decrypts with the same password to the plaintext.
pub fn seal_envelope(plaintext: &str, password: &str, salt: &[u8], nonce: &[u8]) -> (r: Result<
    String,
    Error,
>)
    ensures
        nonce@.len() != NONCE_LEN ==> r is Err,
        nonce@.len() == NONCE_LEN && encode_utf8(plaintext@).len() <= MAX_SEAL_LEN ==> r is Ok,
        r is Ok ==> r->Ok_0@ == sealed_envelope(salt@, nonce@, plaintext@, password@),
        r is Ok ==> sealed_with(r->Ok_0@, salt@, nonce@, plaintext@, password@),
        r is Ok ==> decrypt_outcome(r->Ok_0@, password@) == Ok::<Seq<char>, Error>(plaintext@),
        r is Err ==> r->Err_0 is EncryptionError,
{
    if nonce.len() != NONCE_LEN {
        return Err(Error::EncryptionError);
    }
    let key = pbkdf2_derive(salt, password);
    let sealed = match aes256_gcm_seal(key.as_slice(), nonce, plaintext.as_bytes()) {
        Some(s) => s,
        None => return Err(Error::EncryptionError),
    };
    let e_salt = base64_encode(salt);
    let e_key = base64_encode(key.as_slice());
    let e_nonce = base64_encode(nonce);
    let e_sealed = base64_encode(sealed.as_slice());
    assert(well_encoded(salt@) && well_encoded(key@) && well_encoded(nonce@) && well_encoded(
        sealed@,
    ));
    let mut inner: Vec<u8> = Vec::new();
    append_bytes(&mut inner, e_salt.as_slice());
    inner.push(NEWLINE);
    append_bytes(&mut inner, e_key.as_slice());
    inner.push(NEWLINE);
    append_bytes(&mut inner, e_nonce.as_slice());
    inner.push(NEWLINE);
    append_bytes(&mut inner, e_sealed.as_slice());
    assert(inner@ == inner_text(salt@, key@, nonce@, sealed@));
    let e_inner = base64_encode(inner.as_slice());
    assert(well_encoded(inner@));
    let mut text = header_bytes();
    text.push(NEWLINE);
    append_bytes(&mut text, e_inner.as_slice());
    let ghost env = envelope_bytes(salt@, key@, nonce@, sealed@);
    assert(text@ == env);
    proof {
        lemma_envelope_opens(salt@, key@, nonce@, sealed@, plaintext@, password@, password@);
        lemma_ascii_utf8(env);
        assert(encode_utf8(ascii_chars(env)) == env);
        assert forall|other: Seq<char>| #[trigger]
            decrypt_outcome(ascii_chars(env), other) == if derived_key(salt@, other) == derived_key(
                salt@,
                password@,
            ) {
                Ok::<Seq<char>, Error>(plaintext@)
            } else {
                Err::<Seq<char>, Error>(Error::WrongPassword)
            } by {
            lemma_envelope_opens(salt@, key@, nonce@, sealed@, plaintext@, password@, other);
        }
    }
    match utf8_string(text) {
        Some(s) => Ok(s),
        None => Err(Error::EncryptionError),
    }
}

/// Opens an envelope with `password`. The result is exactly
/// `decrypt_outcome(file_content, password)`: the empty text for the empty
/// text, `FileNotEncrypted` for malformed envelopes, `WrongPassword`,
/// `DecryptionError`, or the plaintext.
pub fn decrypt(file_content: &str, password: &str) -> (r: Result<String, Error>)
    ensures
        r is Ok <==> decrypt_outcome(file_content@, password@) is Ok,
        r is Ok ==> decrypt_outcome(file_content@, password@) == Ok::<Seq<char>, Error>(
            r->Ok_0@,
        ),
        r is Err ==> decrypt_outcome(file_content@, password@) == Err::<Seq<char>, Error>(
            r->Err_0,
        ),
{
    if file_content.is_empty() {
        return Ok(String::new());
    }
    let (salt, key, nonce, sealed) = match parse_envelope(file_content.as_bytes()) {
        Some(fields) => fields,
        None => return Err(Error::FileNotEncrypted),
    };
    if let Err(e) = pbkdf2_verify(salt.as_slice(), key.as_slice(), password) {
        return Err(e);
    }
    let opened = match aes256_gcm_open(key.as_slice(), nonce.as_slice(), sealed.as_slice()) {
        Some(p) => p,
        None => return Err(Error::DecryptionError),
    };
    match utf8_string(opened) {
        Some(s) => Ok(s),
        None => Err(Error::DecryptionError),
    }
}

/// The salt, key, nonce and sealed data of an envelope, if it is well formed.
pub fn parse_envelope(text: &[u8]) -> (r: Option<(Vec<u8>, Vec<u8>, Vec<u8>, Vec<u8>)>)
    ensures
        match r {
            None => envelope_fields(text@) is None,
            Some((salt, key, nonce, sealed)) => envelope_fields(text@) == Some(
                (salt@, key@, nonce@, sealed@),
            ),
        },
{
    if !has_header(text) {
        return None;
    }
    let lines = split_fields(text, NEWLINE);
    assert(lines@.len() == lines.deep_view().len());
    if lines.len() < 2 {
        return None;
    }
    assert(lines[1]@ == lines.deep_view()[1]);
    let inner = match base64_decode(lines[1].as_slice()) {
        Some(i) => i,
        None => return None,
    };
    let fields = split_fields(inner.as_slice(), NEWLINE);
    assert(fields@.len() == fields.deep_view().len());
    if fields.len() != 4 {
        return None;
    }
    assert(fields[0]@ == fields.deep_view()[0]);
    assert(fields[1]@ == fields.deep_view()[1]);
    assert(fields[2]@ == fields.deep_view()[2]);
    assert(fields[3]@ == fields.deep_view()[3]);
    let salt = match base64_decode(fields[0].as_slice()) {
        Some(v) => v,
        None => return None,
    };
    let key = match base64_decode(fields[1].as_slice()) {
        Some(v) => v,
        None => return None,
    };
    let nonce = match base64_decode(fields[2].as_slice()) {
        Some(v) => v,
        None => return None,
    };
    let sealed = match base64_decode(fields[3].as_slice()) {
        Some(v) => v,
        None => return None,
    };
    if key.len() != AEAD_KEY_LEN || nonce.len() != NONCE_LEN {
        return None;
    }
    Some((salt, key, nonce, sealed))
}

/// Derives the 32-byte key for a password and a salt.
fn pbkdf2_derive(salt: &[u8], password: &str) -> (r: Vec<u8>)
    ensures
        r@ == derived_key(salt@, password@),
        r@.len() == CREDENTIAL_LEN,
{
    pbkdf2_derive_sha256(ITERATIONS, salt, password.as_bytes(), CREDENTIAL_LEN)
}

/// Checks a password against a salt and a previously derived key.
fn pbkdf2_verify(salt: &[u8], previously_derived: &[u8], password: &str) -> (r: Result<(), Error>)
    requires
        previously_derived@.len() > 0,
    ensures
        r is Ok <==> previously_derived@ == pbkdf2_sha256_of(
            ITERATIONS,
            salt@,
            encode_utf8(password@),
            previously_derived@.len(),
        ),
        r is Err ==> r->Err_0 is WrongPassword,
{
    if pbkdf2_verify_sha256(ITERATIONS, salt, password.as_bytes(), previously_derived) {
        Ok(())
    } else {
        Err(Error::WrongPassword)
    }
}

/// The header line as bytes.
fn header_bytes() -> (r: Vec<u8>)
    ensures
        r@ == header(),
{
    vec![86u8, 65u8, 85u8, 76u8, 84u8, 59u8, 65u8, 69u8, 83u8, 50u8, 53u8, 54u8]
}

/// Whether `text` begins with the header.
fn has_header(text: &[u8]) -> (r: bool)
    ensures
        r == starts_with_header(text@),
{
    let h = header_bytes();
    if text.len() < h.len() {
        return false;
    }
    let mut i: usize = 0;
    while i < h.len()
        invariant
            h@ == header(),
            text@.len() >= h@.len(),
            i <= h@.len(),
            text@.subrange(0, i as int) == h@.subrange(0, i as int),
        decreases h@.len() - i,
    {
        if text[i] != h[i] {
            assert(text@.subrange(0, h@.len() as int)[i as int] != h@[i as int]);
            return false;
        }
        assert(text@.subrange(0, i + 1) == text@.subrange(0, i as int).push(text@[i as int]));
        assert(h@.subrange(0, i + 1) == h@.subrange(0, i as int).push(h@[i as int]));
        i = i + 1;
    }
    assert(h@.subrange(0, h@.len() as int) == h@);
    true
}

/// Cuts `s` at each occurrence of `sep`.
fn split_fields(s: &[u8], sep: u8) -> (r: Vec<Vec<u8>>)
    ensures
        r.deep_view() == split_bytes(s@, sep),
{
    let mut done: Vec<Vec<u8>> = Vec::new();
    let mut current: Vec<u8> = Vec::new();
    let mut i: usize = 0;
    while i < s.len()
        invariant
            i <= s@.len(),
            done.deep_view().push(current@) == split_bytes(s@.subrange(0, i as int), sep),
        decreases s@.len() - i,
    {
        let ghost prefix = s@.subrange(0, i as int);
        let ghost next = s@.subrange(0, i + 1);
        assert(next.drop_last() == prefix);
        let ghost before = done.deep_view();
        let ghost piece = current@;
        if s[i] == sep {
            done.push(current);
            current = Vec::new();
            assert(done.deep_view() =~~= before.push(piece));
        } else {
            current.push(s[i]);
            assert(before.push(piece).update(before.len() as int, piece.push(s@[i as int]))
                == before.push(current@));
        }
        i = i + 1;
    }
    assert(s@.subrange(0, s@.len() as int) == s@);
    let ghost before = done.deep_view();
    let ghost piece = current@;
    done.push(current);
    assert(done.deep_view() =~~= before.push(piece));
    done
}

/// Whether base64-encoding `b` gives symbols of the alphabet that decode back to `b`.
pub open spec fn well_encoded(b: Seq<u8>) -> bool {
    &&& base64_decoding_of(base64_encoding_of(b)) == Some(b)
    &&& forall|i: int|
        0 <= i < base64_encoding_of(b).len() ==> is_base64_symbol(#[trigger] base64_encoding_of(b)[i])
}

/// A piece with no separator splits into itself alone.
proof fn lemma_split_single(b: Seq<u8>, sep: u8)
    requires
        forall|i: int| 0 <= i < b.len() ==> b[i] != sep,
    ensures
        split_bytes(b, sep) == seq![b],
    decreases b.len(),
{
    if b.len() > 0 {
        assert(b.last() != sep) by {
            assert(b[b.len() - 1] != sep);
        }
        assert forall|i: int| 0 <= i < b.drop_last().len() implies b.drop_last()[i] != sep by {
            assert(b.drop_last()[i] == b[i]);
        }
        lemma_split_single(b.drop_last(), sep);
        assert(b.drop_last().push(b.last()) =~= b);
        assert(seq![b.drop_last()].update(0, b.drop_last().push(b.last())) =~= seq![b]);
    } else {
        assert(b =~= Seq::<u8>::empty());
        assert(split_bytes(b, sep) =~= seq![b]);
    }
}

/// A separator followed by a piece with no separator adds that piece to a split.
proof fn lemma_split_append(x: Seq<u8>, b: Seq<u8>, sep: u8)
    requires
        forall|i: int| 0 <= i < b.len() ==> b[i] != sep,
    ensures
        split_bytes(x + seq![sep] + b, sep) == split_bytes(x, sep).push(b),
    decreases b.len(),
{
    let s = x + seq![sep] + b;
    if b.len() == 0 {
        assert(s.drop_last() =~= x);
        assert(s.last() == sep);
        assert(b =~= Seq::<u8>::empty());
        assert(split_bytes(s, sep) =~= split_bytes(x, sep).push(b));
    } else {
        let b0 = b.drop_last();
        assert(b.last() != sep) by {
            assert(b[b.len() - 1] != sep);
        }
        assert forall|i: int| 0 <= i < b0.len() implies b0[i] != sep by {
            assert(b0[i] == b[i]);
        }
        lemma_split_append(x, b0, sep);
        assert(s.last() == b.last());
        assert(s.drop_last() =~= x + seq![sep] + b0);
        assert(b0.push(b.last()) =~= b);
        let p = split_bytes(x, sep).push(b0);
        assert(p.update(p.len() - 1, p.last().push(s.last())) =~= split_bytes(x, sep).push(b));
    }
}

/// Bytes that are printable ASCII but at one newline stand for characters of
/// the same kind.
proof fn lemma_printable_chars(b: Seq<u8>, at: int)
    requires
        0 <= at < b.len(),
        b[at] == NEWLINE,
        forall|i: int| 0 <= i < b.len() && i != at ==> 32 <= #[trigger] b[i] <= 126,
    ensures
        ascii_chars(b)[at] == '\n',
        forall|i: int|
            0 <= i < b.len() && i != at ==> ' ' <= #[trigger] ascii_chars(b)[i] <= '~',
{
    assert forall|i: int| 0 <= i < b.len() && i != at implies ' ' <= #[trigger] ascii_chars(b)[i]
        <= '~' by {
        assert(32 <= b[i] <= 126);
    }
}

/// Base64 symbols are ASCII and are not newlines.
proof fn lemma_symbols_ascii(e: Seq<u8>)
    requires
        forall|i: int| 0 <= i < e.len() ==> is_base64_symbol(#[trigger] e[i]),
    ensures
        forall|i: int| 0 <= i < e.len() ==> #[trigger] e[i] < 128 && e[i] != NEWLINE,
{
}

/// An envelope made from a derived key and a sealing that opens back is ASCII
/// and decrypts to the plaintext with a password that derives the same key,
/// and to `WrongPassword` with any other.
proof fn lemma_envelope_opens(
    salt: Seq<u8>,
    key: Seq<u8>,
    nonce: Seq<u8>,
    sealed: Seq<u8>,
    plaintext: Seq<char>,
    password: Seq<char>,
    other: Seq<char>,
)
    requires
        key == derived_key(salt, password),
        key.len() == CREDENTIAL_LEN,
        nonce.len() == NONCE_LEN,
        aes256_gcm_open_of(key, nonce, sealed) == Some(encode_utf8(plaintext)),
        well_encoded(salt),
        well_encoded(key),
        well_encoded(nonce),
        well_encoded(sealed),
        well_encoded(inner_text(salt, key, nonce, sealed)),
    ensures
        forall|i: int|
            0 <= i < envelope_bytes(salt, key, nonce, sealed).len() ==> #[trigger] envelope_bytes(
                salt,
                key,
                nonce,
                sealed,
            )[i] < 128,
        envelope_shaped(ascii_chars(envelope_bytes(salt, key, nonce, sealed))),
        envelope_fields(envelope_bytes(salt, key, nonce, sealed)) == Some((salt, key, nonce, sealed)),
        decrypt_outcome(ascii_chars(envelope_bytes(salt, key, nonce, sealed)), other) == if derived_key(
            salt,
            other,
        ) == key {
            Ok::<Seq<char>, Error>(plaintext)
        } else {
            Err::<Seq<char>, Error>(Error::WrongPassword)
        },
{
    let e_salt = base64_encoding_of(salt);
    let e_key = base64_encoding_of(key);
    let e_nonce = base64_encoding_of(nonce);
    let e_sealed = base64_encoding_of(sealed);
    let inner = inner_text(salt, key, nonce, sealed);
    let e_inner = base64_encoding_of(inner);
    let env = envelope_bytes(salt, key, nonce, sealed);
    lemma_symbols_ascii(e_salt);
    lemma_symbols_ascii(e_key);
    lemma_symbols_ascii(e_nonce);
    lemma_symbols_ascii(e_sealed);
    lemma_symbols_ascii(e_inner);
    let h = header();
    assert(forall|i: int| 0 <= i < h.len() ==> #[trigger] h[i] < 128 && h[i] != NEWLINE);
    assert(forall|i: int| 0 <= i < h.len() ==> 32 <= #[trigger] h[i] <= 126);
    assert forall|i: int| 0 <= i < env.len() implies #[trigger] env[i] < 128 && (i != h.len() ==> 32
        <= env[i] <= 126) by {
        if i < h.len() {
            assert(env[i] == h[i]);
        } else if i == h.len() {
            assert(env[i] == NEWLINE);
        } else {
            assert(env[i] == e_inner[i - h.len() - 1]);
        }
    }
    assert(env[h.len() as int] == NEWLINE);
    lemma_printable_chars(env, h.len() as int);
    lemma_ascii_utf8(env);
    let text = ascii_chars(env);
    assert(encode_utf8(text) == env);
    assert(text.len() > 0);
    assert(env.subrange(0, h.len() as int) == h);
    lemma_split_single(h, NEWLINE);
    lemma_split_append(h, e_inner, NEWLINE);
    let lines = split_bytes(env, NEWLINE);
    assert(lines == seq![h, e_inner]);
    lemma_split_single(e_salt, NEWLINE);
    lemma_split_append(e_salt, e_key, NEWLINE);
    lemma_split_append(e_salt + seq![NEWLINE] + e_key, e_nonce, NEWLINE);
    lemma_split_append(
        e_salt + seq![NEWLINE] + e_key + seq![NEWLINE] + e_nonce,
        e_sealed,
        NEWLINE,
    );
    let f = split_bytes(inner, NEWLINE);
    assert(f == seq![e_salt, e_key, e_nonce, e_sealed]);
    assert(envelope_fields(env) == Some((salt, key, nonce, sealed)));
    vstd::utf8::encode_utf8_valid_utf8(plaintext);
    vstd::utf8::encode_utf8_decode_utf8(plaintext);
}

/// Appends the bytes of `b` to `out`.
fn append_bytes(out: &mut Vec<u8>, b: &[u8])
    ensures
        final(out)@ == old(out)@ + b@,
{
    let mut i: usize = 0;
    while i < b.len()
        invariant
            i <= b@.len(),
            out@ == old(out)@ + b@.subrange(0, i as int),
        decreases b@.len() - i,
    {
        out.push(b[i]);
        assert(b@.subrange(0, i + 1) == b@.subrange(0, i as int).push(b@[i as int]));
        i = i + 1;
    }
    assert(b@.subrange(0, b@.len() as int) == b@);
}

} // verus!
