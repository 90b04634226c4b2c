//! The cryptographic primitives the library builds on: HMAC, PBKDF2,
//! AES-256-GCM and a system random source, all from `ring`.
use crate::otp::HashFunction;
use ring::rand::SecureRandom;
use vstd::prelude::*;

verus! {

/// Length in bytes of the digest of each hash function.
pub open spec fn digest_len(alg: HashFunction) -> nat {
    match alg {
        HashFunction::Sha1 => 20,
        HashFunction::Sha256 => 32,
        HashFunction::Sha384 => 48,
        HashFunction::Sha512 => 64,
        HashFunction::Sha512_256 => 32,
    }
}

/// The HMAC tag that `ring` computes over `msg` with `key` and the hash function `alg`.
pub uninterp spec fn hmac_tag_of(alg: HashFunction, key: Seq<u8>, msg: Seq<u8>) -> Seq<u8>;

/// The SHA-512/256 digest of `data`.
pub uninterp spec fn sha512_256_digest_of(data: Seq<u8>) -> Seq<u8>;

/// The PBKDF2-HMAC-SHA256 key of `len` bytes derived from `secret` and `salt`
/// with `iterations` rounds.
pub uninterp spec fn pbkdf2_sha256_of(iterations: u32, salt: Seq<u8>, secret: Seq<u8>, len: nat) -> Seq<u8>;

/// AES-256-GCM sealing of `plaintext` under `key` and `nonce`, with empty
/// associated data: the ciphertext followed by the tag.
pub uninterp spec fn aes256_gcm_seal_of(key: Seq<u8>, nonce: Seq<u8>, plaintext: Seq<u8>) -> Seq<u8>;

/// AES-256-GCM opening of `sealed` under `key` and `nonce`, with empty
/// associated data: the plaintext if the tag authenticates.
pub uninterp spec fn aes256_gcm_open_of(key: Seq<u8>, nonce: Seq<u8>, sealed: Seq<u8>) -> Option<Seq<u8>>;

/// Length of an AES-256 key.
pub const AEAD_KEY_LEN: usize = 32;

/// Length of an AES-GCM nonce.
pub const NONCE_LEN: usize = 12;

/// Length of the AES-GCM tag appended to sealed data.
pub const TAG_LEN: usize = 16;

/// The longest plaintext AES-GCM seals: `(2^32 - 2)` blocks of 16 bytes.
pub const MAX_SEAL_LEN: u64 = 68719476704;

/// Block length of SHA-512/256, the unit HMAC pads its key to.
pub const SHA512_256_BLOCK_LEN: usize = 128;

/// Relies on `ring::hmac::sign` with a key made by `ring::hmac::Key::new`: the
/// tag depends on the algorithm, key and message alone and is as long as the
/// algorithm's digest. `ring` offers no HMAC over SHA-512/256, which is left out.
#[verifier::external_body]
pub(crate) fn hmac_sign(alg: HashFunction, key: &[u8], msg: &[u8]) -> (r: Vec<u8>)
    requires
        !(alg is Sha512_256),
    ensures
        r@ == hmac_tag_of(alg, key@, msg@),
        r@.len() == digest_len(alg),
{
    let algorithm = match alg {
        HashFunction::Sha1 => ring::hmac::HMAC_SHA1_FOR_LEGACY_USE_ONLY,
        HashFunction::Sha256 => ring::hmac::HMAC_SHA256,
        HashFunction::Sha384 => ring::hmac::HMAC_SHA384,
        HashFunction::Sha512 | HashFunction::Sha512_256 => ring::hmac::HMAC_SHA512,
    };
    ring::hmac::sign(&ring::hmac::Key::new(algorithm, key), msg).as_ref().to_vec()
}

/// Relies on `ring::digest::digest` with `SHA512_256`: a 32-byte digest that
/// depends on the input alone.
#[verifier::external_body]
pub(crate) fn sha512_256(data: &[u8]) -> (r: Vec<u8>)
    ensures
        r@ == sha512_256_digest_of(data@),
        r@.len() == 32,
{
    ring::digest::digest(&ring::digest::SHA512_256, data).as_ref().to_vec()
}

/// Relies on `ring::pbkdf2::derive` with `PBKDF2_HMAC_SHA256`, which fills an
/// output of the requested length; it panics only for a zero iteration count
/// (refused by `NonZeroU32`) or an output over `u32::MAX` digests.
#[verifier::external_body]
pub(crate) fn pbkdf2_derive_sha256(iterations: u32, salt: &[u8], secret: &[u8], len: usize) -> (r: Vec<u8>)
    requires
        iterations > 0,
        len <= 32,
    ensures
        r@ == pbkdf2_sha256_of(iterations, salt@, secret@, len as nat),
        r@.len() == len,
{
    let mut out = vec![0u8; len];
    let rounds = std::num::NonZeroU32::new(iterations).unwrap();
    ring::pbkdf2::derive(ring::pbkdf2::PBKDF2_HMAC_SHA256, rounds, salt, secret, &mut out);
    out
}

/// Relies on `ring::pbkdf2::verify` with `PBKDF2_HMAC_SHA256`: it succeeds
/// exactly when `previously_derived` is not empty and equals the key derived
/// from the other inputs with its length.
#[verifier::external_body]
pub(crate) fn pbkdf2_verify_sha256(
    iterations: u32,
    salt: &[u8],
    secret: &[u8],
    previously_derived: &[u8],
) -> (r: bool)
    requires
        iterations > 0,
    ensures
        r <==> (previously_derived@.len() > 0 && previously_derived@ == pbkdf2_sha256_of(
            iterations,
            salt@,
            secret@,
            previously_derived@.len(),
        )),
{
    let rounds = std::num::NonZeroU32::new(iterations).unwrap();
    ring::pbkdf2::verify(ring::pbkdf2::PBKDF2_HMAC_SHA256, rounds, salt, secret, previously_derived).is_ok()
}

/// Relies on `ring::aead::LessSafeKey::seal_in_place_append_tag` with
/// `AES_256_GCM` and empty associated data: on success the buffer holds the
/// sealed data, which opening with the same key and nonce turns back into the
/// plaintext, followed by the 16-byte tag. Sealing fails only for an input
/// longer than `MAX_IN_OUT_LEN` (`gcm::Context::new`), `(2^32 - 2) * 16` bytes.
/// The key and nonce lengths are the ones `UnboundKey::new` and
/// `Nonce::try_assume_unique_for_key` accept.
#[verifier::external_body]
pub(crate) fn aes256_gcm_seal(key: &[u8], nonce: &[u8], plaintext: &[u8]) -> (r: Option<Vec<u8>>)
    requires
        key@.len() == AEAD_KEY_LEN,
        nonce@.len() == NONCE_LEN,
    ensures
        plaintext@.len() <= MAX_SEAL_LEN ==> r is Some,
        r is Some ==> r->Some_0@.len() == plaintext@.len() + TAG_LEN,
        r is Some ==> r->Some_0@ == aes256_gcm_seal_of(key@, nonce@, plaintext@),
        r is Some ==> aes256_gcm_open_of(key@, nonce@, r->Some_0@) == Some(plaintext@),
{
    let unbound = ring::aead::UnboundKey::new(&ring::aead::AES_256_GCM, key).unwrap();
    let sealing = ring::aead::LessSafeKey::new(unbound);
    let nonce = ring::aead::Nonce::try_assume_unique_for_key(nonce).unwrap();
    let mut in_out = plaintext.to_vec();
    match sealing.seal_in_place_append_tag(nonce, ring::aead::Aad::empty(), &mut in_out) {
        Ok(()) => Some(in_out),
        Err(_) => None,
    }
}

/// Relies on `ring::aead::LessSafeKey::open_in_place` with `AES_256_GCM` and
/// empty associated data: it returns the plaintext exactly when the tag
/// authenticates. The key and nonce lengths are the ones `UnboundKey::new` and
/// `Nonce::try_assume_unique_for_key` accept.
#[verifier::external_body]
pub(crate) fn aes256_gcm_open(key: &[u8], nonce: &[u8], sealed: &[u8]) -> (r: Option<Vec<u8>>)
    requires
        key@.len() == AEAD_KEY_LEN,
        nonce@.len() == NONCE_LEN,
    ensures
        r is Some <==> aes256_gcm_open_of(key@, nonce@, sealed@) is Some,
        r is Some ==> aes256_gcm_open_of(key@, nonce@, sealed@) == Some(r->Some_0@),
{
    let unbound = ring::aead::UnboundKey::new(&ring::aead::AES_256_GCM, key).unwrap();
    let opening = ring::aead::LessSafeKey::new(unbound);
    let nonce = ring::aead::Nonce::try_assume_unique_for_key(nonce).unwrap();
    let mut in_out = sealed.to_vec();
    match opening.open_in_place(nonce, ring::aead::Aad::empty(), &mut in_out) {
        Ok(plaintext) => Some(plaintext.to_vec()),
        Err(_) => None,
    }
}

/// Relies on `ring::rand::SystemRandom::fill`: on success the buffer of the
/// requested length holds bytes from the system's secure random source. Nothing
/// more can be said of them.
#[verifier::external_body]
pub(crate) fn random_bytes(len: usize) -> (r: Option<Vec<u8>>)
    ensures
        r is Some ==> r->Some_0@.len() == len,
{
    let mut out = vec![0u8; len];
    match ring::rand::SystemRandom::new().fill(&mut out) {
        Ok(()) => Some(out),
        Err(_) => None,
    }
}

/// HMAC over SHA-512/256 (RFC 2104): the key, hashed first when it is longer
/// than a block, is padded with zeros to a block and masked with `0x36` for
/// the inner hash and with `0x5c` for the outer one.
pub open spec fn hmac_sha512_256(key: Seq<u8>, msg: Seq<u8>) -> Seq<u8> {
    let short_key = if key.len() > SHA512_256_BLOCK_LEN {
        sha512_256_digest_of(key)
    } else {
        key
    };
    let block = short_key + Seq::new((SHA512_256_BLOCK_LEN - short_key.len()) as nat, |i: int| 0u8);
    let inner_pad = block.map_values(|b: u8| b ^ 0x36u8);
    let outer_pad = block.map_values(|b: u8| b ^ 0x5cu8);
    sha512_256_digest_of(outer_pad + sha512_256_digest_of(inner_pad + msg))
}

/// The message authentication code of `msg` under `key` with the hash function `alg`.
pub open spec fn mac_of(alg: HashFunction, key: Seq<u8>, msg: Seq<u8>) -> Seq<u8> {
    match alg {
        HashFunction::Sha512_256 => hmac_sha512_256(key, msg),
        _ => hmac_tag_of(alg, key, msg),
    }
}

/// Computes HMAC-SHA-512/256 from the digest function.
fn hmac_sha512_256_sign(key: &[u8], msg: &[u8]) -> (r: Vec<u8>)
    ensures
        r@ == hmac_sha512_256(key@, msg@),
        r@.len() == 32,
{
    let short_key: Vec<u8> = if key.len() > SHA512_256_BLOCK_LEN {
        sha512_256(key)
    } else {
        vstd::slice::slice_to_vec(key)
    };
    let ghost block = short_key@ + Seq::new(
        (SHA512_256_BLOCK_LEN - short_key@.len()) as nat,
        |i: int| 0u8,
    );
    let mut inner: Vec<u8> = Vec::new();
    let mut outer: Vec<u8> = Vec::new();
    let mut i: usize = 0;
    while i < SHA512_256_BLOCK_LEN
        invariant
            short_key@.len() <= SHA512_256_BLOCK_LEN,
            block.len() == SHA512_256_BLOCK_LEN,
            i <= SHA512_256_BLOCK_LEN,
            block == short_key@ + Seq::new(
                (SHA512_256_BLOCK_LEN - short_key@.len()) as nat,
                |i: int| 0u8,
            ),
            inner@ == block.subrange(0, i as int).map_values(|b: u8| b ^ 0x36u8),
            outer@ == block.subrange(0, i as int).map_values(|b: u8| b ^ 0x5cu8),
        decreases SHA512_256_BLOCK_LEN - i,
    {
        let b: u8 = if i < short_key.len() {
            short_key[i]
        } else {
            0
        };
        assert(b == block[i as int]);
        inner.push(b ^ 0x36u8);
        outer.push(b ^ 0x5cu8);
        assert(block.subrange(0, i + 1) == block.subrange(0, i as int).push(block[i as int]));
        i = i + 1;
    }
    assert(block.subrange(0, SHA512_256_BLOCK_LEN as int) == block);
    let mut i: usize = 0;
    let ghost inner_pad = inner@;
    while i < msg.len()
        invariant
            i <= msg@.len(),
            inner@ == inner_pad + msg@.subrange(0, i as int),
        decreases msg@.len() - i,
    {
        inner.push(msg[i]);
        assert(msg@.subrange(0, i + 1) == msg@.subrange(0, i as int).push(msg@[i as int]));
        i = i + 1;
    }
    assert(msg@.subrange(0, msg@.len() as int) == msg@);
    let inner_hash = sha512_256(inner.as_slice());
    let mut i: usize = 0;
    let ghost outer_pad = outer@;
    while i < inner_hash.len()
        invariant
            i <= inner_hash@.len(),
            outer@ == outer_pad + inner_hash@.subrange(0, i as int),
        decreases inner_hash@.len() - i,
    {
        outer.push(inner_hash[i]);
        assert(inner_hash@.subrange(0, i + 1) == inner_hash@.subrange(0, i as int).push(
            inner_hash@[i as int],
        ));
        i = i + 1;
    }
    assert(inner_hash@.subrange(0, inner_hash@.len() as int) == inner_hash@);
    sha512_256(outer.as_slice())
}

/// The message authentication code of `msg` under `key` with the hash function `alg`.
pub fn mac(alg: HashFunction, key: &[u8], msg: &[u8]) -> (r: Vec<u8>)
    ensures
        r@ == mac_of(alg, key@, msg@),
        r@.len() == digest_len(alg),
{
    match alg {
        HashFunction::Sha512_256 => hmac_sha512_256_sign(key, msg),
        _ => hmac_sign(alg, key, msg),
    }
}

} // verus!
