//! One-time passwords: RFC 4226 (HOTP) codes, and RFC 6238 (TOTP) codes whose
//! counter comes from the clock.
use crate::crypto::{digest_len, mac, mac_of};
use crate::encoding::{ascii_chars, base32_decode, base32_decoding_of, lemma_ascii_utf8, utf8_string};
use crate::error::Error;
use vstd::prelude::*;
use vstd::string::StringSliceAdditionalSpecFns;
use vstd::utf8::encode_utf8;

mod hotp;
mod totp;

pub use self::hotp::HOTP;
pub use self::totp::TOTP;

verus! {

/// The hash functions an HMAC code can be computed with.
#[derive(Debug, Clone, Copy, PartialEq, Eq, Structural)]
pub enum HashFunction {
    Sha1,
    Sha256,
    Sha384,
    Sha512,
    Sha512_256,
}

/// Seconds in one step of a time-based counter.
pub const TIME_STEP: u64 = 30;

/// Number of digits of a code when none is asked for.
pub const DEFAULT_OUTPUT_LEN: usize = 6;

/// The hash function a name selects. `SHA1`, `SHA256`, `SHA384`, `SHA512` and
/// `SHA512_256` select their function; any other name falls back to SHA-1.
pub open spec fn hash_function_named(name: Seq<char>) -> HashFunction {
    if name == "SHA256"@ {
        HashFunction::Sha256
    } else if name == "SHA384"@ {
        HashFunction::Sha384
    } else if name == "SHA512"@ {
        HashFunction::Sha512
    } else if name == "SHA512_256"@ {
        HashFunction::Sha512_256
    } else {
        HashFunction::Sha1
    }
}

/// The counter as 8 big-endian bytes.
pub open spec fn counter_bytes(c: u64) -> Seq<u8> {
    seq![
        ((c >> 56u64) & 0xffu64) as u8,
        ((c >> 48u64) & 0xffu64) as u8,
        ((c >> 40u64) & 0xffu64) as u8,
        ((c >> 32u64) & 0xffu64) as u8,
        ((c >> 24u64) & 0xffu64) as u8,
        ((c >> 16u64) & 0xffu64) as u8,
        ((c >> 8u64) & 0xffu64) as u8,
        (c & 0xffu64) as u8,
    ]
}

/// RFC 4226 dynamic truncation: the low four bits of the last byte give an
/// offset, and the four bytes from there, with the top bit cleared, are read
/// as a big-endian number.
pub open spec fn dynamic_truncation(d: Seq<u8>) -> nat
    recommends
        d.len() >= 19,
{
    let o = (d.last() & 0x0fu8) as int;
    ((d[o] & 0x7fu8) as nat) * 0x1000000 + (d[o + 1] as nat) * 0x10000 + (d[o + 2] as nat) * 0x100
        + (d[o + 3] as nat)
}

/// The last `width` decimal digits of `n`, most significant first, as ASCII
/// bytes, with leading zeros: `n mod 10^width` padded to `width` digits.
pub open spec fn decimal_digits(n: nat, width: nat) -> Seq<u8>
    decreases width,
{
    if width == 0 {
        Seq::empty()
    } else {
        decimal_digits(n / 10, (width - 1) as nat).push((48 + n % 10) as u8)
    }
}

/// The code of `width` digits for a digest.
pub open spec fn code_of_digest(digest: Seq<u8>, width: nat) -> Seq<char> {
    ascii_chars(decimal_digits(dynamic_truncation(digest), width))
}

/// The HOTP code for a key, a hash function, a counter and a width.
pub open spec fn hotp_code(alg: HashFunction, key: Seq<u8>, counter: u64, width: nat) -> Seq<char> {
    code_of_digest(mac_of(alg, key, counter_bytes(counter)), width)
}

/// A one-time password generator, event-based (HOTP) or time-based (TOTP).
#[derive(Debug)]
pub struct OneTimePassword {
    /// The shared secret.
    pub key: Vec<u8>,
    /// The counter of an event-based generator.
    pub counter: u64,
    /// Whether the counter comes from the clock.
    pub totp: bool,
    /// The number of digits of a code.
    pub output_len: usize,
    /// The hash function of the HMAC.
    pub hash_function: HashFunction,
}

/// Whether `e` is a key-decoding failure that names `key`.
pub open spec fn is_key_decode_error(e: Error, key: Seq<char>) -> bool {
    e matches Error::KeyDecode { key: k, .. } && k@ == key
}

impl OneTimePassword {
    /// The counter in force at `unix_time` seconds since the epoch.
    pub open spec fn counter_at(&self, unix_time: u64) -> u64 {
        if self.totp {
            unix_time / TIME_STEP
        } else {
            self.counter
        }
    }

    /// The code for a given counter.
    pub open spec fn code_for(&self, counter: u64) -> Seq<char> {
        hotp_code(self.hash_function, self.key@, counter, self.output_len as nat)
    }

    /// Builds a generator from a base32 secret (unpadded, upper case), a mode,
    /// the name of a hash function, a counter (0 when absent) and a code length
    /// (6 when absent). Fails exactly when the secret is not valid base32.
    ///
    /// Every length is accepted, and a code always has exactly that many
    /// digits: length 0 gives the empty code. The truncated value is below
    /// `2^31`, so lengths of 10 or more add no entropy: the code is that value
    /// padded with leading zeros. Useful lengths are 1 to 9.
    pub fn new(
        key: &str,
        totp: bool,
        hash_function: &str,
        counter: Option<u64>,
        output_len: Option<usize>,
    ) -> (r: Result<OneTimePassword, Error>)
        ensures
            r is Err <==> base32_decoding_of(key.spec_bytes()) is None,
            r is Err ==> is_key_decode_error(r->Err_0, key@),
            r is Ok ==> {
                let o = r->Ok_0;
                &&& base32_decoding_of(key.spec_bytes()) == Some(o.key@)
                &&& o.totp == totp
                &&& o.counter == match counter {
                    Some(c) => c,
                    None => 0,
                }
                &&& o.output_len == match output_len {
                    Some(n) => n,
                    None => DEFAULT_OUTPUT_LEN,
                }
                &&& o.hash_function == hash_function_named(hash_function@)
            },
    {
        let decoded_key = match base32_decode(key.as_bytes()) {
            Ok(k) => k,
            Err(cause) => {
                return Err(Error::KeyDecode { key: key.to_owned(), cause: Box::new(cause) });
            },
        };
        let counter = match counter {
            Some(c) => c,
            None => 0,
        };
        let output_len = match output_len {
            Some(n) => n,
            None => DEFAULT_OUTPUT_LEN,
        };
        Ok(OneTimePassword {
            key: decoded_key,
            counter,
            totp,
            output_len,
            hash_function: parse_hash_function(hash_function),
        })
    }

    /// The current code: for an event-based generator the code of its counter,
    /// for a time-based one the code of the clock's current time step. A clock
    /// set before the Unix epoch reads as the epoch.
    pub fn generate(&self) -> (r: String)
        ensures
            exists|t: u64| r@ == self.code_for(#[trigger] self.counter_at(t)),
            !self.totp ==> r@ == self.code_for(self.counter),
    {
        let now = unix_time_secs();
        let r = self.generate_at(now);
        assert(r@ == self.code_for(self.counter_at(now)));
        r
    }

    /// The code in force at `unix_time` seconds since the epoch.
    pub fn generate_at(&self, unix_time: u64) -> (r: String)
        ensures
            r@ == self.code_for(self.counter_at(unix_time)),
            r@.len() == self.output_len,
    {
        let counter = self.counter_at_time(unix_time);
        let r = hotp_generate(self.hash_function, self.key.as_slice(), counter, self.output_len);
        proof {
            lemma_code_shape(self.hash_function, self.key@, counter, self.output_len as nat);
        }
        r
    }

    /// Encodes a digest as a code of `output_len` digits.
    pub fn encode_digest(&self, digest: &[u8]) -> (r: String)
        requires
            digest@.len() >= 19,
        ensures
            r@ == code_of_digest(digest@, self.output_len as nat),
    {
        code_from_digest(digest, self.output_len)
    }

    /// The counter at `unix_time` seconds since the epoch: the time step for a
    /// time-based generator, the stored counter otherwise.
    pub fn counter_at_time(&self, unix_time: u64) -> (r: u64)
        ensures
            r == self.counter_at(unix_time),
    {
        if self.totp {
            unix_time / TIME_STEP
        } else {
            self.counter
        }
    }

    /// The counter now: the clock's time step for a time-based generator, the
    /// stored counter otherwise.
    pub fn get_counter(&self) -> (r: u64)
        ensures
            exists|t: u64| r == #[trigger] self.counter_at(t),
            !self.totp ==> r == self.counter,
    {
        let now = unix_time_secs();
        self.counter_at_time(now)
    }
}

/// The upper-case form of a string, as Unicode defines it.
pub uninterp spec fn uppercase_of(s: Seq<char>) -> Seq<char>;

/// Relies on `str::to_uppercase`, whose result depends on the characters alone.
#[verifier::external_body]
fn to_uppercase(s: &str) -> (r: String)
    ensures
        r@ == uppercase_of(s@),
{
    s.to_uppercase()
}

/// The message given for a secret that is not base32.
pub open spec fn invalid_key_message() -> Seq<char> {
    "the key is not a valid base32 encoding"@
}

/// Accepts a secret given in upper case when it is unpadded base32, returning
/// it as it is; otherwise returns the message `the key is not a valid base32
/// encoding`.
pub fn check_base32_key(upper: String) -> (r: Result<String, String>)
    ensures
        r is Ok <==> base32_decoding_of(encode_utf8(upper@)) is Some,
        r is Ok ==> r->Ok_0@ == upper@,
        r is Err ==> r->Err_0@ == invalid_key_message(),
{
    match base32_decode(upper.as_str().as_bytes()) {
        Ok(_) => Ok(upper),
        Err(_) => Err("the key is not a valid base32 encoding".to_owned()),
    }
}

/// Accepts a secret, in any case, when its upper-case form is unpadded base32,
/// returning that form; otherwise returns the message `the key is not a valid
/// base32 encoding`.
pub fn is_base32_key(value: &str) -> (r: Result<String, String>)
    ensures
        r is Ok <==> base32_decoding_of(encode_utf8(uppercase_of(value@))) is Some,
        r is Ok ==> r->Ok_0@ == uppercase_of(value@),
        r is Err ==> r->Err_0@ == invalid_key_message(),
{
    check_base32_key(to_uppercase(value))
}

/// The hash function a name selects, SHA-1 for an unknown name.
pub fn parse_hash_function(name: &str) -> (r: HashFunction)
    ensures
        r == hash_function_named(name@),
{
    let name = name.to_owned();
    if name == "SHA256".to_owned() {
        HashFunction::Sha256
    } else if name == "SHA384".to_owned() {
        HashFunction::Sha384
    } else if name == "SHA512".to_owned() {
        HashFunction::Sha512
    } else if name == "SHA512_256".to_owned() {
        HashFunction::Sha512_256
    } else {
        HashFunction::Sha1
    }
}

/// Relies on `std::time::SystemTime::now` read against `UNIX_EPOCH`, in whole
/// seconds; a clock set before the epoch reads as the epoch. Nothing is known of
/// the value.
#[verifier::external_body]
fn unix_time_secs() -> (r: u64) {
    std::time::SystemTime::now().duration_since(std::time::UNIX_EPOCH).unwrap_or_default().as_secs()
}

/// The counter as 8 big-endian bytes.
pub fn encode_counter(c: u64) -> (r: Vec<u8>)
    ensures
        r@ == counter_bytes(c),
{
    vec![
        ((c >> 56u64) & 0xffu64) as u8,
        ((c >> 48u64) & 0xffu64) as u8,
        ((c >> 40u64) & 0xffu64) as u8,
        ((c >> 32u64) & 0xffu64) as u8,
        ((c >> 24u64) & 0xffu64) as u8,
        ((c >> 16u64) & 0xffu64) as u8,
        ((c >> 8u64) & 0xffu64) as u8,
        (c & 0xffu64) as u8,
    ]
}

/// RFC 4226 dynamic truncation of a digest.
pub fn truncate_digest(digest: &[u8]) -> (r: u32)
    requires
        digest@.len() >= 19,
    ensures
        r as nat == dynamic_truncation(digest@),
        r < 0x80000000,
{
    let last = digest[digest.len() - 1];
    assert(last & 0x0fu8 <= 15u8) by (bit_vector);
    let offset = (last & 0x0fu8) as usize;
    let top = digest[offset];
    assert(top & 0x7fu8 <= 127u8) by (bit_vector);
    let first = top & 0x7fu8;
    (first as u32) * 0x1000000 + (digest[offset + 1] as u32) * 0x10000 + (digest[offset + 2] as u32)
        * 0x100 + (digest[offset + 3] as u32)
}

/// `n mod 10^width` written with exactly `width` decimal digits.
pub fn decimal_string(n: u32, width: usize) -> (r: String)
    ensures
        r@ == ascii_chars(decimal_digits(n as nat, width as nat)),
        r@.len() == width,
{
    let mut out: Vec<u8> = Vec::new();
    let mut i: usize = 0;
    while i < width
        invariant
            i <= width,
            out@.len() == i,
            forall|k: int| 0 <= k < i ==> #[trigger] out@[k] == 48u8,
        decreases width - i,
    {
        out.push(48u8);
        i = i + 1;
    }
    let mut m: u32 = n;
    let mut i: usize = 0;
    while i < width
        invariant
            i <= width,
            out@.len() == width,
            forall|k: int| 0 <= k < width ==> 48 <= #[trigger] out@[k] <= 57,
            decimal_digits(n as nat, width as nat) == decimal_digits(m as nat, (width - i) as nat)
                + out@.subrange(width - i, width as int),
        decreases width - i,
    {
        let d = (m % 10) as u8;
        let ghost before = out@;
        out.set(width - 1 - i, 48 + d);
        assert(out@.subrange(width - (i + 1), width as int) == seq![(48 + d) as u8]
            + before.subrange(width - i, width as int));
        assert(decimal_digits(m as nat, (width - i) as nat) == decimal_digits(
            (m / 10) as nat,
            (width - (i + 1)) as nat,
        ).push((48 + m % 10) as u8));
        m = m / 10;
        i = i + 1;
    }
    assert(out@.subrange(0, width as int) == out@);
    proof {
        lemma_ascii_utf8(out@);
    }
    match utf8_string(out) {
        Some(s) => s,
        None => String::new(),
    }
}

/// The code of `width` digits for a digest.
fn code_from_digest(digest: &[u8], width: usize) -> (r: String)
    requires
        digest@.len() >= 19,
    ensures
        r@ == code_of_digest(digest@, width as nat),
{
    let snum = truncate_digest(digest);
    decimal_string(snum, width)
}

/// The HOTP code for a key, a hash function, a counter and a width.
pub fn hotp_generate(alg: HashFunction, key: &[u8], counter: u64, width: usize) -> (r: String)
    ensures
        r@ == hotp_code(alg, key@, counter, width as nat),
{
    let message = encode_counter(counter);
    let digest = mac(alg, key, message.as_slice());
    assert(digest_len(alg) >= 20);
    code_from_digest(digest.as_slice(), width)
}

/// Every code is exactly `width` characters long and made of decimal digits.
pub proof fn lemma_code_shape(alg: HashFunction, key: Seq<u8>, counter: u64, width: nat)
    ensures
        hotp_code(alg, key, counter, width).len() == width,
        forall|i: int|
            0 <= i < width ==> '0' <= #[trigger] hotp_code(alg, key, counter, width)[i] <= '9',
{
    let n = dynamic_truncation(mac_of(alg, key, counter_bytes(counter)));
    lemma_decimal_digits_shape(n, width);
}

/// The digits of a number are `width` bytes between `'0'` and `'9'`.
pub proof fn lemma_decimal_digits_shape(n: nat, width: nat)
    ensures
        decimal_digits(n, width).len() == width,
        forall|i: int| 0 <= i < width ==> 48 <= #[trigger] decimal_digits(n, width)[i] <= 57,
    decreases width,
{
    if width > 0 {
        lemma_decimal_digits_shape(n / 10, (width - 1) as nat);
    }
}

/// Codes are deterministic: two generators with the same secret, hash function
/// and length give the same code for the same counter, whatever the time, and
/// each code has exactly that many decimal digits, zero-padded.
pub proof fn lemma_generate_deterministic(
    a: OneTimePassword,
    b: OneTimePassword,
    time_a: u64,
    time_b: u64,
)
    requires
        a.key@ == b.key@,
        a.hash_function == b.hash_function,
        a.output_len == b.output_len,
        a.counter_at(time_a) == b.counter_at(time_b),
    ensures
        a.code_for(a.counter_at(time_a)) == b.code_for(b.counter_at(time_b)),
        a.code_for(a.counter_at(time_a)).len() == a.output_len,
        forall|i: int|
            0 <= i < a.output_len ==> '0' <= #[trigger] a.code_for(a.counter_at(time_a))[i] <= '9',
{
    lemma_code_shape(a.hash_function, a.key@, a.counter_at(time_a), a.output_len as nat);
}

} // verus!
