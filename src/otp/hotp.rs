//! Event-based one-time passwords over raw key bytes.
use super::{hotp_code, hotp_generate, HashFunction};
use vstd::prelude::*;

verus! {

/// An RFC 4226 generator: an HMAC-SHA1 code of a counter.
#[derive(Debug)]
pub struct HOTP {
    secret_key: Vec<u8>,
    counter: u64,
    output_len: usize,
    hash_function: HashFunction,
}

impl HOTP {
    /// The secret key.
    pub closed spec fn secret_key(&self) -> Seq<u8> {
        self.secret_key@
    }

    /// The counter the code is computed for.
    pub closed spec fn counter(&self) -> u64 {
        self.counter
    }

    /// The number of digits of a code.
    pub closed spec fn output_len(&self) -> nat {
        self.output_len as nat
    }

    /// The hash function of the HMAC.
    pub closed spec fn hash_function(&self) -> HashFunction {
        self.hash_function
    }

    /// A SHA-1 generator for a key, a counter and a code length.
    pub fn new(secret_key: Vec<u8>, counter: u64, output_len: usize) -> (r: HOTP)
        ensures
            r.secret_key() == secret_key@,
            r.counter() == counter,
            r.output_len() == output_len,
            r.hash_function() == HashFunction::Sha1,
    {
        HOTP { secret_key, counter, output_len, hash_function: HashFunction::Sha1 }
    }

    /// The code of the counter, `output_len` decimal digits.
    pub fn generate(&self) -> (r: String)
        ensures
            r@ == hotp_code(self.hash_function(), self.secret_key(), self.counter(), self.output_len()),
    {
        hotp_generate(self.hash_function, self.secret_key.as_slice(), self.counter, self.output_len)
    }
}

} // verus!
