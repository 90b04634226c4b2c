//! Time-based one-time passwords over raw key bytes.
use super::{hotp_code, hotp_generate, HashFunction};
use vstd::prelude::*;

verus! {

/// An RFC 6238 generator: the HOTP code of the current time step.
#[derive(Debug)]
pub struct TOTP {
    secret_key: Vec<u8>,
    period: u64,
    output_len: usize,
    hash_function: HashFunction,
}

impl TOTP {
    /// The secret key.
    pub closed spec fn secret_key(&self) -> Seq<u8> {
        self.secret_key@
    }

    /// The length of a time step in seconds.
    pub closed spec fn period(&self) -> u64 {
        self.period
    }

    /// The number of digits of a code.
    pub closed spec fn output_len(&self) -> nat {
        self.output_len as nat
    }

    /// The hash function of the HMAC.
    pub closed spec fn hash_function(&self) -> HashFunction {
        self.hash_function
    }

    /// The time step that `unix_time` seconds since the epoch fall in.
    pub open spec fn step_at(&self, unix_time: u64) -> u64
        recommends
            self.period() > 0,
    {
        unix_time / self.period()
    }

    /// The code in force at `unix_time` seconds since the epoch.
    pub open spec fn code_at(&self, unix_time: u64) -> Seq<char>
        recommends
            self.period() > 0,
    {
        hotp_code(self.hash_function(), self.secret_key(), self.step_at(unix_time), self.output_len())
    }

    /// A SHA-1 generator for a key, a step of `period` seconds and a code length.
    /// Any period is accepted here; computing a code needs a period above zero.
    pub fn new(secret_key: Vec<u8>, period: u64, output_len: usize) -> (r: TOTP)
        ensures
            r.secret_key() == secret_key@,
            r.period() == period,
            r.output_len() == output_len,
            r.hash_function() == super::HashFunction::Sha1,
    {
        TOTP { secret_key, period, output_len, hash_function: HashFunction::Sha1 }
    }

    /// The code of the clock's current time step.
    pub fn generate(&self) -> (r: String)
        requires
            self.period() > 0,
        ensures
            exists|t: u64| r@ == #[trigger] self.code_at(t),
    {
        let now = super::unix_time_secs();
        let r = self.generate_at(now);
        assert(r@ == self.code_at(now));
        r
    }

    /// The code in force at `unix_time` seconds since the epoch.
    pub fn generate_at(&self, unix_time: u64) -> (r: String)
        requires
            self.period() > 0,
        ensures
            r@ == self.code_at(unix_time),
    {
        let counter = self.counter_at(unix_time);
        hotp_generate(self.hash_function, self.secret_key.as_slice(), counter, self.output_len)
    }

    /// The time step that `unix_time` seconds since the epoch fall in.
    pub fn counter_at(&self, unix_time: u64) -> (r: u64)
        requires
            self.period() > 0,
        ensures
            r == self.step_at(unix_time),
    {
        unix_time / self.period
    }

    /// The clock's current time step.
    pub fn get_counter(&self) -> (r: u64)
        requires
            self.period() > 0,
        ensures
            exists|t: u64| r == #[trigger] self.step_at(t),
    {
        let now = super::unix_time_secs();
        self.counter_at(now)
    }
}

} // verus!
