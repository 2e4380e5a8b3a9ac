//! The wall clock and a small string hash.

use vstd::prelude::*;
use vstd::string::StringSliceAdditionalSpecFns;

verus! {

/// `std::time::SystemTimeError`: what `elapsed` returns where the clock
/// stands before the moment it is asked about. It is only passed through.
#[verifier::external_type_specification]
#[verifier::external_body]
pub struct ExSystemTimeError(std::time::SystemTimeError);

/// `std::time::SystemTime::elapsed` on `UNIX_EPOCH`: the time that has passed
/// since the Unix epoch by the system clock, or an error where the clock
/// stands before the epoch. Nothing is claimed of the value.
#[verifier::external_body]
fn since_unix_epoch() -> (r: Result<std::time::Duration, std::time::SystemTimeError>) {
    std::time::UNIX_EPOCH.elapsed()
}

/// `std::time::Duration::as_millis`: the whole milliseconds in a duration.
/// Nothing is claimed of the value.
#[verifier::external_body]
fn whole_millis(d: &std::time::Duration) -> (ms: u128) {
    d.as_millis()
}

/// The system clock as milliseconds since the Unix epoch; 0 where the clock
/// stands before the epoch. The clock may be set back between two calls, so
/// a later call may return less than an earlier one.
pub fn now_ms() -> i64 {
    let elapsed = match since_unix_epoch() {
        Ok(d) => Some(whole_millis(&d)),
        Err(_) => None,
    };
    timestamp_from(elapsed)
}

/// The timestamp for what the clock gave: the milliseconds since the epoch,
/// cut to their low 64 bits, or 0 where the clock stands before the epoch.
pub open spec fn timestamp_of(elapsed_ms: Option<u128>) -> i64 {
    match elapsed_ms {
        Some(ms) => ms as i64,
        None => 0,
    }
}

/// The timestamp for what the clock gave. Milliseconds that fit an `i64`,
/// as they will for some hundred million years, are the timestamp.
pub fn timestamp_from(elapsed_ms: Option<u128>) -> (t: i64)
    ensures
        t == timestamp_of(elapsed_ms),
        elapsed_ms matches Some(ms) ==> (ms <= i64::MAX ==> t == ms),
{
    match elapsed_ms {
        Some(ms) => {
            #[verifier::truncate]
            (ms as i64)
        },
        None => 0,
    }
}

/// `==` on `str`: whether two string slices hold the same characters.
#[verifier::external_body]
pub(crate) fn str_eq(a: &str, b: &str) -> (r: bool)
    ensures
        r == (a@ == b@),
{
    a == b
}

/// The FNV-1a offset basis for 64 bits.
pub const FNV_OFFSET: u64 = 0xcbf29ce484222325;

/// The FNV-1a prime for 64 bits.
pub const FNV_PRIME: u64 = 0x100000001b3;

/// The 64-bit FNV-1a hash of a byte string: start from the offset basis and,
/// for each byte in turn, xor it in and multiply by the prime modulo `2^64`.
pub open spec fn fnv1a(bytes: Seq<u8>) -> u64
    decreases bytes.len(),
{
    if bytes.len() == 0 {
        FNV_OFFSET
    } else {
        (fnv1a(bytes.drop_last()) ^ (bytes.last() as u64)).wrapping_mul(FNV_PRIME)
    }
}

/// The FNV-1a hash of the UTF-8 bytes of `s`. A symbol always hashes to the
/// same value, which makes it a stable seed.
pub fn fxhash(s: &str) -> (h: u64)
    ensures
        h == fnv1a(s.spec_bytes()),
{
    let bytes = s.as_bytes();
    let mut h: u64 = FNV_OFFSET;
    let mut i: usize = 0;
    while i < bytes.len()
        invariant
            i <= bytes.len(),
            bytes@ == s.spec_bytes(),
            h == fnv1a(bytes@.take(i as int)),
        decreases bytes.len() - i,
    {
        assert(bytes@.take(i as int + 1).drop_last() =~= bytes@.take(i as int));
        h = (h ^ (bytes[i] as u64)).wrapping_mul(FNV_PRIME);
        i += 1;
    }
    assert(bytes@.take(i as int) =~= bytes@);
    h
}

} // verus!
