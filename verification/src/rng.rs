//! The random source: thin trusted wrappers around the `rand` crate, and the
//! verified sampling helpers built on them.

use vstd::prelude::*;
use crate::strutil::push_char;

verus! {

#[verifier::external_type_specification]
#[verifier::external_body]
pub struct ExThreadRng(rand::rngs::ThreadRng);

/// An alphanumeric ASCII character: a digit or a letter of either case.
pub open spec fn is_alnum(c: char) -> bool {
    (48 <= c as u32 && c as u32 <= 57) || (65 <= c as u32 && c as u32 <= 90) || (97 <= c as u32
        && c as u32 <= 122)
}

/// Relies on `rand::thread_rng`: a generator seeded from operating-system
/// entropy. Nothing is promised of the values it will yield.
#[verifier::external_body]
pub fn rng_new() -> rand::rngs::ThreadRng {
    rand::thread_rng()
}

/// Relies on `rand::Rng::gen_range` over an inclusive integer range: the
/// sample lies within the bounds. The precondition keeps the range non-empty,
/// on which the call would panic.
#[verifier::external_body]
pub fn rng_range(rng: &mut rand::rngs::ThreadRng, lo: u64, hi: u64) -> (r: u64)
    requires
        lo <= hi,
    ensures
        lo <= r <= hi,
{
    rand::Rng::gen_range(rng, lo..=hi)
}

/// Relies on `rand::Rng::gen` for `u8`: one uniform byte; any value can come
/// back.
#[verifier::external_body]
pub fn rng_byte(rng: &mut rand::rngs::ThreadRng) -> u8 {
    rand::Rng::gen::<u8>(rng)
}

/// Relies on `rand::distributions::Alphanumeric`: sampling it yields one of
/// the 62 alphanumeric ASCII bytes.
#[verifier::external_body]
pub fn rng_alnum_char(rng: &mut rand::rngs::ThreadRng) -> (c: char)
    ensures
        is_alnum(c),
{
    char::from(rand::Rng::sample(rng, rand::distributions::Alphanumeric))
}

/// A well-formed directory-name segment: eight alphanumeric characters.
pub open spec fn is_segment(s: Seq<char>) -> bool {
    s.len() == 8 && (forall|i: int| 0 <= i < s.len() ==> is_alnum(#[trigger] s[i]))
}

/// Samples one eight-character alphanumeric directory name.
pub fn sample_segment(rng: &mut rand::rngs::ThreadRng) -> (s: String)
    ensures
        is_segment(s@),
{
    let mut s = String::new();
    let mut k: usize = 0;
    while k < 8
        invariant
            0 <= k <= 8,
            s@.len() == k,
            forall|i: int| 0 <= i < k ==> is_alnum(#[trigger] s@[i]),
        decreases 8 - k,
    {
        let c = rng_alnum_char(rng);
        push_char(&mut s, c);
        k = k + 1;
    }
    s
}

/// Draws `n` uniform random bytes: the payload of one file.
pub fn random_payload(rng: &mut rand::rngs::ThreadRng, n: usize) -> (v: Vec<u8>)
    ensures
        v@.len() == n,
{
    let mut v: Vec<u8> = Vec::new();
    let mut k: usize = 0;
    while k < n
        invariant
            0 <= k <= n,
            v@.len() == k,
        decreases n - k,
    {
        let b = rng_byte(rng);
        v.push(b);
        k = k + 1;
    }
    v
}

} // verus!
