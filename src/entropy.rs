//! What the node draws from chance and the clock: fresh ULIDs and random
//! choices of peers.

use vstd::prelude::*;

verus! {

/// A digit of Crockford's base 32, the alphabet ULIDs are written in.
pub open spec fn is_crockford_digit(c: char) -> bool {
    ||| ('0' <= c && c <= '9')
    ||| ('A' <= c && c <= 'Z' && c != 'I' && c != 'L' && c != 'O' && c != 'U')
}

/// A ULID in text form: 26 digits of Crockford's base 32.
pub open spec fn is_ulid_text(s: Seq<char>) -> bool {
    &&& s.len() == 26
    &&& forall|i: int| 0 <= i < s.len() ==> is_crockford_digit(#[trigger] s[i])
}

/// Relies on `ulid::Ulid::new` and its `Display`: a fresh ULID (the time now
/// and random bits), written as 26 Crockford base-32 digits.
#[verifier::external_body]
pub(crate) fn fresh_ulid() -> (r: String)
    ensures
        is_ulid_text(r@),
{
    ulid::Ulid::new().to_string()
}

/// Relies on `rand::seq::index::sample` over the thread-local generator:
/// exactly `amount` distinct indices below `length`, in random order.
#[verifier::external_body]
pub(crate) fn sample_indices(length: usize, amount: usize) -> (r: Vec<usize>)
    requires
        amount <= length,
    ensures
        r@.len() == amount,
        r@.no_duplicates(),
        forall|i: int| 0 <= i < r@.len() ==> #[trigger] r@[i] < length,
{
    rand::seq::index::sample(&mut rand::rng(), length, amount).into_vec()
}

} // verus!
