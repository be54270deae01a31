//! Identifiers for orders and trades: random UUIDs held as 128-bit integers,
//! and their text form.
use vstd::prelude::*;

verus! {

/// Lower-case hexadecimal digit for `n` in `0..16`.
pub open spec fn hex_digit(n: int) -> char {
    if n < 10 {
        (('0' as int) + n) as char
    } else {
        (('a' as int) + n - 10) as char
    }
}

/// The `k`-th hexadecimal digit (`0..32`) of `id`, most significant first.
pub open spec fn id_nibble(id: u128, k: int) -> int {
    (id as int / vstd::arithmetic::power::pow(16, (31 - k) as nat)) % 16
}

/// Number of hyphens before position `i` of the hyphenated form.
pub open spec fn hyphens_before(i: int) -> int {
    (if i > 8 { 1int } else { 0int }) + (if i > 13 { 1int } else { 0int }) + (if i > 18 {
        1int
    } else {
        0int
    }) + (if i > 23 { 1int } else { 0int })
}

/// Hyphenated lower-case form `xxxxxxxx-xxxx-xxxx-xxxx-xxxxxxxxxxxx` of an id.
pub open spec fn uuid_text(id: u128) -> Seq<char> {
    Seq::new(
        36,
        |i: int|
            if i == 8 || i == 13 || i == 18 || i == 23 {
                '-'
            } else {
                hex_digit(id_nibble(id, i - hyphens_before(i)))
            },
    )
}

/// A fresh random (version 4) UUID as a 128-bit integer
/// (`uuid::Uuid::new_v4().as_u128()`).  The value is random, so no clause is stated.
#[verifier::external_body]
pub(crate) fn fresh_id() -> u128 {
    uuid::Uuid::new_v4().as_u128()
}

/// Text of the UUID with this value: `uuid::Uuid::from_u128(id).to_string()`,
/// which the uuid crate writes hyphenated, in lower case, most significant
/// digit first.
#[verifier::external_body]
pub(crate) fn id_text(id: u128) -> (s: String)
    ensures
        s@ == uuid_text(id),
{
    uuid::Uuid::from_u128(id).to_string()
}

} // verus!
