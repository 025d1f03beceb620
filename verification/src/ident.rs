//! Identifiers: UUIDs by their 128-bit value, and the text they are written as.

use vstd::arithmetic::power::pow;
use vstd::prelude::*;

verus! {

/// `uuid::Uuid::new_v4`, by its 128-bit value. The value is random; nothing is claimed of it.
#[verifier::external_body]
pub(crate) fn fresh_uuid() -> (r: u128) {
    uuid::Uuid::new_v4().as_u128()
}

/// The hexadecimal digit of value `d`, in lower case.
pub open spec fn hex_digit(d: int) -> char {
    if d < 10 {
        ('0' as int + d) as char
    } else {
        ('a' as int + d - 10) as char
    }
}

/// Digit `k`, from the left, of the 32-digit hexadecimal numeral of `u`.
pub open spec fn hex_digit_at(u: u128, k: int) -> char {
    hex_digit((u as int / pow(16, (31 - k) as nat)) % 16)
}

/// The text of a UUID: 32 lower-case hexadecimal digits in groups of 8, 4, 4, 4 and 12 with
/// a hyphen between two groups.
pub open spec fn uuid_text(u: u128) -> Seq<char> {
    Seq::new(
        36,
        |i: int|
            if i == 8 || i == 13 || i == 18 || i == 23 {
                '-'
            } else if i < 8 {
                hex_digit_at(u, i)
            } else if i < 13 {
                hex_digit_at(u, i - 1)
            } else if i < 18 {
                hex_digit_at(u, i - 2)
            } else if i < 23 {
                hex_digit_at(u, i - 3)
            } else {
                hex_digit_at(u, i - 4)
            },
    )
}

/// `uuid::Uuid`'s `Display`, of the UUID with this 128-bit value: the hyphenated form in
/// lower case.
#[verifier::external_body]
pub(crate) fn format_uuid(u: u128) -> (r: String)
    ensures
        r@ == uuid_text(u),
{
    uuid::Uuid::from_u128(u).to_string()
}

} // verus!
