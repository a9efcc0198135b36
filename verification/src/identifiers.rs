//! Random 128-bit identifiers and their textual form.

use vstd::prelude::*;

verus! {

/// The bits of a 128-bit identifier that carry its version and variant.
pub const VERSION_VARIANT_BITS: u128 = 0x0000_0000_0000_f000_c000_0000_0000_0000;

/// Version 4 in the version bits, `10` in the two variant bits.
pub const RANDOM_VERSION_VARIANT: u128 = 0x0000_0000_0000_4000_8000_0000_0000_0000;

/// Whether `id` has the version and variant bits of a random identifier.
pub open spec fn is_random_id(id: u128) -> bool {
    id & VERSION_VARIANT_BITS == RANDOM_VERSION_VARIANT
}

/// The lower-case hexadecimal digit for a value below sixteen.
pub open spec fn hex_digit(value: u128) -> char {
    if value < 10 {
        (0x30 + value) as char
    } else {
        (0x57 + value) as char
    }
}

/// The hexadecimal digit of `id` at `place`, where place 0 is the most
/// significant of its thirty-two digits.
pub open spec fn hex_digit_at(id: u128, place: int) -> char {
    hex_digit((id >> (4 * (31 - place)) as u128) & 0xf)
}

/// The textual form of an identifier: its thirty-two lower-case hexadecimal
/// digits in groups of 8, 4, 4, 4 and 12, with a hyphen between the groups.
pub open spec fn hyphenated(id: u128) -> Seq<char> {
    Seq::new(
        36,
        |i: int|
            if i == 8 || i == 13 || i == 18 || i == 23 {
                '-'
            } else if i < 8 {
                hex_digit_at(id, i)
            } else if i < 13 {
                hex_digit_at(id, i - 1)
            } else if i < 18 {
                hex_digit_at(id, i - 2)
            } else if i < 23 {
                hex_digit_at(id, i - 3)
            } else {
                hex_digit_at(id, i - 4)
            },
    )
}

/// A fresh random identifier.
///
/// Calls `uuid::Uuid::new_v4` and hands the value out as a `u128`
/// (`Uuid::as_u128`, which packs the sixteen bytes most significant first).
/// The value is drawn from the operating system's random source, so nothing
/// is claimed of it beyond the version and variant bits that `new_v4` always
/// sets.
#[verifier::external_body]
pub(crate) fn fresh_id() -> (id: u128)
    ensures
        is_random_id(id),
{
    uuid::Uuid::new_v4().as_u128()
}

/// The textual form of `id`.
///
/// Calls `uuid::Uuid::from_u128` and formats the result as `Display` does for
/// a `Uuid`: hyphenated, in lower case.
#[verifier::external_body]
pub(crate) fn id_text(id: u128) -> (text: String)
    ensures
        text@ == hyphenated(id),
{
    uuid::Uuid::from_u128(id).to_string()
}

} // verus!
