//! The 128-bit identifiers of nodes, tasks and jobs, and their text form.
use uuid::Uuid;
use vstd::prelude::*;

verus! {

/// The version and variant bits of a random identifier.
pub const RANDOM_MASK: u128 = 0xF000_C000_0000_0000_0000;

/// What a random identifier holds in its version and variant bits.
pub const RANDOM_MARK: u128 = 0x4000_8000_0000_0000_0000;

/// The lower-case hexadecimal digit for a number below 16.
pub open spec fn hex_digit(n: u128) -> char {
    if n < 10 {
        ('0' as u32 + n) as char
    } else {
        ('a' as u32 + (n - 10)) as char
    }
}

/// The `k`th of the 32 hexadecimal digits of an identifier, the highest first.
pub open spec fn nibble(id: u128, k: int) -> u128 {
    (id >> ((4 * (31 - k)) as u128)) & 0xF
}

/// How many of the four hyphens stand before place `i` of the text form.
pub open spec fn hyphens_before(i: int) -> int {
    if i <= 8 {
        0
    } else if i <= 13 {
        1
    } else if i <= 18 {
        2
    } else if i <= 23 {
        3
    } else {
        4
    }
}

/// The text form of an identifier: its digits in groups of 8, 4, 4, 4 and 12,
/// with hyphens between the groups.
pub open spec fn hyphenated(id: u128) -> Seq<char> {
    Seq::new(
        36,
        |i: int|
            if i == 8 || i == 13 || i == 18 || i == 23 {
                '-'
            } else {
                hex_digit(nibble(id, i - hyphens_before(i)))
            },
    )
}

/// What `Uuid::parse_str` reads out of a text.
pub uninterp spec fn parsed_uuid(text: Seq<char>) -> Option<u128>;

/// `Uuid::new_v4`: 122 bits are left to chance, the version and variant bits
/// are those of a random identifier.
#[verifier::external_body]
pub(crate) fn random_id() -> (id: u128)
    ensures
        id & RANDOM_MASK == RANDOM_MARK,
{
    Uuid::new_v4().as_u128()
}

/// `Uuid`'s `Display`: the hyphenated text form.
#[verifier::external_body]
pub(crate) fn id_text(id: u128) -> (text: String)
    ensures
        text@ == hyphenated(id),
{
    Uuid::from_u128(id).to_string()
}

/// `Uuid`'s `FromStr`, which is `Uuid::parse_str`: several written forms are
/// accepted, among them the hyphenated one, which gives back its identifier.
#[verifier::external_body]
pub(crate) fn parse_id(text: &str) -> (id: Option<u128>)
    ensures
        id == parsed_uuid(text@),
        forall|known: u128| text@ == #[trigger] hyphenated(known) ==> id == Some(known),
{
    text.parse::<Uuid>().ok().map(|id| id.as_u128())
}

} // verus!
