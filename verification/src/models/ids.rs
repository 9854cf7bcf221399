//! Identifiers of pages and blocks: 128-bit values that are written as
//! hyphenated hexadecimal text.

use vstd::prelude::*;

verus! {

/// An identifier, as the 128-bit number that its text spells out.
#[derive(Debug, Clone, Copy, PartialEq, Eq, Structural, Hash)]
pub struct Uid {
    pub bits: u128,
}

/// The lower-case hexadecimal digit for a value below 16.
pub open spec fn hex_char(n: u128) -> char {
    if n < 10 {
        ((0x30 + n) as u8) as char
    } else {
        ((0x57 + n) as u8) as char
    }
}

/// The digit of `bits` at place `k`, counted from the most significant of its 32 places.
pub open spec fn hex_place(bits: u128, k: int) -> u128 {
    (bits >> ((4 * (31 - k)) as u128)) & 0xf
}

/// The number of hyphens that stand before position `i` of a hyphenated identifier.
pub open spec fn hyphens_before(i: int) -> int {
    if i < 8 {
        0
    } else if i < 13 {
        1
    } else if i < 18 {
        2
    } else if i < 23 {
        3
    } else {
        4
    }
}

/// The hyphenated text of an identifier: its 32 hexadecimal digits in lower
/// case, most significant first, in groups of 8, 4, 4, 4 and 12.
pub open spec fn hyphenated(bits: u128) -> Seq<char> {
    Seq::new(
        36,
        |i: int|
            if i == 8 || i == 13 || i == 18 || i == 23 {
                '-'
            } else {
                hex_char(hex_place(bits, i - hyphens_before(i)))
            },
    )
}

/// The identifier that `uuid::Uuid::parse_str` reads from a text, or `None`
/// where it reads none.
pub uninterp spec fn parsed_uid(text: Seq<char>) -> Option<u128>;

/// The bits that mark an identifier as a random one: version 4, variant 1.
pub open spec fn is_random_uid(bits: u128) -> bool {
    bits & 0x0000_0000_0000_f000_c000_0000_0000_0000 == 0x0000_0000_0000_4000_8000_0000_0000_0000
}

/// Draws an identifier with `uuid::Uuid::new_v4`, which sets the version and
/// variant bits of a random number. What is drawn differs from call to call;
/// the contract states the marker bits alone.
#[verifier::external_body]
fn random_bits() -> (r: u128)
    ensures
        is_random_uid(r),
{
    uuid::Uuid::new_v4().as_u128()
}

/// Reads an identifier with `uuid::Uuid::parse_str`, which accepts the plain,
/// hyphenated, URN and braced ways of writing one. The result depends on the
/// text alone; the contract gives it a name.
#[verifier::external_body]
fn parse_bits(text: &str) -> (r: Option<u128>)
    ensures
        r == parsed_uid(text@),
{
    match uuid::Uuid::parse_str(text) {
        Ok(id) => Some(id.as_u128()),
        Err(_) => None,
    }
}

/// Writes an identifier with the `Display` of `uuid::Uuid`, which gives the
/// hyphenated lower-case form.
#[verifier::external_body]
fn write_bits(bits: u128) -> (r: String)
    ensures
        r@ == hyphenated(bits),
{
    uuid::Uuid::from_u128(bits).to_string()
}

impl Uid {
    /// A new random identifier.
    pub fn random() -> (r: Uid)
        ensures
            is_random_uid(r.bits),
    {
        Uid { bits: random_bits() }
    }

    /// Reads an identifier from its text.
    pub fn parse(text: &str) -> (r: Option<Uid>)
        ensures
            r == uid_of(parsed_uid(text@)),
    {
        match parse_bits(text) {
            Some(bits) => Some(Uid { bits }),
            None => None,
        }
    }

    /// The hyphenated text of the identifier.
    pub fn to_text(&self) -> (r: String)
        ensures
            r@ == hyphenated(self.bits),
    {
        write_bits(self.bits)
    }
}

/// The identifier with the given bits, where there are any.
pub open spec fn uid_of(bits: Option<u128>) -> Option<Uid> {
    match bits {
        Some(b) => Some(Uid { bits: b }),
        None => None,
    }
}

/// The hyphenated text of an optional identifier.
pub open spec fn uid_text(id: Option<Uid>) -> Option<Seq<char>> {
    match id {
        Some(u) => Some(hyphenated(u.bits)),
        None => None,
    }
}

} // verus!
