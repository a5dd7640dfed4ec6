//! The identity of this device: a UUID, kept as text in its canonical form.
//! Parsing and random generation are the `uuid` crate's.

use vstd::prelude::*;
use crate::text::{trim, trimmed};

verus! {

/// The identifier that `text` writes, as a 128-bit number with the first byte
/// of the identifier on top, and `None` where `Uuid::parse_str` turns the text
/// down.
pub uninterp spec fn parsed_uuid(text: Seq<char>) -> Option<u128>;

/// The lower-case hexadecimal digit of a number below sixteen.
pub open spec fn hex_char(nibble: nat) -> char {
    if nibble < 10 {
        ('0' as u8 + nibble) as char
    } else {
        ('a' as u8 + (nibble - 10)) as char
    }
}

/// The last `count` hexadecimal digits of `bits`, the highest first.
pub open spec fn hex_digits(bits: nat, count: nat) -> Seq<char>
    decreases count,
{
    if count == 0 {
        Seq::empty()
    } else {
        hex_digits(bits / 16, (count - 1) as nat).push(hex_char(bits % 16))
    }
}

/// The canonical text of an identifier: its 32 hexadecimal digits in lower
/// case, in groups of 8, 4, 4, 4 and 12 with a hyphen between them.
pub open spec fn canonical_text(bits: u128) -> Seq<char> {
    let digits = hex_digits(bits as nat, 32);
    digits.subrange(0, 8) + seq!['-'] + digits.subrange(8, 12) + seq!['-'] + digits.subrange(
        12,
        16,
    ) + seq!['-'] + digits.subrange(16, 20) + seq!['-'] + digits.subrange(20, 32)
}

/// Whether the identifier carries the marks of a random one: version 4 in the
/// thirteenth digit, and the variant bits `10` on top of the seventeenth.
pub open spec fn is_random_uuid(bits: u128) -> bool {
    (bits >> 76u128) & 0xf == 4 && (bits >> 62u128) & 0x3 == 2
}

/// The identifier that is stored, where something is stored and it writes one
/// once it is trimmed.
pub open spec fn stored_identity(stored: Option<&str>) -> Option<u128> {
    match stored {
        Some(raw) => parsed_uuid(trimmed(raw@)),
        None => None,
    }
}

/// Trusted: `uuid::Uuid::parse_str`, and `Uuid::as_u128` on what it gives.
/// Which texts it accepts takes the crate's parser to say; the contract names
/// the result, which depends on the text alone.
#[verifier::external_body]
pub(crate) fn parse_uuid(text: &str) -> (r: Option<u128>)
    ensures
        r == parsed_uuid(text@),
{
    match uuid::Uuid::parse_str(text) {
        Ok(id) => Some(id.as_u128()),
        Err(_) => None,
    }
}

/// Trusted: `uuid::Uuid::from_u128` and the `Display` of the identifier it
/// makes. The crate writes an identifier in its hyphenated form in lower case,
/// byte by byte from the first, and the first byte is the top of the number.
#[verifier::external_body]
pub(crate) fn format_uuid(bits: u128) -> (r: String)
    ensures
        r@ == canonical_text(bits),
{
    uuid::Uuid::from_u128(bits).to_string()
}

/// Trusted: `uuid::Uuid::new_v4`, and `Uuid::as_u128` on what it gives. The
/// identifier is random but for the version and variant marks, which the crate
/// sets. It panics where the system has no random bytes to give.
#[verifier::external_body]
pub(crate) fn random_uuid() -> (r: u128)
    ensures
        is_random_uuid(r),
{
    uuid::Uuid::new_v4().as_u128()
}

/// The canonical text of an identifier.
pub fn canonical_uuid(bits: u128) -> (r: String)
    ensures
        r@ == canonical_text(bits),
{
    format_uuid(bits)
}

/// Reads a stored identity: the text is trimmed, and where it writes an
/// identifier the canonical text of that identifier comes back.
pub fn parse_device_uuid(raw: &str) -> (r: Option<String>)
    ensures
        match r {
            Some(text) => parsed_uuid(trimmed(raw@)) is Some && text@ == canonical_text(
                parsed_uuid(trimmed(raw@))->Some_0,
            ),
            None => parsed_uuid(trimmed(raw@)) is None,
        },
{
    match parse_uuid(trim(raw)) {
        Some(bits) => Some(canonical_uuid(bits)),
        None => None,
    }
}

/// A new identity: the canonical text of a random identifier.
pub fn create_device_uuid() -> (r: String)
    ensures
        exists|bits: u128| is_random_uuid(bits) && r@ == canonical_text(bits),
{
    let bits = random_uuid();
    canonical_uuid(bits)
}

/// The identity of the device from what is stored of it: the stored one where
/// it can be read, else a new one, which is then to be stored. The flag tells
/// whether the identity is new.
pub fn resolve_device_uuid(stored: Option<&str>) -> (r: (String, bool))
    ensures
        match stored_identity(stored) {
            Some(bits) => !r.1 && r.0@ == canonical_text(bits),
            None => r.1 && exists|bits: u128| is_random_uuid(bits) && r.0@ == canonical_text(bits),
        },
{
    let known = match stored {
        Some(raw) => parse_device_uuid(raw),
        None => None,
    };
    match known {
        Some(text) => (text, false),
        None => (create_device_uuid(), true),
    }
}

/// The canonical text has 36 characters, with hyphens in the places 8, 13, 18
/// and 23.
pub proof fn lemma_canonical_text_shape(bits: u128)
    ensures
        canonical_text(bits).len() == 36,
        canonical_text(bits)[8] == '-',
        canonical_text(bits)[13] == '-',
        canonical_text(bits)[18] == '-',
        canonical_text(bits)[23] == '-',
{
    lemma_hex_digits_len(bits as nat, 32);
}

/// `hex_digits` gives as many digits as it is asked for.
pub proof fn lemma_hex_digits_len(bits: nat, count: nat)
    ensures
        hex_digits(bits, count).len() == count,
    decreases count,
{
    if count > 0 {
        lemma_hex_digits_len(bits / 16, (count - 1) as nat);
    }
}

} // verus!
