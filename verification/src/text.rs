//! How numbers and bytes are written out.

use itertools::Itertools;
use vstd::prelude::*;
use vstd::utf8::valid_utf8;

verus! {

/// The decimal digit that stands for `n`.
pub open spec fn digit(n: int) -> char {
    (48 + n) as char
}

/// `n` in decimal, without leading zeros.
pub open spec fn decimal(n: nat) -> Seq<char>
    decreases n,
{
    if n < 10 {
        seq![digit(n as int)]
    } else {
        decimal(n / 10).push(digit(n as int % 10))
    }
}

/// `n` in decimal, with a minus sign in front where it is negative.
pub open spec fn int_text(n: int) -> Seq<char> {
    if n < 0 {
        seq!['-'] + decimal((-n) as nat)
    } else {
        decimal(n as nat)
    }
}

/// The last `width` decimal digits of `n`, zeros included.
pub open spec fn padded(n: nat, width: nat) -> Seq<char>
    decreases width,
{
    if width == 0 {
        Seq::empty()
    } else {
        padded(n / 10, (width - 1) as nat).push(digit(n as int % 10))
    }
}

/// What `true` and `false` are written as.
pub open spec fn bool_text(b: bool) -> Seq<char> {
    if b {
        "true"@
    } else {
        "false"@
    }
}

/// The hexadecimal digit that stands for `n`, where `ten` is the digit for ten.
pub open spec fn hex_digit(n: int, ten: char) -> char {
    if n < 10 {
        digit(n)
    } else {
        (ten as int + n - 10) as char
    }
}

/// Two hexadecimal digits for each byte, the high half first.
pub open spec fn hex_text(bytes: Seq<u8>, ten: char) -> Seq<char> {
    Seq::new(
        2 * bytes.len(),
        |i: int|
            if i % 2 == 0 {
                hex_digit(bytes[i / 2] as int / 16, ten)
            } else {
                hex_digit(bytes[i / 2] as int % 16, ten)
            },
    )
}

/// Sixteen bytes in lower-case hexadecimal, in groups of four, two, two, two and six bytes
/// with hyphens between them.
pub open spec fn hyphenated_text(bytes: Seq<u8>) -> Seq<char> {
    let hex = hex_text(bytes, 'a');
    hex.subrange(0, 8) + seq!['-'] + hex.subrange(8, 12) + seq!['-'] + hex.subrange(12, 16) + seq![
        '-',
    ] + hex.subrange(16, 20) + seq!['-'] + hex.subrange(20, 32)
}

/// The text of the double-precision number whose bits are `bits`, as `Display` writes it.
pub uninterp spec fn double_text(bits: u64) -> Seq<char>;

/// The text of the internet address made of `octets`, as `Display` writes it.
pub uninterp spec fn inet_text(octets: Seq<u8>) -> Seq<char>;

/// `std::str::from_utf8` takes just the bytes that are UTF-8.
#[verifier::external_body]
pub(crate) fn is_utf8(bytes: &[u8]) -> (r: bool)
    ensures
        r == valid_utf8(bytes@),
{
    std::str::from_utf8(bytes).is_ok()
}

/// `Display` of `i64` from the standard library: decimal, with a minus sign for a negative number.
#[verifier::external_body]
pub(crate) fn write_int(n: i64) -> (r: String)
    ensures
        r@ == int_text(n as int),
{
    format!("{}", n)
}

/// `Display` of a double from the standard library; the driver's `decode_double` turns the eight
/// bytes of `bits` into that double.
/// The text is a function of the bits; its digits are left to the standard library.
#[verifier::external_body]
pub(crate) fn write_double(bits: u64) -> (r: String)
    ensures
        r@ == double_text(bits),
{
    let bytes = bits.to_be_bytes();
    format!("{}", cdrs::types::data_serialization_types::decode_double(&bytes).unwrap())
}

/// `Display` of an internet address from the standard library; the driver's `decode_inet` turns
/// four or sixteen octets into that address.
/// The text is a function of the octets. Four octets are written as decimal numbers with dots
/// between them; how sixteen are shortened is left to the standard library.
#[verifier::external_body]
pub(crate) fn write_inet(octets: &[u8]) -> (r: String)
    requires
        octets@.len() == 4 || octets@.len() == 16,
    ensures
        r@ == inet_text(octets@),
        octets@.len() == 4 ==> r@ == dotted_text(octets@),
{
    format!("{}", cdrs::types::data_serialization_types::decode_inet(octets).unwrap())
}

/// Four octets as decimal numbers with dots between them.
pub open spec fn dotted_text(octets: Seq<u8>) -> Seq<char> {
    decimal(octets[0] as nat) + seq!['.'] + decimal(octets[1] as nat) + seq!['.'] + decimal(
        octets[2] as nat,
    ) + seq!['.'] + decimal(octets[3] as nat)
}

/// `Itertools::format` of the `itertools` crate with an empty separator, under `{:02X}`: each byte
/// in two upper-case hexadecimal digits, one after the other.
#[verifier::external_body]
pub(crate) fn write_hex_upper(bytes: &Vec<u8>) -> (r: String)
    ensures
        r@ == hex_text(bytes@, 'A'),
{
    format!("{:02X}", bytes.iter().format(""))
}

/// `Uuid::to_hyphenated_ref` of the `uuid` crate, and its `Display`: the sixteen bytes in
/// lower-case hexadecimal, hyphenated.
#[verifier::external_body]
pub(crate) fn write_hyphenated(bytes: [u8; 16]) -> (r: String)
    ensures
        r@ == hyphenated_text(bytes@),
{
    uuid::Uuid::from_bytes(bytes).to_hyphenated_ref().to_string()
}

} // verus!
