//! Decimal and hexadecimal renderings of integers used in messages.

use vstd::prelude::*;

verus! {

/// The ASCII digit for `d` (0..=15), upper-case for ten and above.
pub open spec fn digit_char(d: nat) -> char {
    if d < 10 {
        ((d + 48) as u8) as char
    } else {
        ((d + 55) as u8) as char
    }
}

/// The digits of `n` in base `b`, most significant first, without leading
/// zeros (zero renders as "0").
pub open spec fn digits(n: nat, b: nat) -> Seq<char>
    recommends
        2 <= b <= 16,
    decreases n,
{
    if b < 2 || n < b {
        seq![digit_char(n)]
    } else {
        proof {
            assert(n / b < n) by (nonlinear_arith)
                requires
                    b >= 2,
                    n >= b,
            ;
        }
        digits(n / b, b).push(digit_char(n % b))
    }
}

/// Decimal rendering of a signed integer, with a leading `-` when negative.
pub open spec fn int_dec(n: int) -> Seq<char> {
    if n < 0 {
        seq!['-'] + digits((-n) as nat, 10)
    } else {
        digits(n as nat, 10)
    }
}

/// `n` rendered in decimal, as `Display` prints it.
#[verifier::external_body]
pub(crate) fn u64_to_dec(n: u64) -> (s: String)
    ensures
        s@ == digits(n as nat, 10),
{
    n.to_string()
}

/// `n` rendered in decimal, as `Display` prints it.
#[verifier::external_body]
pub(crate) fn usize_to_dec(n: usize) -> (s: String)
    ensures
        s@ == digits(n as nat, 10),
{
    n.to_string()
}

/// `n` rendered in decimal with a leading `-` when negative, as `Display`
/// prints it.
#[verifier::external_body]
pub(crate) fn i64_to_dec(n: i64) -> (s: String)
    ensures
        s@ == int_dec(n as int),
{
    n.to_string()
}

/// `n` rendered as `0x` followed by upper-case hexadecimal digits, as the
/// `{:#X}` format prints it.
#[verifier::external_body]
pub(crate) fn u64_to_hex_upper(n: u64) -> (s: String)
    ensures
        s@ == seq!['0', 'x'] + digits(n as nat, 16),
{
    format!("{:#X}", n)
}

/// The lower-case hexadecimal digits of `n`, most significant first.
pub open spec fn hex_lower_digits(n: nat) -> Seq<char>
    decreases n,
{
    if n < 16 {
        seq![lower_digit_char(n)]
    } else {
        hex_lower_digits(n / 16).push(lower_digit_char(n % 16))
    }
}

/// The ASCII digit for `d` (0..=15), lower-case for ten and above.
pub open spec fn lower_digit_char(d: nat) -> char {
    if d < 10 {
        ((d + 48) as u8) as char
    } else {
        ((d + 87) as u8) as char
    }
}

/// `n` rendered as `0x` followed by lower-case hexadecimal digits, as the
/// `{:#x}` format prints it.
#[verifier::external_body]
pub(crate) fn u64_to_hex_lower(n: u64) -> (s: String)
    ensures
        s@ == seq!['0', 'x'] + hex_lower_digits(n as nat),
{
    format!("{:#x}", n)
}

/// The `Debug` rendering of a string: quoted, with escapes.
pub uninterp spec fn str_debug(s: Seq<char>) -> Seq<char>;

/// The `Debug` rendering of `s`.
#[verifier::external_body]
pub(crate) fn str_to_debug(s: &str) -> (r: String)
    ensures
        r@ == str_debug(s@),
{
    format!("{:?}", s)
}

/// Concatenation of two strings.
pub fn cat(a: String, b: &str) -> (r: String)
    ensures
        r@ == a@ + b@,
{
    a.concat(b)
}

} // verus!
