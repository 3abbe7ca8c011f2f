//! Text output: characters, numbers and addresses appended to strings.

use vstd::prelude::*;

verus! {

/// `String::push` appends one character.
pub assume_specification[ String::push ](s: &mut String, c: char)
    ensures
        final(s)@ == old(s)@.push(c),
;

/// The character of a decimal digit.
pub open spec fn digit(n: int) -> char {
    (n + '0' as int) as char
}

/// The character of a hexadecimal digit, in lower case.
pub open spec fn hex_digit(n: int) -> char {
    if n < 10 {
        (n + '0' as int) as char
    } else {
        (n - 10 + 'a' as int) as char
    }
}

/// `n` in decimal, without leading zeros.
pub open spec fn decimal(n: nat) -> Seq<char>
    decreases n,
{
    if n < 10 {
        seq![digit(n as int)]
    } else {
        decimal(n / 10).push(digit((n % 10) as int))
    }
}

/// The two hexadecimal digits of a byte, in lower case.
pub open spec fn hex2(b: u8) -> Seq<char> {
    seq![hex_digit(b as int / 16), hex_digit(b as int % 16)]
}

/// Append `n` in decimal.
pub fn push_decimal(s: &mut String, n: u64)
    ensures
        final(s)@ == old(s)@ + decimal(n as nat),
    decreases n,
{
    let ghost before = s@;
    if n >= 10 {
        push_decimal(s, n / 10);
    }
    s.push((48 + (n % 10) as u8) as char);
    assert(s@ =~= before + decimal(n as nat));
}

/// Append the two hexadecimal digits of a byte.
pub fn push_hex2(s: &mut String, b: u8)
    ensures
        final(s)@ == old(s)@ + hex2(b),
{
    let ghost before = s@;
    push_hex_digit(s, b / 16);
    push_hex_digit(s, b % 16);
    assert(s@ =~= before + hex2(b));
}

fn push_hex_digit(s: &mut String, n: u8)
    requires
        n < 16,
    ensures
        final(s)@ == old(s)@.push(hex_digit(n as int)),
{
    if n < 10 {
        s.push((48 + n) as char);
    } else {
        s.push((87 + n) as char);
    }
}

/// Append a string literal or another string.
pub fn push_text(s: &mut String, t: &str)
    ensures
        final(s)@ == old(s)@ + t@,
{
    s.append(t);
}

/// `n` in decimal, with a leading minus sign if it is negative.
pub open spec fn signed(n: int) -> Seq<char> {
    if n < 0 {
        seq!['-'] + decimal((-n) as nat)
    } else {
        decimal(n as nat)
    }
}

/// The `digits` lowest hexadecimal digits of `n`, in lower case.
pub open spec fn hex_fixed(n: nat, digits: nat) -> Seq<char>
    decreases digits,
{
    if digits == 0 {
        seq![]
    } else {
        hex_fixed(n / 16, (digits - 1) as nat).push(hex_digit((n % 16) as int))
    }
}

/// `true` or `false`.
pub open spec fn boolean(b: bool) -> Seq<char> {
    if b {
        "true"@
    } else {
        "false"@
    }
}

/// Append a number that may be negative in decimal.
pub fn push_signed(s: &mut String, n: i32)
    ensures
        final(s)@ == old(s)@ + signed(n as int),
{
    let ghost before = s@;
    if n < 0 {
        s.push('-');
        push_decimal(s, (-(n as i64)) as u64);
        assert(s@ =~= before + signed(n as int));
    } else {
        push_decimal(s, n as u64);
    }
}

/// Append the lowest hexadecimal digits of a number.
pub fn push_hex_fixed(s: &mut String, n: u64, digits: u8)
    ensures
        final(s)@ == old(s)@ + hex_fixed(n as nat, digits as nat),
    decreases digits,
{
    let ghost before = s@;
    if digits > 0 {
        push_hex_fixed(s, n / 16, digits - 1);
        push_hex_digit(s, (n % 16) as u8);
    }
    assert(s@ =~= before + hex_fixed(n as nat, digits as nat));
}

/// Append `true` or `false`.
pub fn push_boolean(s: &mut String, b: bool)
    ensures
        final(s)@ == old(s)@ + boolean(b),
{
    if b {
        push_text(s, "true");
    } else {
        push_text(s, "false");
    }
}

/// Digits from ten on are the letters from `a` on.
pub proof fn law_hex_digits(n: int)
    requires
        0 <= n < 16,
    ensures
        hex_digit(n) == "0123456789abcdef"@[n],
{
    reveal_strlit("0123456789abcdef");
}

/// The digits of a byte are those of its halves, the upper one first, as they are
/// the two lowest of any number that ends in that byte.
pub proof fn law_hex_of_a_byte(b: u8, n: nat)
    ensures
        hex2(b).len() == 2,
        hex2(b)[0] == "0123456789abcdef"@[b as int / 16],
        hex2(b)[1] == "0123456789abcdef"@[b as int % 16],
        n % 256 == b ==> hex_fixed(n, 2) == hex2(b),
{
    law_hex_digits(b as int / 16);
    law_hex_digits(b as int % 16);
    reveal_with_fuel(hex_fixed, 3);
    if n % 256 == b {
        assert(n % 16 == b as nat % 16 && (n / 16) % 16 == b as nat / 16);
        assert(hex_fixed(n, 2) =~= hex2(b));
    }
}

/// Below zero a number is written as its opposite behind a minus sign.
pub proof fn law_minus_sign(n: nat)
    requires
        n > 0,
    ensures
        signed(-n) == seq!['-'] + decimal(n),
        signed(n as int) == decimal(n),
{
}

} // verus!
