//! Sizes in human-readable notation, such as the `1GiB` that the heap defaults
//! to.

use crate::text;
use vstd::prelude::*;
use vstd::string::StrSliceExecFns;

verus! {

/// The characters that count as white space.
pub open spec fn is_space(c: char) -> bool {
    let n = c as u32;
    ||| 0x09 <= n <= 0x0d
    ||| n == 0x20
    ||| n == 0x85
    ||| n == 0xa0
    ||| n == 0x1680
    ||| 0x2000 <= n <= 0x200a
    ||| n == 0x2028
    ||| n == 0x2029
    ||| n == 0x202f
    ||| n == 0x205f
    ||| n == 0x3000
}

/// `s` without white space at its end.
pub open spec fn trim_end(s: Seq<char>) -> Seq<char>
    decreases s.len(),
{
    if s.len() > 0 && is_space(s.last()) {
        trim_end(s.drop_last())
    } else {
        s
    }
}

/// `s` without white space at its start.
pub open spec fn trim_start(s: Seq<char>) -> Seq<char>
    decreases s.len(),
{
    if s.len() > 0 && is_space(s[0]) {
        trim_start(s.subrange(1, s.len() as int))
    } else {
        s
    }
}

/// `s` without white space around it.
pub open spec fn trimmed(s: Seq<char>) -> Seq<char> {
    trim_start(trim_end(s))
}

/// The number that the decimal digits `s` stand for, after `acc`; `None` if
/// one of them is not a digit.
pub open spec fn digits_value(s: Seq<char>, acc: nat) -> Option<nat>
    decreases s.len(),
{
    if s.len() == 0 {
        Some(acc)
    } else if '0' <= s[0] <= '9' {
        digits_value(s.subrange(1, s.len() as int), acc * 10 + (s[0] as u32 - '0' as u32) as nat)
    } else {
        None
    }
}

/// The number that `s` stands for: decimal digits, at least one, after a plus
/// sign or without one.
pub open spec fn number(s: Seq<char>) -> Option<nat> {
    let d = if s.len() > 0 && s[0] == '+' {
        s.subrange(1, s.len() as int)
    } else {
        s
    };
    if d.len() == 0 {
        None
    } else {
        digits_value(d, 0)
    }
}

/// The power of 1024 or 1000 that a unit's first letter stands for.
pub open spec fn letter_power(c: char) -> Option<nat> {
    if c == 'K' {
        Some(1)
    } else if c == 'M' {
        Some(2)
    } else if c == 'G' {
        Some(3)
    } else if c == 'T' {
        Some(4)
    } else {
        None
    }
}

/// `b` to the power `n`, for the powers that units have.
pub open spec fn power(b: nat, n: nat) -> nat
    decreases n,
{
    if n == 0 {
        1
    } else {
        b * power(b, (n - 1) as nat)
    }
}

/// The unit at the end of `s`: how many characters it takes and how many bytes
/// it stands for. `KiB`, `MiB`, `GiB` and `TiB` are powers of 1024; `KB`, `MB`,
/// `GB` and `TB` powers of 1000; `B`, or no unit, is bytes.
pub open spec fn unit(s: Seq<char>) -> (nat, nat) {
    let n = s.len() as int;
    if n >= 1 && s[n - 1] == 'B' {
        if n >= 3 && s[n - 2] == 'i' && letter_power(s[n - 3]) is Some {
            (3, power(1024, letter_power(s[n - 3])->0))
        } else if n >= 2 && letter_power(s[n - 2]) is Some {
            (2, power(1000, letter_power(s[n - 2])->0))
        } else {
            (1, 1)
        }
    } else {
        (0, 1)
    }
}

/// The number of bytes that `s` stands for, if it is a size.
pub open spec fn spec_size(s: Seq<char>) -> Option<nat> {
    let t = trimmed(s);
    let (k, bytes) = unit(t);
    match number(trimmed(t.subrange(0, t.len() - k))) {
        Some(n) => Some(n * bytes),
        None => None,
    }
}

/// Parse a size: a number, white space and a unit. `None` if `input` is not a
/// size, or if it does not fit in a `usize`.
pub fn parse_size(input: &str) -> (r: Option<usize>)
    ensures
        r == match spec_size(input@) {
            Some(n) => if n <= usize::MAX {
                Some(n as usize)
            } else {
                None
            },
            None => None,
        },
{
    let s = trim(to_chars(input));
    let (k, bytes) = unit_of(&s);
    let n: usize = s.len();
    let digits = trim(copy(&s, 0, n - k));
    match parse_number(&digits) {
        Some(value) => {
            proof {
                lemma_product(value as nat, bytes as nat);
            }
            let size: u128 = value as u128 * bytes as u128;
            if size <= usize::MAX as u128 {
                Some(size as usize)
            } else {
                None
            }
        },
        None => {
            proof {
                if let Some(v) = number(digits@) {
                    assert(v * bytes >= v) by (nonlinear_arith)
                        requires
                            bytes >= 1,
                    ;
                }
            }
            None
        },
    }
}

/// A number below 2^64 of units of at most 2^40 bytes is below 2^104.
proof fn lemma_product(a: nat, b: nat)
    requires
        a <= u64::MAX,
        b <= 0x100_0000_0000,
    ensures
        a * b <= u128::MAX,
{
    assert(a * b <= u64::MAX * 0x100_0000_0000) by (nonlinear_arith)
        requires
            a <= u64::MAX,
            b <= 0x100_0000_0000,
    ;
}

fn to_chars(s: &str) -> (r: Vec<char>)
    ensures
        r@ == s@,
{
    let n: usize = s.unicode_len();
    let mut out: Vec<char> = Vec::new();
    let mut i: usize = 0;
    while i < n
        invariant
            n == s@.len(),
            i <= n,
            out@ == s@.subrange(0, i as int),
        decreases n - i,
    {
        out.push(s.get_char(i));
        i = i + 1;
        assert(out@ =~= s@.subrange(0, i as int));
    }
    assert(out@ =~= s@);
    out
}

/// The characters of `s` from `lo` to `hi`.
fn copy(s: &Vec<char>, lo: usize, hi: usize) -> (r: Vec<char>)
    requires
        lo <= hi <= s@.len(),
    ensures
        r@ == s@.subrange(lo as int, hi as int),
{
    let mut out: Vec<char> = Vec::new();
    let mut i: usize = lo;
    while i < hi
        invariant
            lo <= i <= hi <= s@.len(),
            out@ == s@.subrange(lo as int, i as int),
        decreases hi - i,
    {
        out.push(s[i]);
        i = i + 1;
        assert(out@ =~= s@.subrange(lo as int, i as int));
    }
    out
}

fn space(c: char) -> (r: bool)
    ensures
        r == is_space(c),
{
    let n: u32 = c as u32;
    (0x09 <= n && n <= 0x0d) || n == 0x20 || n == 0x85 || n == 0xa0 || n == 0x1680 || (0x2000 <= n
        && n <= 0x200a) || n == 0x2028 || n == 0x2029 || n == 0x202f || n == 0x205f || n == 0x3000
}

/// The characters of `s` without the white space around them.
fn trim(s: Vec<char>) -> (r: Vec<char>)
    ensures
        r@ == trimmed(s@),
{
    let ghost all = s@;
    let mut s = s;
    let mut more: bool = s.len() > 0 && space(s[s.len() - 1]);
    while more
        invariant
            trim_end(s@) == trim_end(all),
            more == (s@.len() > 0 && is_space(s@.last())),
        decreases s@.len(),
    {
        let _ = s.pop();
        more = s.len() > 0 && space(s[s.len() - 1]);
    }
    let ghost cut = s@;
    assert(cut == trim_end(all));
    let mut lo: usize = 0;
    assert(cut.subrange(0, cut.len() as int) =~= cut);
    while lo < s.len() && space(s[lo])
        invariant
            lo <= s@.len(),
            s@ == cut,
            trim_start(cut.subrange(lo as int, cut.len() as int)) == trim_start(cut),
        decreases s@.len() - lo,
    {
        proof {
            let rest = cut.subrange(lo as int, cut.len() as int);
            assert(rest.subrange(1, rest.len() as int) =~= cut.subrange(
                lo + 1,
                cut.len() as int,
            ));
        }
        lo = lo + 1;
    }
    let n: usize = s.len();
    copy(&s, lo, n)
}

fn power_of(c: char) -> (r: Option<u32>)
    ensures
        match r {
            Some(p) => letter_power(c) == Some(p as nat) && 1 <= p <= 4,
            None => letter_power(c) is None,
        },
{
    if c == 'K' {
        Some(1)
    } else if c == 'M' {
        Some(2)
    } else if c == 'G' {
        Some(3)
    } else if c == 'T' {
        Some(4)
    } else {
        None
    }
}

/// `b` to the power `p`.
fn raise(b: u64, p: u32) -> (r: u64)
    requires
        b == 1000 || b == 1024,
        p <= 4,
    ensures
        r == power(b as nat, p as nat),
        1 <= r <= 0x100_0000_0000,
{
    proof {
        reveal_with_fuel(power, 5);
        lemma_powers();
    }
    if p == 0 {
        1
    } else if p == 1 {
        b
    } else if p == 2 {
        b * b
    } else if p == 3 {
        b * b * b
    } else {
        b * b * b * b
    }
}

proof fn lemma_powers()
    ensures
        power(1024, 0) == 1,
        power(1024, 1) == 1024,
        power(1024, 2) == 0x10_0000,
        power(1024, 3) == 0x4000_0000,
        power(1024, 4) == 0x100_0000_0000,
        power(1000, 0) == 1,
        power(1000, 1) == 1000,
        power(1000, 2) == 1_000_000,
        power(1000, 3) == 1_000_000_000,
        power(1000, 4) == 1_000_000_000_000,
{
    reveal_with_fuel(power, 5);
}

/// The unit at the end of `s`.
fn unit_of(s: &Vec<char>) -> (r: (usize, u64))
    ensures
        r.0 == unit(s@).0,
        r.1 == unit(s@).1,
        r.0 <= s@.len(),
        1 <= r.1 <= 0x100_0000_0000,
{
    let n: usize = s.len();
    if n >= 1 && s[n - 1] == 'B' {
        if n >= 3 && s[n - 2] == 'i' {
            if let Some(p) = power_of(s[n - 3]) {
                return (3, raise(1024, p));
            }
        }
        if n >= 2 {
            if let Some(p) = power_of(s[n - 2]) {
                return (2, raise(1000, p));
            }
        }
        (1, 1)
    } else {
        (0, 1)
    }
}

/// Reading on never makes a number smaller.
proof fn lemma_digits_grow(s: Seq<char>, acc: nat)
    ensures
        digits_value(s, acc) matches Some(v) ==> v >= acc,
    decreases s.len(),
{
    if s.len() > 0 && '0' <= s[0] <= '9' {
        lemma_digits_grow(
            s.subrange(1, s.len() as int),
            acc * 10 + (s[0] as u32 - '0' as u32) as nat,
        );
    }
}

/// The number that the characters `s` stand for; `None` if they are not a
/// number or it does not fit in a `usize`.
fn parse_number(s: &Vec<char>) -> (r: Option<usize>)
    ensures
        r == match number(s@) {
            Some(n) => if n <= usize::MAX {
                Some(n as usize)
            } else {
                None
            },
            None => None,
        },
{
    let n: usize = s.len();
    let start: usize = if n > 0 && s[0] == '+' {
        1
    } else {
        0
    };
    if start == n {
        return None;
    }
    let ghost d = s@.subrange(start as int, n as int);
    assert(start == 0 ==> d =~= s@);
    let mut acc: usize = 0;
    let mut i: usize = start;
    while i < n
        invariant
            start <= i <= n,
            n == s@.len(),
            number(s@) == digits_value(d, 0),
            digits_value(s@.subrange(i as int, n as int), acc as nat) == digits_value(d, 0),
        decreases n - i,
    {
        let ghost rest = s@.subrange(i as int, n as int);
        proof {
            assert(rest[0] == s@[i as int]);
            assert(rest.subrange(1, rest.len() as int) =~= s@.subrange(i + 1, n as int));
            lemma_digits_grow(
                rest.subrange(1, rest.len() as int),
                acc as nat * 10 + (rest[0] as u32 - '0' as u32) as nat,
            );
        }
        let c: char = s[i];
        if c < '0' || c > '9' {
            return None;
        }
        let digit: usize = (c as u32 - '0' as u32) as usize;
        let tens: usize = match acc.checked_mul(10) {
            Some(t) => t,
            None => {
                return None;
            },
        };
        acc = match tens.checked_add(digit) {
            Some(a) => a,
            None => {
                return None;
            },
        };
        i = i + 1;
    }
    Some(acc)
}

/// A further digit makes a number ten times as large and adds to it; anything
/// else makes it none.
pub proof fn law_a_further_digit_counts(d: Seq<char>, c: char, acc: nat)
    ensures
        digits_value(d.push(c), acc) == if digits_value(d, acc) is Some && 48 <= c as int <= 57 {
            Some((10 * digits_value(d, acc)->0 + (c as int - 48)) as nat)
        } else {
            None
        },
    decreases d.len(),
{
    let all = d.push(c);
    if d.len() == 0 {
        assert(all.subrange(1, 1) =~= seq![]);
        assert(digits_value(all.subrange(1, 1), (acc * 10 + (c as int - 48)) as nat) == Some(
            (acc * 10 + (c as int - 48)) as nat,
        ));
    } else {
        let rest = d.subrange(1, d.len() as int);
        assert(all.subrange(1, all.len() as int) =~= rest.push(c));
        if '0' <= d[0] <= '9' {
            law_a_further_digit_counts(rest, c, acc * 10 + (d[0] as u32 - '0' as u32) as nat);
        }
    }
}

/// A number that is written in decimal is read back as itself, and is written
/// without a zero in front.
pub proof fn law_numbers_are_read_back(n: nat)
    ensures
        number(text::decimal(n)) == Some(n),
        n > 0 ==> text::decimal(n)[0] != '0',
{
    lemma_decimal(n);
}

proof fn lemma_decimal(n: nat)
    ensures
        digits_value(text::decimal(n), 0) == Some(n),
        text::decimal(n).len() > 0,
        '0' <= text::decimal(n)[0] <= '9',
        n > 0 ==> text::decimal(n)[0] != '0',
    decreases n,
{
    if n < 10 {
        law_a_further_digit_counts(seq![], text::digit(n as int), 0);
        assert(Seq::<char>::empty().push(text::digit(n as int)) =~= text::decimal(n));
    } else {
        lemma_decimal(n / 10);
        law_a_further_digit_counts(text::decimal(n / 10), text::digit((n % 10) as int), 0);
    }
}

/// Digits alone, and digits before a `B`, are that many bytes. Before `KB`, `MB`,
/// `GB` and `TB` they count thousands, millions and so on; before `KiB`, `MiB`,
/// `GiB` and `TiB` they count 1024 bytes, 1024 times that and so on. White space
/// between the two changes nothing.
pub proof fn law_units(d: Seq<char>, n: nat, sp: Seq<char>)
    requires
        number(d) == Some(n),
        forall|i: int| 0 <= i < sp.len() ==> #[trigger] sp[i] == ' ',
    ensures
        spec_size(d) == Some(n),
        spec_size(d + sp + seq!['B']) == Some(n),
        spec_size(d + sp + seq!['K', 'B']) == Some(n * 1000),
        spec_size(d + sp + seq!['M', 'B']) == Some(n * 1000000),
        spec_size(d + sp + seq!['G', 'B']) == Some(n * 1000000000),
        spec_size(d + sp + seq!['T', 'B']) == Some(n * 1000000000000),
        spec_size(d + sp + seq!['K', 'i', 'B']) == Some(n * 1024),
        spec_size(d + sp + seq!['M', 'i', 'B']) == Some(n * 1048576),
        spec_size(d + sp + seq!['G', 'i', 'B']) == Some(n * 1073741824),
        spec_size(d + sp + seq!['T', 'i', 'B']) == Some(n * 1099511627776),
{
    lemma_number_ends(d);
    lemma_powers();
    lemma_not_spaced(d);
    assert(d.subrange(0, d.len() as int) =~= d);
    assert(unit(d) == (0nat, 1nat));
    assert(n * 1 == n);
    lemma_unit_size(d, n, sp, seq!['B'], 1);
    lemma_unit_size(d, n, sp, seq!['K', 'B'], 1000);
    lemma_unit_size(d, n, sp, seq!['M', 'B'], 1000000);
    lemma_unit_size(d, n, sp, seq!['G', 'B'], 1000000000);
    lemma_unit_size(d, n, sp, seq!['T', 'B'], 1000000000000);
    lemma_unit_size(d, n, sp, seq!['K', 'i', 'B'], 1024);
    lemma_unit_size(d, n, sp, seq!['M', 'i', 'B'], 1048576);
    lemma_unit_size(d, n, sp, seq!['G', 'i', 'B'], 1073741824);
    lemma_unit_size(d, n, sp, seq!['T', 'i', 'B'], 1099511627776);
}

proof fn lemma_unit_size(d: Seq<char>, n: nat, sp: Seq<char>, u: Seq<char>, bytes: nat)
    requires
        number(d) == Some(n),
        d.len() > 0,
        !is_space(d[0]),
        !is_space(d.last()),
        '0' <= d.last() <= '9',
        forall|i: int| 0 <= i < sp.len() ==> #[trigger] sp[i] == ' ',
        1 <= u.len() <= 3,
        u.last() == 'B',
        u.len() == 1 ==> bytes == 1,
        u.len() == 2 ==> letter_power(u[0]) is Some && power(1000, letter_power(u[0])->0) == bytes,
        u.len() == 3 ==> u[1] == 'i' && letter_power(u[0]) is Some && power(
            1024,
            letter_power(u[0])->0,
        ) == bytes,
    ensures
        spec_size(d + sp + u) == Some(n * bytes),
{
    let t = d + sp + u;
    let m: int = d.len() + sp.len() as int;
    lemma_not_spaced(t);
    assert(t[m - 1] == d.last() || t[m - 1] == ' ');
    assert(t[m + u.len() - 1] == 'B');
    assert(u.len() >= 2 ==> t[m] == u[0]);
    assert(u.len() == 3 ==> t[m + 1] == u[1]);
    assert(unit(t) == (u.len(), bytes));
    assert(t.subrange(0, m) =~= d + sp);
    lemma_trailing_spaces(d, sp);
}

/// White space before and after a size changes nothing.
pub proof fn law_space_around_is_ignored(s: Seq<char>, c: char)
    requires
        is_space(c),
    ensures
        spec_size(s.push(c)) == spec_size(s),
        spec_size(seq![c] + s) == spec_size(s),
{
    assert(s.push(c).drop_last() =~= s);
    lemma_leading_space(s, c);
}

proof fn lemma_leading_space(s: Seq<char>, c: char)
    requires
        is_space(c),
    ensures
        trimmed(seq![c] + s) == trimmed(s),
    decreases s.len(),
{
    let all = seq![c] + s;
    if s.len() == 0 {
        assert(all.drop_last() =~= s);
    } else if is_space(s.last()) {
        assert(all.drop_last() =~= seq![c] + s.drop_last());
        lemma_leading_space(s.drop_last(), c);
    } else {
        assert(all.subrange(1, all.len() as int) =~= s);
    }
}

proof fn lemma_not_spaced(s: Seq<char>)
    requires
        s.len() > 0,
        !is_space(s[0]),
        !is_space(s.last()),
    ensures
        trimmed(s) == s,
{
}

proof fn lemma_trailing_spaces(d: Seq<char>, sp: Seq<char>)
    requires
        d.len() > 0,
        !is_space(d[0]),
        !is_space(d.last()),
        forall|i: int| 0 <= i < sp.len() ==> #[trigger] sp[i] == ' ',
    ensures
        trimmed(d + sp) == d,
    decreases sp.len(),
{
    if sp.len() == 0 {
        assert(d + sp =~= d);
    } else {
        assert((d + sp).drop_last() =~= d + sp.drop_last());
        assert((d + sp).last() == sp[sp.len() - 1]);
        lemma_trailing_spaces(d, sp.drop_last());
    }
}

/// A number ends with a digit and has no white space at its start.
proof fn lemma_number_ends(d: Seq<char>)
    requires
        number(d) is Some,
    ensures
        d.len() > 0,
        !is_space(d[0]),
        !is_space(d.last()),
        '0' <= d.last() <= '9',
{
    let t = if d[0] == '+' {
        d.subrange(1, d.len() as int)
    } else {
        d
    };
    assert(t.drop_last().push(t.last()) =~= t);
    law_a_further_digit_counts(t.drop_last(), t.last(), 0);
    assert(t.last() == d.last());
}

} // verus!
