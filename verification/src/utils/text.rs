//! Number rendering used by the transfer protocol and the user interface.
use vstd::prelude::*;
use vstd::string::StrSliceExecFns;

verus! {

/// Appends one character to a string (`String::push`).
#[verifier::external_body]
pub(crate) fn push_char(s: &mut String, c: char)
    ensures
        final(s)@ == old(s)@.push(c),
{
    s.push(c);
}

/// The lower-case character of a digit below sixteen.
pub open spec fn digit_char(d: nat) -> char {
    if d < 10 {
        (d + 48) as char
    } else {
        (d + 87) as char
    }
}

/// Digits of `n` written in `base` (2 to 16), most significant first, no leading zeros.
pub open spec fn radix_digits(n: nat, base: nat) -> Seq<char>
    decreases n,
{
    if base < 2 || n < base {
        seq![digit_char(n)]
    } else {
        proof {
            vstd::arithmetic::div_mod::lemma_div_decreases(n as int, base as int);
        }
        radix_digits(n / base, base).push(digit_char(n % base))
    }
}

/// Decimal text of `n`.
pub open spec fn decimal(n: nat) -> Seq<char> {
    radix_digits(n, 10)
}

/// Lower-case hexadecimal text of `n`, without leading zeros.
pub open spec fn hex_lower(n: nat) -> Seq<char> {
    radix_digits(n, 16)
}

pub(crate) fn digit(d: u64) -> (c: char)
    requires
        d < 16,
    ensures
        c == digit_char(d as nat),
{
    if d < 10 {
        ((d as u8) + 48) as char
    } else {
        ((d as u8) + 87) as char
    }
}

/// Appends the digits of `n` in `base`.
pub(crate) fn push_radix(s: &mut String, n: u64, base: u64)
    requires
        2 <= base <= 16,
    ensures
        final(s)@ == old(s)@ + radix_digits(n as nat, base as nat),
    decreases n,
{
    let ghost start = s@;
    if n >= base {
        proof {
            vstd::arithmetic::div_mod::lemma_div_decreases(n as int, base as int);
        }
        push_radix(s, n / base, base);
    }
    let ghost mid = s@;
    push_char(s, digit(n % base));
    proof {
        if n >= base {
            assert(s@ =~= start + radix_digits(n as nat, base as nat));
        } else {
            vstd::arithmetic::div_mod::lemma_small_mod(n as nat, base as nat);
            assert(s@ =~= start + radix_digits(n as nat, base as nat));
        }
    }
}

} // verus!

verus! {

/// Appends the decimal digits of `n`.
pub(crate) fn push_decimal(s: &mut String, n: u64)
    ensures
        final(s)@ == old(s)@ + decimal(n as nat),
{
    push_radix(s, n, 10);
}

/// Decimal text of `n` with at least two digits (a leading zero below ten).
pub open spec fn two_digits(n: nat) -> Seq<char> {
    if n < 10 {
        seq!['0'].push(digit_char(n))
    } else {
        decimal(n)
    }
}

/// Appends `n` with at least two digits.
pub(crate) fn push_two_digits(s: &mut String, n: u64)
    ensures
        final(s)@ == old(s)@ + two_digits(n as nat),
{
    if n < 10 {
        push_char(s, '0');
        push_char(s, digit(n));
        assert(s@ =~= old(s)@ + two_digits(n as nat));
    } else {
        push_decimal(s, n);
    }
}

/// Lower-case hexadecimal text of `n` without leading zeros, as `format!("{:x}", n)` writes it.
pub fn u32_to_hex(n: u32) -> (s: String)
    ensures
        s@ == hex_lower(n as nat),
{
    let mut s = String::new();
    push_radix(&mut s, n as u64, 16);
    assert(s@ =~= hex_lower(n as nat));
    s
}

/// Value of a hexadecimal digit in either case, or -1 for any other character.
pub open spec fn hex_digit_value(c: char) -> int {
    if 48 <= c as int <= 57 {
        c as int - 48
    } else if 97 <= c as int <= 102 {
        c as int - 87
    } else if 65 <= c as int <= 70 {
        c as int - 55
    } else {
        -1
    }
}

pub open spec fn is_hex_digit(c: char) -> bool {
    hex_digit_value(c) >= 0
}

/// The number that a string of hexadecimal digits denotes.
pub open spec fn hex_number(s: Seq<char>) -> nat
    decreases s.len(),
{
    if s.len() == 0 {
        0
    } else {
        hex_number(s.drop_last()) * 16 + hex_digit_value(s.last()) as nat
    }
}

/// The digits that `u32::from_str_radix(s, 16)` reads: `s` without one leading `+`.
pub open spec fn radix16_body(s: Seq<char>) -> Seq<char> {
    if s.len() > 0 && s[0] == '+' {
        s.drop_first()
    } else {
        s
    }
}

/// What `u32::from_str_radix(s, 16)` gives, as an `Option`: the value of the digits after
/// an optional `+`, when there is at least one, all are hexadecimal and the value fits.
pub open spec fn parse_hex_u32_spec(s: Seq<char>) -> Option<u32> {
    let d = radix16_body(s);
    if d.len() == 0 || (exists|i: int| 0 <= i < d.len() && !is_hex_digit(#[trigger] d[i]))
        || hex_number(d) > u32::MAX {
        None
    } else {
        Some(hex_number(d) as u32)
    }
}

fn hex_digit_value_of(c: char) -> (v: i64)
    ensures
        v == hex_digit_value(c),
{
    if '0' <= c && c <= '9' {
        (c as u32 - 48) as i64
    } else if 'a' <= c && c <= 'f' {
        (c as u32 - 87) as i64
    } else if 'A' <= c && c <= 'F' {
        (c as u32 - 55) as i64
    } else {
        -1
    }
}

/// Reads `s` as a hexadecimal `u32`, as `u32::from_str_radix(s, 16).ok()` does.
pub fn parse_hex_u32(s: &str) -> (r: Option<u32>)
    ensures
        r == parse_hex_u32_spec(s@),
{
    let n = s.unicode_len();
    let mut start: usize = 0;
    if n > 0 && s.get_char(0) == '+' {
        start = 1;
    }
    let ghost d = radix16_body(s@);
    assert(d =~= s@.skip(start as int));
    if start >= n {
        return None;
    }
    let cap: u64 = 0x1_0000_0000;
    let mut acc: u64 = 0;
    let mut i: usize = start;
    while i < n
        invariant
            n == s@.len(),
            start <= i <= n,
            d =~= s@.skip(start as int),
            d == radix16_body(s@),
            cap == 0x1_0000_0000,
            acc == if hex_number(d.take(i - start)) < cap { hex_number(d.take(i - start)) } else { cap as nat },
            forall|j: int| 0 <= j < i - start ==> is_hex_digit(#[trigger] d[j]),
        decreases n - i,
    {
        let c = s.get_char(i);
        let v = hex_digit_value_of(c);
        assert(d[i - start] == c);
        if v < 0 {
            assert(!is_hex_digit(d[i - start]));
            return None;
        }
        let ghost before = d.take(i - start);
        assert(d.take(i - start + 1).drop_last() =~= before);
        assert(d.take(i - start + 1).last() == c);
        assert(0 <= v < 16);
        if acc < cap {
            let next = acc * 16 + (v as u64);
            acc = if next < cap { next } else { cap };
        }
        i = i + 1;
    }
    assert(d.take(n - start) =~= d);
    if acc >= cap {
        None
    } else {
        Some(acc as u32)
    }
}

proof fn lemma_digit_char_value(d: nat)
    requires
        d < 16,
    ensures
        hex_digit_value(digit_char(d)) == d,
        digit_char(d) != '+',
{
}

proof fn lemma_hex_lower_reads_back(n: nat)
    ensures
        hex_number(hex_lower(n)) == n,
        forall|i: int| 0 <= i < hex_lower(n).len() ==> is_hex_digit(#[trigger] hex_lower(n)[i]),
        hex_lower(n).len() > 0,
        hex_lower(n)[0] != '+',
    decreases n,
{
    if n < 16 {
        lemma_digit_char_value(n);
        assert(hex_lower(n) == seq![digit_char(n)]);
        assert(hex_lower(n).drop_last() =~= Seq::<char>::empty());
        assert(hex_number(hex_lower(n).drop_last()) == 0);
    } else {
        vstd::arithmetic::div_mod::lemma_div_decreases(n as int, 16);
        lemma_hex_lower_reads_back(n / 16);
        lemma_digit_char_value(n % 16);
        let h = hex_lower(n / 16);
        assert(hex_lower(n) == h.push(digit_char(n % 16)));
        assert(hex_lower(n).drop_last() =~= h);
        assert forall|i: int| 0 <= i < hex_lower(n).len() implies is_hex_digit(#[trigger] hex_lower(n)[i]) by {
            if i < h.len() {
                assert(hex_lower(n)[i] == h[i]);
            }
        }
        assert(hex_lower(n)[0] == h[0]);
    }
}

/// Reading back the hexadecimal text of a `u32` gives the same number.
pub proof fn lemma_hex_roundtrip(n: u32)
    ensures
        parse_hex_u32_spec(hex_lower(n as nat)) == Some(n),
{
    lemma_hex_lower_reads_back(n as nat);
    assert(radix16_body(hex_lower(n as nat)) == hex_lower(n as nat));
}

} // verus!
