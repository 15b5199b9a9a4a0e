//! Checksums of chunks and files, and the texts that show sizes, speeds and times.
use vstd::prelude::*;
use vstd::arithmetic::power2::pow2;
use sha2::{Digest, Sha256};
use crate::utils::text::{decimal, digit, digit_char, push_char, push_decimal, push_two_digits, two_digits};

verus! {

/// The CRC-32 (IEEE) checksum of `data`, as `crc32fast` computes it.
pub uninterp spec fn crc32_of(data: Seq<u8>) -> u32;

/// The CRC-32 checksum of a chunk (`crc32fast::hash`, the same as feeding `data` to a fresh
/// `crc32fast::Hasher` and finalizing it). Claimed: the result is a function of the bytes alone.
#[verifier::external_body]
pub fn calculate_crc32(data: &[u8]) -> (crc: u32)
    ensures
        crc == crc32_of(data@),
{
    crc32fast::hash(data)
}

/// A `sha2::Sha256` hasher. Its type is an alias of a generic wrapper whose parameters Verus
/// cannot declare, so it is held here opaquely; what it has been fed is named below.
#[verifier::external_body]
pub struct Sha256State {
    hasher: Sha256,
}

/// The SHA-256 digest of `data`.
pub uninterp spec fn sha256_digest(data: Seq<u8>) -> Seq<u8>;

/// The bytes fed to a SHA-256 hasher so far.
pub uninterp spec fn sha256_input(h: Sha256State) -> Seq<u8>;

/// `Sha256::new`: a hasher that has been fed nothing.
#[verifier::external_body]
fn sha256_new() -> (h: Sha256State)
    ensures
        sha256_input(h) == Seq::<u8>::empty(),
{
    Sha256State { hasher: Sha256::new() }
}

/// `Digest::update`: feeds `data` to the hasher after what it was fed before.
#[verifier::external_body]
fn sha256_update(h: &mut Sha256State, data: &[u8])
    ensures
        sha256_input(*final(h)) == sha256_input(*old(h)) + data@,
{
    h.hasher.update(data)
}

/// `Digest::finalize`: the 32-byte digest of everything the hasher was fed.
#[verifier::external_body]
fn sha256_finalize(h: Sha256State) -> (d: Vec<u8>)
    ensures
        d@ == sha256_digest(sha256_input(h)),
        d@.len() == 32,
{
    h.hasher.finalize().to_vec()
}

/// Lower-case hexadecimal text of a byte string, two digits per byte.
pub open spec fn hex_bytes(b: Seq<u8>) -> Seq<char>
    decreases b.len(),
{
    if b.len() == 0 {
        Seq::empty()
    } else {
        hex_bytes(b.drop_last()) + seq![digit_char(b.last() as nat / 16), digit_char(b.last() as nat % 16)]
    }
}

/// Lower-case hexadecimal text of `bytes`, as `format!("{:x}", digest)` writes a digest.
pub fn bytes_to_hex(bytes: &[u8]) -> (s: String)
    ensures
        s@ == hex_bytes(bytes@),
{
    let mut s = String::new();
    let mut i: usize = 0;
    while i < bytes.len()
        invariant
            i <= bytes@.len(),
            s@ == hex_bytes(bytes@.take(i as int)),
        decreases bytes@.len() - i,
    {
        let b = bytes[i];
        push_char(&mut s, digit((b / 16) as u64));
        push_char(&mut s, digit((b % 16) as u64));
        assert(bytes@.take(i + 1).drop_last() =~= bytes@.take(i as int));
        assert(s@ =~= hex_bytes(bytes@.take(i + 1)));
        i = i + 1;
    }
    assert(bytes@.take(bytes@.len() as int) =~= bytes@);
    s
}

/// A SHA-256 computation over data that arrives piece by piece, such as a file read in blocks.
pub struct Sha256Stream {
    hasher: Sha256State,
}

impl Sha256Stream {
    /// The bytes fed so far.
    pub closed spec fn consumed(&self) -> Seq<u8> {
        sha256_input(self.hasher)
    }

    pub fn new() -> (st: Self)
        ensures
            st.consumed() == Seq::<u8>::empty(),
    {
        Sha256Stream { hasher: sha256_new() }
    }

    /// Feeds the next piece.
    pub fn update(&mut self, data: &[u8])
        ensures
            final(self).consumed() == old(self).consumed() + data@,
    {
        sha256_update(&mut self.hasher, data);
    }

    /// The digest of everything fed, in lower-case hexadecimal (64 characters).
    pub fn finish_hex(self) -> (s: String)
        ensures
            s@ == hex_bytes(sha256_digest(self.consumed())),
    {
        let d = sha256_finalize(self.hasher);
        bytes_to_hex(d.as_slice())
    }
}

/// The remaining-time text: `--` for zero, else `H:MM:SS`, `M:SS` or `Ss`.
pub open spec fn eta_text(seconds: nat) -> Seq<char> {
    let hours = seconds / 3600;
    let minutes = (seconds % 3600) / 60;
    let secs = seconds % 60;
    if seconds == 0 {
        seq!['-', '-']
    } else if hours > 0 {
        decimal(hours) + seq![':'] + two_digits(minutes) + seq![':'] + two_digits(secs)
    } else if minutes > 0 {
        decimal(minutes) + seq![':'] + two_digits(secs)
    } else {
        decimal(secs).push('s')
    }
}

/// The number that a string of decimal digits denotes.
pub open spec fn decimal_value(s: Seq<char>) -> nat
    decreases s.len(),
{
    if s.len() == 0 {
        0
    } else {
        decimal_value(s.drop_last()) * 10 + (s.last() as int - 48) as nat
    }
}

pub open spec fn is_decimal_digit(c: char) -> bool {
    48 <= c as int <= 57
}

proof fn lemma_decimal_reads_back(n: nat)
    ensures
        decimal_value(decimal(n)) == n,
        decimal(n).len() > 0,
        forall|i: int| 0 <= i < decimal(n).len() ==> is_decimal_digit(#[trigger] decimal(n)[i]),
        n < 10 ==> decimal(n).len() == 1,
        10 <= n < 100 ==> decimal(n).len() == 2,
    decreases n,
{
    if n < 10 {
        assert(decimal(n) == seq![digit_char(n)]);
        assert(decimal(n).drop_last() =~= Seq::<char>::empty());
        assert(decimal_value(decimal(n).drop_last()) == 0);
    } else {
        vstd::arithmetic::div_mod::lemma_div_decreases(n as int, 10);
        lemma_decimal_reads_back(n / 10);
        let h = decimal(n / 10);
        assert(decimal(n) == h.push(digit_char(n % 10)));
        assert(decimal(n).drop_last() =~= h);
        assert forall|i: int| 0 <= i < decimal(n).len() implies is_decimal_digit(#[trigger] decimal(n)[i]) by {
            if i < h.len() {
                assert(decimal(n)[i] == h[i]);
            }
        }
    }
}

proof fn lemma_two_digits_read_back(n: nat)
    requires
        n < 100,
    ensures
        two_digits(n).len() == 2,
        decimal_value(two_digits(n)) == n,
        forall|i: int| 0 <= i < 2 ==> is_decimal_digit(#[trigger] two_digits(n)[i]),
{
    lemma_decimal_reads_back(n);
    if n < 10 {
        let t = two_digits(n);
        assert(t.drop_last() =~= seq!['0']);
        assert(seq!['0'].drop_last() =~= Seq::<char>::empty());
        reveal_with_fuel(decimal_value, 3);
        assert(decimal_value(seq!['0']) == 0);
    }
}

/// Different remaining times never render alike.
pub proof fn lemma_eta_text_injective(a: nat, b: nat)
    requires
        eta_text(a) == eta_text(b),
    ensures
        a == b,
{
    lemma_eta_text_shape(a);
    lemma_eta_text_shape(b);
}

/// How the remaining-time text determines the time: which form it has, and the numbers its
/// parts read back as.
proof fn lemma_eta_text_shape(a: nat)
    ensures
        ({
            let t = eta_text(a);
            let n = t.len() as int;
            &&& (a == 0 <==> (t.len() > 0 && t[0] == '-'))
            &&& a == 0 ==> t == seq!['-', '-']
            &&& (a != 0 && a < 60) <==> (t.len() > 0 && t[0] != '-' && t.last() == 's')
            &&& (a != 0 && a < 60) ==> decimal_value(t.drop_last()) == a
            &&& (60 <= a < 3600) <==> (t.len() > 0 && t[0] != '-' && t.last() != 's' && n <= 5)
            &&& (60 <= a < 3600) ==> a == decimal_value(t.take(n - 3)) * 60 + decimal_value(t.subrange(n - 2, n))
            &&& (3600 <= a) <==> (t.len() > 0 && t[0] != '-' && t.last() != 's' && n >= 7)
            &&& (3600 <= a) ==> a == decimal_value(t.take(n - 6)) * 3600 + decimal_value(t.subrange(n - 5, n - 3)) * 60
                + decimal_value(t.subrange(n - 2, n))
        }),
{
    let t = eta_text(a);
    let hours = a / 3600;
    let minutes = (a % 3600) / 60;
    let secs = a % 60;
    assert(a == hours * 3600 + minutes * 60 + secs);
    lemma_decimal_reads_back(hours);
    lemma_decimal_reads_back(minutes);
    lemma_decimal_reads_back(secs);
    if a == 0 {
    } else if hours > 0 {
        lemma_two_digits_read_back(minutes);
        lemma_two_digits_read_back(secs);
        let d = decimal(hours);
        let n = t.len() as int;
        assert(t == d + seq![':'] + two_digits(minutes) + seq![':'] + two_digits(secs));
        assert(t.take(n - 6) =~= d);
        assert(t.subrange(n - 5, n - 3) =~= two_digits(minutes));
        assert(t.subrange(n - 2, n) =~= two_digits(secs));
        assert(t[0] == d[0]);
        assert(t.last() == two_digits(secs)[1]);
    } else if minutes > 0 {
        lemma_two_digits_read_back(secs);
        let d = decimal(minutes);
        let n = t.len() as int;
        assert(t == d + seq![':'] + two_digits(secs));
        assert(t.take(n - 3) =~= d);
        assert(t.subrange(n - 2, n) =~= two_digits(secs));
        assert(t[0] == d[0]);
        assert(t.last() == two_digits(secs)[1]);
    } else {
        let d = decimal(secs);
        assert(t == d.push('s'));
        assert(t.drop_last() =~= d);
        assert(t[0] == d[0]);
    }
}

/// Renders a remaining time in seconds.
pub fn format_eta(seconds: u64) -> (s: String)
    ensures
        s@ == eta_text(seconds as nat),
{
    let mut s = String::new();
    if seconds == 0 {
        push_char(&mut s, '-');
        push_char(&mut s, '-');
        assert(s@ =~= eta_text(seconds as nat));
        return s;
    }
    let hours = seconds / 3600;
    let minutes = (seconds % 3600) / 60;
    let secs = seconds % 60;
    if hours > 0 {
        push_decimal(&mut s, hours);
        push_char(&mut s, ':');
        push_two_digits(&mut s, minutes);
        push_char(&mut s, ':');
        push_two_digits(&mut s, secs);
    } else if minutes > 0 {
        push_decimal(&mut s, minutes);
        push_char(&mut s, ':');
        push_two_digits(&mut s, secs);
    } else {
        push_decimal(&mut s, secs);
        push_char(&mut s, 's');
    }
    assert(s@ =~= eta_text(seconds as nat));
    s
}


/// Number of low bits that `n as f64` drops: the halvings that bring `n` below 2^53.
pub open spec fn f64_shift(n: nat) -> nat
    decreases n,
{
    if n < 0x20_0000_0000_0000 {
        0
    } else {
        1 + f64_shift(n / 2)
    }
}

/// The value of `n as f64`: `n` rounded to 53 significant bits, ties to even.
pub open spec fn f64_of(n: nat) -> nat {
    let p = pow2(f64_shift(n));
    let m = n / p;
    let r = n % p;
    if r * 2 > p || (r * 2 == p && m % 2 == 1) {
        (m + 1) * p
    } else {
        m * p
    }
}

/// `a / d` rounded to the nearest integer, ties to even.
pub open spec fn round_half_even(a: nat, d: nat) -> nat {
    let q = a / d;
    let r = a % d;
    if r * 2 > d || (r * 2 == d && q % 2 == 1) {
        q + 1
    } else {
        q
    }
}

/// `x / 2^k` written with one (`two == false`) or two decimals, as `{:.1}` / `{:.2}` write it.
pub open spec fn fixed_text(x: nat, k: nat, two: bool) -> Seq<char> {
    let scale: nat = if two { 100 } else { 10 };
    let q = round_half_even(x * scale, pow2(k));
    decimal(q / scale) + seq!['.'] + (if two { two_digits(q % 100) } else { seq![digit_char(q % 10)] })
}

/// Text of a byte count: bytes below 1 KiB, else KB, MB or GB with one, one or two decimals.
pub open spec fn size_text(bytes: nat) -> Seq<char> {
    if bytes < 1024 {
        decimal(bytes) + seq![' ', 'B']
    } else if bytes < 0x10_0000 {
        fixed_text(f64_of(bytes), 10, false) + seq![' ', 'K', 'B']
    } else if bytes < 0x4000_0000 {
        fixed_text(f64_of(bytes), 20, false) + seq![' ', 'M', 'B']
    } else {
        fixed_text(f64_of(bytes), 30, true) + seq![' ', 'G', 'B']
    }
}

/// Text of a transfer rate: B/s below 1 KiB/s, else KB/s or MB/s with one decimal.
pub open spec fn speed_text(bytes_per_second: nat) -> Seq<char> {
    if bytes_per_second < 1024 {
        decimal(bytes_per_second) + seq![' ', 'B', '/', 's']
    } else if bytes_per_second < 0x10_0000 {
        fixed_text(f64_of(bytes_per_second), 10, false) + seq![' ', 'K', 'B', '/', 's']
    } else {
        fixed_text(f64_of(bytes_per_second), 20, false) + seq![' ', 'M', 'B', '/', 's']
    }
}

proof fn lemma_shift_step(n: nat, e: nat)
    requires
        n / pow2(e) >= 0x20_0000_0000_0000,
    ensures
        f64_shift(n / pow2(e)) == 1 + f64_shift(n / pow2(e + 1)),
{
    vstd::arithmetic::power2::lemma_pow2_pos(e);
    vstd::arithmetic::power2::lemma_pow2_unfold(e + 1);
    vstd::arithmetic::div_mod::lemma_div_denominator(n as int, pow2(e) as int, 2);
    assert(pow2(e) * 2 == pow2(e + 1)) by (nonlinear_arith)
        requires
            pow2(e + 1) == 2 * pow2(e),
    ;
}

/// The value of `n as f64`, exactly.
fn f64_value(n: u64) -> (v: u128)
    ensures
        v == f64_of(n as nat),
        v <= 0x1_0000_0000_0000_0000,
{
    let big: u128 = 0x20_0000_0000_0000;
    let x: u128 = n as u128;
    let mut p: u128 = 1;
    let ghost mut e: nat = 0;
    proof {
        vstd::arithmetic::power2::lemma2_to64();
    }
    while x / p >= big
        invariant
            big == 0x20_0000_0000_0000,
            x == n,
            p == pow2(e),
            1 <= p <= 0x1000,
            f64_shift(n as nat) == e + f64_shift((n as nat) / p as nat),
        decreases x / p,
    {
        proof {
            lemma_shift_step(n as nat, e);
            vstd::arithmetic::power2::lemma_pow2_unfold(e + 1);
            assert(p <= 0x800) by (nonlinear_arith)
                requires
                    x / p >= 0x20_0000_0000_0000,
                    x < 0x1_0000_0000_0000_0000,
                    p >= 1,
            ;
            vstd::arithmetic::div_mod::lemma_div_is_ordered_by_denominator(x as int, p as int, (p * 2) as int);
            vstd::arithmetic::div_mod::lemma_div_decreases((x / p) as int, 2);
            vstd::arithmetic::div_mod::lemma_div_denominator(x as int, p as int, 2);
        }
        p = p * 2;
        proof {
            e = e + 1;
        }
    }
    assert(f64_shift((n as nat) / p as nat) == 0);
    let m = x / p;
    let r = x % p;
    proof {
        vstd::arithmetic::div_mod::lemma_fundamental_div_mod(x as int, p as int);
        vstd::arithmetic::div_mod::lemma_mod_pos_bound(x as int, p as int);
        assert(m * p <= x) by (nonlinear_arith)
            requires
                x == p * m + r,
                r >= 0,
        ;
        assert((m + 1) * p <= x + p) by (nonlinear_arith)
            requires
                m * p <= x,
        ;
    }
    if r * 2 > p || (r * 2 == p && m % 2 == 1) {
        proof {
            assert(e <= 64) by {
                if e > 64 {
                    vstd::arithmetic::power2::lemma_pow2_strictly_increases(12, e);
                    vstd::arithmetic::power2::lemma2_to64();
                    vstd::arithmetic::power2::lemma_pow2_adds(12, 0);
                }
            }
            vstd::arithmetic::power2::lemma_pow2_adds(e, (64 - e) as nat);
            vstd::arithmetic::power2::lemma2_to64();
            let k = pow2((64 - e) as nat);
            assert(p * k == 0x1_0000_0000_0000_0000);
            assert((m + 1) * p <= 0x1_0000_0000_0000_0000) by (nonlinear_arith)
                requires
                    m * p <= x,
                    x < 0x1_0000_0000_0000_0000,
                    p * k == 0x1_0000_0000_0000_0000,
                    p >= 1,
            ;
        }
        (m + 1) * p
    } else {
        m * p
    }
}


/// Appends `x / 2^k` with one or two decimals.
fn push_fixed(s: &mut String, x: u128, k: u32, two: bool)
    requires
        x <= 0x1_0000_0000_0000_0000,
        k == 10 || k == 20 || k == 30,
    ensures
        final(s)@ == old(s)@ + fixed_text(x as nat, k as nat, two),
{
    proof {
        vstd::arithmetic::power2::lemma2_to64();
    }
    let d: u128 = if k == 10 {
        0x400
    } else if k == 20 {
        0x10_0000
    } else {
        0x4000_0000
    };
    assert(d == pow2(k as nat));
    let scale: u128 = if two { 100 } else { 10 };
    let a = x * scale;
    let q0 = a / d;
    let r = a % d;
    let q = if r * 2 > d || (r * 2 == d && q0 % 2 == 1) { q0 + 1 } else { q0 };
    proof {
        assert(a <= 0x64_0000_0000_0000_0000int) by (nonlinear_arith)
            requires
                a == x * scale,
                x <= 0x1_0000_0000_0000_0000,
                scale <= 100,
        ;
        assert(0x64_0000_0000_0000_0000int == 0x400 * 0x1900_0000_0000_0000int);
        vstd::arithmetic::div_mod::lemma_div_multiples_vanish(0x1900_0000_0000_0000int, 0x400);
        assert(0x64_0000_0000_0000_0000int / 0x400 == 0x1900_0000_0000_0000int);
        vstd::arithmetic::div_mod::lemma_div_is_ordered_by_denominator(a as int, 0x400, d as int);
        vstd::arithmetic::div_mod::lemma_div_is_ordered(a as int, 0x64_0000_0000_0000_0000int, 0x400);
    }
    assert(q < 0x2000_0000_0000_0000);
    let whole = q / scale;
    push_decimal(s, whole as u64);
    push_char(s, '.');
    if two {
        push_two_digits(s, (q % 100) as u64);
    } else {
        push_char(s, digit((q % 10) as u64));
    }
    assert(s@ =~= old(s)@ + fixed_text(x as nat, k as nat, two));
}

/// Renders a byte count, as `format_size` in the settings and transfer views shows it.
pub fn format_size(bytes: u64) -> (s: String)
    ensures
        s@ == size_text(bytes as nat),
{
    let mut s = String::new();
    if bytes < 1024 {
        push_decimal(&mut s, bytes);
        push_char(&mut s, ' ');
        push_char(&mut s, 'B');
    } else if bytes < 0x10_0000 {
        push_fixed(&mut s, f64_value(bytes), 10, false);
        push_char(&mut s, ' ');
        push_char(&mut s, 'K');
        push_char(&mut s, 'B');
    } else if bytes < 0x4000_0000 {
        push_fixed(&mut s, f64_value(bytes), 20, false);
        push_char(&mut s, ' ');
        push_char(&mut s, 'M');
        push_char(&mut s, 'B');
    } else {
        push_fixed(&mut s, f64_value(bytes), 30, true);
        push_char(&mut s, ' ');
        push_char(&mut s, 'G');
        push_char(&mut s, 'B');
    }
    assert(s@ =~= size_text(bytes as nat));
    s
}

/// Renders a transfer rate given in bytes per second.
pub fn format_speed(bytes_per_second: u64) -> (s: String)
    ensures
        s@ == speed_text(bytes_per_second as nat),
{
    let mut s = String::new();
    if bytes_per_second < 1024 {
        push_decimal(&mut s, bytes_per_second);
    } else if bytes_per_second < 0x10_0000 {
        push_fixed(&mut s, f64_value(bytes_per_second), 10, false);
        push_char(&mut s, ' ');
        push_char(&mut s, 'K');
    } else {
        push_fixed(&mut s, f64_value(bytes_per_second), 20, false);
        push_char(&mut s, ' ');
        push_char(&mut s, 'M');
    }
    if bytes_per_second < 1024 {
        push_char(&mut s, ' ');
    }
    push_char(&mut s, 'B');
    push_char(&mut s, '/');
    push_char(&mut s, 's');
    assert(s@ =~= speed_text(bytes_per_second as nat));
    s
}

} // verus!
