//! Human-readable byte sizes.
//!
//! Sizes are shown in binary (1024-based) units with the familiar `KB/MB/GB`
//! labels. The value being scaled is the byte count as a 64-bit float holds
//! it, which matters only for counts of 2^53 bytes and more.

use vstd::arithmetic::div_mod::*;
use vstd::arithmetic::power2::*;
use vstd::prelude::*;

use crate::text::{dec_digits, digit, digit_char, push_char, push_decimal};

verus! {

/// `1024^k`.
pub open spec fn kib_pow(k: nat) -> nat
    decreases k,
{
    if k == 0 {
        1
    } else {
        1024 * kib_pow((k - 1) as nat)
    }
}

/// How many low bits of `n` do not fit in the 53-bit significand of a float.
pub open spec fn excess_bits(n: nat) -> nat
    decreases n,
{
    if n < 0x20_0000_0000_0000 {
        0
    } else {
        1 + excess_bits(n / 2)
    }
}

/// `num / den` rounded to the nearest integer, ties to the even one.
pub open spec fn div_round_even(num: nat, den: nat) -> nat {
    let q = num / den;
    let r = num % den;
    if 2 * r > den || (2 * r == den && q % 2 == 1) {
        q + 1
    } else {
        q
    }
}

/// The integer value of `n` converted to a 64-bit float (round to nearest,
/// ties to even).
pub open spec fn as_f64_integer(n: nat) -> nat {
    let u = pow2(excess_bits(n));
    div_round_even(n, u) * u
}

/// The unit index (0 = bytes … 5 = petabytes) used for `v`.
pub open spec fn size_unit(v: nat) -> nat {
    if v < kib_pow(1) {
        0
    } else if v < kib_pow(2) {
        1
    } else if v < kib_pow(3) {
        2
    } else if v < kib_pow(4) {
        3
    } else if v < kib_pow(5) {
        4
    } else {
        5
    }
}

/// `v / den` written with exactly one decimal, rounded to nearest with ties
/// to even (the behaviour of `{:.1}` on the exact quotient).
pub open spec fn one_decimal(v: nat, den: nat) -> Seq<char> {
    let t = div_round_even(10 * v, den);
    dec_digits(t / 10) + seq!['.', digit_char(t % 10)]
}

/// The single-letter unit label for unit index `k` (`B`, `K`, … `P`).
pub open spec fn unit_letter(k: nat) -> char {
    if k == 0 {
        'B'
    } else if k == 1 {
        'K'
    } else if k == 2 {
        'M'
    } else if k == 3 {
        'G'
    } else if k == 4 {
        'T'
    } else {
        'P'
    }
}

/// The spaced label (`B`, `KB`, `MB`, …).
pub open spec fn wide_label(k: nat) -> Seq<char> {
    if k == 0 {
        seq!['B']
    } else {
        seq![unit_letter(k), 'B']
    }
}

/// What `human_size` renders for a count of `b` bytes.
pub open spec fn spec_human_size(b: nat) -> Seq<char> {
    if b < 1024 {
        dec_digits(b) + seq![' ', 'B']
    } else {
        let v = as_f64_integer(b);
        let k = size_unit(v);
        one_decimal(v, kib_pow(k)) + seq![' '] + wide_label(k)
    }
}

/// What `human_size_narrow` renders for a count of `b` bytes: a value whose
/// one-decimal form ends in `.0` shows the whole number alone (`4.0K` is
/// `4K`, and 2007 bytes, `2.0K` at one decimal, is `2K`).
pub open spec fn spec_human_size_narrow(b: nat) -> Seq<char> {
    if b < 1024 {
        dec_digits(b) + seq!['B']
    } else {
        let v = as_f64_integer(b);
        let k = size_unit(v);
        let t = div_round_even(10 * v, kib_pow(k));
        if t % 10 == 0 {
            dec_digits(t / 10).push(unit_letter(k))
        } else {
            one_decimal(v, kib_pow(k)).push(unit_letter(k))
        }
    }
}

proof fn lemma_kib_pow_values()
    ensures
        kib_pow(0) == 1,
        kib_pow(1) == 1024,
        kib_pow(2) == 1048576,
        kib_pow(3) == 1073741824,
        kib_pow(4) == 1099511627776,
        kib_pow(5) == 1125899906842624,
{
    reveal_with_fuel(kib_pow, 6);
}

/// The byte count as a 64-bit float holds it.
fn f64_integer(n: u64) -> (r: u128)
    ensures
        r == as_f64_integer(n as nat),
        r <= n + 4096,
{
    let mut m: u64 = n;
    let mut u: u128 = 1;
    let ghost mut e: nat = 0;
    proof {
        lemma2_to64();
    }
    while m >= 0x20_0000_0000_0000
        invariant
            u == pow2(e),
            u > 0,
            u <= 4096,
            m == n as nat / u as nat,
            u * m <= n,
            excess_bits(n as nat) == e + excess_bits(m as nat),
        decreases m,
    {
        assert(u < 2048) by (nonlinear_arith)
            requires
                u * m <= n,
                m >= 0x20_0000_0000_0000,
                n < 0x1_0000_0000_0000_0000,
        ;
        proof {
            lemma_div_denominator(n as int, u as int, 2);
            lemma_pow2_unfold(e + 1);
            assert(u * 2 * (m / 2) <= u * m) by (nonlinear_arith)
                requires
                    u > 0,
            ;
        }
        m = m / 2;
        u = u * 2;
        proof {
            e = e + 1;
        }
    }
    let q: u128 = n as u128 / u;
    let r: u128 = n as u128 % u;
    proof {
        lemma_fundamental_div_mod(n as int, u as int);
        assert(q * u <= n) by (nonlinear_arith)
            requires
                n == u * q + r,
                r >= 0,
        ;
        assert((q + 1) * u == q * u + u) by (nonlinear_arith);
    }
    if 2 * r > u || (2 * r == u && q % 2 == 1) {
        (q + 1) * u
    } else {
        q * u
    }
}

/// The unit index for `v`, and `1024` to that power.
fn unit_of(v: u128) -> (res: (u32, u128))
    ensures
        res.0 == size_unit(v as nat),
        res.1 == kib_pow(res.0 as nat),
        res.1 > 0,
{
    proof {
        lemma_kib_pow_values();
    }
    if v < 1024 {
        (0, 1)
    } else if v < 1048576 {
        (1, 1024)
    } else if v < 1073741824 {
        (2, 1048576)
    } else if v < 1099511627776 {
        (3, 1073741824)
    } else if v < 1125899906842624 {
        (4, 1099511627776)
    } else {
        (5, 1125899906842624)
    }
}

fn letter(k: u32) -> (c: char)
    ensures
        c == unit_letter(k as nat),
{
    if k == 0 {
        'B'
    } else if k == 1 {
        'K'
    } else if k == 2 {
        'M'
    } else if k == 3 {
        'G'
    } else if k == 4 {
        'T'
    } else {
        'P'
    }
}

/// `10 * v / den` rounded to the nearest integer, ties to even.
fn tenths(v: u128, den: u128) -> (t: u128)
    requires
        den > 0,
        v < 0x4_0000_0000_0000_0000,
    ensures
        t == div_round_even(10 * v as nat, den as nat),
{
    let num = 10 * v;
    let q = num / den;
    let r = num % den;
    proof {
        lemma_fundamental_div_mod(num as int, den as int);
        assert(q <= num) by (nonlinear_arith)
            requires
                num == den * q + r,
                r >= 0,
                den > 0,
                q >= 0,
        ;
    }
    if 2 * r > den || (2 * r == den && q % 2 == 1) {
        q + 1
    } else {
        q
    }
}

/// Appends `v / den` with one decimal (ties to even).
fn push_one_decimal(s: &mut String, v: u128, den: u128)
    requires
        den > 0,
        v < 0x4_0000_0000_0000_0000,
    ensures
        final(s)@ == old(s)@ + one_decimal(v as nat, den as nat),
{
    let t = tenths(v, den);
    push_decimal(s, t / 10);
    push_char(s, '.');
    push_char(s, digit((t % 10) as u8));
    proof {
        assert(final(s)@ =~= old(s)@ + one_decimal(v as nat, den as nat));
    }
}

/// Renders a byte count as a compact, human-readable string: whole bytes
/// below 1 KiB (`512 B`), otherwise one decimal and a binary unit
/// (`1.5 KB`, `3.0 MB`), capped at `PB`.
pub fn human_size(bytes: u64) -> (res: String)
    ensures
        res@ == spec_human_size(bytes as nat),
{
    let mut out = String::new();
    if bytes < 1024 {
        push_decimal(&mut out, bytes as u128);
        push_char(&mut out, ' ');
        push_char(&mut out, 'B');
        assert(out@ =~= spec_human_size(bytes as nat));
        return out;
    }
    let v = f64_integer(bytes);
    let (k, den) = unit_of(v);
    push_one_decimal(&mut out, v, den);
    push_char(&mut out, ' ');
    if k != 0 {
        push_char(&mut out, letter(k));
    }
    push_char(&mut out, 'B');
    assert(out@ =~= spec_human_size(bytes as nat));
    out
}

/// Renders a byte count in a narrow form for a sidebar column: no space and a
/// single-letter unit (`900B`, `12K`, `1.5K`); a value that shows `.0` at
/// one decimal drops the decimal (`4.0K` becomes `4K`).
pub fn human_size_narrow(bytes: u64) -> (res: String)
    ensures
        res@ == spec_human_size_narrow(bytes as nat),
{
    let mut out = String::new();
    if bytes < 1024 {
        push_decimal(&mut out, bytes as u128);
        push_char(&mut out, 'B');
        assert(out@ =~= spec_human_size_narrow(bytes as nat));
        return out;
    }
    let v = f64_integer(bytes);
    let (k, den) = unit_of(v);
    let t = tenths(v, den);
    if t % 10 == 0 {
        push_decimal(&mut out, t / 10);
    } else {
        push_one_decimal(&mut out, v, den);
    }
    push_char(&mut out, letter(k));
    assert(out@ =~= spec_human_size_narrow(bytes as nat));
    out
}

/// `s` without a trailing `.0`.
pub open spec fn without_zero_decimal(s: Seq<char>) -> Seq<char> {
    if s.len() >= 2 && s[s.len() - 2] == '.' && s[s.len() - 1] == '0' {
        s.subrange(0, s.len() - 2)
    } else {
        s
    }
}

/// The narrow form is the spaced form with the space taken out, the unit cut
/// to its first letter and a trailing `.0` dropped: wherever `human_size`
/// gives the number `n` and the label `u`, `human_size_narrow` gives `n`
/// without `.0`, followed by the first letter of `u`.
pub proof fn narrow_form_follows_spaced_form(b: nat)
    ensures
        exists|n: Seq<char>, u: Seq<char>|
            u.len() > 0 && spec_human_size(b) == n + seq![' '] + u && spec_human_size_narrow(b)
                == without_zero_decimal(n).push(u[0]),
{
    if b < 1024 {
        let n = dec_digits(b);
        lemma_dec_digits_has_no_point(b);
        assert(spec_human_size(b) == n + seq![' '] + seq!['B']);
        assert(spec_human_size_narrow(b) =~= without_zero_decimal(n).push(seq!['B'][0]));
    } else {
        let v = as_f64_integer(b);
        let k = size_unit(v);
        let t = div_round_even(10 * v, kib_pow(k));
        let n = one_decimal(v, kib_pow(k));
        let u = wide_label(k);
        assert(spec_human_size(b) == n + seq![' '] + u);
        assert(n[n.len() - 2] == '.');
        assert(n.subrange(0, n.len() - 2) =~= dec_digits(t / 10));
        if t % 10 == 0 {
            assert(without_zero_decimal(n) == dec_digits(t / 10));
        } else {
            assert(n[n.len() - 1] != '0');
            assert(without_zero_decimal(n) == n);
        }
        assert(spec_human_size_narrow(b) =~= without_zero_decimal(n).push(u[0]));
    }
}

proof fn lemma_dec_digits_has_no_point(n: nat)
    ensures
        forall|i: int| 0 <= i < dec_digits(n).len() ==> #[trigger] dec_digits(n)[i] != '.',
        dec_digits(n).len() >= 1,
    decreases n,
{
    if n >= 10 {
        lemma_dec_digits_has_no_point(n / 10);
        assert forall|i: int| 0 <= i < dec_digits(n).len() implies #[trigger] dec_digits(n)[i] != '.' by {
            if i < dec_digits(n / 10).len() {
                assert(dec_digits(n)[i] == dec_digits(n / 10)[i]);
            }
        }
    }
}

} // verus!
