//! Quantities as text.
use vstd::prelude::*;
use crate::text::{decimal, decimal_text};

verus! {

/// `n / d` rounded to the nearest integer, ties to the even one.
pub open spec fn nearest_even(n: nat, d: nat) -> nat {
    let q = n / d;
    let r = n % d;
    if 2 * r < d {
        q
    } else if 2 * r > d {
        q + 1
    } else if q % 2 == 0 {
        q
    } else {
        q + 1
    }
}

/// The unit in which a number of that size keeps fifty-three bits.
pub open spec fn unit_of(n: nat) -> nat
    decreases n,
{
    if n < 0x20_0000_0000_0000 {
        1
    } else {
        2 * unit_of(n / 2)
    }
}

/// `n` as the nearest number of fifty-three bits, ties to the even one: what
/// is left of it in double precision.
pub open spec fn as_double(n: nat) -> nat {
    nearest_even(n, unit_of(n)) * unit_of(n)
}

fn round_even(n: u128, d: u128) -> (r: u128)
    requires
        0 < d < 0x1_0000_0000_0000_0000,
        n < 0x100_0000_0000_0000_0000,
    ensures
        r == nearest_even(n as nat, d as nat),
        r <= n + 1,
{
    let q: u128 = n / d;
    let rest: u128 = n % d;
    assert(q <= n) by (nonlinear_arith)
        requires
            q == n / d,
            d > 0,
            n >= 0,
    ;
    if 2 * rest < d {
        q
    } else if 2 * rest > d {
        q + 1
    } else if q % 2 == 0 {
        q
    } else {
        q + 1
    }
}

proof fn lemma_unit(n: nat)
    requires
        n < 0x1_0000_0000_0000_0000,
    ensures
        1 <= unit_of(n) <= 2048,
{
    reveal_with_fuel(unit_of, 13);
}

fn unit(n: u64) -> (u: u64)
    ensures
        u == unit_of(n as nat),
        1 <= u <= 2048,
{
    let mut v: u64 = n;
    let mut u: u64 = 1;
    proof {
        lemma_unit(n as nat);
    }
    while v >= 0x20_0000_0000_0000
        invariant
            unit_of(n as nat) == u * unit_of(v as nat),
            1 <= unit_of(n as nat) <= 2048,
            1 <= u,
        decreases v,
    {
        proof {
            lemma_unit((v / 2) as nat);
            let w = unit_of((v / 2) as nat);
            assert(u * (2 * w) == (2 * u) * w) by (nonlinear_arith);
            assert(2 * u <= (2 * u) * w) by (nonlinear_arith)
                requires
                    w >= 1,
                    u >= 1,
            ;
        }
        u = u * 2;
        v = v / 2;
    }
    proof {
        let one = unit_of(v as nat);
        assert(u * one == u) by (nonlinear_arith)
            requires
                one == 1,
        ;
    }
    u
}

fn to_double(n: u64) -> (d: u128)
    ensures
        d == as_double(n as nat),
        d <= 0x2_0000_0000_0000_0000,
{
    let u: u64 = unit(n);
    let q: u128 = round_even(n as u128, u as u128);
    proof {
        let k = n / u;
        assert(k * u <= n) by (nonlinear_arith)
            requires
                k == n / u,
                u > 0,
        ;
        assert(q <= k + 1);
        assert(q * u <= k * u + u) by (nonlinear_arith)
            requires
                q <= k + 1,
                u >= 1,
                q >= 0,
        ;
    }
    q * (u as u128)
}

proof fn lemma_small_double(n: nat)
    requires
        n < 0x20_0000_0000_0000,
    ensures
        as_double(n) == n,
{
    assert(unit_of(n) == 1);
    assert(n / 1 == n);
    assert(n % 1 == 0);
    assert(nearest_even(n, 1) == n);
}

/// `v` tenths as a number with one decimal.
pub open spec fn one_decimal(v: nat) -> Seq<char> {
    decimal(v / 10) + "."@ + decimal(v % 10)
}

/// The text of a byte count: gibibytes from one up, with one decimal below
/// ten; else mebibytes, rounded down.
pub open spec fn bytes_text(b: u64) -> Seq<char> {
    let v = as_double(b as nat);
    if v >= 10 * 0x4000_0000 {
        decimal(nearest_even(v, 0x4000_0000)) + "G"@
    } else if v >= 0x4000_0000 {
        one_decimal(nearest_even(v * 10, 0x4000_0000)) + "G"@
    } else {
        decimal((b / 1048576) as nat) + "M"@
    }
}

fn push_number(s: &mut String, n: u64)
    ensures
        final(s)@ == old(s)@ + decimal(n as nat),
{
    let digits = decimal_text(n);
    s.append(digits.as_str());
}

fn push_tenths(s: &mut String, v: u64)
    ensures
        final(s)@ == old(s)@ + one_decimal(v as nat),
{
    let ghost was = s@;
    push_number(s, v / 10);
    s.append(".");
    push_number(s, v % 10);
    assert(s@ =~= was + one_decimal(v as nat));
}

pub fn human_bytes(b: u64) -> (s: String)
    ensures
        s@ == bytes_text(b),
{
    let v: u128 = to_double(b);
    let mut s = String::new();
    let ghost none = s@;
    if v >= 10_737_418_240 {
        let g: u128 = round_even(v, 1_073_741_824);
        proof {
            let q = v / 1_073_741_824;
            assert(g <= q + 1 && q <= 0x10_0000_0000);
        }
        push_number(&mut s, g as u64);
        s.append("G");
    } else if v >= 1_073_741_824 {
        let t: u128 = round_even(v * 10, 1_073_741_824);
        proof {
            let q = (v * 10) / 1_073_741_824;
            assert(t <= q + 1 && q <= 100);
        }
        push_tenths(&mut s, t as u64);
        s.append("G");
    } else {
        push_number(&mut s, b / 1_048_576);
        s.append("M");
    }
    assert(s@ =~= bytes_text(b));
    s
}

/// A byte count, or that it is unknown.
pub open spec fn bytes_or_unknown(b: Option<u64>) -> Seq<char> {
    match b {
        Some(v) => bytes_text(v),
        None => "n/a"@,
    }
}

pub fn bytes_or_na(b: Option<u64>) -> (s: String)
    ensures
        s@ == bytes_or_unknown(b),
{
    match b {
        Some(v) => human_bytes(v),
        None => "n/a".to_owned(),
    }
}

/// A rate given in KiB/s.
pub open spec fn rate_text(v: u64) -> Seq<char> {
    if v >= 1048576 {
        one_decimal(nearest_even(as_double(v as nat) * 10, 1048576)) + "GiB/s"@
    } else if v >= 1024 {
        one_decimal(nearest_even(as_double(v as nat) * 10, 1024)) + "MiB/s"@
    } else {
        decimal(v as nat) + "KiB/s"@
    }
}

pub fn kbs(v: u64) -> (s: String)
    ensures
        s@ == rate_text(v),
{
    let mut s = String::new();
    if v >= 1_048_576 {
        let d: u128 = to_double(v);
        let t: u128 = round_even(d * 10, 1_048_576);
        proof {
            let q = (d * 10) / 1_048_576;
            assert(t <= q + 1 && q <= 0x1_4000_0000_0000);
        }
        push_tenths(&mut s, t as u64);
        s.append("GiB/s");
    } else if v >= 1024 {
        let d: u128 = to_double(v);
        let t: u128 = round_even(d * 10, 1024);
        proof {
            lemma_small_double(v as nat);
            let q = (d * 10) / 1024;
            assert(t <= q + 1);
        }
        push_tenths(&mut s, t as u64);
        s.append("MiB/s");
    } else {
        push_number(&mut s, v);
        s.append("KiB/s");
    }
    assert(s@ =~= rate_text(v));
    s
}

/// The memory readout of a pool: what is unknown of it is said once.
pub open spec fn pool_text(used: Option<u64>, total: Option<u64>) -> Seq<char> {
    if used is None && total is None {
        "n/a"@
    } else {
        bytes_or_unknown(used) + "/"@ + bytes_or_unknown(total)
    }
}

pub fn pool_value(used: Option<u64>, total: Option<u64>) -> (s: String)
    ensures
        s@ == pool_text(used, total),
{
    if used.is_none() && total.is_none() {
        return "n/a".to_owned();
    }
    let mut s = bytes_or_na(used);
    s.append("/");
    let t = bytes_or_na(total);
    s.append(t.as_str());
    assert(s@ =~= pool_text(used, total));
    s
}

// ---------------------------------------------------------------- laws

/// Rounding gives the nearest multiple: none is closer, of two that are equally
/// close it is the even one, and a multiple is itself.
pub proof fn rounding_gives_the_nearest(n: nat, d: nat, k: nat)
    requires
        d > 0,
    ensures
        2 * (nearest_even(n, d) * d) <= 2 * n + d,
        2 * n <= 2 * (nearest_even(n, d) * d) + d,
        2 * n == 2 * (nearest_even(n, d) * d) + d || 2 * n + d == 2 * (nearest_even(n, d) * d)
            ==> nearest_even(n, d) % 2 == 0,
        nearest_even(k * d, d) == k,
{
    let q = n / d;
    let r = n % d;
    assert(n == q * d + r && r < d) by (nonlinear_arith)
        requires
            q == n / d,
            r == n % d,
            d > 0,
    ;
    assert((q + 1) * d == q * d + d) by (nonlinear_arith);
    assert((k * d) / d == k && (k * d) % d == 0) by (nonlinear_arith)
        requires
            d > 0,
    ;
}

/// A count below fifty-three bits is kept as it is.
pub proof fn small_counts_are_exact(n: nat)
    requires
        n < 0x20_0000_0000_0000,
    ensures
        as_double(n) == n,
        unit_of(n) == 1,
{
    lemma_small_double(n);
}

/// A larger count is kept to within half of a unit, which is a power of two
/// and no larger than the count needs.
pub proof fn large_counts_are_kept_to_half_a_unit(n: nat)
    requires
        n < 0x1_0000_0000_0000_0000,
    ensures
        unit_of(n) >= 1,
        2 * as_double(n) <= 2 * n + unit_of(n),
        2 * n <= 2 * as_double(n) + unit_of(n),
        unit_of(n) > 1 ==> n >= 0x10_0000_0000_0000 * unit_of(n),
{
    lemma_unit(n);
    rounding_gives_the_nearest(n, unit_of(n), 0);
    lemma_unit_fits(n);
}

proof fn lemma_unit_fits(n: nat)
    ensures
        unit_of(n) > 1 ==> n >= 0x10_0000_0000_0000 * unit_of(n),
    decreases n,
{
    if n >= 0x20_0000_0000_0000 {
        lemma_unit_fits(n / 2);
    }
}

/// Whole gibibytes show as such, with a decimal below ten of them; less than
/// one shows in whole mebibytes, rounded down.
pub proof fn byte_counts_show_in_their_unit(k: u64, m: u64, r: u64)
    requires
        k < 0x80_0000,
        m < 1024,
        r < 1048576,
    ensures
        10 <= k ==> bytes_text((k * 0x4000_0000) as u64) == decimal(k as nat) + "G"@,
        1 <= k < 10 ==> bytes_text((k * 0x4000_0000) as u64) == decimal(k as nat) + "."@ + decimal(0)
            + "G"@,
        bytes_text((m * 1048576 + r) as u64) == decimal(m as nat) + "M"@,
{
    let g: nat = 0x4000_0000;
    let v = (k * 0x4000_0000) as nat;
    small_counts_are_exact(v);
    rounding_gives_the_nearest(v, g, k as nat);
    rounding_gives_the_nearest(v * 10, g, (k * 10) as nat);
    assert(v * 10 == (k * 10) as nat * g);
    let b = (m * 1048576 + r) as nat;
    small_counts_are_exact(b);
}

/// A tenth of the unit shows behind the point.
pub proof fn tenths_show_behind_the_point(a: nat, b: nat)
    requires
        b < 10,
    ensures
        one_decimal(10 * a + b) == decimal(a) + "."@ + decimal(b),
{
}

/// Rates show in the largest unit of which there is one: below a thousand and
/// twenty-four to the unit, then with a decimal.
pub proof fn rates_show_in_their_unit(k: u64)
    requires
        1 <= k < 1024,
    ensures
        rate_text(k) == decimal(k as nat) + "KiB/s"@,
        rate_text((k * 1024) as u64) == decimal(k as nat) + "."@ + decimal(0) + "MiB/s"@,
        rate_text((k * 1048576) as u64) == decimal(k as nat) + "."@ + decimal(0) + "GiB/s"@,
        rate_text(0) == decimal(0) + "KiB/s"@,
{
    small_counts_are_exact((k * 1024) as nat);
    small_counts_are_exact((k * 1048576) as nat);
    rounding_gives_the_nearest(0, 1024, (k * 10) as nat);
    rounding_gives_the_nearest(0, 1048576, (k * 10) as nat);
    assert((k * 1024) as nat * 10 == (k * 10) as nat * 1024);
    assert((k * 1048576) as nat * 10 == (k * 10) as nat * 1048576);
}

/// A pool shows what is used of what there is, and says of each that it is
/// unknown where it is, once where both are.
pub proof fn a_pool_shows_used_of_total(u: u64, t: u64)
    ensures
        pool_text(Some(u), Some(t)) == bytes_text(u) + "/"@ + bytes_text(t),
        pool_text(Some(u), None) == bytes_text(u) + "/"@ + "n/a"@,
        pool_text(None, Some(t)) == "n/a"@ + "/"@ + bytes_text(t),
        pool_text(None, None) == "n/a"@,
{
}

} // verus!
