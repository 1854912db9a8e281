//! The share of points that correspond, as a number and as a text.
use vstd::arithmetic::div_mod::*;
use vstd::arithmetic::mul::*;
use vstd::arithmetic::power2::*;
use vstd::prelude::*;
use vstd::string::*;

use crate::float::double::F64;
use crate::float::rounding::{power, Format};
use crate::linear::ONE;

verus! {

pub open spec fn spec_share(valid: usize, total: usize) -> F64 {
    F64::from_usize(valid).over(F64::from_usize(total))
}

/// `valid` out of `total`.
#[verifier::when_used_as_spec(spec_share)]
pub fn share(valid: usize, total: usize) -> (r: F64)
    ensures
        r == share(valid, total),
{
    F64::from_usize(valid).over(F64::from_usize(total))
}

/// A whole number of machine size is finite, and zero only if it is none.
proof fn lemma_whole(n: usize)
    ensures
        F64::from_usize(n).finite(),
        !Format::double().negative(F64::from_usize(n).bits),
        n > 0 ==> F64::from_usize(n).bits >= ONE,
        F64::from_usize(n).bits == Format::double().rounded(n as nat * pow2(1074), 1),
{
    reveal(F64::spec_from_usize);
    lemma2_to64();
    Format::double().lemma_whole(n as nat);
    assert(Format::double().power_of_two(0) == ONE);
}

/// A share lies between nothing and one.
pub proof fn shares_are_at_most_one(valid: usize, total: usize)
    requires
        valid <= total,
        total > 0,
    ensures
        share(valid, total).bits <= ONE,
{
    let f = Format::double();
    let unit = pow2(1074);
    let (a, b) = (F64::from_usize(valid).bits, F64::from_usize(total).bits);
    lemma_pow2_pos(1074);
    lemma_whole(valid);
    lemma_whole(total);
    assert((valid * unit) * 1 <= (total * unit) * 1) by (nonlinear_arith)
        requires
            valid <= total,
            unit > 0,
    ;
    f.rounding_keeps_order((valid * unit) as nat, 1, (total * unit) as nat, 1);
    if a < b {
        f.lemma_monotone(a as nat, b as nat);
    }
    f.lemma_zero();
    f.lemma_monotone(0, b as nat);
    assert((f.size(a) * unit) * 1 <= unit * f.size(b)) by (nonlinear_arith)
        requires
            f.size(a) <= f.size(b),
            unit > 0,
    ;
    f.rounding_keeps_order(f.size(a) * unit, f.size(b), unit, 1);
    crate::float::double::lemma_one();
    f.rounding_keeps_numbers(ONE as nat);
    reveal(F64::spec_over);
    f.lemma_signed(false, f.rounded(f.size(a) * unit, f.size(b)));
}

/// All of the points is one, and none of them nothing.
pub proof fn whole_and_empty_shares(total: usize)
    requires
        total > 0,
    ensures
        share(total, total).bits == ONE,
        share(0, total).bits == 0,
{
    let f = Format::double();
    let unit = pow2(1074);
    let b = F64::from_usize(total).bits;
    lemma_pow2_pos(1074);
    lemma_whole(total);
    lemma_whole(0);
    f.lemma_zero();
    f.lemma_monotone(0, b as nat);
    reveal(F64::spec_over);
    crate::float::double::lemma_one();
    f.rounding_keeps_numbers(ONE as nat);
    let size = f.size(b);
    let q = f.lemma_quantum_exists(unit, 1);
    assert(unit * size == (size * unit) * 1) by (nonlinear_arith);
    f.lemma_rounded_equal(q, unit, 1, size * unit, size);
    f.lemma_signed(false, ONE as nat);
    assert(0 * unit == 0) by (nonlinear_arith);
    let q0 = f.lemma_quantum_exists(0, 1);
    assert(0 * size == 0 * 1) by (nonlinear_arith);
    f.lemma_rounded_equal(q0, 0, 1, 0, size);
    f.lemma_signed(false, 0);
}

/// The number of hundredths nearest to a number, ties to even.
pub open spec fn hundredths_of(x: F64) -> nat {
    let doubled = 200 * Format::double().size(x.bits);
    crate::float::rounding::nearest_even(doubled / pow2(1074), doubled % pow2(1074) == 0)
}

/// The number of hundredths nearest to a number from nothing to one.
pub fn hundredths(x: F64) -> (r: u64)
    requires
        x.bits <= ONE,
    ensures
        r == hundredths_of(x),
        r <= 100,
{
    let f = Format::double();
    let parts = f.split(x.bits);
    let ghost unit = pow2(1074);
    let ghost size = f.size(x.bits);
    proof {
        lemma2_to64();
        lemma_pow2_pos(1074);
        crate::float::double::lemma_one();
        if x.bits < ONE {
            f.lemma_monotone(x.bits as nat, ONE as nat);
        }
        assert(size <= unit);
        assert(200 * size <= 200 * unit);
        lemma_div_is_ordered((200 * size) as int, (200 * unit) as int, unit as int);
        lemma_div_by_multiple(200, unit as int);
        lemma_div_pos_is_pos((200 * size) as int, unit as int);
        lemma_fundamental_div_mod((200 * size) as int, unit as int);
        lemma_mod_bound((200 * size) as int, unit as int);
    }
    let exponent: u32 = parts.exponent;
    proof {
        if exponent >= 1023 {
            lemma_pow2_adds(51, 1023);
            lemma_pow2_adds(52, 1023);
            lemma_pow2_unfold(1075);
            if exponent > 1023 {
                lemma_pow2_strictly_increases(1023, exponent as nat);
            }
            lemma2_to64_rest();
            let (m, p) = (parts.significand as nat, pow2(exponent as nat));
            assert(m * p > unit) by (nonlinear_arith)
                requires
                    m >= pow2(52),
                    p >= pow2(1023),
                    pow2(52) * pow2(1023) == pow2(1075),
                    pow2(1075) == 2 * unit,
                    unit > 0,
            ;
        }
    }
    let k: u32 = 1074 - exponent;
    let m: u128 = 200 * parts.significand as u128;
    let ghost p = pow2(exponent as nat);
    let ghost d = pow2(k as nat);
    proof {
        lemma_pow2_adds(k as nat, exponent as nat);
        lemma_pow2_pos(exponent as nat);
        lemma_pow2_pos(k as nat);
        assert(200 * size == p * m) by (nonlinear_arith)
            requires
                size == parts.significand as nat * p,
                m == 200 * parts.significand as nat,
        ;
        assert(unit == p * d) by (nonlinear_arith)
            requires
                unit == d * p,
        ;
        lemma_div_multiples_vanish_quotient(p as int, m as int, d as int);
        lemma_truncate_middle(m as int, p as int, d as int);
        let rest = m as int % d as int;
        assert((p * rest == 0) == (rest == 0)) by (nonlinear_arith)
            requires
                p > 0,
        ;
    }
    if k >= 64 {
        proof {
            if k > 64 {
                lemma_pow2_strictly_increases(64, k as nat);
            }
            lemma_basic_div(m as int, d as int);
        }
        return 0;
    }
    let divisor: u128 = power(k);
    let doubled: u128 = m / divisor;
    let exact = m % divisor == 0;
    let floor: u64 = (doubled / 2) as u64;
    if doubled % 2 == 1 && (!exact || floor % 2 == 1) {
        floor + 1
    } else {
        floor
    }
}

/// The character of a decimal digit.
pub open spec fn digit(n: int) -> char {
    if n == 0 {
        '0'
    } else if n == 1 {
        '1'
    } else if n == 2 {
        '2'
    } else if n == 3 {
        '3'
    } else if n == 4 {
        '4'
    } else if n == 5 {
        '5'
    } else if n == 6 {
        '6'
    } else if n == 7 {
        '7'
    } else if n == 8 {
        '8'
    } else {
        '9'
    }
}

fn digit_text(n: u64) -> (r: &'static str)
    requires
        n < 10,
    ensures
        r@ == seq![digit(n as int)],
{
    proof {
        reveal_strlit("0");
        reveal_strlit("1");
        reveal_strlit("2");
        reveal_strlit("3");
        reveal_strlit("4");
        reveal_strlit("5");
        reveal_strlit("6");
        reveal_strlit("7");
        reveal_strlit("8");
        reveal_strlit("9");
    }
    match n {
        0 => "0",
        1 => "1",
        2 => "2",
        3 => "3",
        4 => "4",
        5 => "5",
        6 => "6",
        7 => "7",
        8 => "8",
        _ => "9",
    }
}

/// A number from nothing to one with two decimals.
pub open spec fn two_decimals(x: F64) -> Seq<char> {
    let h = hundredths_of(x);
    seq![digit(h as int / 100), '.', digit(h as int / 10 % 10), digit(h as int % 10)]
}

/// The reason given for a share that is too small.
pub open spec fn overlap_text(x: F64) -> Seq<char> {
    "Insufficient overlap: "@ + two_decimals(x)
}

/// The reason given for a share that is too small.
pub fn overlap_reason(x: F64) -> (r: String)
    requires
        x.bits <= ONE,
    ensures
        r@ == overlap_text(x),
{
    let h: u64 = hundredths(x);
    let mut r = String::from_str("Insufficient overlap: ");
    proof {
        reveal_strlit(".");
    }
    r.append(digit_text(h / 100));
    r.append(".");
    r.append(digit_text(h / 10 % 10));
    r.append(digit_text(h % 10));
    assert(r@ =~= overlap_text(x));
    r
}

} // verus!
