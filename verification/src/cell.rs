//! Cells: signed integers of a configurable width, held in an `i128`.
//! Arithmetic is two's complement, modulo two to the width.

use vstd::prelude::*;
use vstd::arithmetic::div_mod::*;

verus! {

/// The widths a cell can have, in bits.
pub open spec fn valid_bits(bits: u32) -> bool {
    bits == 8 || bits == 16 || bits == 32 || bits == 64 || bits == 128
}

/// Two to the power `bits`.
pub open spec fn modulus(bits: u32) -> int {
    if bits == 8 {
        0x100
    } else if bits == 16 {
        0x1_0000
    } else if bits == 32 {
        0x1_0000_0000
    } else if bits == 64 {
        0x1_0000_0000_0000_0000
    } else {
        0x1_0000_0000_0000_0000_0000_0000_0000_0000int
    }
}

/// Two to the power `bits - 1`: a cell holds `-half <= v < half`.
pub open spec fn half(bits: u32) -> int {
    if bits == 8 {
        0x80
    } else if bits == 16 {
        0x8000
    } else if bits == 32 {
        0x8000_0000
    } else if bits == 64 {
        0x8000_0000_0000_0000
    } else {
        0x8000_0000_0000_0000_0000_0000_0000_0000
    }
}

/// Whether `v` is a value of a cell of that width.
pub open spec fn fits(v: int, bits: u32) -> bool {
    -half(bits) <= v < half(bits)
}

/// The cell value congruent to `v` modulo two to the width.
pub open spec fn wrap(v: int, bits: u32) -> int {
    let r = v % modulus(bits);
    if r >= half(bits) {
        r - modulus(bits)
    } else {
        r
    }
}

/// Quotient rounded toward zero.
pub open spec fn trunc_div(a: int, b: int) -> int {
    if a == 0 {
        0
    } else if a > 0 && b > 0 {
        a / b
    } else if a < 0 && b < 0 {
        (-a) / (-b)
    } else if a < 0 {
        -((-a) / b)
    } else {
        -(a / (-b))
    }
}

/// Remainder with the sign of the dividend.
pub open spec fn trunc_rem(a: int, b: int) -> int {
    if a == 0 {
        0
    } else if a > 0 && b > 0 {
        a % b
    } else if a < 0 && b < 0 {
        -((-a) % (-b))
    } else if a < 0 {
        -((-a) % b)
    } else {
        a % (-b)
    }
}

pub open spec fn cell_add(a: int, b: int, bits: u32) -> int {
    wrap(a + b, bits)
}

pub open spec fn cell_sub(a: int, b: int, bits: u32) -> int {
    wrap(a - b, bits)
}

pub open spec fn cell_mul(a: int, b: int, bits: u32) -> int {
    wrap(a * b, bits)
}

/// Division by zero gives zero.
pub open spec fn cell_div(a: int, b: int, bits: u32) -> int {
    if b == 0 {
        0
    } else {
        wrap(trunc_div(a, b), bits)
    }
}

/// Remainder by zero gives zero.
pub open spec fn cell_rem(a: int, b: int, bits: u32) -> int {
    if b == 0 {
        0
    } else {
        wrap(trunc_rem(a, b), bits)
    }
}

pub proof fn lemma_wrap_fits(v: int, bits: u32)
    requires
        valid_bits(bits),
    ensures
        fits(wrap(v, bits), bits),
        fits(v, bits) ==> wrap(v, bits) == v,
{
    let m = modulus(bits);
    lemma_fundamental_div_mod(v, m);
    lemma_mod_bound(v, m);
    if fits(v, bits) {
        if v >= 0 {
            lemma_small_mod(v as nat, m as nat);
        } else {
            lemma_small_mod((v + m) as nat, m as nat);
            lemma_mod_add_multiples_vanish(v, m);
        }
    }
}

/// Wrapping is unchanged by a step of two to the 128 either way.
pub proof fn lemma_wrap_shift(v: int, k: int, bits: u32)
    requires
        valid_bits(bits),
    ensures
        wrap(v + k * modulus(128), bits) == wrap(v, bits),
{
    let m = modulus(bits);
    let q: int = modulus(128) / m;
    assert(modulus(128) == q * m);
    assert(k * modulus(128) == (k * q) * m) by (nonlinear_arith)
        requires
            modulus(128) == q * m,
    ;
    lemma_mod_multiples_vanish(k * q, v, m);
}

pub proof fn lemma_wrap_wrap(v: int, bits: u32)
    requires
        valid_bits(bits),
    ensures
        wrap(wrap(v, 128), bits) == wrap(v, bits),
{
    let big = modulus(128);
    lemma_fundamental_div_mod(v, big);
    let r = v % big;
    let q = v / big;
    assert(v == r + q * big) by (nonlinear_arith)
        requires
            v == big * q + r,
    ;
    lemma_wrap_shift(r, q, bits);
    if r >= half(128) {
        lemma_wrap_shift(r, -1, bits);
    }
}

/// The cell value congruent to `v`.
pub fn wrap_to(v: i128, bits: u32) -> (r: i128)
    requires
        valid_bits(bits),
    ensures
        r == wrap(v as int, bits),
        fits(r as int, bits),
{
    proof {
        lemma_wrap_fits(v as int, bits);
    }
    if bits == 128 {
        v
    } else {
        let m: i128 = if bits == 8 {
            0x100
        } else if bits == 16 {
            0x1_0000
        } else if bits == 32 {
            0x1_0000_0000
        } else {
            0x1_0000_0000_0000_0000
        };
        let low: i128 = match v.checked_rem_euclid(m) {
            Some(x) => x,
            None => 0,
        };
        proof {
            lemma_mod_bound(v as int, m as int);
        }
        if low >= m / 2 {
            low - m
        } else {
            low
        }
    }
}

pub fn add_cells(a: i128, b: i128, bits: u32) -> (r: i128)
    requires
        valid_bits(bits),
    ensures
        r == cell_add(a as int, b as int, bits),
        fits(r as int, bits),
{
    let s = a.wrapping_add(b);
    proof {
        lemma_wrap_shift(a + b, -1, bits);
        lemma_wrap_shift(a + b, 1, bits);
    }
    wrap_to(s, bits)
}

pub fn sub_cells(a: i128, b: i128, bits: u32) -> (r: i128)
    requires
        valid_bits(bits),
    ensures
        r == cell_sub(a as int, b as int, bits),
        fits(r as int, bits),
{
    let s = a.wrapping_sub(b);
    proof {
        lemma_wrap_shift(a - b, -1, bits);
        lemma_wrap_shift(a - b, 1, bits);
    }
    wrap_to(s, bits)
}

pub fn mul_cells(a: i128, b: i128, bits: u32) -> (r: i128)
    requires
        valid_bits(bits),
    ensures
        r == cell_mul(a as int, b as int, bits),
        fits(r as int, bits),
{
    let s = a.wrapping_mul(b);
    proof {
        lemma_wrap_wrap(a * b, bits);
    }
    wrap_to(s, bits)
}

/// A quotient rounded toward zero is no larger in magnitude than the dividend.
pub proof fn lemma_trunc_div_bound(a: int, b: int)
    requires
        b != 0,
    ensures
        a >= 0 ==> -a <= trunc_div(a, b) <= a,
        a < 0 ==> a <= trunc_div(a, b) <= -a,
{
    if a > 0 && b > 0 {
        lemma_div_pos_is_pos(a, b);
        lemma_div_nonincreasing(a, b);
    } else if a < 0 && b < 0 {
        lemma_div_pos_is_pos(-a, -b);
        lemma_div_nonincreasing(-a, -b);
    } else if a < 0 {
        lemma_div_pos_is_pos(-a, b);
        lemma_div_nonincreasing(-a, b);
    } else if a > 0 {
        lemma_div_pos_is_pos(a, -b);
        lemma_div_nonincreasing(a, -b);
    }
}

/// A remainder is smaller in magnitude than the divisor, and than the dividend
/// is large.
pub proof fn lemma_trunc_rem_bound(a: int, b: int)
    requires
        b != 0,
    ensures
        a >= 0 ==> 0 <= trunc_rem(a, b) <= a,
        a < 0 ==> a <= trunc_rem(a, b) <= 0,
{
    if a > 0 && b > 0 {
        lemma_mod_bound(a, b);
        lemma_mod_decreases(a as nat, b as nat);
    } else if a < 0 && b < 0 {
        lemma_mod_bound(-a, -b);
        lemma_mod_decreases((-a) as nat, (-b) as nat);
    } else if a < 0 {
        lemma_mod_bound(-a, b);
        lemma_mod_decreases((-a) as nat, b as nat);
    } else if a > 0 {
        lemma_mod_bound(a, -b);
        lemma_mod_decreases(a as nat, (-b) as nat);
    }
}

pub fn div_cells(a: i128, b: i128, bits: u32) -> (r: i128)
    requires
        valid_bits(bits),
    ensures
        r == cell_div(a as int, b as int, bits),
        fits(r as int, bits),
{
    if b == 0 {
        0
    } else if a == i128::MIN && b == -1 {
        proof {
            assert(trunc_div(a as int, b as int) == half(128)) by {
                lemma_div_basics(half(128));
            }
            lemma_wrap_shift(-half(128), 1, bits);
        }
        wrap_to(i128::MIN, bits)
    } else {
        proof {
            lemma_trunc_div_bound(a as int, b as int);
            if a == i128::MIN {
                // the quotient is MIN only when the divisor is one
                if b > 1 {
                    lemma_div_is_ordered_by_denominator(-(a as int), 2, b as int);
                } else if b < -1 {
                    lemma_div_is_ordered_by_denominator(-(a as int), 2, -(b as int));
                } else {
                    lemma_div_basics(-(a as int));
                }
            }
        }
        match a.checked_div(b) {
            Some(q) => wrap_to(q, bits),
            None => 0,
        }
    }
}

pub fn rem_cells(a: i128, b: i128, bits: u32) -> (r: i128)
    requires
        valid_bits(bits),
    ensures
        r == cell_rem(a as int, b as int, bits),
        fits(r as int, bits),
{
    if b == 0 {
        0
    } else if a == i128::MIN && b == -1 {
        proof {
            lemma_div_basics(half(128));
            lemma_fundamental_div_mod(half(128), 1);
            lemma_wrap_fits(0, bits);
        }
        0
    } else {
        proof {
            lemma_trunc_rem_bound(a as int, b as int);
        }
        match a.checked_rem(b) {
            Some(q) => wrap_to(q, bits),
            None => 0,
        }
    }
}

} // verus!
