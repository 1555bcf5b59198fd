//! Integer helpers of the tile coder: divisions rounded up or down, by
//! integers and by powers of two, saturating sums and clamps.
use vstd::arithmetic::div_mod::{lemma_fundamental_div_mod, lemma_fundamental_div_mod_converse};
use vstd::arithmetic::power2::{lemma2_to64, lemma2_to64_rest, lemma_pow2_pos, lemma_pow2_strictly_increases, pow2};
use vstd::bits::lemma_u64_shl_is_mul;
use vstd::prelude::*;

verus! {

/// `a / b` rounded up, for a positive `b`.
pub open spec fn ceil_div(a: int, b: int) -> int {
    (a + b - 1) / b
}

/// `a / 2^b` rounded up.
pub open spec fn ceil_div_pow2(a: int, b: nat) -> int {
    (a + pow2(b) - 1) / (pow2(b) as int)
}

/// `a / 2^b` rounded down.
pub open spec fn floor_div_pow2(a: int, b: nat) -> int {
    a / (pow2(b) as int)
}

/// Division rounded down by `c` and then by `d` is division by `c * d`.
proof fn lemma_floor_div_twice(x: int, c: int, d: int)
    requires
        c > 0,
        d > 0,
    ensures
        (x / c) / d == x / (c * d),
{
    let q1 = x / c;
    let r1 = x % c;
    let q2 = q1 / d;
    let r2 = q1 % d;
    lemma_fundamental_div_mod(x, c);
    lemma_fundamental_div_mod(q1, d);
    assert(x == (c * d) * q2 + (c * r2 + r1) && 0 <= c * r2 + r1 < c * d) by (nonlinear_arith)
        requires
            x == c * q1 + r1,
            q1 == d * q2 + r2,
            0 <= r1 < c,
            0 <= r2 < d,
    ;
    assert(c * d > 0) by (nonlinear_arith)
        requires
            c > 0,
            d > 0,
    ;
    lemma_fundamental_div_mod_converse(x, c * d, q2, c * r2 + r1);
}

/// Rounding up a division by `2^b` and then by `2^c` is rounding up the
/// division by `2^(b + c)`: halving a coordinate level by level gives the
/// same as halving it all at once.
pub proof fn lemma_ceil_div_pow2_twice(a: int, b: nat, c: nat)
    ensures
        ceil_div_pow2(ceil_div_pow2(a, b), c) == ceil_div_pow2(a, b + c),
{
    let m = pow2(b) as int;
    let n = pow2(c) as int;
    lemma_pow2_pos(b);
    lemma_pow2_pos(c);
    vstd::arithmetic::power2::lemma_pow2_adds(b, c);
    let q = (a + m - 1) / m;
    assert((a + m - 1 + (n - 1) * m) / m == q + (n - 1)) by {
        vstd::arithmetic::div_mod::lemma_hoist_over_denominator(a + m - 1, n - 1, m as nat);
    }
    assert(a + m - 1 + (n - 1) * m == a + m * n - 1) by (nonlinear_arith);
    lemma_floor_div_twice(a + m * n - 1, m, n);
}

/// Halving a non-negative coordinate, rounded up, keeps it between zero and itself.
pub proof fn lemma_ceil_div_pow2_range(a: int, b: nat)
    requires
        a >= 0,
    ensures
        0 <= ceil_div_pow2(a, b) <= a,
{
    let m = pow2(b) as int;
    lemma_pow2_pos(b);
    if a == 0 {
        assert((m - 1) / m == 0) by (nonlinear_arith)
            requires
                m >= 1,
        ;
    } else {
        assert(0 <= (a + m - 1) / m <= a) by (nonlinear_arith)
            requires
                m >= 1,
                a >= 1,
        ;
    }
}

proof fn lemma_pow2_bound(b: nat)
    requires
        b <= 62,
    ensures
        1 <= pow2(b) <= 0x4000_0000_0000_0000,
{
    lemma2_to64();
    lemma2_to64_rest();
    lemma_pow2_pos(b);
    if b < 62 {
        lemma_pow2_strictly_increases(b, 62);
    }
}

/// `2^b`.
pub fn pow2_i64(b: u32) -> (r: i64)
    requires
        b <= 62,
    ensures
        r == pow2(b as nat),
        1 <= r <= 0x4000_0000_0000_0000,
        b <= 32 ==> r <= 0x1_0000_0000,
        b <= 31 ==> r <= 0x8000_0000,
        b >= 1 ==> r >= 2,
{
    proof {
        lemma_pow2_bound(b as nat);
        lemma2_to64();
        if b < 32 {
            lemma_pow2_strictly_increases(b as nat, 32);
        }
        if b < 31 {
            lemma_pow2_strictly_increases(b as nat, 31);
        }
        if b > 1 {
            lemma_pow2_strictly_increases(1, b as nat);
        }
        lemma_u64_shl_is_mul(1, b as u64);
    }
    (1u64 << (b as u64)) as i64
}

proof fn lemma_floor_div_negative(x: int, d: int)
    requires
        x < 0,
        d > 0,
    ensures
        x / d == -((-x + d - 1) / d),
{
    let q = (-x + d - 1) / d;
    let r = (-x + d - 1) % d;
    lemma_fundamental_div_mod(-x + d - 1, d);
    assert(x == (-q) * d + (d - 1 - r)) by (nonlinear_arith)
        requires
            -x + d - 1 == d * q + r,
    ;
    lemma_fundamental_div_mod_converse(x, d, -q, d - 1 - r);
}

/// `x / d` rounded down, for a positive `d`.
pub fn floor_div_i64(x: i64, d: i64) -> (r: i64)
    requires
        -0x4000_0000_0000_0000 < x < 0x4000_0000_0000_0000,
        0 < d <= 0x4000_0000_0000_0000,
    ensures
        r == x / d,
{
    if x >= 0 {
        x / d
    } else {
        proof {
            lemma_floor_div_negative(x as int, d as int);
        }
        -(((-x) + d - 1) / d)
    }
}

proof fn lemma_div_bounds(x: int, d: int, lo: int, hi: int)
    requires
        d > 0,
        lo <= x <= hi,
        lo <= 0 <= hi,
    ensures
        lo <= x / d <= hi,
{
    if x >= 0 {
        assert(x / d <= x) by (nonlinear_arith)
            requires
                x >= 0,
                d > 0,
        ;
        assert(x / d >= 0) by (nonlinear_arith)
            requires
                x >= 0,
                d > 0,
        ;
    } else {
        assert(x / d >= x) by (nonlinear_arith)
            requires
                x < 0,
                d > 0,
        ;
        assert(x / d < 0) by (nonlinear_arith)
            requires
                x < 0,
                d > 0,
        ;
    }
}

/// `a / 2^b` rounded up.
pub fn int_ceildivpow2(a: i32, b: u32) -> (r: i32)
    requires
        b <= 32,
    ensures
        r == ceil_div_pow2(a as int, b as nat),
        a >= 0 ==> 0 <= r <= a,
{
    let d = pow2_i64(b);
    let x = a as i64 + d - 1;
    let q = floor_div_i64(x, d);
    proof {
        if x >= d {
            assert(x / d <= a) by (nonlinear_arith)
                requires
                    x == a + d - 1,
                    x >= d,
                    d >= 1,
            ;
            assert(x / d >= 0) by (nonlinear_arith)
                requires
                    x >= 0,
                    d >= 1,
            ;
        } else if x >= 0 {
            assert(x / d == 0) by (nonlinear_arith)
                requires
                    0 <= x < d,
            ;
        } else {
            lemma_div_bounds(x as int, d as int, -0x8000_0000, 0);
        }
    }
    q as i32
}

/// `a / 2^b` rounded up, for a 64-bit `a` whose quotient fits 32 bits.
pub fn int64_ceildivpow2(a: i64, b: u32) -> (r: i32)
    requires
        1 <= b <= 32,
        -0x1_0000_0000 <= a < 0x8000_0000,
    ensures
        r == ceil_div_pow2(a as int, b as nat),
{
    let d = pow2_i64(b);
    let x = a + d - 1;
    let q = floor_div_i64(x, d);
    proof {
        if x >= 0 {
            assert(x / d <= x) by (nonlinear_arith)
                requires
                    x >= 0,
                    d > 0,
            ;
            assert(x / d >= 0) by (nonlinear_arith)
                requires
                    x >= 0,
                    d > 0,
            ;
            if x >= d {
                assert(x / d <= 0x8000_0000 - 1) by (nonlinear_arith)
                    requires
                        d <= x < 0x8000_0000 + d - 1,
                        d >= 2,
                ;
            } else {
                assert(x / d == 0) by (nonlinear_arith)
                    requires
                        0 <= x < d,
                ;
            }
        } else {
            assert(x / d >= -0x8000_0000) by (nonlinear_arith)
                requires
                    -0x1_0000_0000 <= x < 0,
                    d >= 2,
            ;
            assert(x / d < 0) by (nonlinear_arith)
                requires
                    x < 0,
                    d > 0,
            ;
        }
    }
    q as i32
}

/// `a / 2^b` rounded down.
pub fn int_floordivpow2(a: i32, b: u32) -> (r: i32)
    requires
        b <= 31,
    ensures
        r == floor_div_pow2(a as int, b as nat),
{
    let d = pow2_i64(b);
    let q = floor_div_i64(a as i64, d);
    proof {
        lemma_div_bounds(a as int, d as int, -0x8000_0000, 0x7fff_ffff);
    }
    q as i32
}

/// `a / 2^b` rounded up, for unsigned values.
pub fn uint_ceildivpow2(a: u32, b: u32) -> (r: u32)
    requires
        b <= 32,
    ensures
        r == ceil_div_pow2(a as int, b as nat),
{
    let d = pow2_i64(b);
    let x = a as i64 + d - 1;
    let q = x / d;
    proof {
        if x >= d {
            assert(x / d <= a) by (nonlinear_arith)
                requires
                    x == a + d - 1,
                    x >= d,
                    d >= 1,
            ;
        } else {
            assert(x / d == 0) by (nonlinear_arith)
                requires
                    0 <= x < d,
            ;
        }
    }
    q as u32
}

/// `a / b` rounded up, for unsigned values and a positive `b`.
pub fn uint_ceildiv(a: u32, b: u32) -> (r: u32)
    requires
        b > 0,
    ensures
        r == ceil_div(a as int, b as int),
{
    let x = a as u64 + b as u64 - 1;
    let q = x / (b as u64);
    proof {
        if x >= b as u64 {
            assert(x / (b as u64) <= a) by (nonlinear_arith)
                requires
                    x == a + b - 1,
                    x >= b,
                    b >= 1,
            ;
        } else {
            assert(x / (b as u64) == 0) by (nonlinear_arith)
                requires
                    0 <= x < b,
            ;
        }
    }
    q as u32
}

/// `a / b` rounded up, for a non-negative `a` and a positive `b`.
pub fn int_ceildiv(a: i32, b: i32) -> (r: i32)
    requires
        a >= 0,
        b > 0,
    ensures
        r == ceil_div(a as int, b as int),
        0 <= r <= a,
{
    let x = a as i64 + b as i64 - 1;
    let q = x / (b as i64);
    proof {
        if x >= b as i64 {
            assert(x / (b as i64) <= a) by (nonlinear_arith)
                requires
                    x == a + b - 1,
                    x >= b,
                    b >= 1,
            ;
            assert(x / (b as i64) >= 0) by (nonlinear_arith)
                requires
                    x >= 0,
                    b >= 1,
            ;
        } else {
            assert(x / (b as i64) == 0) by (nonlinear_arith)
                requires
                    0 <= x < b,
            ;
        }
    }
    q as i32
}

/// `a + b`, saturating at the largest `u32`.
pub fn uint_adds(a: u32, b: u32) -> (r: u32)
    ensures
        r == if a + b > u32::MAX { u32::MAX as int } else { a + b },
{
    a.saturating_add(b)
}

/// `a` brought into `[min, max]`.
pub open spec fn clamp(a: int, min: int, max: int) -> int {
    if a < min {
        min
    } else if a > max {
        max
    } else {
        a
    }
}

/// `a` brought into `[min, max]`.
pub fn int_clamp(a: i32, min: i32, max: i32) -> (r: i32)
    ensures
        r == clamp(a as int, min as int, max as int),
{
    if a < min {
        min
    } else if a > max {
        max
    } else {
        a
    }
}

/// `a` brought into `[min, max]`.
pub fn int64_clamp(a: i64, min: i64, max: i64) -> (r: i64)
    ensures
        r == clamp(a as int, min as int, max as int),
{
    if a < min {
        min
    } else if a > max {
        max
    } else {
        a
    }
}

} // verus!
