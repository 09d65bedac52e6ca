//! Fixed-point scalars standing in for the renderer's real-valued quantities.
//!
//! A scalar is an `i64` holding a real value scaled by `FX_ONE` (2^20).
//! Every operation is total: results are clamped into the symmetric range
//! `[-FX_MAX, FX_MAX]`, division by zero yields zero, and the square root of
//! a negative value yields zero.  There is no NaN and no undefined
//! comparison: nearest-object selection and all other decisions in the
//! renderer are therefore fully determined by these definitions.

use vstd::prelude::*;
use vstd::arithmetic::div_mod::*;
use vstd::arithmetic::mul::*;
use vstd::arithmetic::power2::*;

verus! {

/// One in fixed-point units: 2^20.
pub const FX_ONE: i64 = 1048576;

/// Half in fixed-point units.
pub const FX_HALF: i64 = 524288;

/// Largest representable fixed-point value; the negation is the smallest.
pub const FX_MAX: i64 = 0x7fff_ffff_ffff_ffff;

/// Clamp an unbounded integer into the symmetric representable range.
pub open spec fn sat(x: int) -> int {
    if x > FX_MAX {
        FX_MAX as int
    } else if x < -FX_MAX {
        -FX_MAX as int
    } else {
        x
    }
}

/// The smaller of two integers.
pub open spec fn min_i(a: int, b: int) -> int {
    if a <= b {
        a
    } else {
        b
    }
}

/// The larger of two integers.
pub open spec fn max_i(a: int, b: int) -> int {
    if a >= b {
        a
    } else {
        b
    }
}

/// Magnitude of an integer.
pub open spec fn mag(x: int) -> int {
    if x < 0 {
        -x
    } else {
        x
    }
}

/// Division truncating toward zero (the rounding the scalar ops use).
/// Unspecified only through `/`'s own behavior when `d == 0`; the callers
/// below all test for a zero divisor first.
pub open spec fn tdiv(n: int, d: int) -> int {
    let q = mag(n) / mag(d);
    if (n < 0) != (d < 0) {
        -q
    } else {
        q
    }
}

/// The value of a fixed-point product, before clamping.
pub open spec fn mul_fx(a: int, b: int) -> int {
    sat(tdiv(a * b, FX_ONE as int))
}

/// The value of a fixed-point quotient; a zero divisor yields zero.
pub open spec fn div_fx(a: int, b: int) -> int {
    if b == 0 {
        0
    } else {
        sat(tdiv(a * FX_ONE, b))
    }
}

/// Saturating fixed-point addition.
pub fn fx_add(a: i64, b: i64) -> (r: i64)
    ensures
        r == sat(a + b),
{
    let wide: i128 = (a as i128) + (b as i128);
    if wide > FX_MAX as i128 {
        FX_MAX
    } else if wide < -(FX_MAX as i128) {
        -FX_MAX
    } else {
        wide as i64
    }
}

/// Saturating fixed-point subtraction.
pub fn fx_sub(a: i64, b: i64) -> (r: i64)
    ensures
        r == sat(a - b),
{
    let wide: i128 = (a as i128) - (b as i128);
    if wide > FX_MAX as i128 {
        FX_MAX
    } else if wide < -(FX_MAX as i128) {
        -FX_MAX
    } else {
        wide as i64
    }
}

/// Saturating negation.
pub fn fx_neg(a: i64) -> (r: i64)
    ensures
        r == sat(-a),
{
    let wide: i128 = -(a as i128);
    if wide > FX_MAX as i128 {
        FX_MAX
    } else {
        wide as i64
    }
}

/// Saturating magnitude.
pub fn fx_abs(a: i64) -> (r: i64)
    ensures
        r == sat(mag(a as int)),
{
    if a < 0 {
        fx_neg(a)
    } else {
        a
    }
}

/// The smaller of two scalars.
pub fn fx_min(a: i64, b: i64) -> (r: i64)
    ensures
        r == if a <= b { a as int } else { b as int },
{
    if a <= b {
        a
    } else {
        b
    }
}

/// The larger of two scalars.
pub fn fx_max(a: i64, b: i64) -> (r: i64)
    ensures
        r == if a >= b { a as int } else { b as int },
{
    if a >= b {
        a
    } else {
        b
    }
}

/// Magnitude of a scalar as an unsigned wide integer.
fn mag_u128(a: i64) -> (r: u128)
    ensures
        r == mag(a as int),
{
    if a >= 0 {
        a as u128
    } else {
        let wide: i128 = -(a as i128);
        wide as u128
    }
}

/// Clamp a magnitude-and-sign pair back into a scalar.
fn clamp_signed(m: u128, neg: bool) -> (r: i64)
    ensures
        r == sat(if neg { -(m as int) } else { m as int }),
{
    if m > FX_MAX as u128 {
        if neg {
            -FX_MAX
        } else {
            FX_MAX
        }
    } else {
        if neg {
            -(m as i64)
        } else {
            m as i64
        }
    }
}

/// The sign and magnitude of a product.
proof fn lemma_mul_sign_mag(a: int, b: int)
    ensures
        a * b == if (a < 0) != (b < 0) {
            -(mag(a) * mag(b))
        } else {
            mag(a) * mag(b)
        },
{
    assert(a * b == if (a < 0) != (b < 0) {
        -(mag(a) * mag(b))
    } else {
        mag(a) * mag(b)
    }) by (nonlinear_arith);
}

/// Saturating fixed-point multiplication.
pub fn fx_mul(a: i64, b: i64) -> (r: i64)
    ensures
        r == mul_fx(a as int, b as int),
{
    let am: u128 = mag_u128(a);
    let bm: u128 = mag_u128(b);
    proof {
        assert(am * bm <= 0x8000_0000_0000_0000u128 * 0x8000_0000_0000_0000u128)
            by (nonlinear_arith)
            requires
                am <= 0x8000_0000_0000_0000u128,
                bm <= 0x8000_0000_0000_0000u128,
        ;
    }
    let prod: u128 = am * bm;
    let m: u128 = prod / (FX_ONE as u128);
    let neg: bool = (a < 0) != (b < 0);
    proof {
        lemma_mul_sign_mag(a as int, b as int);
    }
    clamp_signed(m, neg)
}

/// Saturating fixed-point division; a zero divisor yields zero.
pub fn fx_div(a: i64, b: i64) -> (r: i64)
    ensures
        r == div_fx(a as int, b as int),
{
    if b == 0 {
        return 0;
    }
    let am: u128 = mag_u128(a);
    let bm: u128 = mag_u128(b);
    let m: u128 = (am * (FX_ONE as u128)) / bm;
    let neg: bool = (a < 0) != (b < 0);
    proof {
        lemma_mul_sign_mag(a as int, FX_ONE as int);
        assert(mag(a as int * FX_ONE) == am * FX_ONE);
    }
    clamp_signed(m, neg)
}

/// Whether `r` is the floor of the square root of `n`.
pub open spec fn is_sqrt(n: int, r: int) -> bool {
    0 <= r && r * r <= n && n < (r + 1) * (r + 1)
}

proof fn lemma_sqrt_exists(n: nat)
    ensures
        exists|r: int| is_sqrt(n as int, r),
    decreases n,
{
    if n == 0 {
        assert(is_sqrt(0, 0));
    } else {
        lemma_sqrt_exists((n - 1) as nat);
        let m: int = n - 1;
        let r = choose|r: int| is_sqrt(m, r);
        if n < (r + 1) * (r + 1) {
            assert(is_sqrt(n as int, r));
        } else {
            assert((r + 1) * (r + 1) < (r + 2) * (r + 2)) by (nonlinear_arith)
                requires
                    r >= 0,
            ;
            assert(is_sqrt(n as int, r + 1));
        }
    }
}

proof fn lemma_sqrt_unique(n: int, r1: int, r2: int)
    requires
        is_sqrt(n, r1),
        is_sqrt(n, r2),
    ensures
        r1 == r2,
{
    assert(r1 == r2) by (nonlinear_arith)
        requires
            0 <= r1 && r1 * r1 <= n && n < (r1 + 1) * (r1 + 1),
            0 <= r2 && r2 * r2 <= n && n < (r2 + 1) * (r2 + 1),
    ;
}

/// The floor of the square root of `n` (meaningful for `n >= 0`).
pub open spec fn sqrt_floor(n: int) -> int {
    choose|r: int| is_sqrt(n, r)
}

/// The value of a fixed-point square root; nonpositive inputs yield zero.
pub open spec fn sqrt_fx(a: int) -> int {
    if a <= 0 {
        0
    } else {
        sqrt_floor(a * FX_ONE)
    }
}

/// Floor square root of a wide integer, by bisection.
fn isqrt(n: u128) -> (r: u128)
    requires
        n < 81129638414606681695789005144064u128,  // 2^106
    ensures
        is_sqrt(n as int, r as int),
        r == sqrt_floor(n as int),
{
    let mut lo: u128 = 0;
    let mut hi: u128 = 9007199254740992;  // 2^53
    proof {
        assert(9007199254740992i128 * 9007199254740992i128
            == 81129638414606681695789005144064i128) by (nonlinear_arith);
    }
    while lo + 1 < hi
        invariant
            lo < hi,
            hi <= 9007199254740992,
            lo * lo <= n,
            n < hi * hi,
        decreases hi - lo,
    {
        let mid: u128 = lo + (hi - lo) / 2;
        proof {
            assert(mid * mid <= 81129638414606681695789005144064u128) by (nonlinear_arith)
                requires
                    mid <= 9007199254740992u128,
            ;
        }
        if mid * mid <= n {
            lo = mid;
        } else {
            hi = mid;
        }
    }
    proof {
        lemma_sqrt_exists(n as nat);
        let w = sqrt_floor(n as int);
        assert(is_sqrt(n as int, w));
        lemma_sqrt_unique(n as int, lo as int, w);
    }
    lo
}

/// Saturating fixed-point square root; nonpositive inputs yield zero.
pub fn fx_sqrt(a: i64) -> (r: i64)
    ensures
        r == sqrt_fx(a as int),
{
    if a <= 0 {
        return 0;
    }
    proof {
        assert((a as u128) * (FX_ONE as u128)
            <= 0x7fff_ffff_ffff_ffffu128 * 1048576u128) by (nonlinear_arith)
            requires
                a as u128 <= 0x7fff_ffff_ffff_ffffu128,
        ;
    }
    let n: u128 = (a as u128) * (FX_ONE as u128);
    let r = isqrt(n);
    proof {
        assert(r < 4398046511104u128) by (nonlinear_arith)  // 2^42
            requires
                r * r <= n,
                n < 81129638414606681695789005144064u128,
                r >= 0,
                n < 4398046511104u128 * 4398046511104u128,
        ;
    }
    r as i64
}

/// The bit weight consumed at step `i` of the binary fraction scan: 2^(20-i).
pub open spec fn frac_bit(i: nat) -> int {
    pow2((20 - i) as nat) as int
}

/// Step constant for the binary exponential scan: 2^(1/2^i) in units,
/// rounded to the nearest unit.
pub open spec fn exp2_step(i: int) -> int {
    if i == 1 {
        1482910
    } else if i == 2 {
        1246974
    } else if i == 3 {
        1143480
    } else if i == 4 {
        1095000
    } else if i == 5 {
        1071537
    } else if i == 6 {
        1059994
    } else if i == 7 {
        1054270
    } else if i == 8 {
        1051419
    } else if i == 9 {
        1049997
    } else if i == 10 {
        1049286
    } else if i == 11 {
        1048931
    } else if i == 12 {
        1048753
    } else if i == 13 {
        1048665
    } else if i == 14 {
        1048620
    } else if i == 15 {
        1048598
    } else if i == 16 {
        1048587
    } else if i == 17 {
        1048582
    } else if i == 18 {
        1048579
    } else if i == 19 {
        1048577
    } else if i == 20 {
        1048577
    } else {
        1048576
    }
}

fn exp2_step_x(i: usize) -> (r: u64)
    requires
        1 <= i <= 20,
    ensures
        r == exp2_step(i as int),
        1048577 <= r <= 1482910,
{
    if i == 1 {
        1482910
    } else if i == 2 {
        1246974
    } else if i == 3 {
        1143480
    } else if i == 4 {
        1095000
    } else if i == 5 {
        1071537
    } else if i == 6 {
        1059994
    } else if i == 7 {
        1054270
    } else if i == 8 {
        1051419
    } else if i == 9 {
        1049997
    } else if i == 10 {
        1049286
    } else if i == 11 {
        1048931
    } else if i == 12 {
        1048753
    } else if i == 13 {
        1048665
    } else if i == 14 {
        1048620
    } else if i == 15 {
        1048598
    } else if i == 16 {
        1048587
    } else if i == 17 {
        1048582
    } else if i == 18 {
        1048579
    } else if i == 19 {
        1048577
    } else {
        1048577
    }
}

/// Binary scan computing 2^(rem/2^20) * acc over the remaining bit weights.
pub open spec fn exp2_frac_rec(rem: int, acc: int, i: nat) -> int
    decreases 21 - i,
{
    if i > 20 {
        acc
    } else {
        let t = frac_bit(i);
        if rem >= t {
            exp2_frac_rec(rem - t, (acc * exp2_step(i as int)) / (FX_ONE as int), i + 1)
        } else {
            exp2_frac_rec(rem, acc, i + 1)
        }
    }
}

/// 2^(f/2^20) in units, for a fractional argument `0 <= f < 2^20`.
pub open spec fn exp2_frac(f: int) -> int {
    exp2_frac_rec(f, FX_ONE as int, 1)
}

fn exp2_frac_x(f: i64) -> (r: u64)
    requires
        0 <= f < FX_ONE,
    ensures
        r == exp2_frac(f as int),
        1048576 <= r <= 2199023255552,  // [2^20, 2^41]
{
    let mut acc: u64 = 1048576;
    let mut rem: u64 = f as u64;
    let mut t: u64 = 524288;
    let mut i: usize = 1;
    proof {
        lemma2_to64();
    }
    while i <= 20
        invariant
            1 <= i <= 21,
            i <= 20 ==> t == frac_bit(i as nat),
            1048576 <= acc,
            acc <= pow2((20 + i) as nat),
            exp2_frac_rec(rem as int, acc as int, i as nat) == exp2_frac(f as int),
        decreases 21 - i,
    {
        if rem >= t {
            rem = rem - t;
            let c: u64 = exp2_step_x(i);
            proof {
                lemma2_to64();
                lemma2_to64_rest();
                assert(acc * c <= pow2((20 + i) as nat) * pow2(21)) by (nonlinear_arith)
                    requires
                        0 <= acc as int <= pow2((20 + i) as nat),
                        0 <= c as int <= pow2(21),
                ;
                lemma_pow2_adds((20 + i) as nat, 21);
                lemma_pow2_strictly_increases((41 + i) as nat, 62);
            }
            let wide: u64 = acc * c;
            let prev_acc = acc;
            acc = wide / 1048576;
            proof {
                // the new accumulator stays at least one unit
                assert(1048576 * 1048576 <= wide) by (nonlinear_arith)
                    requires
                        1048576 <= prev_acc as int,
                        1048576 <= c as int,
                        wide == prev_acc * c,
                ;
                lemma_div_is_ordered(1048576int * 1048576int, wide as int, 1048576);
                lemma_div_by_multiple(1048576, 1048576);
                // and below a power of two that grows by one with each step
                lemma_div_is_ordered(wide as int, pow2((41 + i) as nat) as int, 1048576);
                lemma_pow2_subtracts(20, (41 + i) as nat);
            }
        }
        i = i + 1;
        t = t / 2;
        proof {
            lemma2_to64();
            lemma_pow2_strictly_increases((19 + i) as nat, (20 + i) as nat);
            if i <= 20 {
                lemma_pow2_adds(1, (20 - i) as nat);
                lemma_div_multiples_vanish(pow2((20 - i) as nat) as int, 2);
            }
        }
    }
    proof {
        lemma2_to64_rest();
    }
    acc
}

/// Split a scalar into its floor in whole units and its fractional remainder.
fn fx_floor_split(x: i64) -> (r: (i64, i64))
    ensures
        r.0 == (x as int) / (FX_ONE as int),
        r.1 == (x as int) % (FX_ONE as int),
        -8796093022209 <= r.0 <= 8796093022207,
        0 <= r.1 < FX_ONE,
{
    if x >= 0 {
        let xu: u64 = x as u64;
        let q: u64 = xu / 1048576;
        let rm: u64 = xu % 1048576;
        (q as i64, rm as i64)
    } else {
        let m: u128 = mag_u128(x);
        let q: u128 = m / 1048576;
        let rm: u128 = m % 1048576;
        proof {
            lemma_fundamental_div_mod(m as int, 1048576);
            if rm == 0 {
                lemma_fundamental_div_mod_converse(x as int, 1048576, -(q as int), 0);
            } else {
                lemma_fundamental_div_mod_converse(
                    x as int,
                    1048576,
                    -(q as int) - 1,
                    1048576 - (rm as int),
                );
            }
        }
        if rm == 0 {
            (-(q as i64), 0)
        } else {
            (-(q as i64) - 1, 1048576 - (rm as i64))
        }
    }
}

/// A small power of two, exactly.
fn pow2_u64(k: u64) -> (p: u64)
    requires
        k <= 63,
    ensures
        p == pow2(k as nat),
{
    let mut p: u64 = 1;
    let mut j: u64 = 0;
    proof {
        lemma2_to64();
    }
    while j < k
        invariant
            j <= k <= 63,
            p == pow2(j as nat),
        decreases k - j,
    {
        proof {
            lemma2_to64_rest();
            let jn: nat = (j + 1) as nat;
            if jn < 63 {
                lemma_pow2_strictly_increases(jn, 63);
            }
            lemma_pow2_adds(j as nat, 1);
            lemma2_to64();
        }
        p = p * 2;
        j = j + 1;
    }
    p
}

/// 2^(x/2^20) in units: the exponential the blend and glow shaping use.
/// Results too large to represent saturate; results below one unit
/// truncate to zero.
pub open spec fn exp2_fx(x: int) -> int {
    let n = x / (FX_ONE as int);
    let f = x % (FX_ONE as int);
    let frac = exp2_frac(f);
    if n >= 0 {
        sat(frac * pow2(n as nat))
    } else {
        frac / (pow2((-n) as nat) as int)
    }
}

/// Base-two exponential of a fixed-point scalar.
pub fn fx_exp2(x: i64) -> (r: i64)
    ensures
        r == exp2_fx(x as int),
{
    let nf = fx_floor_split(x);
    let n: i64 = nf.0;
    let f: i64 = nf.1;
    let frac: u64 = exp2_frac_x(f);
    if n >= 0 {
        if n >= 44 {
            proof {
                lemma2_to64_rest();
                if n > 44 {
                    lemma_pow2_strictly_increases(44, n as nat);
                }
                assert(frac * pow2(n as nat) >= 1048576 * 17592186044416) by (nonlinear_arith)
                    requires
                        frac >= 1048576,
                        pow2(n as nat) >= 17592186044416,
                ;
            }
            FX_MAX
        } else {
            let p: u64 = pow2_u64(n as u64);
            proof {
                lemma2_to64_rest();
                if (n as nat) < 44 {
                    lemma_pow2_strictly_increases(n as nat, 44);
                }
                assert((frac as u128) * (p as u128) <= 2199023255552u128 * 17592186044416u128)
                    by (nonlinear_arith)
                    requires
                        frac as u128 <= 2199023255552u128,
                        p as u128 <= 17592186044416u128,
                ;
            }
            let prod: u128 = (frac as u128) * (p as u128);
            if prod > FX_MAX as u128 {
                FX_MAX
            } else {
                prod as i64
            }
        }
    } else {
        let k_wide: i128 = -(n as i128);
        let k: u64 = k_wide as u64;
        if k >= 64 {
            proof {
                lemma2_to64_rest();
                if (k as nat) > 64 {
                    lemma_pow2_strictly_increases(64, k as nat);
                }
                lemma_basic_div(frac as int, pow2(k as nat) as int);
            }
            0
        } else {
            let p: u64 = pow2_u64(k);
            proof {
                lemma_pow2_pos(k as nat);
            }
            let r64: u64 = frac / p;
            proof {
                lemma_div_nonincreasing(frac as int, p as int);
            }
            r64 as i64
        }
    }
}

/// Halve `m` until it lies below two units, counting the halvings.
pub open spec fn log2_norm_down(m: int, n: int) -> (int, int)
    decreases m,
{
    if m >= 2 * FX_ONE {
        log2_norm_down(m / 2, n + 1)
    } else {
        (m, n)
    }
}

/// Double `m` until it reaches one unit, counting the doublings.
pub open spec fn log2_norm_up(m: int, n: int) -> (int, int)
    decreases (if m < FX_ONE {
        FX_ONE - m
    } else {
        0
    }),
{
    if 1 <= m < FX_ONE {
        log2_norm_up(2 * m, n - 1)
    } else {
        (m, n)
    }
}

/// Squaring scan extracting the fractional bits of a base-two logarithm
/// of a mantissa in [1, 2) units.
pub open spec fn log2_frac_rec(m: int, acc: int, i: nat) -> int
    decreases 21 - i,
{
    if i > 20 {
        acc
    } else {
        let m2 = (m * m) / (FX_ONE as int);
        if m2 >= 2 * FX_ONE {
            log2_frac_rec(m2 / 2, acc + frac_bit(i), i + 1)
        } else {
            log2_frac_rec(m2, acc, i + 1)
        }
    }
}

/// Base-two logarithm of a scalar in units; nonpositive inputs yield the
/// smallest representable value, standing in for minus infinity.
pub open spec fn log2_fx(x: int) -> int {
    if x <= 0 {
        -(FX_MAX as int)
    } else {
        let dn = log2_norm_down(x, 0);
        let up = log2_norm_up(dn.0, dn.1);
        up.1 * FX_ONE + log2_frac_rec(up.0, 0, 1)
    }
}

/// Base-two logarithm of a fixed-point scalar.
pub fn fx_log2(x: i64) -> (r: i64)
    ensures
        r == log2_fx(x as int),
{
    if x <= 0 {
        return -FX_MAX;
    }
    let ghost dn = log2_norm_down(x as int, 0);
    let ghost up = log2_norm_up(dn.0, dn.1);
    let mut m: u64 = x as u64;
    let mut n: i64 = 0;
    proof {
        lemma2_to64();
        assert(pow2(0) * (m as int) == m as int);
    }
    while m >= 2097152
        invariant
            1 <= m,
            m as int <= FX_MAX,
            0 <= n <= 62,
            pow2(n as nat) * (m as int) <= FX_MAX,
            m >= 1048576 || (n == 0 && m as int == x as int),
            log2_norm_down(m as int, n as int) == dn,
        decreases m,
    {
        proof {
            lemma2_to64();
            lemma2_to64_rest();
            lemma_fundamental_div_mod(m as int, 2);
            lemma_pow2_adds(n as nat, 1);
            if n >= 43 {
                if n > 43 {
                    lemma_pow2_strictly_increases(43, n as nat);
                }
                assert(pow2(n as nat) * (m as int) >= 8796093022208 * 2097152)
                    by (nonlinear_arith)
                    requires
                        pow2(n as nat) >= 8796093022208,
                        m as int >= 2097152,
                ;
            }
            assert(pow2((n + 1) as nat) * ((m as int) / 2) <= pow2(n as nat) * (m as int))
                by (nonlinear_arith)
                requires
                    pow2((n + 1) as nat) == 2 * pow2(n as nat),
                    2 * ((m as int) / 2) <= m as int,
                    0 <= (m as int) / 2,
                    pow2(n as nat) >= 0,
            ;
        }
        m = m / 2;
        n = n + 1;
    }
    proof {
        lemma2_to64();
        assert((x as int) * pow2(0) == x as int);
    }
    while m < 1048576
        invariant
            1 <= m <= 2097151,
            -21 <= n <= 62,
            m < 1048576 ==> (n <= 0 && m as int == (x as int) * pow2((-n) as nat)),
            1 <= x,
            log2_norm_up(m as int, n as int) == up,
        decreases (if m < 1048576 {
            1048576int - m
        } else {
            0int
        }),
    {
        proof {
            lemma2_to64();
            lemma_pow2_adds((-n) as nat, 1);
            assert(((-n) + 1) as nat == (-n) as nat + 1);
            assert((x as int) * pow2(((-n) + 1) as nat) == 2 * ((x as int) * pow2(
                (-n) as nat,
            ))) by (nonlinear_arith)
                requires
                    pow2(((-n) + 1) as nat) == 2 * pow2((-n) as nat),
            ;
            if -n >= 20 {
                if -n > 20 {
                    lemma_pow2_strictly_increases(20, (-n) as nat);
                }
                assert((x as int) * pow2((-n) as nat) >= 1048576) by (nonlinear_arith)
                    requires
                        x as int >= 1,
                        pow2((-n) as nat) >= 1048576,
                ;
            }
        }
        m = m * 2;
        n = n - 1;
    }
    let ghost mstart = m as int;
    let mut acc: u64 = 0;
    let mut t: u64 = 524288;
    let mut i: usize = 1;
    proof {
        lemma2_to64();
    }
    while i <= 20
        invariant
            1 <= i <= 21,
            1048576 <= m < 2097152,
            i <= 20 ==> t == frac_bit(i as nat),
            i <= 20 ==> acc + 2 * t <= 1048576,
            acc <= 1048575,
            log2_frac_rec(m as int, acc as int, i as nat) == log2_frac_rec(mstart, 0, 1),
        decreases 21 - i,
    {
        proof {
            assert((m as int) * (m as int) < 2097152 * 2097152) by (nonlinear_arith)
                requires
                    0 <= (m as int) && (m as int) < 2097152,
            ;
            assert((m as int) * (m as int) >= 1048576 * 1048576) by (nonlinear_arith)
                requires
                    m as int >= 1048576,
            ;
            lemma_div_is_ordered(1048576int * 1048576int, (m as int) * (m as int), 1048576);
            lemma_div_is_ordered((m as int) * (m as int), 2097152int * 2097152int - 1, 1048576);
        }
        let wide: u64 = m * m;
        let m2: u64 = wide / 1048576;
        if m2 >= 2097152 {
            m = m2 / 2;
            acc = acc + t;
        } else {
            m = m2;
        }
        i = i + 1;
        t = t / 2;
        proof {
            lemma2_to64();
            if i <= 20 {
                lemma_pow2_adds(1, (20 - i) as nat);
                lemma_div_multiples_vanish(pow2((20 - i) as nat) as int, 2);
            }
        }
    }
    proof {
        lemma2_to64();
    }
    n * 1048576 + (acc as i64)
}

proof fn lemma_exp2_frac_rec_nonneg(rem: int, acc: int, i: nat)
    requires
        acc >= 0,
    ensures
        exp2_frac_rec(rem, acc, i) >= 0,
    decreases 21 - i,
{
    if i <= 20 {
        let t = frac_bit(i);
        if rem >= t {
            let c = exp2_step(i as int);
            lemma_mul_nonnegative(acc, c);
            lemma_div_pos_is_pos(acc * c, FX_ONE as int);
            lemma_exp2_frac_rec_nonneg(rem - t, (acc * c) / (FX_ONE as int), i + 1);
        } else {
            lemma_exp2_frac_rec_nonneg(rem, acc, i + 1);
        }
    }
}

/// The base-two exponential never goes negative.
pub proof fn lemma_exp2_fx_nonneg(x: int)
    ensures
        exp2_fx(x) >= 0,
{
    let n = x / (FX_ONE as int);
    let f = x % (FX_ONE as int);
    lemma_exp2_frac_rec_nonneg(f, FX_ONE as int, 1);
    let frac = exp2_frac(f);
    if n >= 0 {
        lemma_mul_nonnegative(frac, pow2(n as nat) as int);
    } else {
        lemma_pow2_pos((-n) as nat);
        lemma_div_pos_is_pos(frac, pow2((-n) as nat) as int);
    }
}

proof fn lemma_exp2_frac_rec_zero_rem(acc: int, i: nat)
    ensures
        exp2_frac_rec(0, acc, i) == acc,
    decreases 21 - i,
{
    if i <= 20 {
        lemma_pow2_pos((20 - i) as nat);
        lemma_exp2_frac_rec_zero_rem(acc, i + 1);
    }
}

/// Two to the zeroth power is one.
pub proof fn lemma_exp2_fx_zero()
    ensures
        exp2_fx(0) == FX_ONE,
{
    lemma2_to64();
    lemma_div_of0(FX_ONE as int);
    lemma_small_mod(0, FX_ONE as nat);
    lemma_exp2_frac_rec_zero_rem(FX_ONE as int, 1);
    assert(exp2_frac(0) == FX_ONE as int);
    lemma_mul_basics(FX_ONE as int);
    assert((FX_ONE as int) * pow2(0) == FX_ONE as int);
}

proof fn lemma_log2_norm_down_ge(m: int, n: int)
    requires
        m >= FX_ONE,
        n >= 0,
    ensures
        log2_norm_down(m, n).0 >= FX_ONE,
        log2_norm_down(m, n).1 >= 0,
    decreases m,
{
    if m >= 2 * FX_ONE {
        lemma_div_is_ordered(2 * (FX_ONE as int), m, 2);
        lemma_div_multiples_vanish(FX_ONE as int, 2);
        lemma_log2_norm_down_ge(m / 2, n + 1);
    }
}

proof fn lemma_log2_frac_rec_ge(m: int, acc: int, i: nat)
    ensures
        log2_frac_rec(m, acc, i) >= acc,
    decreases 21 - i,
{
    if i <= 20 {
        let m2 = (m * m) / (FX_ONE as int);
        lemma_pow2_pos((20 - i) as nat);
        if m2 >= 2 * FX_ONE {
            lemma_log2_frac_rec_ge(m2 / 2, acc + frac_bit(i), i + 1);
        } else {
            lemma_log2_frac_rec_ge(m2, acc, i + 1);
        }
    }
}

/// The base-two logarithm of anything at least one is nonnegative.
pub proof fn lemma_log2_fx_nonneg(x: int)
    requires
        x >= FX_ONE,
    ensures
        log2_fx(x) >= 0,
{
    lemma_log2_norm_down_ge(x, 0);
    let dn = log2_norm_down(x, 0);
    let up = log2_norm_up(dn.0, dn.1);
    assert(up == dn);
    lemma_log2_frac_rec_ge(up.0, 0, 1);
    lemma_mul_nonnegative(up.1, FX_ONE as int);
}

proof fn lemma_log2_frac_rec_one(acc: int, i: nat)
    ensures
        log2_frac_rec(FX_ONE as int, acc, i) == acc,
    decreases 21 - i,
{
    if i <= 20 {
        lemma_div_by_multiple(FX_ONE as int, FX_ONE as int);
        lemma_log2_frac_rec_one(acc, i + 1);
    }
}

/// The base-two logarithm of one is zero.
pub proof fn lemma_log2_fx_one()
    ensures
        log2_fx(FX_ONE as int) == 0,
{
    lemma_log2_frac_rec_one(0, 1);
    lemma_mul_basics(FX_ONE as int);
}

/// log2(e) in units, used to express the natural exponential through exp2.
pub const FX_LOG2_E: i64 = 1512775;

/// The value of `b` raised to the real power `p`, through exp2 and log2;
/// a nonpositive base yields zero.
pub open spec fn powf_fx(b: int, p: int) -> int {
    if b <= 0 {
        0
    } else {
        exp2_fx(mul_fx(p, log2_fx(b)))
    }
}

/// Raise a nonnegative scalar to a real power; a nonpositive base yields
/// zero.
pub fn fx_powf(b: i64, p: i64) -> (r: i64)
    ensures
        r == powf_fx(b as int, p as int),
{
    if b <= 0 {
        0
    } else {
        fx_exp2(fx_mul(p, fx_log2(b)))
    }
}

/// The natural exponential, through exp2.
pub open spec fn exp_fx(x: int) -> int {
    exp2_fx(mul_fx(x, FX_LOG2_E as int))
}

/// Natural exponential of a fixed-point scalar.
pub fn fx_exp(x: i64) -> (r: i64)
    ensures
        r == exp_fx(x as int),
{
    fx_exp2(fx_mul(x, FX_LOG2_E))
}

/// A whole number of units, saturated into range.
pub fn fx_of_usize(x: usize) -> (r: i64)
    ensures
        r == sat(x * FX_ONE),
{
    proof {
        assert((x as u128) * (FX_ONE as u128)
            <= 18446744073709551615u128 * 1048576u128) by (nonlinear_arith)
            requires
                x as u128 <= 18446744073709551615u128,
        ;
    }
    let wide: u128 = (x as u128) * (FX_ONE as u128);
    if wide > FX_MAX as u128 {
        FX_MAX
    } else {
        wide as i64
    }
}

} // verus!
