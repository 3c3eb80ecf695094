//! IEEE-754 binary32 arithmetic on bit patterns, computed with exact integer
//! arithmetic.
//!
//! The quantization transform divides a 32-bit integer by an integer factor
//! and narrows the quotient to a 32-bit float, or multiplies a float by the
//! factor and truncates toward zero. Both directions are defined here over
//! the float's bit pattern, with rounding to nearest (ties to even), so the
//! whole computation stays in the integers and is verified bit for bit.
//!
//! Quotients of two nonzero 32-bit integers never leave the binary32 normal
//! range, so the decode direction needs no subnormal handling; the encode
//! direction requires normal (or zero) input and a product whose truncation
//! fits a 32-bit integer, which is what the wire format can carry.

use vstd::arithmetic::div_mod::{lemma_div_by_multiple, lemma_div_is_ordered,
    lemma_div_is_ordered_by_denominator, lemma_multiply_divide_lt};
use vstd::arithmetic::mul::{lemma_mul_inequality, lemma_mul_strict_inequality,
    lemma_mul_strictly_positive};
use vstd::arithmetic::power2::{lemma2_to64, lemma2_to64_rest, lemma_pow2_adds, lemma_pow2_pos,
    lemma_pow2_strictly_increases, lemma_pow2_subtracts, pow2};
use vstd::prelude::*;

verus! {

/// `2^k` as a mathematical integer.
pub open spec fn p2(k: int) -> int
    recommends
        k >= 0,
{
    pow2(k as nat) as int
}

/// The position of the most significant set bit: `2^msb(n) <= n <
/// 2^(msb(n) + 1)` for positive `n`.
pub open spec fn msb(n: int) -> int
    recommends
        n >= 1,
    decreases n,
{
    if n < 2 {
        0
    } else {
        1 + msb(n / 2)
    }
}

/// Rounds a positive integer to 24 significant bits, to nearest with ties to
/// even. The result `(sig, e)` satisfies `2^23 <= sig < 2^24`, and
/// `sig * 2^(e - 23)` is the rounded value of `n`.
pub open spec fn round24(n: int) -> (int, int)
    recommends
        n >= 1,
{
    let e = msb(n);
    if e <= 23 {
        (n * p2(23 - e), e)
    } else {
        let d = e - 23;
        let q = n / p2(d);
        let r = n % p2(d);
        let up = 2 * r > p2(d) || (2 * r == p2(d) && q % 2 == 1);
        let s = q + if up {
            1int
        } else {
            0int
        };
        if s == p2(24) {
            (p2(23), e + 1)
        } else {
            (s, e)
        }
    }
}

/// The binary32 bit pattern with the given sign, significand (including the
/// implicit leading bit) and unbiased exponent.
pub open spec fn compose_bits(neg: bool, sig: int, e: int) -> u32
    recommends
        p2(23) <= sig < p2(24),
        -126 <= e <= 127,
{
    ((if neg {
        0x8000_0000int
    } else {
        0int
    }) + (e + 127) * p2(23) + (sig - p2(23))) as u32
}

/// The bit pattern of a 32-bit integer converted to binary32 (the value
/// rounded to nearest, ties to even).
pub open spec fn spec_int_to_f32_bits(v: int) -> u32 {
    if v == 0 {
        0u32
    } else {
        let a = if v >= 0 {
            v
        } else {
            -v
        };
        let se = round24(a);
        compose_bits(v < 0, se.0, se.1)
    }
}

/// Divides two normalized significands, rounding to nearest with ties to
/// even. The arguments describe the values `sigX * 2^(eX - 23)`; the result
/// is normalized the same way.
pub open spec fn div24(sig1: int, e1: int, sig2: int, e2: int) -> (int, int)
    recommends
        p2(23) <= sig1 < p2(24),
        p2(23) <= sig2 < p2(24),
{
    if sig1 >= sig2 {
        let q = sig1 * p2(23) / sig2;
        let r = sig1 * p2(23) % sig2;
        let up = 2 * r > sig2 || (2 * r == sig2 && q % 2 == 1);
        let s = q + if up {
            1int
        } else {
            0int
        };
        if s == p2(24) {
            (p2(23), e1 - e2 + 1)
        } else {
            (s, e1 - e2)
        }
    } else {
        let q = sig1 * p2(24) / sig2;
        let r = sig1 * p2(24) % sig2;
        let up = 2 * r > sig2 || (2 * r == sig2 && q % 2 == 1);
        let s = q + if up {
            1int
        } else {
            0int
        };
        if s == p2(24) {
            (p2(23), e1 - e2)
        } else {
            (s, e1 - e2 - 1)
        }
    }
}

/// The binary32 bit pattern of `v / f` where both 32-bit integers are first
/// converted to binary32 and the quotient is rounded to nearest, ties to
/// even — the quantization decode step for one element.
pub open spec fn spec_quant_decode(v: int, f: int) -> u32
    recommends
        f != 0,
{
    if v == 0 {
        if f < 0 {
            0x8000_0000u32
        } else {
            0u32
        }
    } else {
        let neg = (v < 0) != (f < 0);
        let a = if v >= 0 {
            v
        } else {
            -v
        };
        let b = if f >= 0 {
            f
        } else {
            -f
        };
        let s1 = round24(a);
        let s2 = round24(b);
        let se = div24(s1.0, s1.1, s2.0, s2.1);
        compose_bits(neg, se.0, se.1)
    }
}

/// The biased exponent field of a bit pattern.
pub open spec fn exp_field(bits: u32) -> int {
    (bits as int) / p2(23) % p2(8)
}

/// The significand of a normal bit pattern, with the implicit bit restored.
pub open spec fn sig_of(bits: u32) -> int {
    (bits as int) % p2(23) + p2(23)
}

/// The unbiased exponent of a normal bit pattern.
pub open spec fn exp_of(bits: u32) -> int {
    exp_field(bits) - 127
}

/// Whether the bit pattern is a normal (not zero, subnormal, infinite or
/// NaN) binary32 value.
pub open spec fn is_normal(bits: u32) -> bool {
    1 <= exp_field(bits) <= 254
}

/// Whether the bit pattern is a zero or a normal binary32 value.
pub open spec fn zero_or_normal(bits: u32) -> bool {
    bits == 0 || bits == 0x8000_0000u32 || is_normal(bits)
}

/// Whether the bit pattern's sign bit is set.
pub open spec fn sign_of(bits: u32) -> bool {
    bits >= 0x8000_0000u32
}

/// Multiplies two normalized significands, rounding to nearest with ties to
/// even. The result is normalized like the inputs.
pub open spec fn mul24(sig1: int, e1: int, sig2: int, e2: int) -> (int, int)
    recommends
        p2(23) <= sig1 < p2(24),
        p2(23) <= sig2 < p2(24),
{
    let se = round24(sig1 * sig2);
    (se.0, se.1 + e1 + e2 - 46)
}

/// The magnitude of `sig * 2^(e - 23)` truncated toward zero.
pub open spec fn trunc_mag(sig: int, e: int) -> int
    recommends
        p2(23) <= sig < p2(24),
{
    if e < 0 {
        0
    } else if e <= 23 {
        sig / p2(23 - e)
    } else {
        sig * p2(e - 23)
    }
}

/// The significand/exponent pair of the product of a normal bit pattern and
/// a nonzero integer factor.
pub open spec fn quant_product(bits: u32, f: int) -> (int, int)
    recommends
        is_normal(bits),
        f != 0,
{
    let af = if f >= 0 {
        f
    } else {
        -f
    };
    let sf = round24(af);
    mul24(sig_of(bits), exp_of(bits), sf.0, sf.1)
}

/// The quantization encode step for one element: the float given by `bits`
/// is multiplied by the factor `f` (binary32 arithmetic, round to nearest,
/// ties to even) and the product is truncated toward zero.
pub open spec fn spec_quant_encode(bits: u32, f: int) -> i32
    recommends
        zero_or_normal(bits),
        f != 0,
        quant_encode_fits(bits, f),
{
    if bits == 0 || bits == 0x8000_0000u32 {
        0i32
    } else {
        let neg = sign_of(bits) != (f < 0);
        let se = quant_product(bits, f);
        let m = trunc_mag(se.0, se.1);
        if neg {
            (-m) as i32
        } else {
            m as i32
        }
    }
}

/// Whether the truncated product of the float `bits` and the factor `f`
/// fits a 32-bit signed integer.
pub open spec fn quant_encode_fits(bits: u32, f: int) -> bool {
    if bits == 0 || bits == 0x8000_0000u32 {
        true
    } else {
        let neg = sign_of(bits) != (f < 0);
        let se = quant_product(bits, f);
        let m = trunc_mag(se.0, se.1);
        if neg {
            m <= 0x8000_0000
        } else {
            m <= 0x7fff_ffff
        }
    }
}

proof fn lemma_msb_bounds(n: int)
    requires
        n >= 1,
    ensures
        msb(n) >= 0,
        p2(msb(n)) <= n < p2(msb(n) + 1),
    decreases n,
{
    lemma2_to64();
    if n < 2 {
    } else {
        lemma_msb_bounds(n / 2);
        let e = msb(n / 2);
        assert(pow2((e + 1) as nat) == 2 * pow2(e as nat)) by {
            lemma_pow2_adds(e as nat, 1);
        }
        assert(pow2((e + 2) as nat) == 2 * pow2((e + 1) as nat)) by {
            lemma_pow2_adds((e + 1) as nat, 1);
        }
    }
}

proof fn lemma_msb_below(n: int, k: int)
    requires
        1 <= n,
        0 <= k,
        n < p2(k),
    ensures
        msb(n) < k,
{
    lemma_msb_bounds(n);
    if msb(n) >= k {
        lemma_pow2_strictly_increases(k as nat, (msb(n) + 1) as nat);
        if msb(n) > k {
            lemma_pow2_strictly_increases(k as nat, msb(n) as nat);
        }
        assert(false);
    }
}

proof fn lemma_round24_bounds(n: int)
    requires
        n >= 1,
    ensures
        p2(23) <= round24(n).0 < p2(24),
        msb(n) <= round24(n).1 <= msb(n) + 1,
    decreases n,
{
    lemma2_to64();
    lemma_msb_bounds(n);
    let e = msb(n);
    if e <= 23 {
        let m = p2(23 - e);
        lemma_pow2_pos((23 - e) as nat);
        lemma_pow2_adds(e as nat, (23 - e) as nat);
        lemma_pow2_adds((e + 1) as nat, (23 - e) as nat);
        lemma_mul_inequality(p2(e), n, m);
        lemma_mul_inequality(n + 1, p2(e + 1), m);
        assert((n + 1) * m == n * m + m) by (nonlinear_arith);
        assert(p2(23) <= n * m < p2(24));
    } else {
        let d = e - 23;
        let pd = p2(d);
        lemma_pow2_pos(d as nat);
        let q = n / pd;
        lemma_pow2_subtracts(d as nat, e as nat);
        assert(p2(e) / pd == p2(23));
        lemma_div_is_ordered(p2(e), n, pd);
        assert(q >= p2(23));
        lemma_pow2_adds(24, d as nat);
        assert(p2(e + 1) == p2(24 + d));
        lemma_multiply_divide_lt(n, pd, p2(24));
        assert(q < p2(24));
    }
}

proof fn lemma_div24_bounds(sig1: int, e1: int, sig2: int, e2: int)
    requires
        p2(23) <= sig1 < p2(24),
        p2(23) <= sig2 < p2(24),
    ensures
        p2(23) <= div24(sig1, e1, sig2, e2).0 < p2(24),
        e1 - e2 - 1 <= div24(sig1, e1, sig2, e2).1 <= e1 - e2 + 1,
{
    lemma2_to64();
    lemma_pow2_pos(23);
    lemma_pow2_pos(24);
    if sig1 >= sig2 {
        let q = sig1 * p2(23) / sig2;
        lemma_mul_inequality(sig2, sig1, p2(23));
        lemma_div_is_ordered(sig2 * p2(23), sig1 * p2(23), sig2);
        lemma_div_by_multiple(p2(23), sig2);
        assert(sig2 * p2(23) == p2(23) * sig2) by (nonlinear_arith);
        assert(q >= p2(23));
        // q <= sig1 < p2(24), so the rounded value stays within the field.
        lemma_div_is_ordered_by_denominator(sig1 * p2(23), p2(23), sig2);
        lemma_div_by_multiple(sig1, p2(23));
        assert(sig1 * p2(23) / p2(23) == sig1);
        assert(q <= sig1);
    } else {
        let q = sig1 * p2(24) / sig2;
        // 2 * sig1 >= p2(24) > sig2, so sig1 * p2(24) >= p2(23) * sig2.
        assert(sig1 * p2(24) >= p2(23) * sig2) by (nonlinear_arith)
            requires
                p2(24) == 2 * p2(23),
                sig1 >= p2(23),
                sig2 < p2(24),
                p2(23) > 0,
        ;
        lemma_div_is_ordered(p2(23) * sig2, sig1 * p2(24), sig2);
        lemma_div_by_multiple(p2(23), sig2);
        assert(p2(23) * sig2 == sig2 * p2(23)) by (nonlinear_arith);
        assert(q >= p2(23));
        lemma_mul_strict_inequality(sig1, sig2, p2(24));
        assert(sig1 * p2(24) < sig2 * p2(24));
        lemma_multiply_divide_lt(sig1 * p2(24), sig2, p2(24));
        assert(q < p2(24));
    }
}

/// `2^k` computed executably.
fn exec_p2(k: u64) -> (r: u64)
    requires
        k <= 63,
    ensures
        r as int == p2(k as int),
        r >= 1,
{
    let mut i: u64 = 0;
    let mut r: u64 = 1;
    proof {
        lemma2_to64();
        lemma2_to64_rest();
    }
    while i < k
        invariant
            i <= k <= 63,
            r as int == p2(i as int),
        decreases k - i,
    {
        proof {
            lemma_pow2_adds(i as nat, 1);
            lemma_pow2_strictly_increases(i as nat + 1, 64);
            lemma2_to64();
            lemma2_to64_rest();
        }
        r = r * 2;
        i = i + 1;
    }
    proof {
        lemma_pow2_pos(k as nat);
    }
    r
}

/// The most significant set bit position, computed executably.
fn exec_msb(n: u64) -> (e: u64)
    requires
        n >= 1,
    ensures
        e as int == msb(n as int),
        e <= 63,
{
    proof {
        lemma2_to64();
        lemma2_to64_rest();
        lemma_msb_below(n as int, 64);
    }
    let mut m: u64 = n;
    let mut e: u64 = 0;
    while m >= 2
        invariant
            m >= 1,
            msb(n as int) == e + msb(m as int),
            msb(n as int) <= 63,
            e <= 63,
        decreases m,
    {
        m = m / 2;
        e = e + 1;
        proof {
            lemma_msb_bounds(m as int);
        }
    }
    e
}

/// Normalizes a positive integer to a 24-bit significand and exponent,
/// rounding to nearest with ties to even.
fn exec_round24(n: u64) -> (r: (u64, u64))
    requires
        1 <= n,
        (n as int) < p2(48),
    ensures
        r.0 as int == round24(n as int).0,
        r.1 as int == round24(n as int).1,
        p2(23) <= (r.0 as int) < p2(24),
        r.1 <= 48,
{
    proof {
        lemma2_to64();
        lemma2_to64_rest();
        lemma_msb_below(n as int, 48);
        lemma_round24_bounds(n as int);
    }
    let e = exec_msb(n);
    if e <= 23 {
        let m = exec_p2(23 - e);
        proof {
            lemma_msb_bounds(n as int);
            lemma_pow2_adds((e as int + 1) as nat, (23 - e as int) as nat);
            lemma_mul_inequality(n as int + 1, p2(e as int + 1), p2(23 - e as int));
            assert((n as int + 1) * p2(23 - e as int) == n as int * p2(23 - e as int) + p2(
                23 - e as int,
            )) by (nonlinear_arith);
        }
        (n * m, e)
    } else {
        let d = e - 23;
        let pd = exec_p2(d);
        let q = n / pd;
        let r = n % pd;
        let up = 2 * r > pd || (2 * r == pd && q % 2 == 1);
        let s = if up {
            q + 1
        } else {
            q
        };
        if s == 0x100_0000 {
            (0x80_0000u64, e + 1)
        } else {
            (s, e)
        }
    }
}

/// The binary32 bit pattern with the given sign, significand and unbiased
/// exponent.
fn exec_compose(neg: bool, sig: u64, e: i64) -> (r: u32)
    requires
        p2(23) <= (sig as int) < p2(24),
        -126 <= e <= 127,
    ensures
        r == compose_bits(neg, sig as int, e as int),
{
    proof {
        lemma2_to64();
    }
    let eb = (e + 127) as u32;
    let frac = (sig as u32) - 0x80_0000;
    let sign: u32 = if neg {
        0x8000_0000
    } else {
        0
    };
    sign + eb * 0x80_0000 + frac
}

/// The bit pattern of a 32-bit integer converted to binary32.
pub fn int_to_f32_bits(v: i32) -> (r: u32)
    ensures
        r == spec_int_to_f32_bits(v as int),
{
    if v == 0 {
        return 0;
    }
    let a: u64 = if v >= 0 {
        v as u64
    } else {
        (-(v as i64)) as u64
    };
    proof {
        lemma2_to64();
        lemma2_to64_rest();
        lemma_msb_below(a as int, 32);
        lemma_round24_bounds(a as int);
    }
    let se = exec_round24(a);
    exec_compose(v < 0, se.0, se.1 as i64)
}

/// Divides the float `v / f` entirely in integer arithmetic: both integers
/// are converted to binary32 and the quotient is rounded to nearest, ties
/// to even. The result is the quotient's bit pattern.
pub fn quant_decode_bits(v: i32, factor: i32) -> (r: u32)
    requires
        factor != 0,
    ensures
        r == spec_quant_decode(v as int, factor as int),
{
    if v == 0 {
        if factor < 0 {
            return 0x8000_0000;
        } else {
            return 0;
        }
    }
    let neg = (v < 0) != (factor < 0);
    let a: u64 = if v >= 0 {
        v as u64
    } else {
        (-(v as i64)) as u64
    };
    let b: u64 = if factor >= 0 {
        factor as u64
    } else {
        (-(factor as i64)) as u64
    };
    proof {
        lemma2_to64();
        lemma2_to64_rest();
        lemma_msb_below(a as int, 32);
        lemma_msb_below(b as int, 32);
        lemma_round24_bounds(a as int);
        lemma_round24_bounds(b as int);
    }
    let s1 = exec_round24(a);
    let s2 = exec_round24(b);
    proof {
        lemma_msb_bounds(a as int);
        lemma_msb_bounds(b as int);
        lemma_div24_bounds(s1.0 as int, s1.1 as int, s2.0 as int, s2.1 as int);
    }
    let (sig, e) = exec_div24(s1.0, s1.1 as i64, s2.0, s2.1 as i64);
    exec_compose(neg, sig, e)
}

/// Divides two normalized significands, rounding to nearest, ties to even.
fn exec_div24(sig1: u64, e1: i64, sig2: u64, e2: i64) -> (r: (u64, i64))
    requires
        p2(23) <= (sig1 as int) < p2(24),
        p2(23) <= (sig2 as int) < p2(24),
        -64 <= e1 <= 64,
        -64 <= e2 <= 64,
    ensures
        r.0 as int == div24(sig1 as int, e1 as int, sig2 as int, e2 as int).0,
        r.1 as int == div24(sig1 as int, e1 as int, sig2 as int, e2 as int).1,
        p2(23) <= (r.0 as int) < p2(24),
    decreases 0int,
{
    proof {
        lemma2_to64();
        lemma2_to64_rest();
        lemma_div24_bounds(sig1 as int, e1 as int, sig2 as int, e2 as int);
        assert(sig1 as int * p2(23) < p2(47)) by {
            lemma_mul_strict_inequality(sig1 as int, p2(24), p2(23));
            lemma_pow2_adds(24, 23);
        }
        assert(sig1 as int * p2(24) < p2(48)) by {
            lemma_mul_strict_inequality(sig1 as int, p2(24), p2(24));
            lemma_pow2_adds(24, 24);
        }
    }
    if sig1 >= sig2 {
        let num = sig1 * 0x80_0000;
        let q = num / sig2;
        let r = num % sig2;
        let up = 2 * r > sig2 || (2 * r == sig2 && q % 2 == 1);
        let s = if up {
            q + 1
        } else {
            q
        };
        if s == 0x100_0000 {
            (0x80_0000u64, e1 - e2 + 1)
        } else {
            (s, e1 - e2)
        }
    } else {
        let num = sig1 * 0x100_0000;
        let q = num / sig2;
        let r = num % sig2;
        let up = 2 * r > sig2 || (2 * r == sig2 && q % 2 == 1);
        let s = if up {
            q + 1
        } else {
            q
        };
        if s == 0x100_0000 {
            (0x80_0000u64, e1 - e2)
        } else {
            (s, e1 - e2 - 1)
        }
    }
}

/// Multiplies a normal (or zero) float, given as its bit pattern, by an
/// integer factor and truncates the product toward zero — the quantization
/// encode step for one element. The truncated product must fit a 32-bit
/// integer.
pub fn quant_encode_one(bits: u32, factor: i32) -> (r: i32)
    requires
        factor != 0,
        zero_or_normal(bits),
        quant_encode_fits(bits, factor as int),
    ensures
        r == spec_quant_encode(bits, factor as int),
{
    proof {
        lemma2_to64();
        lemma2_to64_rest();
    }
    if bits == 0 || bits == 0x8000_0000 {
        return 0;
    }
    let neg = (bits >= 0x8000_0000) != (factor < 0);
    let af: u64 = if factor >= 0 {
        factor as u64
    } else {
        (-(factor as i64)) as u64
    };
    proof {
        lemma_msb_below(af as int, 32);
        lemma_round24_bounds(af as int);
        lemma_msb_bounds(af as int);
    }
    let sf = exec_round24(af);
    // Unpack the float: significand with implicit bit, unbiased exponent.
    let eb: u32 = bits / 0x80_0000 % 0x100;
    let sig: u64 = (bits % 0x80_0000) as u64 + 0x80_0000;
    let e: i64 = eb as i64 - 127;
    assert(eb as int == exp_field(bits) && sig as int == sig_of(bits) && e as int == exp_of(bits));
    // Multiply the significands and round back to 24 bits.
    proof {
        lemma_mul_strictly_positive(sig as int, sf.0 as int);
        lemma_pow2_adds(24, 24);
        assert((sig as int) * (sf.0 as int) < p2(48)) by (nonlinear_arith)
            requires
                0 <= (sig as int) < p2(24),
                0 <= (sf.0 as int) < p2(24),
                p2(48) == p2(24) * p2(24),
        ;
    }
    let prod = sig * sf.0;
    proof {
        lemma_round24_bounds(prod as int);
    }
    let sp = exec_round24(prod);
    let ee: i64 = sp.1 as i64 + e + sf.1 as i64 - 46;
    // Truncate `sp.0 * 2^(ee - 23)` toward zero.
    let m: u64 = if ee < 0 {
        0
    } else if ee <= 23 {
        sp.0 / exec_p2((23 - ee) as u64)
    } else {
        proof {
            if ee > 31 {
                lemma_trunc_mag_high(sp.0 as int, ee as int);
                assert(false);
            }
            lemma_pow2_adds(23, (ee - 23) as nat);
            assert(trunc_mag(sp.0 as int, ee as int) == sp.0 as int * p2(ee as int - 23));
            lemma_mul_strict_inequality(sp.0 as int, p2(24), p2(ee as int - 23));
            lemma_pow2_adds(24, (ee - 23) as nat);
            lemma_pow2_strictly_increases((ee as nat + 1) as nat, 63);
        }
        sp.0 * exec_p2((ee - 23) as u64)
    };
    proof {
        if ee >= 0 && ee <= 23 {
            lemma_pow2_pos((23 - ee as int) as nat);
            vstd::arithmetic::div_mod::lemma_div_nonincreasing(sp.0 as int, p2(23 - ee as int));
            vstd::arithmetic::div_mod::lemma_div_pos_is_pos(sp.0 as int, p2(23 - ee as int));
        }
        assert(m as int == trunc_mag(sp.0 as int, ee as int));
    }
    if neg {
        proof {
            assert(quant_encode_fits(bits, factor as int));
        }
        (-(m as i64)) as i32
    } else {
        m as i32
    }
}

proof fn lemma_trunc_mag_high(sig: int, e: int)
    requires
        p2(23) <= sig < p2(24),
        e > 31,
    ensures
        trunc_mag(sig, e) > 0x8000_0000,
{
    lemma2_to64();
    lemma2_to64_rest();
    lemma_pow2_pos((e - 23) as nat);
    lemma_mul_inequality(p2(23), sig, p2(e - 23));
    lemma_pow2_adds(23, (e - 23) as nat);
    if e > 32 {
        lemma_pow2_strictly_increases(32, e as nat);
    }
}

} // verus!
