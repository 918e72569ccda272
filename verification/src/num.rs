//! The numeric model of the core.
//!
//! Script numbers are IEEE-754 double-precision values. Because the verifier
//! works on integers, this module carries every number as its 64-bit pattern
//! (sign, eleven exponent bits, fifty-two fraction bits) and defines the
//! operations the core needs — NaN tests, ordering, integer encoding and
//! decoding, truncating casts — arithmetically on that pattern.

use vstd::prelude::*;

verus! {

use vstd::arithmetic::power2::pow2;
use vstd::arithmetic::power2::lemma2_to64;
use vstd::arithmetic::power2::lemma2_to64_rest;

/// The sign bit of a pattern.
pub open spec fn sign_of(b: u64) -> bool {
    b / 0x8000_0000_0000_0000 == 1
}

/// The eleven-bit exponent field.
pub open spec fn exp_of(b: u64) -> u64 {
    (b / 0x10_0000_0000_0000) % 0x800
}

/// The fifty-two-bit fraction field.
pub open spec fn frac_of(b: u64) -> u64 {
    b % 0x10_0000_0000_0000
}

/// The pattern without its sign bit.
pub open spec fn mag_of(b: u64) -> u64 {
    b % 0x8000_0000_0000_0000
}

/// Whether the pattern encodes a NaN.
pub open spec fn is_nan_bits(b: u64) -> bool {
    exp_of(b) == 0x7ff && frac_of(b) != 0
}

/// Whether the pattern encodes an infinity.
pub open spec fn is_inf_bits(b: u64) -> bool {
    exp_of(b) == 0x7ff && frac_of(b) == 0
}

/// The strict `<` of the encoded values, false when either side is NaN.
/// On one sign, magnitudes of finite doubles order exactly as their
/// exponent-and-fraction fields do; the two zeros are equal.
pub open spec fn lt_bits(a: u64, b: u64) -> bool {
    &&& !is_nan_bits(a)
    &&& !is_nan_bits(b)
    &&& if sign_of(a) && sign_of(b) {
        mag_of(b) < mag_of(a)
    } else if sign_of(a) && !sign_of(b) {
        mag_of(a) != 0 || mag_of(b) != 0
    } else if !sign_of(a) && sign_of(b) {
        false
    } else {
        mag_of(a) < mag_of(b)
    }
}

/// Exponent field as exec value.
pub fn exp_field(b: u64) -> (e: u64)
    ensures
        e == exp_of(b),
{
    (b / 0x10_0000_0000_0000) % 0x800
}

/// Fraction field as exec value.
pub fn frac_field(b: u64) -> (f: u64)
    ensures
        f == frac_of(b),
{
    b % 0x10_0000_0000_0000
}

/// NaN test on the pattern.
pub fn nan_bits(b: u64) -> (r: bool)
    ensures
        r == is_nan_bits(b),
{
    exp_field(b) == 0x7ff && frac_field(b) != 0
}

/// Strict order on patterns, NaN never less nor greater.
pub fn less_bits(a: u64, b: u64) -> (r: bool)
    ensures
        r == lt_bits(a, b),
{
    if nan_bits(a) || nan_bits(b) {
        return false;
    }
    let na = a / 0x8000_0000_0000_0000 == 1;
    let nb = b / 0x8000_0000_0000_0000 == 1;
    let ma = a % 0x8000_0000_0000_0000;
    let mb = b % 0x8000_0000_0000_0000;
    if na && nb {
        mb < ma
    } else if na && !nb {
        ma != 0 || mb != 0
    } else if !na && nb {
        false
    } else {
        ma < mb
    }
}

/// Whether the pattern encodes an integer of magnitude at most 2^53.
pub open spec fn is_int_bits(b: u64) -> bool {
    ||| mag_of(b) == 0
    ||| (1023 <= exp_of(b) <= 1074 && ((0x10_0000_0000_0000 + frac_of(b)) as nat) % pow2(
        (1075 - exp_of(b)) as nat,
    ) == 0)
    ||| exp_of(b) == 1075
    ||| (exp_of(b) == 1076 && frac_of(b) == 0)
}

/// The integer a pattern encodes, when `is_int_bits` holds.
pub open spec fn int_of_bits(b: u64) -> int {
    if mag_of(b) == 0 {
        0
    } else {
        let m = (0x10_0000_0000_0000 + frac_of(b)) as nat;
        let u = if exp_of(b) >= 1075 {
            m * pow2((exp_of(b) - 1075) as nat)
        } else {
            m / pow2((1075 - exp_of(b)) as nat)
        };
        if sign_of(b) {
            -(u as int)
        } else {
            u as int
        }
    }
}

/// The position of the highest set bit: `2^p <= m < 2^(p+1)`.
pub open spec fn msb_of(m: nat) -> nat
    decreases m,
{
    if m <= 1 {
        0
    } else {
        1 + msb_of(m / 2)
    }
}

proof fn lemma_msb_bounds(m: nat)
    requires
        m >= 1,
    ensures
        pow2(msb_of(m)) <= m < pow2(msb_of(m) + 1),
    decreases m,
{
    lemma2_to64();
    if m <= 1 {
        assert(pow2(0) == 1 && pow2(1) == 2);
    } else {
        lemma_msb_bounds(m / 2);
        assert(pow2(msb_of(m)) == 2 * pow2(msb_of(m / 2))) by {
            vstd::arithmetic::power2::lemma_pow2_unfold(msb_of(m));
        }
        assert(pow2(msb_of(m) + 1) == 2 * pow2(msb_of(m / 2) + 1)) by {
            vstd::arithmetic::power2::lemma_pow2_unfold(msb_of(m) + 1);
        }
    }
}

/// The pattern of an integer `n` with `|n| <= 2^53`. Such integers are
/// represented exactly.
pub open spec fn bits_of_int(n: int) -> u64 {
    if n == 0 {
        0
    } else {
        let m = if n < 0 {
            -n
        } else {
            n
        };
        let p = msb_of(m as nat);
        let sign: int = if n < 0 {
            0x8000_0000_0000_0000
        } else {
            0
        };
        if p <= 52 {
            (sign + (1023 + p) * 0x10_0000_0000_0000 + (m * pow2((52 - p) as nat) - 0x10_0000_0000_0000)) as u64
        } else {
            // only 2^53 itself: fraction zero
            (sign + 1076 * 0x10_0000_0000_0000) as u64
        }
    }
}

/// Computes `pow2(k)` for `k <= 63`.
pub fn pow2_u64(k: u64) -> (r: u64)
    requires
        k <= 63,
    ensures
        r == pow2(k as nat),
{
    proof {
        lemma2_to64();
    }
    let mut i: u64 = 0;
    let mut r: u64 = 1;
    while i < k
        invariant
            i <= k <= 63,
            r == pow2(i as nat),
        decreases k - i,
    {
        proof {
            vstd::arithmetic::power2::lemma_pow2_unfold((i + 1) as nat);
            lemma_pow2_le_max63((i + 1) as nat);
        }
        r = r * 2;
        i = i + 1;
    }
    r
}

/// No magnitude of sixty-four bits has its highest set bit above position 63.
proof fn lemma_msb_le63(m: nat)
    requires
        m < pow2(64),
    ensures
        msb_of(m) <= 63,
{
    if m >= 1 {
        lemma_msb_bounds(m);
        if msb_of(m) > 63 {
            if msb_of(m) > 64 {
                vstd::arithmetic::power2::lemma_pow2_strictly_increases(64, msb_of(m));
            }
            assert(pow2(64) <= pow2(msb_of(m)));
            assert(false);
        }
    }
}

/// The position of the highest set bit of a positive word.
pub fn msb_u64(m: u64) -> (p: u64)
    requires
        m >= 1,
    ensures
        p == msb_of(m as nat),
        p <= 63,
        pow2(p as nat) <= m < pow2((p + 1) as nat),
{
    proof {
        lemma2_to64();
        lemma2_to64_rest();
        lemma_msb_le63(m as nat);
    }
    let mut p: u64 = 0;
    let mut t: u64 = m;
    while t > 1
        invariant
            t >= 1,
            msb_of(m as nat) == p + msb_of(t as nat),
            msb_of(m as nat) <= 63,
        decreases t,
    {
        assert(msb_of(t as nat) >= 1);
        t = t / 2;
        p = p + 1;
    }
    assert(msb_of(t as nat) == 0);
    proof {
        lemma_msb_bounds(m as nat);
    }
    p
}

proof fn lemma_pow2_le_max63(k: nat)
    requires
        k <= 63,
    ensures
        pow2(k) <= 0x8000_0000_0000_0000,
{
    lemma2_to64();
    lemma2_to64_rest();
    if k < 63 {
        vstd::arithmetic::power2::lemma_pow2_strictly_increases(k, 63);
    }
}

/// The magnitude and sign a pattern decodes to, when it is an integer in
/// range; `None` otherwise (NaN, infinities, fractional or huge values).
pub fn bits_to_int(b: u64) -> (r: Option<i64>)
    ensures
        match r {
            Some(n) => is_int_bits(b) && n as int == int_of_bits(b) && -0x20_0000_0000_0000 <= n
                <= 0x20_0000_0000_0000,
            None => !is_int_bits(b),
        },
{
    proof {
        lemma2_to64();
        lemma2_to64_rest();
    }
    let mag = b % 0x8000_0000_0000_0000;
    if mag == 0 {
        return Some(0i64);
    }
    let e = exp_field(b);
    let f = frac_field(b);
    let neg = b / 0x8000_0000_0000_0000 == 1;
    let m: u64 = 0x10_0000_0000_0000 + f;
    assert(mag_of(b) == exp_of(b) * 0x10_0000_0000_0000 + frac_of(b)) by {
        lemma_split_fields(b);
    }
    if e >= 1023 && e <= 1074 {
        let d = pow2_u64(1075 - e);
        if m % d == 0 {
            let u = m / d;
            assert(u <= 0x20_0000_0000_0000) by {
                vstd::arithmetic::power2::lemma_pow2_pos((1075 - e) as nat);
            }
            if neg {
                Some(-(u as i64))
            } else {
                Some(u as i64)
            }
        } else {
            None
        }
    } else if e == 1075 {
        assert(pow2(0) == 1);
        assert(m * pow2(0) == m);
        if neg {
            Some(-(m as i64))
        } else {
            Some(m as i64)
        }
    } else if e == 1076 && f == 0 {
        assert(pow2(1) == 2);
        let u: u64 = 0x20_0000_0000_0000;
        assert(m * pow2(1) == u);
        if neg {
            Some(-(u as i64))
        } else {
            Some(u as i64)
        }
    } else {
        None
    }
}

proof fn lemma_split_fields(b: u64)
    ensures
        mag_of(b) == exp_of(b) * 0x10_0000_0000_0000 + frac_of(b),
        exp_of(b) < 0x800,
        frac_of(b) < 0x10_0000_0000_0000,
{
    vstd::arithmetic::div_mod::lemma_mod_breakdown(
        b as int,
        0x10_0000_0000_0000int,
        0x800int,
    );
    assert(mag_of(b) == (b as int) % (0x10_0000_0000_0000int * 0x800int));
}

/// Scaling a value whose highest set bit is `p` by `2^(w - p)` places it
/// in the window `[2^w, 2^(w+1))`.
proof fn lemma_scale_window(m: nat, p: nat, scale: nat, w: nat)
    requires
        pow2(p) <= m,
        m < pow2(p + 1),
        p <= w,
        scale == pow2((w - p) as nat),
    ensures
        pow2(w) <= m * scale,
        m * scale < pow2(w + 1),
{
    vstd::arithmetic::power2::lemma_pow2_adds(p, (w - p) as nat);
    vstd::arithmetic::power2::lemma_pow2_adds(p + 1, (w - p) as nat);
    vstd::arithmetic::power2::lemma_pow2_pos((w - p) as nat);
    assert(m * scale >= pow2(p) * scale) by (nonlinear_arith)
        requires
            m >= pow2(p),
            scale >= 1,
    ;
    assert(m * scale < pow2(p + 1) * scale) by (nonlinear_arith)
        requires
            m < pow2(p + 1),
            scale >= 1,
    ;
}

/// Encodes an integer with `|n| <= 2^53` into its exact pattern.
pub fn int_to_bits(n: i64) -> (r: u64)
    requires
        -0x20_0000_0000_0000 <= n <= 0x20_0000_0000_0000,
    ensures
        r == bits_of_int(n as int),
{
    proof {
        lemma2_to64();
        lemma2_to64_rest();
    }
    if n == 0 {
        return 0;
    }
    let neg = n < 0;
    let m: u64 = if neg {
        (-n) as u64
    } else {
        n as u64
    };
    let sign: u64 = if neg {
        0x8000_0000_0000_0000
    } else {
        0
    };
    let p = msb_u64(m);
    assert(p <= 53) by {
        if p >= 54 {
            if p > 54 {
                vstd::arithmetic::power2::lemma_pow2_strictly_increases(54, p as nat);
            }
            assert(pow2(54) <= pow2(p as nat));
        }
    }
    if p <= 52 {
        let scale = pow2_u64(52 - p);
        proof {
            lemma_scale_window(m as nat, p as nat, scale as nat, 52);
        }
        sign + (1023 + p) * 0x10_0000_0000_0000 + (m * scale - 0x10_0000_0000_0000)
    } else {
        // p == 53 happens only for 2^53 itself
        assert(m == 0x20_0000_0000_0000) by {
            assert(pow2(53) <= m < pow2(54));
        }
        sign + 1076 * 0x10_0000_0000_0000
    }
}

/// Truncation toward zero saturated to `u64`, the saturating cast the
/// scripting language applies to indices; NaN and negatives give 0.
pub open spec fn trunc_u64_of(b: u64) -> u64 {
    if is_nan_bits(b) || sign_of(b) {
        0
    } else if exp_of(b) < 1023 {
        0
    } else if exp_of(b) <= 1074 {
        (((0x10_0000_0000_0000 + frac_of(b)) as nat / pow2((1075 - exp_of(b)) as nat)) as u64)
    } else if exp_of(b) <= 1086 {
        (((0x10_0000_0000_0000 + frac_of(b)) as nat * pow2((exp_of(b) - 1075) as nat)) as u64)
    } else {
        0xffff_ffff_ffff_ffff
    }
}

/// Truncating saturating cast from a pattern to `u64`.
pub fn bits_trunc_u64(b: u64) -> (r: u64)
    ensures
        r == trunc_u64_of(b),
{
    proof {
        lemma2_to64();
        lemma2_to64_rest();
    }
    if nan_bits(b) {
        return 0;
    }
    if b / 0x8000_0000_0000_0000 == 1 {
        return 0;
    }
    let e = exp_field(b);
    let f = frac_field(b);
    let m: u64 = 0x10_0000_0000_0000 + f;
    if e < 1023 {
        0
    } else if e <= 1074 {
        let d = pow2_u64(1075 - e);
        proof {
            vstd::arithmetic::power2::lemma_pow2_pos((1075 - e) as nat);
        }
        m / d
    } else if e <= 1086 {
        let s = pow2_u64(e - 1075);
        assert(m * s <= 0xffff_ffff_ffff_ffff) by {
            assert(s <= pow2(11));
            assert(m < pow2(53));
            assert(m * s < pow2(53) * pow2(11)) by (nonlinear_arith)
                requires
                    m < pow2(53),
                    s <= pow2(11),
                    s >= 1,
            ;
            vstd::arithmetic::power2::lemma_pow2_adds(53, 11);
        }
        m * s
    } else {
        0xffff_ffff_ffff_ffff
    }
}

/// The pattern of the double nearest to `c / 255`, the normalized colour
/// channel of a byte. The fraction `c/255` in binary repeats the eight bits
/// of `c`; the spec takes fifty-three significant bits of that repetition
/// and rounds on the next bit (the tail is never empty, so there are no
/// ties).
pub open spec fn channel_norm_bits(c: u8) -> u64 {
    if c == 0 {
        0
    } else {
        let rep = (c as nat) * 0x0101_0101_0101_0101;
        let p = (63 - msb_of(rep)) as nat;  // leading zeros within 64 bits
        let window = rep * pow2(p);  // normalized: bit 63 set
        let m = window / pow2(11);  // top 53 bits
        let round = (window / pow2(10)) % 2;
        let mr = m + round;
        if mr == pow2(53) {
            // rounding carried into the next power: exactly 1.0 (c == 255)
            0x3ff0_0000_0000_0000
        } else {
            (((1022 - p) as int) * 0x10_0000_0000_0000 + (mr - 0x10_0000_0000_0000)) as u64
        }
    }
}

/// Computes the normalized-channel pattern of a byte.
pub fn channel_to_bits(c: u8) -> (r: u64)
    ensures
        r == channel_norm_bits(c),
{
    proof {
        lemma2_to64();
        lemma2_to64_rest();
    }
    if c == 0 {
        return 0;
    }
    let rep: u64 = (c as u64) * 0x0101_0101_0101_0101;
    let p = msb_u64(rep);
    proof {
        assert(rep >= pow2(56)) by {
            assert((c as nat) * 0x0101_0101_0101_0101 >= 1 * 0x0101_0101_0101_0101)
                by (nonlinear_arith)
                requires
                    c >= 1,
            ;
            assert(0x0101_0101_0101_0101 >= pow2(56));
        }
        assert(p >= 56) by {
            if p < 56 {
                vstd::arithmetic::power2::lemma_pow2_strictly_increases((p + 1) as nat, 57);
                assert(rep < pow2((p + 1) as nat));
                assert(pow2((p + 1) as nat) <= pow2(57));
                assert(pow2(56) < pow2(57));
                assert(false);
            }
        }
    }
    let lead = 63 - p;
    let scale = pow2_u64(lead);
    proof {
        lemma_scale_window(rep as nat, p as nat, scale as nat, 63);
    }
    let window: u64 = rep * scale;
    let m: u64 = window / 0x800;
    let round: u64 = (window / 0x400) % 2;
    let mr: u64 = m + round;
    assert(m < pow2(53) && mr <= pow2(53)) by {
        assert(window < pow2(64));
        assert(window / 0x800 < pow2(53)) by (nonlinear_arith)
            requires
                window < pow2(64),
                pow2(64) == 0x800 * pow2(53),
        ;
    }
    if mr == 0x20_0000_0000_0000 {
        0x3ff0_0000_0000_0000
    } else {
        (1022 - lead) * 0x10_0000_0000_0000 + (mr - 0x10_0000_0000_0000)
    }
}

/// The pattern of `k / 2^53` for `k < 2^53`: a value in the unit interval,
/// represented exactly.
pub open spec fn unit_bits_of(k: u64) -> u64 {
    if k == 0 {
        0
    } else {
        let p = msb_of(k as nat);
        ((970 + p) * 0x10_0000_0000_0000 + (k * pow2((52 - p) as nat) - 0x10_0000_0000_0000)) as u64
    }
}

/// Whether a pattern encodes a value in `[0, 1)`: non-negative, below one.
pub open spec fn unit_interval_bits(b: u64) -> bool {
    !sign_of(b) && mag_of(b) < 0x3ff0_0000_0000_0000
}

/// Encodes `k / 2^53` for `k < 2^53`.
pub fn unit_to_bits(k: u64) -> (r: u64)
    requires
        k < 0x20_0000_0000_0000,
    ensures
        r == unit_bits_of(k),
        unit_interval_bits(r),
{
    proof {
        lemma2_to64();
        lemma2_to64_rest();
    }
    if k == 0 {
        return 0;
    }
    let p = msb_u64(k);
    assert(p <= 52) by {
        if p >= 53 {
            if p > 53 {
                vstd::arithmetic::power2::lemma_pow2_strictly_increases(53, p as nat);
            }
            assert(pow2(53) <= pow2(p as nat));
        }
    }
    let scale = pow2_u64(52 - p);
    proof {
        lemma_scale_window(k as nat, p as nat, scale as nat, 52);
    }
    let r = (970 + p) * 0x10_0000_0000_0000 + (k * scale - 0x10_0000_0000_0000);
    assert(mag_of(r) < 0x3ff0_0000_0000_0000 && !sign_of(r));
    r
}

} // verus!
