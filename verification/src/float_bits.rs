//! Reading binary floating-point element patterns with integer arithmetic
//! only: truncation toward zero into an `i64`, and widening a half-precision
//! pattern to a single-precision one. A pattern is a sign bit, `eb`
//! exponent bits and `mb` fraction bits, from the top down.
use vstd::prelude::*;
use vstd::arithmetic::power2::{pow2, lemma_pow2_pos, lemma_pow2_unfold, lemma_pow2_adds, lemma_pow2_strictly_increases, lemma2_to64, lemma2_to64_rest};

verus! {

/// The fraction bits of a pattern.
pub open spec fn frac_of(bits: u64, mb: nat) -> int {
    bits as int % pow2(mb) as int
}

/// The biased exponent of a pattern.
pub open spec fn exp_of(bits: u64, mb: nat, eb: nat) -> int {
    (bits as int / pow2(mb) as int) % pow2(eb) as int
}

/// Whether the sign bit of a pattern is set.
pub open spec fn neg_of(bits: u64, mb: nat, eb: nat) -> bool {
    (bits as int / pow2(mb) as int / pow2(eb) as int) % 2 == 1
}

/// The exponent bias of a format with `eb` exponent bits.
pub open spec fn bias_of(eb: nat) -> int {
    pow2((eb - 1) as nat) - 1
}

/// The pattern's value truncated toward zero as an `i64`, as Rust's `as`
/// conversion gives it: `NaN` is zero, and values past the range (the
/// infinities among them) are held at `i64::MIN` or `i64::MAX`.
pub open spec fn trunc_spec(bits: u64, mb: nat, eb: nat) -> i64 {
    let frac = frac_of(bits, mb);
    let e = exp_of(bits, mb, eb);
    let neg = neg_of(bits, mb, eb);
    let bias = bias_of(eb);
    if e == pow2(eb) - 1 {
        if frac != 0 {
            0
        } else if neg {
            i64::MIN
        } else {
            i64::MAX
        }
    } else if e < bias {
        0
    } else if e - bias >= 63 {
        if neg {
            i64::MIN
        } else {
            i64::MAX
        }
    } else {
        let k = e - bias;
        let m = frac + pow2(mb);
        let mag: int = if k >= mb {
            m * pow2((k - mb) as nat)
        } else {
            m / pow2((mb - k) as nat) as int
        };
        if neg {
            (-mag) as i64
        } else {
            mag as i64
        }
    }
}

/// `2^n`.
fn pow2_exec(n: u64) -> (r: u64)
    requires
        n < 64,
    ensures
        r == pow2(n as nat),
{
    let mut r: u64 = 1;
    let mut i: u64 = 0;
    proof {
        lemma2_to64();
    }
    while i < n
        invariant
            i <= n < 64,
            r == pow2(i as nat),
        decreases n - i,
    {
        proof {
            lemma_pow2_unfold((i + 1) as nat);
            lemma_pow2_strictly_increases((i + 1) as nat, 64);
            lemma2_to64();
        }
        r = r * 2;
        i = i + 1;
    }
    r
}

/// The value of the pattern `bits` (with `mb` fraction and `eb` exponent
/// bits) truncated toward zero, as `trunc_spec` says.
pub fn float_to_i64(bits: u64, mb: u64, eb: u64) -> (r: i64)
    requires
        2 <= eb <= 11,
        1 <= mb <= 52,
    ensures
        r == trunc_spec(bits, mb as nat, eb as nat),
{
    let pm = pow2_exec(mb);
    let pe = pow2_exec(eb);
    let half = pow2_exec(eb - 1);
    proof {
        lemma_pow2_pos(mb as nat);
        lemma_pow2_pos(eb as nat);
        lemma_pow2_pos((eb - 1) as nat);
    }
    let frac = bits % pm;
    let e = (bits / pm) % pe;
    let neg = (bits / pm / pe) % 2 == 1;
    let bias = half - 1;
    if e == pe - 1 {
        if frac != 0 {
            0
        } else if neg {
            i64::MIN
        } else {
            i64::MAX
        }
    } else if e < bias {
        0
    } else if e - bias >= 63 {
        if neg {
            i64::MIN
        } else {
            i64::MAX
        }
    } else {
        let k = e - bias;
        proof {
            lemma_pow2_strictly_increases(mb as nat, 53);
            lemma2_to64();
            lemma2_to64_rest();
        }
        let m = frac + pm;
        proof {
            lemma_pow2_unfold((mb + 1) as nat);
            assert(m < pow2((mb + 1) as nat));
            lemma_pow2_strictly_increases((k + 1) as nat, 64);
            lemma_pow2_unfold(63);
            lemma2_to64();
            lemma2_to64_rest();
        }
        let mag: u64 = if k >= mb {
            let p = pow2_exec(k - mb);
            proof {
                lemma_pow2_pos((k - mb) as nat);
                lemma_pow2_adds((mb + 1) as nat, (k - mb) as nat);
                assert(m * p < pow2((k + 1) as nat)) by (nonlinear_arith)
                    requires
                        m < pow2((mb + 1) as nat),
                        p == pow2((k - mb) as nat),
                        p > 0,
                        pow2((mb + 1) as nat) * pow2((k - mb) as nat) == pow2((k + 1) as nat),
                ;
                if k + 1 < 63 {
                    lemma_pow2_strictly_increases((k + 1) as nat, 63);
                }
            }
            m * p
        } else {
            let p = pow2_exec(mb - k);
            proof {
                lemma_pow2_pos((mb - k) as nat);
                assert(m / p <= m) by (nonlinear_arith)
                    requires
                        p > 0,
                ;
                lemma_pow2_strictly_increases(53, 63);
                if mb + 1 < 53 {
                    lemma_pow2_strictly_increases((mb + 1) as nat, 53);
                }
            }
            m / p
        };
        assert(mag < 0x8000_0000_0000_0000);
        if neg {
            -(mag as i64)
        } else {
            mag as i64
        }
    }
}

/// The position of the highest set bit of `f` (zero for zero and one).
pub open spec fn top_bit(f: nat) -> nat
    decreases f,
{
    if f < 2 {
        0
    } else {
        1 + top_bit(f / 2)
    }
}

/// The highest set bit of a positive `f` lies at `top_bit(f)`.
proof fn lemma_top_bit(f: nat)
    requires
        f >= 1,
    ensures
        pow2(top_bit(f)) <= f < pow2(top_bit(f) + 1),
    decreases f,
{
    lemma_pow2_unfold(top_bit(f) + 1);
    if f >= 2 {
        lemma_top_bit(f / 2);
        lemma_pow2_unfold(top_bit(f));
    } else {
        lemma2_to64();
    }
}

/// A half-precision pattern widened to single precision, exactly: the
/// value kept, subnormals made normal, and a `NaN` kept with its payload and
/// made quiet.
pub open spec fn half_to_single(h: u64) -> u32 {
    let sign = ((h as int / 0x8000) % 2) * 0x8000_0000;
    let e = (h as int / 0x400) % 32;
    let f = h as int % 0x400;
    (if e == 31 {
        if f == 0 {
            sign + 0x7F80_0000
        } else {
            sign + 0x7F80_0000 + (if f >= 0x200 { f } else { f + 0x200 }) * 0x2000
        }
    } else if e == 0 {
        if f == 0 {
            sign
        } else {
            let p = top_bit(f as nat);
            sign + (p + 103) * 0x80_0000 + (f - pow2(p)) * pow2((23 - p) as nat)
        }
    } else {
        sign + (e + 112) * 0x80_0000 + f * 0x2000
    }) as u32
}

/// Widen a half-precision pattern (see `half_to_single`).
pub fn half_to_single_exec(h: u64) -> (r: u32)
    ensures
        r == half_to_single(h),
{
    let sign: u64 = ((h / 0x8000) % 2) * 0x8000_0000;
    let e = (h / 0x400) % 32;
    let f = h % 0x400;
    let bits: u64 = if e == 31 {
        if f == 0 {
            sign + 0x7F80_0000
        } else {
            let q = if f >= 0x200 { f } else { f + 0x200 };
            sign + 0x7F80_0000 + q * 0x2000
        }
    } else if e == 0 {
        if f == 0 {
            sign
        } else {
            let mut p: u64 = 0;
            let mut x: u64 = f;
            proof {
                lemma2_to64();
            }
            while x >= 2
                invariant
                    1 <= x <= f < 0x400,
                    p + top_bit(x as nat) == top_bit(f as nat),
                    p <= 10,
                    x * pow2(p as nat) <= f,
                decreases x,
            {
                proof {
                    lemma_pow2_unfold((p + 1) as nat);
                    assert((x / 2) * pow2((p + 1) as nat) <= x * pow2(p as nat)) by (nonlinear_arith)
                        requires
                            pow2((p + 1) as nat) == 2 * pow2(p as nat),
                    ;
                    lemma_pow2_pos(p as nat);
                    assert(pow2((p + 1) as nat) <= f) by (nonlinear_arith)
                        requires
                            x >= 2,
                            x * pow2(p as nat) <= f,
                            pow2((p + 1) as nat) == 2 * pow2(p as nat),
                    ;
                    lemma2_to64();
                    if p + 1 > 10 {
                        lemma_pow2_strictly_increases(10, (p + 1) as nat);
                    }
                }
                x = x / 2;
                p = p + 1;
            }
            proof {
                lemma_top_bit(f as nat);
                lemma2_to64();
                assert(p <= 9) by {
                    if p > 9 {
                        lemma_pow2_strictly_increases(10, p as nat);
                        if p == 10 {
                        }
                    }
                };
            }
            let tp = pow2_exec(p);
            let shift = pow2_exec(23 - p);
            proof {
                lemma_pow2_adds((23 - p) as nat, (p + 1) as nat);
                assert((f - tp) * shift < 0x80_0000) by (nonlinear_arith)
                    requires
                        f < 2 * tp,
                        tp <= f,
                        shift * (2 * tp) == 0x100_0000,
                ;
            }
            sign + (p + 103) * 0x80_0000 + (f - tp) * shift
        }
    } else {
        sign + (e + 112) * 0x80_0000 + f * 0x2000
    };
    bits as u32
}

} // verus!
