//! Exact multiply-then-divide on integers whose product does not fit in
//! 128 bits.

use vstd::prelude::*;

verus! {

/// `floor(a * b / c)` for a fraction `a / c` of at most one: the result never
/// exceeds `b`, so it fits, even though `a * b` may not.
pub fn mul_div_floor(a: u32, b: u128, c: u32) -> (r: u128)
    requires
        0 < c,
        a <= c,
    ensures
        r as int == (a as int * b as int) / (c as int),
        r <= b,
{
    let cw = c as u128;
    let q = b / cw;
    let rem = b % cw;
    proof {
        let (ai, bi, ci, qi, ri) = (a as int, b as int, c as int, q as int, rem as int);
        assert(bi == qi * ci + ri) by (nonlinear_arith)
            requires qi == bi / ci, ri == bi % ci, ci > 0;
        assert(ai * qi <= bi) by (nonlinear_arith)
            requires ai <= ci, bi == qi * ci + ri, 0 <= ri, 0 <= qi, 0 <= ai;
        assert(ai * ri < 0x1_0000_0000 * 0x1_0000_0000) by (nonlinear_arith)
            requires 0 <= ai < 0x1_0000_0000, 0 <= ri < ci, ci < 0x1_0000_0000;
        assert(ai * bi == (ai * qi) * ci + ai * ri) by (nonlinear_arith)
            requires bi == qi * ci + ri;
        let (k, m) = ((ai * ri) / ci, (ai * ri) % ci);
        assert(ai * ri == k * ci + m) by (nonlinear_arith)
            requires k == (ai * ri) / ci, m == (ai * ri) % ci, ci > 0;
        assert(ai * bi == (ai * qi + k) * ci + m) by (nonlinear_arith)
            requires ai * bi == (ai * qi) * ci + ai * ri, ai * ri == k * ci + m;
        vstd::arithmetic::div_mod::lemma_fundamental_div_mod_converse(ai * bi, ci, ai * qi + k, m);
        assert((ai * ri) / ci <= ri) by (nonlinear_arith)
            requires ai <= ci, 0 <= ri, ci > 0, 0 <= ai;
    }
    let whole = (a as u128) * q;
    let part = ((a as u128) * rem) / cw;
    proof {
        let (ai, bi, ci, qi, ri) = (a as int, b as int, c as int, q as int, rem as int);
        assert(ai * qi + (ai * ri) / ci <= bi) by (nonlinear_arith)
            requires
                bi == qi * ci + ri,
                (ai * ri) / ci <= ri,
                ai <= ci,
                0 <= qi,
                0 <= ri,
                ci > 0;
    }
    whole + part
}

/// `ceil(a * b / c)` for a fraction `b / c` of at most one: the result never
/// exceeds `a`. Long multiplication over the bits of `a` keeps every
/// intermediate value below `c`.
pub fn mul_div_ceil(a: u32, b: u128, c: u128) -> (r: u32)
    requires
        0 < c,
        b <= c,
    ensures
        r as int == (a as int * b as int + c as int - 1) / (c as int),
        r <= a,
{
    // `top` holds the leading bits of `a`, and `top * b == q * c + rem`.
    let mut q: u128 = 0;
    let mut rem: u128 = 0;
    let mut top: u64 = 0;
    let mut d: u64 = 0x1_0000_0000;
    let mut step: u32 = 0;
    proof {
        vstd::arithmetic::power2::lemma2_to64();
    }
    while step < 32
        invariant
            0 < c,
            b <= c,
            step <= 32,
            d as int == vstd::arithmetic::power2::pow2((32 - step) as nat),
            top as int == a as int / d as int,
            top as int * b as int == q as int * c as int + rem as int,
            rem < c,
            q <= top,
        decreases 32 - step,
    {
        proof {
            vstd::arithmetic::power2::lemma_pow2_unfold((32 - step) as nat);
            vstd::arithmetic::power2::lemma_pow2_pos((31 - step) as nat);
            vstd::arithmetic::div_mod::lemma_div_denominator(a as int, (d / 2) as int, 2);
        }
        let half = d / 2;
        let next = (a as u64) / half;
        let bit = next - 2 * top;
        proof {
            assert(top as int == (next as int) / 2);
            assert(bit == 0 || bit == 1);
        }
        let ghost q0 = q;
        let ghost rem0 = rem;
        if rem >= c - rem {
            rem = rem - (c - rem);
            q = 2 * q + 1;
        } else {
            rem = rem + rem;
            q = 2 * q;
        }
        assert(2 * (top as int) * (b as int) == q as int * c as int + rem as int) by (nonlinear_arith)
            requires
                top as int * b as int == q0 as int * c as int + rem0 as int,
                (q as int == 2 * q0 + 1 && rem as int == 2 * rem0 - c) || (q as int == 2 * q0
                    && rem as int == 2 * rem0);
        if bit == 1 {
            let ghost q1 = q;
            let ghost rem1 = rem;
            if rem >= c - b {
                rem = rem - (c - b);
                q = q + 1;
            } else {
                rem = rem + b;
            }
            assert(next as int * (b as int) == q as int * c as int + rem as int) by (nonlinear_arith)
                requires
                    2 * (top as int) * (b as int) == q1 as int * c as int + rem1 as int,
                    next as int == 2 * top as int + 1,
                    (q as int == q1 + 1 && rem as int == rem1 + b - c) || (q as int == q1
                        && rem as int == rem1 + b);
        }
        assert(q <= next) by (nonlinear_arith)
            requires
                next as int * (b as int) == q as int * c as int + rem as int,
                b <= c,
                0 < c,
                0 <= rem,
        ;
        top = next;
        d = half;
        step = step + 1;
    }
    proof {
        vstd::arithmetic::power2::lemma2_to64();
        assert(d == 1);
        assert(a as int / 1 == a as int);
        assert(top == a);
    }
    let up: u128 = if rem > 0 { 1 } else { 0 };
    proof {
        let x = a as int * b as int + c as int - 1;
        if rem > 0 {
            assert(x == (q as int + 1) * c as int + (rem as int - 1)) by (nonlinear_arith)
                requires
                    x == a as int * b as int + c as int - 1,
                    top as int * b as int == q as int * c as int + rem as int,
                    top == a;
            vstd::arithmetic::div_mod::lemma_fundamental_div_mod_converse(
                x, c as int, q as int + 1, rem as int - 1);
            assert(q < top) by (nonlinear_arith)
                requires
                    top as int * b as int == q as int * c as int + rem as int,
                    b <= c, 0 < rem, rem < c, 0 <= q;
        } else {
            assert(x == q as int * c as int + (c as int - 1)) by (nonlinear_arith)
                requires
                    x == a as int * b as int + c as int - 1,
                    top as int * b as int == q as int * c as int + rem as int,
                    top == a,
                    rem == 0;
            vstd::arithmetic::div_mod::lemma_fundamental_div_mod_converse(
                x, c as int, q as int, c as int - 1);
        }
    }
    (q + up) as u32
}

} // verus!
