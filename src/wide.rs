//! Double-width multiplication and division built from 64-bit operations.
use vstd::arithmetic::power2::pow2;
use vstd::prelude::*;

verus! {

/// Two to the power of 64, the base of a two-word number.
pub open spec fn word_base() -> int {
    0x1_0000_0000_0000_0000
}

/// The value of the two-word number `hi * 2^64 + lo`.
pub open spec fn two_word(hi: u64, lo: u64) -> int {
    hi as int * word_base() + lo as int
}

/// Two to the power of 32, the base of a half-word digit.
pub open spec fn half_base() -> int {
    0x1_0000_0000
}

proof fn lemma_split_halves(u: u64)
    ensures
        u & 0xFFFF_FFFF == u % 0x1_0000_0000,
        u >> 32 == u / 0x1_0000_0000,
{
    assert(u & 0xFFFF_FFFF == u % 0x1_0000_0000) by (bit_vector);
    assert(u >> 32 == u / 0x1_0000_0000) by (bit_vector);
}

proof fn lemma_mul_hi(
    u: int, v: int, u0: int, u1: int, v0: int, v1: int,
    w0: int, t: int, w1: int, w2: int, w1b: int, hi: int,
) by (nonlinear_arith)
    requires
        0 <= u0 < 0x1_0000_0000,
        0 <= v0 < 0x1_0000_0000,
        0 <= u1 < 0x1_0000_0000,
        0 <= v1 < 0x1_0000_0000,
        u == u1 * 0x1_0000_0000 + u0,
        v == v1 * 0x1_0000_0000 + v0,
        w0 == u0 * v0,
        t == u1 * v0 + w0 / 0x1_0000_0000,
        w1 == t % 0x1_0000_0000,
        w2 == t / 0x1_0000_0000,
        w1b == u0 * v1 + w1,
        hi == u1 * v1 + w2 + w1b / 0x1_0000_0000,
    ensures
        u * v == hi * 0x1_0000_0000_0000_0000 + (w1b % 0x1_0000_0000) * 0x1_0000_0000
            + w0 % 0x1_0000_0000,
{
}

/// The high word of the 128-bit product `u * v`.
pub fn mul_u64_hi(u: u64, v: u64) -> (r: u64)
    ensures
        r == (u as int * v as int) / word_base(),
{
    let u0 = u & 0xFFFF_FFFF;
    let u1 = u >> 32;
    let v0 = v & 0xFFFF_FFFF;
    let v1 = v >> 32;
    proof {
        lemma_split_halves(u);
        lemma_split_halves(v);
        assert(u0 * v0 <= 0xFFFF_FFFE_0000_0001) by (nonlinear_arith)
            requires u0 < 0x1_0000_0000, v0 < 0x1_0000_0000;
        assert(u1 * v0 <= 0xFFFF_FFFE_0000_0001) by (nonlinear_arith)
            requires u1 < 0x1_0000_0000, v0 < 0x1_0000_0000;
        assert(u0 * v1 <= 0xFFFF_FFFE_0000_0001) by (nonlinear_arith)
            requires u0 < 0x1_0000_0000, v1 < 0x1_0000_0000;
        assert(u1 * v1 <= 0xFFFF_FFFE_0000_0001) by (nonlinear_arith)
            requires u1 < 0x1_0000_0000, v1 < 0x1_0000_0000;
    }
    let w0 = u0 * v0;
    proof {
        lemma_split_halves(w0);
    }
    let t = u1 * v0 + (w0 >> 32);
    let w1 = t & 0xFFFF_FFFF;
    let w2 = t >> 32;
    proof {
        lemma_split_halves(t);
    }
    let w1 = u0 * v1 + w1;
    proof {
        lemma_split_halves(w1);
        lemma_mul_hi(
            u as int, v as int, u0 as int, u1 as int, v0 as int, v1 as int,
            w0 as int, t as int, (t % 0x1_0000_0000) as int, w2 as int, w1 as int,
            u1 * v1 + w2 + w1 / 0x1_0000_0000,
        );
        let lo = (w1 % 0x1_0000_0000) * 0x1_0000_0000 + w0 % 0x1_0000_0000;
        assert(0 <= lo < word_base()) by (nonlinear_arith)
            requires lo == (w1 % 0x1_0000_0000) * 0x1_0000_0000 + w0 % 0x1_0000_0000;
        assert(u as int * v as int <= 0xFFFF_FFFF_FFFF_FFFE_0000_0000_0000_0001) by (nonlinear_arith);
        vstd::arithmetic::div_mod::lemma_fundamental_div_mod_converse(
            u as int * v as int, word_base(), u1 * v1 + w2 + w1 / 0x1_0000_0000, lo,
        );
    }
    u1 * v1 + w2 + (w1 >> 32)
}

/// The remainder of a digit step, computed with wrapping operations, is
/// exact because the true remainder fits in a word.
proof fn lemma_wrapping_remainder(hi: u64, lo: u64, q: u64, vn: u64, x: int, r: int)
    requires
        lo < 0x1_0000_0000,
        x == hi as int * 0x1_0000_0000 + lo,
        0 <= x - q as int * (vn as int) < word_base(),
        r == (hi as nat * 0x1_0000_0000 as nat % word_base() as nat + lo as int
            - (q as nat * vn as nat % word_base() as nat)) % word_base(),
    ensures
        r == x - q as int * vn as int,
{
    let m = word_base();
    let a = hi as int * 0x1_0000_0000;
    let c = q as int * vn as int;
    vstd::arithmetic::div_mod::lemma_add_mod_noop(a, lo as int, m);
    vstd::arithmetic::div_mod::lemma_small_mod(lo as nat, m as nat);
    vstd::arithmetic::div_mod::lemma_sub_mod_noop(a + lo, c, m);
    vstd::arithmetic::div_mod::lemma_mod_twice(a, m);
    vstd::arithmetic::div_mod::lemma_sub_mod_noop(a % m + lo, c, m);
    vstd::arithmetic::div_mod::lemma_small_mod((x - c) as nat, m as nat);
}

/// One step of long division: divides the three half-words `hi * 2^32 + lo`
/// by a normalized divisor `vn` (top bit set), where `hi < vn` makes the
/// quotient a single half-word. Returns the quotient and the remainder.
///
/// The quotient digit is first estimated from the divisor's high half and
/// then corrected downward while it is too large.
fn div_digit(hi: u64, lo: u64, vn: u64) -> (r: (u64, u64))
    requires
        vn >= 0x8000_0000_0000_0000,
        hi < vn,
        lo < 0x1_0000_0000,
    ensures
        r.0 < 0x1_0000_0000,
        r.0 == (hi as int * half_base() + lo) / vn as int,
        r.1 == (hi as int * half_base() + lo) % vn as int,
{
    let b: u64 = 0x1_0000_0000;
    let vn1 = vn >> 32;
    let vn0 = vn & 0xFFFF_FFFF;
    let ghost x: int = hi as int * half_base() + lo;
    let ghost qt: int = x / vn as int;
    proof {
        lemma_split_halves(vn);
        assert(vn1 >= 0x8000_0000);
        assert(x < vn * half_base()) by (nonlinear_arith)
            requires x == hi as int * half_base() + lo, hi < vn, lo < half_base();
        vstd::arithmetic::div_mod::lemma_fundamental_div_mod(x, vn as int);
        assert(qt < half_base()) by (nonlinear_arith)
            requires x < vn * half_base(), qt == x / vn as int, vn > 0,
                qt * vn + (x % (vn as int)) == x, (x % (vn as int)) >= 0;
        assert(qt >= 0) by (nonlinear_arith)
            requires x >= 0, qt == x / vn as int, vn > 0;
    }
    let mut q = hi / vn1;
    proof {
        vstd::arithmetic::div_mod::lemma_fundamental_div_mod(hi as int, vn1 as int);
        assert(q * vn1 <= hi) by (nonlinear_arith)
            requires q == hi / vn1, vn1 > 0, q * vn1 + hi % vn1 == hi, hi % vn1 >= 0;
        // The estimate is never below the true digit.
        assert(qt <= q) by (nonlinear_arith)
            requires
                qt * vn + (x % (vn as int)) == x, 0 <= (x % (vn as int)),
                vn == vn1 * half_base() + vn0, vn0 >= 0, qt >= 0,
                x == hi as int * half_base() + lo, lo < half_base(),
                q * vn1 + hi % vn1 == hi, hi % vn1 < vn1, vn1 > 0;
    }
    let mut rhat = hi - q * vn1;
    loop
        invariant_except_break
            rhat < 0x1_0000_0000,
        invariant
            q * vn1 + rhat == hi,
            0 <= qt <= q,
            vn == vn1 * half_base() + vn0,
            vn1 >= 0x8000_0000,
            vn1 < 0x1_0000_0000,
            vn0 < 0x1_0000_0000,
            hi < vn,
            x == hi as int * half_base() + lo,
            lo < 0x1_0000_0000,
            qt * vn + (x % (vn as int)) == x,
            0 <= (x % (vn as int)) < vn,
            qt < half_base(),
            b == half_base(),
        ensures
            q == qt,
        decreases q,
    {
        // The estimate is too large exactly when q * vn exceeds the dividend.
        let too_large = if q >= b {
            true
        } else {
            proof {
                assert(q * vn0 < word_base()) by (nonlinear_arith)
                    requires q < half_base(), vn0 < half_base();
            }
            q * vn0 > b * rhat + lo
        };
        proof {
            if q < b {
                assert(q * vn == (hi as int - rhat) * half_base() + q * vn0) by (nonlinear_arith)
                    requires q * vn1 + rhat == hi, vn == vn1 * half_base() + vn0;
                if too_large {
                    assert(q > qt) by (nonlinear_arith)
                        requires q * vn > x, qt * vn + (x % (vn as int)) == x,
                            0 <= (x % (vn as int)) < vn, qt >= 0;
                } else {
                    assert(q <= qt) by (nonlinear_arith)
                        requires q * vn <= x, qt * vn + (x % (vn as int)) == x,
                            0 <= (x % (vn as int)) < vn, q >= 0, vn > 0;
                }
            }
        }
        if !too_large {
            break;
        }
        let ghost q_prev = q;
        q -= 1;
        rhat += vn1;
        proof {
            assert(q * vn1 + rhat == hi) by (nonlinear_arith)
                requires q == q_prev - 1, rhat == (hi - q_prev * vn1) + vn1;
        }
        if rhat >= b {
            proof {
                assert(q < half_base()) by (nonlinear_arith)
                    requires
                        q * vn1 + rhat == hi, rhat >= half_base(), hi < vn,
                        vn == vn1 * half_base() + vn0, vn0 < half_base(), vn1 > 0;
                assert(q <= qt) by (nonlinear_arith)
                    requires
                        q < half_base(), q * vn1 + rhat == hi, rhat >= half_base(),
                        vn == vn1 * half_base() + vn0, vn0 < half_base(),
                        x == hi as int * half_base() + lo, lo >= 0,
                        qt * vn + (x % (vn as int)) == x, (x % (vn as int)) < vn, q >= 0;
            }
            break;
        }
    }
    proof {
        assert(q * vn <= x) by (nonlinear_arith)
            requires
                q * vn1 + rhat == hi, vn == vn1 * half_base() + vn0,
                x == hi as int * half_base() + lo, q == qt,
                qt * vn + (x % (vn as int)) == x, (x % (vn as int)) >= 0;
        assert(x - q * vn < vn);
        lemma_wrapping_remainder(hi, lo, q, vn, x,
            (hi as nat * 0x1_0000_0000 as nat % word_base() as nat + lo as int
            - (q as nat * vn as nat % word_base() as nat)) % word_base());
        vstd::arithmetic::div_mod::lemma_fundamental_div_mod_converse(
            x, vn as int, q as int, x - q * vn);
    }
    let rem = hi.wrapping_mul(b).wrapping_add(lo).wrapping_sub(q.wrapping_mul(vn));
    (q, rem)
}

/// Shifting a nonzero divisor left by its leading-zero count sets its top
/// bit; shifting the dividend by the same amount scales both by `2^s`.
proof fn lemma_normalize(u1: u64, u0: u64, v: u64, s: u64)
    requires
        0 < s < 64,
        u1 < v,
        v >> ((64 - s) as u64) == 0,
        (v >> ((63 - s) as u64)) & 1u64 != 0u64,
    ensures
        v << s >= 0x8000_0000_0000_0000,
        (v << s) as int == v as int * pow2(s as nat),
        two_word((u1 << s) | (u0 >> ((64 - s) as u64)), u0 << s) == two_word(u1, u0) * pow2(s as nat),
{
    let t = ((64 - s) as u64);
    let max: u64 = 0xFFFF_FFFF_FFFF_FFFF;
    let p = pow2(s as nat);
    let q = pow2(t as nat);
    assert(v << s >= 0x8000_0000_0000_0000) by (bit_vector)
        requires 0 < s < 64, (v >> ((63 - s) as u64)) & 1u64 != 0u64;
    assert(v <= max >> s && u1 <= max >> s) by (bit_vector)
        requires 0 < s < 64, v >> ((64 - s) as u64) == 0, u1 < v, max == 0xFFFF_FFFF_FFFF_FFFFu64;
    vstd::bits::lemma_u64_mul_pow2_le_max_iff_max_shr(v, s, max);
    vstd::bits::lemma_u64_mul_pow2_le_max_iff_max_shr(u1, s, max);
    vstd::bits::lemma_u64_shl_is_mul(v, s);
    vstd::bits::lemma_u64_shl_is_mul(u1, s);
    vstd::bits::lemma_u64_shr_is_div(u0, t);

    let hi = u0 >> t;
    let lo = (u0 << s) >> s;
    assert((u1 << s) | hi == (u1 << s) + hi) by (bit_vector)
        requires 0 < s < 64, t == ((64 - s) as u64), hi == u0 >> t, u1 <= max >> s,
            max == 0xFFFF_FFFF_FFFF_FFFFu64;
    assert((hi << t) + lo == u0 && hi <= max >> t && lo <= max >> s
        && u0 << s == lo << s) by (bit_vector)
        requires 0 < s < 64, t == ((64 - s) as u64), hi == u0 >> t, lo == (u0 << s) >> s,
            max == 0xFFFF_FFFF_FFFF_FFFFu64;
    vstd::bits::lemma_u64_mul_pow2_le_max_iff_max_shr(hi, t, max);
    vstd::bits::lemma_u64_mul_pow2_le_max_iff_max_shr(lo, s, max);
    vstd::bits::lemma_u64_shl_is_mul(hi, t);
    vstd::bits::lemma_u64_shl_is_mul(lo, s);
    vstd::arithmetic::power2::lemma_pow2_adds(s as nat, t as nat);
    vstd::arithmetic::power2::lemma2_to64_rest();
    assert(p * q == word_base());
    assert(two_word((u1 << s) | hi, u0 << s) == two_word(u1, u0) * p) by (nonlinear_arith)
        requires
            ((u1 << s) | hi) as int == u1 * p + hi,
            (u0 << s) as int == lo * p,
            u0 as int == hi * q + lo,
            p * q == word_base(),
    {
    }
}

/// Divides the two-word number `u1 * 2^64 + u0` by `v`, or returns `None`
/// when the quotient does not fit in 64 bits (exactly when `u1 >= v`).
///
/// Long division on 32-bit digits: the divisor is normalized so that its top
/// bit is set, and each quotient digit is estimated and then corrected.
pub fn div_u128(u1: u64, u0: u64, v: u64) -> (r: Option<u64>)
    requires
        v != 0,
    ensures
        r == if u1 >= v {
            None
        } else {
            Some((two_word(u1, u0) / v as int) as u64)
        },
{
    let b: u64 = 0x1_0000_0000;
    if u1 >= v {
        return None;
    }
    let s = v.leading_zeros();
    proof {
        vstd::std_specs::bits::axiom_u64_leading_zeros(v);
    }
    let ghost p: int = pow2(s as nat) as int;
    // Shift by zero is spelled out: a shift by 64 of the low word is not
    // defined.
    let (vn, un32, un10) = if s == 0 {
        proof {
            assert((v >> 63u64) & 1u64 != 0u64 ==> v >= 0x8000_0000_0000_0000) by (bit_vector);
            vstd::arithmetic::power2::lemma2_to64();
        }
        (v, u1, u0)
    } else {
        proof {
            lemma_normalize(u1, u0, v, s as u64);
        }
        (v << s, (u1 << s) | (u0 >> (64 - s)), u0 << s)
    };
    proof {
        vstd::arithmetic::power2::lemma_pow2_pos(s as nat);
        assert(un32 < vn) by (nonlinear_arith)
            requires
                two_word(un32, un10) == two_word(u1, u0) * p,
                vn == v * p, u1 < v, p > 0, un10 >= 0, u0 < word_base();
    }
    let un1 = un10 >> 32;
    let un0 = un10 & 0xFFFF_FFFF;
    proof {
        lemma_split_halves(un10);
    }
    let (q1, un21) = div_digit(un32, un1, vn);
    let (q0, rem) = div_digit(un21, un0, vn);
    proof {
        let n = two_word(u1, u0);
        let x1 = un32 as int * half_base() + un1;
        let x0 = un21 as int * half_base() + un0;
        vstd::arithmetic::div_mod::lemma_fundamental_div_mod(x1, vn as int);
        vstd::arithmetic::div_mod::lemma_fundamental_div_mod(x0, vn as int);
        vstd::arithmetic::div_mod::lemma_fundamental_div_mod(n, v as int);
        assert(two_word(un32, un10) == (q1 * half_base() + q0) * vn + rem) by (nonlinear_arith)
            requires
                un10 as int == un1 * half_base() + un0,
                x1 == q1 * vn + un21,
                x0 == q0 * vn + rem,
                x1 == un32 as int * half_base() + un1,
                x0 == un21 as int * half_base() + un0;
        assert(q1 * half_base() + q0 == n / v as int) by (nonlinear_arith)
            requires
                two_word(un32, un10) == (q1 * half_base() + q0) * vn + rem,
                two_word(un32, un10) == n * p,
                vn == v * p, p > 0, v > 0, 0 <= rem < vn,
                n == (n / v as int) * v + n % (v as int), 0 <= n % (v as int) < v,
                q1 >= 0, q0 >= 0,
        {
            vstd::arithmetic::div_mod::lemma_fundamental_div_mod_converse(
                n * p, vn as int, n / v as int, (n % (v as int)) * p);
        }
    }
    Some(q1 * b + q0)
}

/// The quotient of a two-word number by `v` fits in one word exactly when
/// the high word is below `v`.
proof fn lemma_quotient_fits(hi: u64, lo: u64, v: u64)
    requires
        v != 0,
    ensures
        hi < v <==> two_word(hi, lo) / (v as int) < word_base(),
{
    let n = two_word(hi, lo);
    vstd::arithmetic::div_mod::lemma_fundamental_div_mod(n, v as int);
    if hi < v {
        assert(n / (v as int) < word_base()) by (nonlinear_arith)
            requires
                n == hi * word_base() + lo, hi + 1 <= v, lo < word_base(), v > 0,
                n == v * (n / v as int) + n % (v as int), n % (v as int) >= 0;
    } else {
        assert(n / (v as int) >= word_base()) by (nonlinear_arith)
            requires
                n == hi * word_base() + lo, hi >= v, lo >= 0, v > 0,
                n == v * (n / v as int) + n % (v as int), n % (v as int) < v;
    }
}

/// `floor(a * b / c)`, computed exactly through the 128-bit product, or
/// `None` when that quotient does not fit in 64 bits.
pub fn mul_div(a: u64, b: u64, c: u64) -> (r: Option<u64>)
    requires
        c != 0,
    ensures
        r == if (a as int * b as int) / (c as int) < word_base() {
            Some(((a as int * b as int) / c as int) as u64)
        } else {
            None
        },
{
    let m0 = a.wrapping_mul(b);
    let m1 = mul_u64_hi(a, b);
    proof {
        let p = a as int * b as int;
        vstd::arithmetic::div_mod::lemma_fundamental_div_mod(p, word_base());
        assert(p == two_word(m1, m0));
        lemma_quotient_fits(m1, m0, c);
    }
    if m1 > 0 {
        div_u128(m1, m0, c)
    } else {
        Some(m0 / c)
    }
}

/// A difference of two wrapped products is exact when the true difference
/// fits in a word.
pub proof fn lemma_wrapping_product_difference(a: u64, b: u64, c: u64, d: u64)
    requires
        0 <= a as int * b as int - c as int * (d as int) < word_base(),
    ensures
        a.wrapping_mul(b).wrapping_sub(c.wrapping_mul(d)) == a as int * b as int - c as int
            * d as int,
{
    let m = word_base();
    let x = a as int * b as int;
    let y = c as int * d as int;
    vstd::arithmetic::div_mod::lemma_sub_mod_noop(x, y, m);
    vstd::arithmetic::div_mod::lemma_small_mod((x - y) as nat, m as nat);
    vstd::arithmetic::div_mod::lemma_mod_bound(x, m);
    vstd::arithmetic::div_mod::lemma_mod_bound(y, m);
}

} // verus!
