//! A non-negative span of time, and multiplication and division of it by a
//! 64-bit scalar.
use vstd::prelude::*;

use crate::wide::mul_div;

verus! {

const NANOS_PER_SEC: u64 = 1_000_000_000;

const MILLIS_PER_SEC: u64 = 1_000;

const NANOS_PER_MILLI: u64 = 1_000_000;

/// Nanoseconds in a second.
pub open spec fn nanos_per_sec() -> nat {
    1_000_000_000
}

/// Nanoseconds in a millisecond.
pub open spec fn nanos_per_milli() -> nat {
    1_000_000
}

/// One more than the largest count of nanoseconds a `Duration` holds:
/// `2^64` seconds.
pub open spec fn max_nanos() -> nat {
    0x1_0000_0000_0000_0000 * 1_000_000_000
}

/// The whole milliseconds in a count of nanoseconds.
pub open spec fn whole_millis(nanos: nat) -> nat {
    nanos / nanos_per_milli()
}

/// A span of time: whole seconds and the nanoseconds below a second.
///
/// Its view is the whole span counted in nanoseconds.
#[derive(Clone, Copy, Debug, Eq)]
pub struct Duration {
    secs: u64,
    nanos: u32,
}

impl View for Duration {
    type V = nat;

    closed spec fn view(&self) -> nat {
        self.secs as nat * nanos_per_sec() + self.nanos as nat
    }
}

/// Two durations are equal when they hold the same count of nanoseconds.
impl PartialEq for Duration {
    fn eq(&self, other: &Duration) -> (r: bool) {
        proof {
            use_type_invariant(self);
            use_type_invariant(other);
            lemma_same_view(*self, *other);
        }
        self.secs == other.secs && self.nanos == other.nanos
    }
}

impl vstd::std_specs::cmp::PartialEqSpecImpl for Duration {
    open spec fn obeys_eq_spec() -> bool {
        true
    }

    open spec fn eq_spec(&self, other: &Duration) -> bool {
        self@ == other@
    }
}

/// Durations in their canonical form (nanoseconds below a second) with the
/// same view have the same fields.
proof fn lemma_same_view(a: Duration, b: Duration)
    requires
        a.nanos < nanos_per_sec(),
        b.nanos < nanos_per_sec(),
    ensures
        a@ == b@ <==> a.secs == b.secs && a.nanos == b.nanos,
{
    if a@ == b@ {
        vstd::arithmetic::div_mod::lemma_fundamental_div_mod_converse(
            a@ as int, nanos_per_sec() as int, a.secs as int, a.nanos as int);
        vstd::arithmetic::div_mod::lemma_fundamental_div_mod_converse(
            b@ as int, nanos_per_sec() as int, b.secs as int, b.nanos as int);
    }
}

impl Duration {
    #[verifier::type_invariant]
    spec fn nanos_below_a_second(self) -> bool {
        self.nanos < NANOS_PER_SEC
    }

    /// A duration of `secs` seconds and `nanos` nanoseconds; nanoseconds of a
    /// second or more carry into the seconds.
    pub fn new(secs: u64, nanos: u32) -> (r: Duration)
        requires
            secs + (nanos as nat) / nanos_per_sec() <= u64::MAX,
        ensures
            r@ == secs * nanos_per_sec() + nanos,
    {
        let carry = (nanos as u64) / NANOS_PER_SEC;
        let rest = (nanos as u64) % NANOS_PER_SEC;
        Duration { secs: secs + carry, nanos: rest as u32 }
    }

    /// A duration of whole seconds.
    pub fn from_secs(secs: u64) -> (r: Duration)
        ensures
            r@ == secs * nanos_per_sec(),
    {
        Duration { secs, nanos: 0 }
    }

    /// A duration of whole milliseconds.
    pub fn from_millis(millis: u64) -> (r: Duration)
        ensures
            r@ == millis * nanos_per_milli(),
    {
        let secs = millis / MILLIS_PER_SEC;
        let nanos = ((millis % MILLIS_PER_SEC) * NANOS_PER_MILLI) as u32;
        Duration { secs, nanos }
    }

    /// The whole seconds in this duration.
    pub fn as_secs(&self) -> (r: u64)
        ensures
            r == self@ / nanos_per_sec(),
    {
        proof {
            use_type_invariant(self);
        }
        self.secs
    }

    /// The nanoseconds below a whole second.
    pub fn subsec_nanos(&self) -> (r: u32)
        ensures
            r == self@ % nanos_per_sec(),
            r < nanos_per_sec(),
    {
        proof {
            use_type_invariant(self);
        }
        self.nanos
    }
}

/// What a quotient leaves over is the remainder.
proof fn lemma_remainder_of_quotient(x: int, d: int, q: int, r: int)
    requires
        d > 0,
        q == x / d,
        r == x - d * q,
    ensures
        r == x % d,
{
    vstd::arithmetic::div_mod::lemma_fundamental_div_mod(x, d);
}

/// The quotient of `secs * 10^9 + n` by `rhs` in parts: whole seconds from
/// `secs / rhs`, and nanoseconds from the carried seconds and `n`, with one
/// more when the two dropped remainders add up to `rhs`.
proof fn lemma_div_parts(
    secs_in: u64, n: u32, rhs: u64, secs: u64, carry: u64, extra: u64, lost: u64,
    nanos_rem: u64, q: u64,
)
    requires
        rhs > 0,
        n < nanos_per_sec(),
        secs == secs_in / rhs,
        carry == secs_in % rhs,
        carry * nanos_per_sec() == rhs * extra + lost,
        lost == (carry * nanos_per_sec()) % (rhs as int),
        nanos_rem == (n as int) % (rhs as int),
        q == (n as int) / (rhs as int) + extra + (if lost >= rhs - nanos_rem { 1int } else { 0 }),
    ensures
        q < nanos_per_sec(),
        (secs_in * nanos_per_sec() + n) / (rhs as int) == secs * nanos_per_sec() + q,
{
    let x = carry * nanos_per_sec();
    let sum = x + n;
    let rr = if lost >= rhs - nanos_rem {
        lost + nanos_rem - rhs
    } else {
        lost + nanos_rem
    };
    vstd::arithmetic::div_mod::lemma_fundamental_div_mod(n as int, rhs as int);
    vstd::arithmetic::div_mod::lemma_fundamental_div_mod(x, rhs as int);
    vstd::arithmetic::div_mod::lemma_fundamental_div_mod(secs_in as int, rhs as int);
    assert(sum == q * rhs + rr) by (nonlinear_arith)
        requires
            x == rhs * extra + lost,
            n == rhs * ((n as int) / (rhs as int)) + nanos_rem,
            sum == x + n,
            q == (n as int) / (rhs as int) + extra + (if lost >= rhs - nanos_rem { 1int } else { 0 }),
            rr == if lost >= rhs - nanos_rem {
                lost + nanos_rem - rhs
            } else {
                lost + nanos_rem
            };
    assert(0 <= rr < rhs);
    assert(sum < rhs * nanos_per_sec()) by (nonlinear_arith)
        requires sum == x + n, x == carry * nanos_per_sec(), carry + 1 <= rhs,
            n < nanos_per_sec();
    assert(q < nanos_per_sec()) by (nonlinear_arith)
        requires sum < rhs * nanos_per_sec(), sum == q * rhs + rr, rr >= 0, rhs > 0;
    let total = secs_in * nanos_per_sec() + n;
    assert(total == (secs * nanos_per_sec() + q) * rhs + rr) by (nonlinear_arith)
        requires
            total == secs_in * nanos_per_sec() + n,
            secs_in == rhs * secs + carry,
            sum == carry * nanos_per_sec() + n,
            sum == q * rhs + rr;
    vstd::arithmetic::div_mod::lemma_fundamental_div_mod_converse(
        total, rhs as int, secs * nanos_per_sec() + q, rr);
}

/// Multiplication and division of a duration by a 64-bit scalar, and its
/// length in milliseconds, each failing with `None` rather than overflowing.
pub trait DurationExt: Sized {
    /// The whole milliseconds in this duration, or `None` when they do not
    /// fit in a `u64`.
    fn as_millis(&self) -> Option<u64>;

    /// This duration times `rhs`, or `None` when the seconds of the product
    /// do not fit in a `u64`.
    fn mul_u64(&self, rhs: u64) -> Option<Self>;

    /// This duration divided by `rhs`, rounded down to a whole nanosecond.
    fn div_u64(&self, rhs: u64) -> Option<Self>
        requires
            rhs != 0,
    ;
}

impl DurationExt for Duration {
    fn as_millis(&self) -> (r: Option<u64>)
        ensures
            r == if whole_millis(self@) <= u64::MAX {
                Some(whole_millis(self@) as u64)
            } else {
                None
            },
    {
        proof {
            use_type_invariant(self);
        }
        let sub_millis = self.nanos as u64 / NANOS_PER_MILLI;
        match self.secs.checked_mul(MILLIS_PER_SEC) {
            Some(m) => m.checked_add(sub_millis),
            None => None,
        }
    }

    fn mul_u64(&self, rhs: u64) -> (r: Option<Duration>)
        ensures
            r is Some <==> self@ * rhs < max_nanos(),
            r matches Some(d) ==> d@ == self@ * rhs,
    {
        proof {
            use_type_invariant(self);
        }
        // Split rhs as a * 10^9 + b, so that nanos * b cannot overflow and
        // nanos * a is a count of whole seconds.
        let a = rhs / NANOS_PER_SEC;
        let b = rhs % NANOS_PER_SEC;
        proof {
            assert(self.nanos * b < 1_000_000_000_000_000_000) by (nonlinear_arith)
                requires self.nanos < 1_000_000_000, b < 1_000_000_000;
        }
        let total_nanos = self.nanos as u64 * b;
        let nanos = (total_nanos % NANOS_PER_SEC) as u32;
        let carry = total_nanos / NANOS_PER_SEC;
        let ghost secs_exact: int = self.secs * rhs + carry + self.nanos * a;
        proof {
            assert(self@ * rhs == secs_exact * nanos_per_sec() + nanos) by (nonlinear_arith)
                requires
                    self@ == self.secs * nanos_per_sec() + self.nanos,
                    rhs == a * nanos_per_sec() + b,
                    total_nanos == self.nanos * b,
                    total_nanos == carry * nanos_per_sec() + nanos,
                    secs_exact == self.secs * rhs + carry + self.nanos * a;
            assert(self@ * rhs < max_nanos() <==> secs_exact <= u64::MAX) by (nonlinear_arith)
                requires
                    self@ * rhs == secs_exact * nanos_per_sec() + nanos,
                    0 <= nanos < nanos_per_sec();
            assert(0 <= self.secs * rhs && 0 <= self.nanos * a) by (nonlinear_arith);
            assert(self.nanos * a <= u64::MAX) by (nonlinear_arith)
                requires self.nanos < 1_000_000_000, a == rhs / 1_000_000_000;
        }
        match self.secs.checked_mul(rhs) {
            Some(s) => match s.checked_add(carry) {
                Some(s) => match s.checked_add(self.nanos as u64 * a) {
                    Some(secs) => Some(Duration { secs, nanos }),
                    None => None,
                },
                None => None,
            },
            None => None,
        }
    }

    fn div_u64(&self, rhs: u64) -> (r: Option<Duration>)
        ensures
            r matches Some(d) && d@ == self@ / (rhs as nat),
    {
        proof {
            use_type_invariant(self);
        }
        let secs = self.secs / rhs;
        let carry = self.secs % rhs;
        proof {
            assert(carry * nanos_per_sec() < rhs * nanos_per_sec()) by (nonlinear_arith)
                requires carry < rhs;
            vstd::arithmetic::div_mod::lemma_fundamental_div_mod(
                carry * nanos_per_sec(), rhs as int);
            assert((carry * nanos_per_sec()) / (rhs as int) < nanos_per_sec()) by (nonlinear_arith)
                requires
                    carry * nanos_per_sec() < rhs * nanos_per_sec(),
                    carry * nanos_per_sec() == rhs * ((carry * nanos_per_sec()) / (rhs as int))
                        + (carry * nanos_per_sec()) % (rhs as int),
                    (carry * nanos_per_sec()) % (rhs as int) >= 0;
        }
        match mul_div(carry, NANOS_PER_SEC, rhs) {
            Some(extra) => {
                // The two quotients below each drop a remainder; together
                // the remainders may make up one more nanosecond.
                let ghost x: int = carry * nanos_per_sec();
                let ghost n: int = self.nanos as int;
                proof {
                    crate::wide::lemma_wrapping_product_difference(carry, NANOS_PER_SEC, extra, rhs);
                }
                let lost = carry.wrapping_mul(NANOS_PER_SEC).wrapping_sub(extra.wrapping_mul(rhs));
                let nanos_rem = self.nanos as u64 % rhs;
                proof {
                    assert((self.nanos as int) / (rhs as int) <= self.nanos) by (nonlinear_arith)
                        requires rhs > 0;
                }
                let mut nanos = self.nanos as u64 / rhs + extra;
                proof {
                    lemma_remainder_of_quotient(x, rhs as int, extra as int, lost as int);
                }
                if lost >= rhs - nanos_rem {
                    nanos = nanos + 1;
                }
                proof {
                    lemma_div_parts(self.secs, self.nanos, rhs, secs, carry, extra, lost, nanos_rem,
                        nanos);
                }
                Some(Duration { secs, nanos: nanos as u32 })
            },
            None => None,
        }
    }
}

/// Turning a duration into whole milliseconds and back loses less than one
/// millisecond, and never rounds up.
pub proof fn lemma_millis_round_trip(d: Duration, back: Duration)
    requires
        whole_millis(d@) <= u64::MAX,
        back@ == whole_millis(d@) * nanos_per_milli(),
    ensures
        back@ <= d@ < back@ + nanos_per_milli(),
{
}

/// A duration made from a count of milliseconds has exactly that many
/// whole milliseconds.
pub proof fn lemma_from_millis_exact(millis: u64, d: Duration)
    requires
        d@ == millis * nanos_per_milli(),
    ensures
        whole_millis(d@) == millis,
{
}

/// Dividing a product by the scalar it was multiplied by gives back the
/// original duration.
pub proof fn lemma_div_undoes_mul(d: Duration, rhs: u64, product: Duration, quotient: Duration)
    requires
        rhs != 0,
        product@ == d@ * rhs,
        quotient@ == product@ / (rhs as nat),
    ensures
        quotient@ == d@,
{
    vstd::arithmetic::div_mod::lemma_div_by_multiple(d@ as int, rhs as int);
}

} // verus!
