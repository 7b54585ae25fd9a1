//! Numbers of CPUs, as doubles by their bits.

use vstd::arithmetic::power2::*;
use vstd::prelude::*;

verus! {

/// A number of CPUs, possibly fractional, held as the bits of a
/// double-precision number (sign, exponent and mantissa, from the top bit down).
#[derive(Debug, Clone, Copy, PartialEq, Eq)]
pub struct Cpus {
    pub bits: u64,
}

/// The sign bit.
pub const SIGN_BIT: u64 = 0x8000_0000_0000_0000;

/// The bits of positive infinity; a larger magnitude is not a number.
pub const INFINITY_BITS: u64 = 0x7FF0_0000_0000_0000;

impl Cpus {
    /// The bits without the sign.
    pub open spec fn magnitude(self) -> int {
        if self.bits >= SIGN_BIT {
            self.bits - SIGN_BIT
        } else {
            self.bits as int
        }
    }

    /// Whether the bits stand for no number.
    pub open spec fn is_nan(self) -> bool {
        self.magnitude() > INFINITY_BITS
    }

    /// A number in the order of the double: both zeros give 0, and of two
    /// doubles that are numbers the larger gives the larger rank.
    pub open spec fn rank(self) -> int {
        if self.bits >= SIGN_BIT {
            -self.magnitude()
        } else {
            self.magnitude()
        }
    }

    /// Whether this is a number that is not above zero.
    pub open spec fn at_most_zero(self) -> bool {
        !self.is_nan() && self.rank() <= 0
    }

    /// Whether this and `other` are numbers and this is the larger one.
    pub open spec fn exceeds(self, other: Cpus) -> bool {
        !self.is_nan() && !other.is_nan() && self.rank() > other.rank()
    }

    fn nan(&self) -> (r: bool)
        ensures
            r == self.is_nan(),
    {
        let m: u64 = if self.bits >= SIGN_BIT {
            self.bits - SIGN_BIT
        } else {
            self.bits
        };
        m > INFINITY_BITS
    }

    fn ranked(&self) -> (r: i64)
        ensures
            r == self.rank(),
    {
        if self.bits >= SIGN_BIT {
            -((self.bits - SIGN_BIT) as i64)
        } else {
            self.bits as i64
        }
    }

    /// Whether this is zero or less.
    pub fn not_positive(&self) -> (r: bool)
        ensures
            r == self.at_most_zero(),
    {
        !self.nan() && self.ranked() <= 0
    }

    /// Whether this is more than `other`.
    pub fn more_than(&self, other: &Cpus) -> (r: bool)
        ensures
            r == self.exceeds(*other),
    {
        !self.nan() && !other.nan() && self.ranked() > other.ranked()
    }
}

/// Of two amounts of CPUs that are numbers, one exceeds the other or both rank
/// the same; an amount that exceeds zero is not refused as non-positive.
pub proof fn cpus_are_ordered(a: Cpus, b: Cpus)
    requires
        !a.is_nan(),
        !b.is_nan(),
    ensures
        a.exceeds(b) || b.exceeds(a) || a.rank() == b.rank(),
        !(a.exceeds(b) && b.exceeds(a)),
        b.rank() == 0 ==> (a.exceeds(b) <==> !a.at_most_zero()),
{
}

/// 2 to the power of 52: one more than the largest mantissa.
pub const MANTISSA_RANGE: u64 = 0x10_0000_0000_0000;

/// The position of the highest bit of `n`, counted from 0.
pub open spec fn top_bit(n: nat) -> nat
    decreases n,
{
    if n < 2 {
        0
    } else {
        1 + top_bit(n / 2)
    }
}

/// `n` divided by 2 to the power of `k`, rounded to the nearest integer and, where
/// two are equally near, to the even one.
pub open spec fn rounded(n: nat, k: nat) -> nat {
    let q = n / pow2(k);
    let twice = 2 * (n % pow2(k));
    if twice > pow2(k) || (twice == pow2(k) && q % 2 == 1) {
        q + 1
    } else {
        q
    }
}

/// The bits of the double nearest to `n`: the exponent of its highest bit, and
/// the 52 bits below that one as mantissa, rounded where there are more. Rounding
/// up past the largest mantissa carries into the exponent.
pub open spec fn count_bits(n: nat) -> int {
    let e = top_bit(n);
    if n == 0 {
        0
    } else if e <= 52 {
        (e + 1023) * MANTISSA_RANGE + (n * pow2((52 - e) as nat) - MANTISSA_RANGE)
    } else {
        (e + 1023) * MANTISSA_RANGE + (rounded(n, (e - 52) as nat) - MANTISSA_RANGE)
    }
}

proof fn lemma_top_bit(n: nat, e: nat)
    requires
        pow2(e) <= n < 2 * pow2(e),
    ensures
        top_bit(n) == e,
    decreases e,
{
    lemma2_to64();
    if e > 0 {
        lemma_pow2_unfold(e);
        lemma_pow2_pos((e - 1) as nat);
        lemma_top_bit(n / 2, (e - 1) as nat);
    }
}

proof fn lemma_top_bit_bounds(n: nat)
    requires
        n > 0,
    ensures
        pow2(top_bit(n)) <= n < 2 * pow2(top_bit(n)),
    decreases n,
{
    lemma2_to64();
    if n >= 2 {
        lemma_top_bit_bounds(n / 2);
        lemma_pow2_unfold(top_bit(n));
    }
}

/// The scaled number lies between the smallest and the largest mantissa, with the
/// leading bit.
proof fn lemma_scaled(n: nat, e: nat)
    requires
        pow2(e) <= n < 2 * pow2(e),
        e <= 52,
    ensures
        MANTISSA_RANGE <= n * pow2((52 - e) as nat) < 2 * MANTISSA_RANGE,
{
    let s = pow2((52 - e) as nat);
    lemma2_to64_rest();
    lemma_pow2_adds(e, (52 - e) as nat);
    lemma_pow2_pos((52 - e) as nat);
    let p = pow2(e);
    assert(p * s <= n * s < 2 * (p * s)) by (nonlinear_arith)
        requires
            p <= n < 2 * p,
            s > 0,
    ;
}

/// The rounded number lies there too, but may reach the upper end.
proof fn lemma_rounded(n: nat, e: nat)
    requires
        pow2(e) <= n < 2 * pow2(e),
        e > 52,
    ensures
        MANTISSA_RANGE <= n / pow2((e - 52) as nat) < 2 * MANTISSA_RANGE,
        MANTISSA_RANGE <= rounded(n, (e - 52) as nat) <= 2 * MANTISSA_RANGE,
{
    let d = pow2((e - 52) as nat);
    lemma2_to64_rest();
    lemma_pow2_adds((e - 52) as nat, 52);
    lemma_pow2_pos((e - 52) as nat);
    assert(MANTISSA_RANGE <= n / d < 2 * MANTISSA_RANGE) by (nonlinear_arith)
        requires
            d * MANTISSA_RANGE <= n < 2 * (d * MANTISSA_RANGE),
            d > 0,
    ;
}

fn power_of_two(e: u32) -> (r: u64)
    requires
        e < 64,
    ensures
        r == pow2(e as nat),
{
    let mut r: u64 = 1;
    let mut i: u32 = 0;
    proof {
        lemma2_to64();
        lemma2_to64_rest();
    }
    while i < e
        invariant
            i <= e < 64,
            r == pow2(i as nat),
            pow2(63) == 0x8000_0000_0000_0000,
        decreases e - i,
    {
        proof {
            lemma_pow2_unfold((i + 1) as nat);
            if i + 1 < 63 {
                lemma_pow2_strictly_increases((i + 1) as nat, 63);
            }
        }
        r = r * 2;
        i += 1;
    }
    r
}

impl Cpus {
    /// A whole number of CPUs.
    pub fn from_count(n: u64) -> (r: Cpus)
        ensures
            r.bits == count_bits(n as nat),
    {
        if n == 0 {
            return Cpus { bits: 0 };
        }
        let mut e: u32 = 0;
        let mut p: u64 = 1;
        proof {
            lemma2_to64();
            lemma2_to64_rest();
        }
        while p <= n / 2
            invariant
                e < 64,
                p == pow2(e as nat),
                0 < p <= n,
                pow2(63) == 0x8000_0000_0000_0000,
            decreases n - p,
        {
            proof {
                if e >= 63 {
                    assert(false);
                }
                lemma_pow2_unfold((e + 1) as nat);
            }
            p = p * 2;
            e += 1;
        }
        proof {
            lemma_top_bit(n as nat, e as nat);
        }
        let exponent: u64 = (e as u64 + 1023) * MANTISSA_RANGE;
        if e <= 52 {
            proof {
                lemma_scaled(n as nat, e as nat);
            }
            let scale: u64 = power_of_two(52 - e);
            Cpus { bits: exponent + (n * scale - MANTISSA_RANGE) }
        } else {
            proof {
                lemma_rounded(n as nat, e as nat);
                lemma_pow2_pos((e - 52) as nat);
                lemma_pow2_unfold((e - 52) as nat);
            }
            let d: u64 = power_of_two(e - 52);
            let q: u64 = n / d;
            let rest: u64 = n % d;
            let half: u64 = d / 2;
            let m: u64 = if rest > half || (rest == half && q % 2 == 1) {
                q + 1
            } else {
                q
            };
            Cpus { bits: exponent + (m - MANTISSA_RANGE) }
        }
    }
}

proof fn lemma_count_in_octave(n: nat)
    requires
        n > 0,
    ensures
        (top_bit(n) + 1023) * MANTISSA_RANGE <= count_bits(n) <= (top_bit(n) + 1024)
            * MANTISSA_RANGE,
{
    lemma_top_bit_bounds(n);
    if top_bit(n) <= 52 {
        lemma_scaled(n, top_bit(n));
    } else {
        lemma_rounded(n, top_bit(n));
    }
}

/// The bits of a 64-bit number of CPUs are those of a positive number or zero.
pub proof fn lemma_count_fits(n: u64)
    ensures
        0 <= count_bits(n as nat) < INFINITY_BITS,
{
    if n > 0 {
        let e = top_bit(n as nat);
        lemma_count_in_octave(n as nat);
        lemma_top_bit_bounds(n as nat);
        lemma2_to64_rest();
        if e >= 64 {
            if e > 64 {
                lemma_pow2_strictly_increases(64, e);
            }
            assert(false);
        }
    }
}

proof fn lemma_top_bit_grows(a: nat, b: nat)
    requires
        a <= b,
    ensures
        top_bit(a) <= top_bit(b),
    decreases b,
{
    if a >= 2 {
        lemma_top_bit_grows(a / 2, b / 2);
    }
}

/// A larger number of CPUs has no smaller bits, and up to 2 to the power of 53,
/// where every number is a double, it has larger ones.
pub proof fn counts_keep_their_order(a: nat, b: nat)
    requires
        a < b,
    ensures
        count_bits(a) <= count_bits(b),
        b < pow2(53) ==> count_bits(a) < count_bits(b),
{
    lemma_top_bit_grows(a, b);
    lemma_count_in_octave(b);
    lemma_top_bit_bounds(b);
    if a > 0 {
        let e = top_bit(a);
        let f = top_bit(b);
        lemma_count_in_octave(a);
        lemma_top_bit_bounds(a);
        if b < pow2(53) && f >= 53 {
            if f > 53 {
                lemma_pow2_strictly_increases(53, f);
            }
            assert(false);
        }
        if e < f {
            assert((e + 1024) * MANTISSA_RANGE <= (f + 1023) * MANTISSA_RANGE) by (nonlinear_arith)
                requires
                    e < f,
            ;
            if e <= 52 {
                lemma_scaled(a, e);
            }
        } else if e <= 52 {
            let s = pow2((52 - e) as nat);
            lemma_pow2_pos((52 - e) as nat);
            assert(a * s < b * s) by (nonlinear_arith)
                requires
                    a < b,
                    s > 0,
            ;
        } else {
            let d = pow2((e - 52) as nat);
            lemma_pow2_pos((e - 52) as nat);
            assert(a / d <= b / d) by (nonlinear_arith)
                requires
                    a < b,
                    d > 0,
            ;
            if a / d == b / d {
                assert(a % d < b % d) by (nonlinear_arith)
                    requires
                        a < b,
                        d > 0,
                        a / d == b / d,
                ;
            }
        }
    }
}

/// The order of amounts of CPUs, by the bits of the doubles: positive numbers rank
/// as their bits, negative ones the other way round and below all others, both
/// zeros the same, and what is no number is neither above nor below anything.
pub proof fn amounts_rank_by_their_bits(a: Cpus, b: Cpus)
    ensures
        a.at_most_zero() <==> a.bits == 0 || 0x8000_0000_0000_0000 <= a.bits
            <= 0xFFF0_0000_0000_0000,
        a.bits <= 0x7FF0_0000_0000_0000 && b.bits <= 0x7FF0_0000_0000_0000 ==> (a.exceeds(b)
            <==> a.bits > b.bits),
        0x8000_0000_0000_0000 <= a.bits <= 0xFFF0_0000_0000_0000 && 0x8000_0000_0000_0000 <= b.bits
            <= 0xFFF0_0000_0000_0000 ==> (a.exceeds(b) <==> a.bits < b.bits),
        a.bits <= 0x7FF0_0000_0000_0000 && 0x8000_0000_0000_0000 <= b.bits <= 0xFFF0_0000_0000_0000
            ==> (a.exceeds(b) <==> a.bits != 0 || b.bits != 0x8000_0000_0000_0000),
        0x8000_0000_0000_0000 <= a.bits <= 0xFFF0_0000_0000_0000 && b.bits <= 0x7FF0_0000_0000_0000
            ==> !a.exceeds(b),
        0x7FF0_0000_0000_0000 < a.bits < 0x8000_0000_0000_0000 || a.bits > 0xFFF0_0000_0000_0000
            ==> !a.exceeds(b) && !b.exceeds(a) && !a.at_most_zero(),
{
}

/// The double of a number of CPUs below 2 to the power of 53 stands for exactly
/// that number: its mantissa with the leading bit is the number, moved up by as
/// many bits as the exponent leaves.
pub proof fn small_counts_are_exact(n: nat, e: nat)
    requires
        pow2(e) <= n < 2 * pow2(e),
        e <= 52,
    ensures
        count_bits(n) / 0x10_0000_0000_0000 == e + 1023,
        0x10_0000_0000_0000 + count_bits(n) % 0x10_0000_0000_0000 == n * pow2((52 - e) as nat),
        count_bits(0) == 0,
{
    lemma_top_bit(n, e);
    lemma_scaled(n, e);
}

/// Rounding moves a number by at most half of the last place that is kept, and from
/// the middle between two it goes to the even one.
pub proof fn rounding_goes_to_the_nearest(n: nat, k: nat)
    ensures
        2 * (n - rounded(n, k) * pow2(k)) <= pow2(k),
        2 * (rounded(n, k) * pow2(k) - n) <= pow2(k),
        2 * (n - rounded(n, k) * pow2(k)) == pow2(k) || 2 * (rounded(n, k) * pow2(k) - n) == pow2(k)
            ==> rounded(n, k) % 2 == 0,
{
    lemma_pow2_pos(k);
    let d = pow2(k);
    let q = n / d;
    let r = n % d;
    assert(n == q * d + r && 0 <= r < d) by (nonlinear_arith)
        requires
            d > 0,
            q == n / d,
            r == n % d,
    ;
    assert((q + 1) * d == q * d + d) by (nonlinear_arith);
}

/// The double of a number of CPUs from 2 to the power of 53 on stands for a number
/// that is off by at most half of its last place.
pub proof fn large_counts_are_rounded(n: nat, e: nat)
    requires
        pow2(e) <= n < 2 * pow2(e),
        e > 52,
    ensures
        ({
            let mantissa = count_bits(n) - (e + 1022) * 0x10_0000_0000_0000;
            let place = pow2((e - 52) as nat);
            &&& 2 * (n - mantissa * place) <= place
            &&& 2 * (mantissa * place - n) <= place
        }),
{
    lemma_top_bit(n, e);
    rounding_goes_to_the_nearest(n, (e - 52) as nat);
}

/// An amount is refused exactly where it is zero or less, and is more than another by
/// the order of the doubles; a whole number of CPUs is the double of that number.
pub proof fn amounts_are_compared_as_numbers(
    a: &Cpus,
    b: &Cpus,
    none: bool,
    more: bool,
    n: u64,
    c: Cpus,
)
    requires
        a.bits <= 0x7FF0_0000_0000_0000,
        b.bits <= 0x7FF0_0000_0000_0000,
        call_ensures(Cpus::not_positive, (a,), none),
        call_ensures(Cpus::more_than, (a, b), more),
        call_ensures(Cpus::from_count, (n,), c),
    ensures
        none <==> a.bits == 0,
        more <==> a.bits > b.bits,
        c.bits == count_bits(n as nat),
{
    amounts_rank_by_their_bits(*a, *b);
}

} // verus!
