//! The order of JSON numbers.
//!
//! Numbers are compared as 64-bit IEEE 754 numbers: an integer counts as the nearest of these, and
//! of two that are equally near as the one with the even significand. A rank is an integer that
//! orders the finite ones as they are ordered themselves. The two zeros have one rank.

use crate::json::Number;
use vstd::arithmetic::div_mod::{lemma_div_is_ordered, lemma_fundamental_div_mod};
use vstd::arithmetic::power2::{
    lemma2_to64, lemma2_to64_rest, lemma_pow2_adds, lemma_pow2_pos, lemma_pow2_strictly_increases,
    lemma_pow2_unfold, pow2,
};
use vstd::prelude::*;

verus! {

/// The position of the highest bit of a positive number.
pub open spec fn exponent(n: nat) -> nat
    decreases n,
{
    if n <= 1 {
        0
    } else {
        1 + exponent(n / 2)
    }
}

/// The 53 highest bits of a positive number with the exponent `e`, rounded.
pub open spec fn significand(n: nat, e: nat) -> int {
    if e <= 52 {
        (n * pow2((52 - e) as nat)) as int
    } else {
        let unit = pow2((e - 52) as nat) as int;
        let whole = n as int / unit;
        let rest = n as int % unit;
        if 2 * rest > unit || (2 * rest == unit && whole % 2 == 1) {
            whole + 1
        } else {
            whole
        }
    }
}

/// The bit pattern of the IEEE 754 number nearest to a natural number.
pub open spec fn nearest_pattern(n: nat) -> int {
    if n == 0 {
        0
    } else {
        (exponent(n) + 1022) * 0x10_0000_0000_0000 + significand(n, exponent(n))
    }
}

/// The bit pattern of infinity. The patterns of numbers are smaller, apart from the sign.
pub const INFINITY_PATTERN: u64 = 0x7ff0_0000_0000_0000;

/// The bit of the sign.
pub const SIGN_BIT: u64 = 0x8000_0000_0000_0000;

/// The rank of a number, if it is one.
pub open spec fn rank_of(number: Number) -> Option<int> {
    match number {
        Number::PosInt(n) => Some(nearest_pattern(n as nat)),
        Number::NegInt(n) => if n < 0 {
            Some(-nearest_pattern((-n) as nat))
        } else {
            Some(nearest_pattern(n as nat))
        },
        Number::Float(bits) => {
            let magnitude = if bits < SIGN_BIT {
                bits as int
            } else {
                bits - SIGN_BIT
            };
            if magnitude > INFINITY_PATTERN {
                None
            } else if bits < SIGN_BIT {
                Some(magnitude)
            } else {
                Some(-magnitude)
            }
        },
    }
}

proof fn lemma_exponent(n: nat)
    requires
        n > 0,
    ensures
        pow2(exponent(n)) <= n < pow2(exponent(n) + 1),
    decreases n,
{
    if n == 1 {
        lemma2_to64();
    } else {
        lemma_exponent(n / 2);
        lemma_pow2_unfold(exponent(n));
        lemma_pow2_unfold(exponent(n) + 1);
    }
}

proof fn lemma_exponent_of_u64(n: u64)
    requires
        n > 0,
    ensures
        exponent(n as nat) <= 63,
{
    lemma_exponent(n as nat);
    lemma2_to64();
    if exponent(n as nat) > 63 {
        if exponent(n as nat) > 64 {
            lemma_pow2_strictly_increases(64, exponent(n as nat));
        }
    }
}

proof fn lemma_significand_bounds(n: nat)
    requires
        n > 0,
    ensures
        0x10_0000_0000_0000 <= significand(n, exponent(n)) <= 0x20_0000_0000_0000,
        exponent(n) <= 52 ==> significand(n, exponent(n)) < 0x20_0000_0000_0000,
{
    let e = exponent(n);
    lemma_exponent(n);
    lemma2_to64();
    lemma2_to64_rest();
    if e <= 52 {
        let f = (52 - e) as nat;
        lemma_pow2_adds(e, f);
        lemma_pow2_adds(e + 1, f);
        lemma_pow2_pos(f);
        assert(pow2(e) * pow2(f) <= n * pow2(f) < pow2(e + 1) * pow2(f)) by (nonlinear_arith)
            requires
                pow2(e) <= n < pow2(e + 1),
                pow2(f) > 0,
        ;
    } else {
        let f = (e - 52) as nat;
        let unit = pow2(f) as int;
        lemma_pow2_pos(f);
        lemma_pow2_adds(52, f);
        lemma_pow2_adds(53, f);
        let whole = n as int / unit;
        let rest = n as int % unit;
        assert(n == unit * whole + rest && 0 <= rest < unit) by {
            lemma_fundamental_div_mod(n as int, unit);
        }
        assert(whole >= 0x10_0000_0000_0000 && whole < 0x20_0000_0000_0000) by (nonlinear_arith)
            requires
                0x10_0000_0000_0000 * unit <= n < 0x20_0000_0000_0000 * unit,
                n == unit * whole + rest,
                0 <= rest < unit,
                unit > 0,
        ;
    }
}

/// A larger natural number has no smaller rank.
pub proof fn law_rank_keeps_order(a: nat, b: nat)
    requires
        a <= b,
    ensures
        nearest_pattern(a) <= nearest_pattern(b),
{
    if b > 0 {
        lemma_significand_bounds(b);
    }
    if a > 0 {
        lemma_significand_bounds(a);
        lemma_exponent_ordered(a, b);
        let e = exponent(a);
        if e == exponent(b) {
            if e <= 52 {
                let f = pow2((52 - e) as nat);
                assert(a * f <= b * f) by (nonlinear_arith)
                    requires
                        a <= b,
                ;
            } else {
                let unit = pow2((e - 52) as nat) as int;
                lemma_pow2_pos((e - 52) as nat);
                lemma_div_is_ordered(a as int, b as int, unit);
                lemma_fundamental_div_mod(a as int, unit);
                lemma_fundamental_div_mod(b as int, unit);
            }
        }
    }
}

proof fn lemma_exponent_ordered(a: nat, b: nat)
    requires
        0 < a <= b,
    ensures
        exponent(a) <= exponent(b),
    decreases b,
{
    if a > 1 {
        lemma_exponent_ordered(a / 2, b / 2);
    }
}

/// Different integers up to two to the power of 53 have different ranks, in their order.
pub proof fn law_rank_separates_small_integers(a: nat, b: nat)
    requires
        a < b <= 0x20_0000_0000_0000,
    ensures
        nearest_pattern(a) < nearest_pattern(b),
{
    lemma_significand_bounds(b);
    lemma2_to64();
    lemma2_to64_rest();
    if a > 0 {
        lemma_significand_bounds(a);
        lemma_exponent_ordered(a, b);
        lemma_exponent(a);
        let e = exponent(a);
        if e > 52 {
            if e > 53 {
                lemma_pow2_strictly_increases(53, e);
            }
        }
        assert(e <= 52);
        if e == exponent(b) {
            let f = pow2((52 - e) as nat);
            lemma_pow2_pos((52 - e) as nat);
            assert(a * f < b * f) by (nonlinear_arith)
                requires
                    a < b,
                    f > 0,
            ;
        }
    }
}

fn pattern_of(n: u64) -> (r: u64)
    ensures
        r == nearest_pattern(n as nat),
        r < INFINITY_PATTERN,
{
    if n == 0 {
        return 0;
    }
    proof {
        lemma_exponent_of_u64(n);
        lemma_exponent(n as nat);
        lemma_significand_bounds(n as nat);
        lemma2_to64();
        lemma2_to64_rest();
    }
    let mut top: u64 = n;
    let mut e: u64 = 0;
    while top > 1
        invariant
            top >= 1,
            exponent(n as nat) == e + exponent(top as nat),
            exponent(n as nat) <= 63,
        decreases top,
    {
        top = top / 2;
        e += 1;
    }
    if e <= 52 {
        let mut q: u64 = n;
        let mut k: u64 = e;
        proof {
            assert(n * pow2((k - e) as nat) == n) by (nonlinear_arith)
                requires
                    pow2((k - e) as nat) == 1,
            ;
        }
        while k < 52
            invariant
                e <= k <= 52,
                q == n * pow2((k - e) as nat),
                q < pow2((k + 1) as nat),
            decreases 52 - k,
        {
            proof {
                lemma_pow2_unfold((k + 2) as nat);
                lemma_pow2_unfold((k + 1 - e) as nat);
                if k + 2 < 53 {
                    lemma_pow2_strictly_increases((k + 2) as nat, 53);
                }
                let before = pow2((k - e) as nat);
                assert(2 * (n * before) == n * (2 * before)) by (nonlinear_arith);
            }
            q = q * 2;
            k += 1;
        }
        return (e + 1022) * 0x10_0000_0000_0000 + q;
    }
    let mut unit: u64 = 1;
    let mut k: u64 = 52;
    while k < e
        invariant
            52 <= k <= e <= 63,
            unit == pow2((k - 52) as nat),
        decreases e - k,
    {
        proof {
            lemma_pow2_unfold((k + 1 - 52) as nat);
            if k - 52 < 11 {
                lemma_pow2_strictly_increases((k - 52) as nat, 11);
            }
        }
        unit = unit * 2;
        k += 1;
    }
    proof {
        lemma_pow2_pos((e - 52) as nat);
        if e - 52 < 12 {
            lemma_pow2_strictly_increases((e - 52) as nat, 12);
        }
        lemma_fundamental_div_mod(n as int, unit as int);
    }
    let whole: u64 = n / unit;
    let rest: u64 = n % unit;
    let rounded: u64 = if 2 * rest > unit || (2 * rest == unit && whole % 2 == 1) {
        proof {
            assert(significand(n as nat, exponent(n as nat)) == whole + 1);
        }
        whole + 1
    } else {
        whole
    };
    (e + 1022) * 0x10_0000_0000_0000 + rounded
}

impl Number {
    /// The rank of a number, if it is one.
    pub fn rank(&self) -> (r: Option<i64>)
        ensures
            (match r {
                Some(k) => Some(k as int),
                None => None,
            }) == rank_of(*self),
    {
        match *self {
            Number::PosInt(n) => Some(pattern_of(n) as i64),
            Number::NegInt(n) => {
                if n < 0 {
                    let magnitude: u64 = (-(n + 1)) as u64 + 1;
                    Some(-(pattern_of(magnitude) as i64))
                } else {
                    Some(pattern_of(n as u64) as i64)
                }
            },
            Number::Float(bits) => {
                if bits < SIGN_BIT {
                    if bits > INFINITY_PATTERN {
                        None
                    } else {
                        Some(bits as i64)
                    }
                } else {
                    let magnitude: u64 = bits - SIGN_BIT;
                    if magnitude > INFINITY_PATTERN {
                        None
                    } else {
                        Some(-(magnitude as i64))
                    }
                }
            },
        }
    }
}

} // verus!
