use vstd::prelude::*;
use vstd::arithmetic::power2::{
    lemma2_to64, lemma2_to64_rest, lemma_pow2_pos, lemma_pow2_strictly_increases, lemma_pow2_unfold,
    pow2,
};

verus! {

/// The sign bit of a 64-bit IEEE-754 value (also the bit pattern of `-0.0`).
pub const SIGN_BIT: u64 = 0x8000_0000_0000_0000;

/// A number published by a leaderboard, kept as the bit pattern of the
/// 64-bit IEEE-754 value the source sent (what `f64::to_bits` gives).
#[derive(Debug, Clone, Copy, PartialEq, Eq, Structural)]
pub struct Metric {
    pub bits: u64,
}

/// The position of a bit pattern in the numeric order of finite values:
/// negative values are flipped, positive values are lifted above them,
/// and the negative zero shares its place with the positive zero.
pub open spec fn spec_rank(bits: u64) -> u64 {
    if bits == SIGN_BIT {
        SIGN_BIT
    } else if bits > SIGN_BIT {
        (u64::MAX - bits) as u64
    } else {
        (bits + SIGN_BIT) as u64
    }
}

impl Metric {
    /// Integer rank by which metrics are compared.
    pub fn rank(self) -> (r: u64)
        ensures
            r == spec_rank(self.bits),
    {
        if self.bits == SIGN_BIT {
            SIGN_BIT
        } else if self.bits > SIGN_BIT {
            u64::MAX - self.bits
        } else {
            self.bits + SIGN_BIT
        }
    }
}

/// The least power of two 2^53 · 2^k above `x`, by its exponent `k`: how
/// many low bits of `x` a 53-bit significand cannot keep.
pub open spec fn excess(x: nat) -> nat
    decreases x,
{
    if x < 0x20_0000_0000_0000 {
        0
    } else {
        1 + excess(x / 2)
    }
}

/// The value of the count `x` converted to a 64-bit float, as Rust's
/// integer-to-float cast rounds it: to a 53-bit significand, to the
/// nearest, ties to even.
pub open spec fn float_value(x: nat) -> nat {
    let p = pow2(excess(x));
    let q = x / p;
    let r = x % p;
    if p > 1 && (r > p / 2 || (r == p / 2 && q % 2 == 1)) {
        (q + 1) * p
    } else {
        q * p
    }
}

/// The rank of a count compared as a float: its float value, the largest
/// (2^64, reached from the counts nearest `u64::MAX`) kept to `u64::MAX`.
pub open spec fn spec_count_rank(x: u64) -> u64 {
    if float_value(x as nat) > u64::MAX {
        u64::MAX
    } else {
        float_value(x as nat) as u64
    }
}

proof fn lemma_excess_step(x: nat)
    requires
        x >= 0x20_0000_0000_0000,
    ensures
        x / pow2(excess(x)) == (x / 2) / pow2(excess(x / 2)),
        pow2(excess(x)) == 2 * pow2(excess(x / 2)),
{
    let k = excess(x / 2);
    lemma_pow2_unfold(k + 1);
    lemma_pow2_pos(k);
    vstd::arithmetic::div_mod::lemma_div_denominator(x as int, 2, pow2(k) as int);
}

/// What the significand of a count is: below 2^53, and at least 2^52
/// once bits are dropped; at most 11 bits are dropped from a `u64`.
proof fn lemma_excess(x: nat)
    ensures
        x / pow2(excess(x)) < 0x20_0000_0000_0000,
        excess(x) > 0 ==> x / pow2(excess(x)) >= 0x10_0000_0000_0000,
        x < 0x1_0000_0000_0000_0000 ==> excess(x) <= 11,
    decreases x,
{
    lemma2_to64();
    if x >= 0x20_0000_0000_0000 {
        lemma_excess(x / 2);
        lemma_excess_step(x);
        if excess(x / 2) == 0 {
            assert(x / 2 >= 0x10_0000_0000_0000);
        }
        if x < 0x1_0000_0000_0000_0000 {
            assert(x / 2 < 0x8000_0000_0000_0000);
            lemma_excess_bound(x / 2, 10);
        }
    }
}

proof fn lemma_excess_bound(x: nat, t: nat)
    requires
        x < 0x20_0000_0000_0000 * pow2(t),
    ensures
        excess(x) <= t,
    decreases x,
{
    lemma2_to64();
    if x >= 0x20_0000_0000_0000 {
        if t == 0 {
            assert(false);
        } else {
            lemma_pow2_unfold(t);
            assert(x / 2 < 0x20_0000_0000_0000 * pow2((t - 1) as nat)) by (nonlinear_arith)
                requires
                    x < 0x20_0000_0000_0000 * pow2(t),
                    pow2(t) == 2 * pow2((t - 1) as nat),
            ;
            lemma_excess_bound(x / 2, (t - 1) as nat);
        }
    }
}

/// A count's float value is at most 2^64, and never `u64::MAX`: values
/// above 2^53 are even.
proof fn lemma_float_value_range(x: u64)
    ensures
        float_value(x as nat) <= 0x1_0000_0000_0000_0000,
        float_value(x as nat) != u64::MAX,
{
    lemma2_to64();
    lemma_excess(x as nat);
    let e = excess(x as nat);
    let p = pow2(e);
    lemma_pow2_pos(e);
    let q = (x as nat) / p;
    if e == 0 {
        assert(p == 1);
        assert(float_value(x as nat) == q * p);
        assert(q == x) by (nonlinear_arith)
            requires
                p == 1,
                q == (x as nat) / p,
        ;
    } else {
        if e < 11 {
            lemma_pow2_strictly_increases(e, 11);
        }
        assert(pow2(11) == 0x800) by {
            lemma2_to64();
        }
        lemma_pow2_unfold(e);
        let h = pow2((e - 1) as nat);
        assert(p <= 0x800);
        assert(q < 0x20_0000_0000_0000);
        let v = float_value(x as nat);
        assert(v == q * p || v == (q + 1) * p);
        assert(v <= 0x1_0000_0000_0000_0000) by (nonlinear_arith)
            requires
                v == q * p || v == (q + 1) * p,
                q < 0x20_0000_0000_0000,
                p <= 0x800,
        ;
        let c: int = if v == q * p { (q * h) as int } else { ((q + 1) * h) as int };
        assert(v == c * 2) by (nonlinear_arith)
            requires
                v == q * p || v == (q + 1) * p,
                p == 2 * h,
                c == if v == q * p { q * h } else { (q + 1) * h },
        ;
        vstd::arithmetic::div_mod::lemma_mod_multiples_basic(c, 2);
    }
}

/// Counts compared as floats: a count ranks below another exactly when
/// its float value is smaller, and counts with one float value tie.
pub proof fn law_counts_rank_by_float_value(a: u64, b: u64)
    ensures
        spec_count_rank(a) < spec_count_rank(b) <==> float_value(a as nat) < float_value(b as nat),
        spec_count_rank(a) == spec_count_rank(b) <==> float_value(a as nat) == float_value(b as nat),
        a <= 0x20_0000_0000_0000 ==> float_value(a as nat) == a,
{
    lemma_float_value_range(a);
    lemma_float_value_range(b);
    if a <= 0x20_0000_0000_0000 {
        if a < 0x20_0000_0000_0000 {
            assert(excess(a as nat) == 0);
        } else {
            assert(excess((a / 2) as nat) == 0);
            lemma_excess_step(a as nat);
        }
        lemma2_to64();
        lemma_pow2_unfold(1);
    }
}

/// The rank of the count `x` compared as a float.
pub fn count_rank(x: u64) -> (r: u64)
    ensures
        r == spec_count_rank(x),
{
    proof {
        lemma2_to64();
        lemma_excess(x as nat);
        lemma_float_value_range(x);
    }
    let mut y: u64 = x;
    let mut p: u64 = 1;
    let ghost mut s: nat = 0;
    while y >= 0x20_0000_0000_0000
        invariant
            p == pow2(s),
            y == (x as nat) / (p as nat),
            excess(x as nat) == s + excess(y as nat),
            s <= 11,
            excess(x as nat) <= 11,
        decreases y,
    {
        proof {
            lemma2_to64();
            lemma_excess_step(y as nat);
            lemma_pow2_unfold(s + 1);
            lemma_pow2_pos(s);
            vstd::arithmetic::div_mod::lemma_div_denominator(x as int, p as int, 2);
            if s < 11 {
                lemma_pow2_strictly_increases(s, 11);
            }
        }
        assert(excess(y as nat) > 0);
        assert(p <= 0x800);
        y = y / 2;
        p = p * 2;
        proof {
            s = s + 1;
        }
    }
    assert(excess(y as nat) == 0);
    let q = y;
    let r = x % p;
    let up = p > 1 && (r > p / 2 || (r == p / 2 && q % 2 == 1));
    let q2: u128 = if up { q as u128 + 1 } else { q as u128 };
    assert(q2 * (p as u128) <= 0x1_0000_0000_0000_0000) by {
        assert(float_value(x as nat) == q2 * p);
    }
    let v: u128 = q2 * (p as u128);
    if v > 0xffff_ffff_ffff_ffff {
        u64::MAX
    } else {
        v as u64
    }
}

} // verus!
