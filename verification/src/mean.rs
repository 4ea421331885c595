//! The mean of a window of samples, kept as an exact fraction.

use vstd::prelude::*;
use vstd::std_specs::cmp::PartialEqSpecImpl;

verus! {

/// The arithmetic mean of `samples` usage samples whose sum is `total`.
///
/// The fraction is not reduced and never rounded: two means are compared by
/// cross-multiplication. A mean of no samples at all is undefined; it is equal
/// to nothing, not even to itself.
#[derive(Clone, Copy, Debug)]
pub struct MeanUsage {
    pub total: u128,
    pub samples: usize,
}

/// `total / samples >= other_total / other_samples`, decided on quotients and
/// remainders so that no product leaves 128 bits.
proof fn lemma_fraction_order(a: int, sa: int, b: int, sb: int)
    requires
        0 <= a,
        0 <= b,
        0 < sa,
        0 < sb,
    ensures
        a * sb >= b * sa <==> (a / sa > b / sb || (a / sa == b / sb && (a % sa) * sb >= (b % sb)
            * sa)),
        a * sb == b * sa <==> (a / sa == b / sb && (a % sa) * sb == (b % sb) * sa),
{
    let qa = a / sa;
    let ra = a % sa;
    let qb = b / sb;
    let rb = b % sb;
    vstd::arithmetic::div_mod::lemma_fundamental_div_mod(a, sa);
    vstd::arithmetic::div_mod::lemma_fundamental_div_mod(b, sb);
    vstd::arithmetic::div_mod::lemma_mod_bound(a, sa);
    vstd::arithmetic::div_mod::lemma_mod_bound(b, sb);
    assert(a * sb == qa * (sa * sb) + ra * sb) by (nonlinear_arith)
        requires
            a == sa * qa + ra,
    ;
    assert(b * sa == qb * (sa * sb) + rb * sa) by (nonlinear_arith)
        requires
            b == sb * qb + rb,
    ;
    assert(0 <= ra * sb < sa * sb) by (nonlinear_arith)
        requires
            0 <= ra < sa,
            0 < sb,
    ;
    assert(0 <= rb * sa < sa * sb) by (nonlinear_arith)
        requires
            0 <= rb < sb,
            0 < sa,
    ;
    if qa > qb {
        assert(qa * (sa * sb) >= qb * (sa * sb) + sa * sb) by (nonlinear_arith)
            requires
                qa >= qb + 1,
                sa * sb > 0,
        ;
    }
    if qa < qb {
        assert(qb * (sa * sb) >= qa * (sa * sb) + sa * sb) by (nonlinear_arith)
            requires
                qb >= qa + 1,
                sa * sb > 0,
        ;
    }
}

proof fn lemma_remainder_product(r: int, s: int, t: int)
    requires
        0 <= r < s <= u64::MAX,
        0 <= t <= u64::MAX,
    ensures
        0 <= r * t <= u128::MAX,
{
    assert(0 <= r * t <= u64::MAX * u64::MAX) by (nonlinear_arith)
        requires
            0 <= r <= u64::MAX,
            0 <= t <= u64::MAX,
    ;
}

/// Of two means, one is at least as large as the other.
pub proof fn lemma_at_least_total(a: MeanUsage, b: MeanUsage)
    ensures
        a.at_least(b) || b.at_least(a),
{
}

/// The order of means is transitive.
pub proof fn lemma_at_least_transitive(a: MeanUsage, b: MeanUsage, c: MeanUsage)
    requires
        b.is_defined(),
        a.at_least(b),
        b.at_least(c),
    ensures
        a.at_least(c),
{
    let (ta, sa) = (a.total as int, a.samples as int);
    let (tb, sb) = (b.total as int, b.samples as int);
    let (tc, sc) = (c.total as int, c.samples as int);
    assert((ta * sb) * sc >= (tb * sa) * sc) by (nonlinear_arith)
        requires
            ta * sb >= tb * sa,
            sc >= 0,
    ;
    assert((tb * sc) * sa >= (tc * sb) * sa) by (nonlinear_arith)
        requires
            tb * sc >= tc * sb,
            sa >= 0,
    ;
    assert((tb * sa) * sc == (tb * sc) * sa) by (nonlinear_arith);
    assert((ta * sb) * sc == sb * (ta * sc)) by (nonlinear_arith);
    assert((tc * sb) * sa == sb * (tc * sa)) by (nonlinear_arith);
    assert(ta * sc >= tc * sa) by (nonlinear_arith)
        requires
            sb * (ta * sc) >= sb * (tc * sa),
            sb > 0,
    ;
}

impl MeanUsage {
    /// A mean exists only of at least one sample.
    pub open spec fn is_defined(self) -> bool {
        self.samples > 0
    }

    /// `self` is at least as large as `other`, as fractions.
    pub open spec fn at_least(self, other: MeanUsage) -> bool {
        self.total * other.samples >= other.total * self.samples
    }

    /// `self` and `other` are the same fraction.
    pub open spec fn same_value(self, other: MeanUsage) -> bool {
        self.total * other.samples == other.total * self.samples
    }

    /// The mean in whole units, rounded to the nearest; a tie goes to the even
    /// neighbour.
    pub open spec fn rounded(self) -> int
        recommends
            self.is_defined(),
    {
        let q = self.total / (self.samples as u128);
        let r = self.total % (self.samples as u128);
        if 2 * r > self.samples || (2 * r == self.samples && q % 2 == 1) {
            q + 1
        } else {
            q as int
        }
    }

    /// The mean of the single sample `value`.
    pub fn whole(value: u64) -> (m: MeanUsage)
        ensures
            m == (MeanUsage { total: value as u128, samples: 1 }),
    {
        MeanUsage { total: value as u128, samples: 1 }
    }

    /// Decides `self >= other`.
    pub fn is_at_least(&self, other: &MeanUsage) -> (b: bool)
        requires
            self.is_defined(),
            other.is_defined(),
        ensures
            b == self.at_least(*other),
    {
        let sa: u128 = self.samples as u128;
        let sb: u128 = other.samples as u128;
        let qa: u128 = self.total / sa;
        let ra: u128 = self.total % sa;
        let qb: u128 = other.total / sb;
        let rb: u128 = other.total % sb;
        proof {
            lemma_fraction_order(self.total as int, sa as int, other.total as int, sb as int);
            lemma_remainder_product(ra as int, sa as int, sb as int);
            lemma_remainder_product(rb as int, sb as int, sa as int);
        }
        if qa != qb {
            qa > qb
        } else {
            ra * sb >= rb * sa
        }
    }

    /// Computes `rounded`.
    pub fn round(&self) -> (r: u128)
        requires
            self.is_defined(),
        ensures
            r == self.rounded(),
    {
        let s: u128 = self.samples as u128;
        let q: u128 = self.total / s;
        let r: u128 = self.total % s;
        // `r >= s - r` is `2 * r >= s` without the doubling
        let up: bool = r > s - r || (r == s - r && q % 2 == 1);
        if up {
            proof {
                // a quotient at the top of the range leaves no remainder
                vstd::arithmetic::div_mod::lemma_fundamental_div_mod(self.total as int, s as int);
                assert(q < u128::MAX) by (nonlinear_arith)
                    requires
                        self.total == s * q + r,
                        r > 0,
                        s >= 1,
                        self.total <= u128::MAX,
                        q >= 0,
                ;
            }
            q + 1
        } else {
            q
        }
    }
}

impl PartialEq for MeanUsage {
    fn eq(&self, other: &MeanUsage) -> (b: bool) {
        if self.samples == 0 || other.samples == 0 {
            return false;
        }
        let sa: u128 = self.samples as u128;
        let sb: u128 = other.samples as u128;
        let ra: u128 = self.total % sa;
        let rb: u128 = other.total % sb;
        proof {
            lemma_fraction_order(self.total as int, sa as int, other.total as int, sb as int);
            lemma_remainder_product(ra as int, sa as int, sb as int);
            lemma_remainder_product(rb as int, sb as int, sa as int);
        }
        self.total / sa == other.total / sb && ra * sb == rb * sa
    }
}

impl PartialEqSpecImpl for MeanUsage {
    open spec fn obeys_eq_spec() -> bool {
        true
    }

    open spec fn eq_spec(&self, other: &MeanUsage) -> bool {
        self.is_defined() && other.is_defined() && self.same_value(*other)
    }
}

} // verus!
