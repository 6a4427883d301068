//! Exact decimal scalars.
//!
//! A `Dec` stands for the rational number `(-1)^neg * mantissa / 10^frac`.
//! Cell files write scalars as plain decimal literals, so every value a file
//! can hold is represented exactly; halving a cuboid extent is exact as well.

use vstd::prelude::*;

use crate::bytes::pow10;

verus! {

/// Largest mantissa the parser accepts: fifteen digits.
pub const DEC_PARSE_MAX: u64 = 999_999_999_999_999;

/// An exact decimal scalar: `(-1)^neg * mantissa / 10^frac`.
#[derive(Clone, Copy, Debug, PartialEq, Eq, Structural)]
pub struct Dec {
    pub neg: bool,
    pub mantissa: u64,
    pub frac: u32,
}

impl Dec {
    /// The signed integer numerator `(-1)^neg * mantissa`.
    pub open spec fn num(self) -> int {
        if self.neg {
            -(self.mantissa as int)
        } else {
            self.mantissa as int
        }
    }

    /// Mantissa and fraction width small enough that halving stays exact in
    /// 64 bits (a machine bound, not part of the file format's meaning).
    pub open spec fn bounded(self) -> bool {
        self.mantissa <= 5 * (DEC_PARSE_MAX as int) && self.frac <= 16
    }

    /// Canonical form: no trailing zero in the fraction, no negative zero.
    /// The serializer emits canonical scalars and the parser returns them, so
    /// equal values have equal representations.
    pub open spec fn canonical(self) -> bool {
        &&& (self.frac > 0 ==> self.mantissa % 10 != 0)
        &&& (self.mantissa == 0 ==> self.frac == 0 && !self.neg)
    }

    /// What the parser guarantees: canonical, with the parse-time bounds.
    pub open spec fn wf(self) -> bool {
        &&& self.canonical()
        &&& self.mantissa <= DEC_PARSE_MAX
        &&& self.frac <= 15
    }

    /// Both scalars stand for the same rational number.
    pub open spec fn same_value(self, other: Dec) -> bool {
        self.num() * pow10(other.frac as nat) == other.num() * pow10(self.frac as nat)
    }

    /// `self` is exactly half of `other`.
    pub open spec fn is_half_of(self, other: Dec) -> bool {
        2 * self.num() * pow10(other.frac as nat) == other.num() * pow10(self.frac as nat)
    }

    /// The scalar one, the default scale of a cell.
    pub fn one() -> (r: Dec)
        ensures
            r == (Dec { neg: false, mantissa: 1, frac: 0 }),
    {
        Dec { neg: false, mantissa: 1, frac: 0 }
    }

    /// Exact halving: an even mantissa is divided, an odd one is widened by
    /// one fraction digit first.  This is how cuboid full extents become half
    /// extents.
    pub fn halve(self) -> (r: Dec)
        requires
            self.wf(),
        ensures
            r == spec_halve(self),
            r.is_half_of(self),
            r.bounded(),
    {
        proof {
            lemma_halve_exact(self);
        }
        if self.mantissa % 2 == 0 {
            Dec { neg: self.neg, mantissa: self.mantissa / 2, frac: self.frac }
        } else {
            Dec { neg: self.neg, mantissa: self.mantissa * 5, frac: self.frac + 1 }
        }
    }
}

pub open spec fn spec_halve(d: Dec) -> Dec {
    if d.mantissa % 2 == 0 {
        Dec { neg: d.neg, mantissa: (d.mantissa / 2) as u64, frac: d.frac }
    } else {
        Dec { neg: d.neg, mantissa: (d.mantissa * 5) as u64, frac: (d.frac + 1) as u32 }
    }
}

/// `(k * a) * b` regrouped both ways.
proof fn lemma_mul_shift(k: int, a: int, b: int)
    by (nonlinear_arith)
    ensures
        (k * a) * b == k * (a * b),
        (k * a) * b == a * (k * b),
{
}

proof fn lemma_double_of_five(a: int, p: int)
    by (nonlinear_arith)
    ensures
        2 * (a * 5) * p == a * (10 * p),
{
}

/// Halving a well-formed scalar is exact: twice the result is the argument.
pub proof fn lemma_halve_exact(d: Dec)
    requires
        d.wf(),
    ensures
        spec_halve(d).is_half_of(d),
        spec_halve(d).bounded(),
{
    let h = spec_halve(d);
    let p = pow10(d.frac as nat);
    if d.mantissa % 2 == 0 {
        assert(2 * (d.mantissa / 2) == d.mantissa);
        assert(2 * h.num() == d.num());
    } else {
        assert(pow10((d.frac + 1) as nat) == 10 * p);
        assert(h.num() == d.num() * 5);
        lemma_double_of_five(d.num(), p as int);
    }
}

/// Strip trailing fraction zeros and normalize zero itself: the canonical
/// form of `(-1)^neg * m / 10^f`.
pub open spec fn spec_canon(neg: bool, m: u64, f: u32) -> Dec
    decreases f,
{
    if m == 0 {
        Dec { neg: false, mantissa: 0, frac: 0 }
    } else if f > 0 && m % 10 == 0 {
        spec_canon(neg, (m / 10) as u64, (f - 1) as u32)
    } else {
        Dec { neg, mantissa: m, frac: f }
    }
}

pub proof fn lemma_canon_canonical(neg: bool, m: u64, f: u32)
    ensures
        spec_canon(neg, m, f).canonical(),
        spec_canon(neg, m, f).mantissa <= m,
        spec_canon(neg, m, f).frac <= f,
    decreases f,
{
    if m != 0 && f > 0 && m % 10 == 0 {
        lemma_canon_canonical(neg, (m / 10) as u64, (f - 1) as u32);
    }
}

/// A scalar already in canonical form is its own canonicalization.
pub proof fn lemma_canon_of_canonical(d: Dec)
    requires
        d.canonical(),
    ensures
        spec_canon(d.neg, d.mantissa, d.frac) == d,
{
}

/// The canonicalization loop, run at parse time.
pub fn canonize(neg: bool, m: u64, f: u32) -> (r: Dec)
    ensures
        r == spec_canon(neg, m, f),
{
    if m == 0 {
        return Dec { neg: false, mantissa: 0, frac: 0 };
    }
    let mut m2 = m;
    let mut f2 = f;
    while f2 > 0 && m2 % 10 == 0
        invariant
            m2 > 0,
            spec_canon(neg, m2, f2) == spec_canon(neg, m, f),
        decreases f2,
    {
        m2 = m2 / 10;
        f2 = f2 - 1;
        proof {
            assert(m2 > 0);
        }
    }
    Dec { neg, mantissa: m2, frac: f2 }
}

} // verus!
