//! A unit-interval scalar, stored in fixed point.
//!
//! Envelope intensities and color channels live on the closed interval
//! [0, 1].  They are represented here as an integer number of thousandths,
//! so the value `v` stands for the real number `v / 1000`.
use vstd::prelude::*;

verus! {

/// Number of fixed-point steps that make up the value one.
pub const SCALE: u64 = 1000;

/// A scalar on the unit interval, in thousandths: 0 means 0.0, `SCALE`
/// means 1.0.  Constructors clamp, so every `Unipolar` value is in range.
#[derive(Clone, Copy, Debug, PartialEq, Eq, Structural)]
pub struct Unipolar {
    value: u64,
}

impl View for Unipolar {
    type V = int;

    closed spec fn view(&self) -> int {
        self.value as int
    }
}

impl Unipolar {
    /// Every `Unipolar` value carries this bound, by construction.
    #[verifier::type_invariant]
    pub open spec fn in_range(self) -> bool {
        0 <= self@ <= SCALE as int
    }

    /// The value `v` clamped to the unit interval, as a spec-level
    /// constructor: out-of-range arguments saturate at the nearest bound.
    pub closed spec fn from_int(v: int) -> Unipolar {
        Unipolar {
            value: if v < 0 {
                0u64
            } else if v > SCALE {
                SCALE
            } else {
                v as u64
            },
        }
    }

    /// Construct from a count of thousandths, clamping to the unit interval.
    pub fn new(value: u64) -> (r: Unipolar)
        ensures
            r@ == if value <= SCALE {
                value as int
            } else {
                SCALE as int
            },
    {
        Unipolar { value: if value <= SCALE { value } else { SCALE } }
    }

    /// Zero: fully dark / fully off.
    pub fn zero() -> (r: Unipolar)
        ensures
            r@ == 0,
    {
        Unipolar { value: 0 }
    }

    /// One: full scale.
    pub fn one() -> (r: Unipolar)
        ensures
            r@ == SCALE as int,
    {
        Unipolar { value: SCALE }
    }

    /// The underlying count of thousandths.
    pub fn value(self) -> (r: u64)
        ensures
            r as int == self@,
    {
        self.value
    }

    /// Fixed-point product: the result stands for the product of the two
    /// real numbers the operands stand for, rounded down.
    pub fn scale_by(self, other: Unipolar) -> (r: Unipolar)
        ensures
            r@ == self@ * other@ / (SCALE as int),
    {
        proof {
            use_type_invariant(self);
            use_type_invariant(other);
            lemma_unit_product_bounded(self@, other@);
        }
        Unipolar { value: self.value * other.value / SCALE }
    }

    /// Fixed-point sum, clamped at full scale.
    pub fn add_clamped(self, other: Unipolar) -> (r: Unipolar)
        ensures
            r@ == if self@ + other@ <= SCALE as int {
                self@ + other@
            } else {
                SCALE as int
            },
    {
        proof {
            use_type_invariant(self);
            use_type_invariant(other);
        }
        let sum = self.value + other.value;
        Unipolar { value: if sum <= SCALE { sum } else { SCALE } }
    }

    /// The complementary value: one minus self.
    pub fn invert(self) -> (r: Unipolar)
        ensures
            r@ == SCALE as int - self@,
    {
        proof {
            use_type_invariant(self);
        }
        Unipolar { value: SCALE - self.value }
    }
}

/// Two scalars standing for the same number are the same scalar.
pub proof fn lemma_view_injective(a: Unipolar, b: Unipolar)
    requires
        a@ == b@,
    ensures
        a == b,
{
}

/// On the unit interval, `from_int` stands for exactly its argument.
pub proof fn lemma_from_int_val(v: int)
    requires
        0 <= v <= SCALE as int,
    ensures
        Unipolar::from_int(v)@ == v,
        Unipolar::from_int(v).in_range(),
{
}

/// `from_int` is exact on the unit interval: it rebuilds the value a scalar
/// stands for.
pub proof fn lemma_from_int_exact(u: Unipolar, v: int)
    requires
        0 <= v <= SCALE as int,
        u@ == v,
    ensures
        Unipolar::from_int(v) == u,
{
}

/// A product of two in-range values, divided by `SCALE`, is in range.
pub proof fn lemma_unit_product_bounded(a: int, b: int)
    requires
        0 <= a <= SCALE as int,
        0 <= b <= SCALE as int,
    ensures
        0 <= a * b / (SCALE as int) <= b,
        a * b / (SCALE as int) <= SCALE as int,
{
    assert(a * b <= SCALE * b) by (nonlinear_arith)
        requires
            0 <= a <= SCALE as int,
            0 <= b,
    ;
    assert(a * b >= 0) by (nonlinear_arith)
        requires
            0 <= a,
            0 <= b,
    ;
    vstd::arithmetic::div_mod::lemma_div_is_ordered(a * b, SCALE * b, SCALE as int);
    vstd::arithmetic::div_mod::lemma_div_by_multiple(b, SCALE as int);
    vstd::arithmetic::div_mod::lemma_div_pos_is_pos(a * b, SCALE as int);
}

} // verus!
