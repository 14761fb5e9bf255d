//! The color abstraction and its interpolation algebra.
//!
//! A `Color` is any color space offering a black value, brightness scaling
//! by an envelope intensity, and the asymmetric weighted blend used to fold
//! overlapping events (see `weighted_interpolation`).
//!
//! The concrete space here is HSLuv-like: a cyclic hue, a unit-interval
//! saturation, and a unit-interval lightness.  Hue and saturation are
//! carried jointly as their rectangular chroma point — the plane point
//! `(saturation * cos(hue turn), saturation * sin(hue turn))`, in
//! fixed-point thousandths.  Blending hue directly would misbehave across
//! the 0/1 wraparound; blending the chroma point linearly does not, so the
//! point is the form every blend consumes, and the polar form is recovered
//! only at the display edge.  The point of a real color lies in the unit
//! disk; the type carries it in the enclosing unit box, which the blend
//! preserves.
use vstd::prelude::*;

use crate::unipolar::Unipolar;
use crate::unipolar::SCALE;

verus! {

/// A trait for a color in a particular color space.
pub trait Color: Sized + Copy {
    /// The space's identity value: black, fully dark.
    spec fn black_spec() -> Self;

    /// What scaling brightness by an envelope intensity yields.
    spec fn with_envelope_spec(self, envelope: Unipolar) -> Self;

    /// What the weighted blend of another color into this one yields.
    spec fn weighted_interpolation_spec(self, target: Self, alpha: Unipolar) -> Self;

    /// Return the space's black value.
    fn black() -> (r: Self)
        ensures
            r == Self::black_spec(),
    ;

    /// Return this color scaled in brightness by the given intensity.
    fn with_envelope(&self, envelope: Unipolar) -> (r: Self)
        ensures
            r == self.with_envelope_spec(envelope),
    ;

    /// Perform a weighted interpolation towards another color.
    /// The details of the interpolation are left up to the color space;
    /// `alpha` scales how strongly the target contributes.
    fn weighted_interpolation(&self, target: &Self, alpha: Unipolar) -> (r: Self)
        ensures
            r == self.weighted_interpolation_spec(*target, alpha),
    ;

    /// Return the color with the given envelope applied: a closed envelope
    /// contributes black.
    fn enveloped(&self, envelope: Option<Unipolar>) -> (r: Self)
        ensures
            r == match envelope {
                Some(e) => self.with_envelope_spec(e),
                None => Self::black_spec(),
            },
    {
        match envelope {
            Some(e) => self.with_envelope(e),
            None => Self::black(),
        }
    }
}

/// What applying an optional envelope intensity to a color yields: a closed
/// envelope contributes black.
pub open spec fn enveloped_spec<C: Color>(color: C, envelope: Option<Unipolar>) -> C {
    match envelope {
        Some(e) => color.with_envelope_spec(e),
        None => C::black_spec(),
    }
}

/// A color in the HSLuv space: a lightness plus the rectangular chroma
/// point standing for hue and saturation.
#[derive(Clone, Copy, Debug, PartialEq, Eq)]
pub struct HsluvColor {
    /// First chroma coordinate, in thousandths: saturation * cos(hue turn).
    chroma_x: i64,
    /// Second chroma coordinate, in thousandths: saturation * sin(hue turn).
    chroma_y: i64,
    /// Lightness on the unit interval.
    lightness: Unipolar,
}

impl HsluvColor {
    /// Chroma coordinates never leave the unit box.
    #[verifier::type_invariant]
    pub open spec fn in_gamut(self) -> bool {
        &&& -(SCALE as int) <= self.spec_x() <= SCALE as int
        &&& -(SCALE as int) <= self.spec_y() <= SCALE as int
    }

    /// The first chroma coordinate, in thousandths.
    pub closed spec fn spec_x(self) -> int {
        self.chroma_x as int
    }

    /// The second chroma coordinate, in thousandths.
    pub closed spec fn spec_y(self) -> int {
        self.chroma_y as int
    }

    /// The lightness scalar.
    pub closed spec fn spec_lightness(self) -> Unipolar {
        self.lightness
    }

    /// Construct a color from its chroma point and lightness, clamping the
    /// coordinates into the unit box.
    pub fn new(chroma_x: i64, chroma_y: i64, lightness: Unipolar) -> (r: HsluvColor)
        ensures
            r.spec_x() == clamp_coord(chroma_x as int),
            r.spec_y() == clamp_coord(chroma_y as int),
            r.spec_lightness() == lightness,
    {
        HsluvColor { chroma_x: clamp(chroma_x), chroma_y: clamp(chroma_y), lightness }
    }

    /// The chroma point standing for hue and saturation, in rectangular
    /// coordinates.
    pub fn rect(&self) -> (r: (i64, i64))
        ensures
            r.0 as int == self.spec_x(),
            r.1 as int == self.spec_y(),
    {
        (self.chroma_x, self.chroma_y)
    }

    /// The lightness scalar.
    pub fn lightness(&self) -> (r: Unipolar)
        ensures
            r == self.spec_lightness(),
    {
        self.lightness
    }
}

/// A coordinate clamped into the unit box.
pub open spec fn clamp_coord(v: int) -> int {
    if v < -(SCALE as int) {
        -(SCALE as int)
    } else if v > SCALE as int {
        SCALE as int
    } else {
        v
    }
}

fn clamp(v: i64) -> (r: i64)
    ensures
        r as int == clamp_coord(v as int),
{
    let bound = SCALE as i64;
    if v < -bound {
        -bound
    } else if v > bound {
        bound
    } else {
        v
    }
}

impl Default for HsluvColor {
    /// Black: zero lightness at full saturation, hue zero.
    fn default() -> (r: HsluvColor)
        ensures
            r == HsluvColor::black_spec(),
    {
        HsluvColor::black()
    }
}

/// Division truncated towards zero, matching machine division on signed
/// values.
pub open spec fn tdiv(a: int, d: int) -> int
    recommends
        d > 0,
{
    if a >= 0 {
        a / d
    } else {
        -((-a) / d)
    }
}

/// Linear interpolation between two coordinates: `alpha` of full scale
/// selects `v_new`, the rest selects `v_old`.
pub open spec fn lerp_int(v_old: int, v_new: int, alpha: int) -> int {
    tdiv(alpha * v_new + (SCALE as int - alpha) * v_old, SCALE as int)
}

/// Linear interpolation.
fn lerp(v_old: i64, v_new: i64, alpha: u64) -> (r: i64)
    requires
        -(SCALE as int) <= v_old as int <= SCALE as int,
        -(SCALE as int) <= v_new as int <= SCALE as int,
        alpha <= SCALE,
    ensures
        r as int == lerp_int(v_old as int, v_new as int, alpha as int),
        -(SCALE as int) <= r as int <= SCALE as int,
{
    proof {
        lemma_lerp_bounds(v_old as int, v_new as int, alpha as int);
    }
    let n: i64 = (alpha as i64) * v_new + ((SCALE - alpha) as i64) * v_old;
    if n >= 0 {
        ((n as u64) / SCALE) as i64
    } else {
        -((((-n) as u64) / SCALE) as i64)
    }
}

/// The numerator of a unit-box interpolation stays within `SCALE` times the
/// unit box, so the quotient stays within the box.
proof fn lemma_lerp_bounds(v_old: int, v_new: int, alpha: int)
    requires
        -(SCALE as int) <= v_old <= SCALE as int,
        -(SCALE as int) <= v_new <= SCALE as int,
        0 <= alpha <= SCALE as int,
    ensures
        -(SCALE as int) * (SCALE as int) <= alpha * v_new <= (SCALE as int) * (SCALE as int),
        -(SCALE as int) * (SCALE as int) <= (SCALE as int - alpha) * v_old <= (SCALE as int) * (
        SCALE as int),
        -(SCALE as int) * (SCALE as int) <= alpha * v_new + (SCALE as int - alpha) * v_old <= (
        SCALE as int) * (SCALE as int),
        -(SCALE as int) <= lerp_int(v_old, v_new, alpha) <= SCALE as int,
{
    let s = SCALE as int;
    assert(-s * s <= alpha * v_new <= s * s && -s * s <= (s - alpha) * v_old <= s * s && -s * s
        <= alpha * v_new + (s - alpha) * v_old <= s * s) by (nonlinear_arith)
        requires
            -s <= v_old <= s,
            -s <= v_new <= s,
            0 <= alpha <= s,
            s == SCALE as int,
    ;
    let n = alpha * v_new + (s - alpha) * v_old;
    if n >= 0 {
        vstd::arithmetic::div_mod::lemma_div_is_ordered(n, s * s, s);
        vstd::arithmetic::div_mod::lemma_div_by_multiple(s, s);
        vstd::arithmetic::div_mod::lemma_div_pos_is_pos(n, s);
        assert(s * s == s * s);
    } else {
        vstd::arithmetic::div_mod::lemma_div_is_ordered(-n, s * s, s);
        vstd::arithmetic::div_mod::lemma_div_by_multiple(s, s);
        vstd::arithmetic::div_mod::lemma_div_pos_is_pos(-n, s);
    }
}

impl Color for HsluvColor {
    /// Black: zero lightness, full saturation at hue zero, so the chroma
    /// point sits on the positive first axis.
    closed spec fn black_spec() -> HsluvColor {
        HsluvColor { chroma_x: SCALE as i64, chroma_y: 0, lightness: Unipolar::from_int(0) }
    }

    /// Scaling by an envelope multiplies lightness only; the chroma point —
    /// and with it hue and saturation — is untouched.
    closed spec fn with_envelope_spec(self, envelope: Unipolar) -> HsluvColor {
        HsluvColor {
            lightness: Unipolar::from_int(self.lightness@ * envelope@ / (SCALE as int)),
            ..self
        }
    }

    /// The asymmetric blend: the target's lightness, attenuated by `alpha`,
    /// is added onto this color's own (which this call never attenuates);
    /// the chroma points are interpolated with this color's share of the
    /// blended lightness as its weight.
    closed spec fn weighted_interpolation_spec(self, target: HsluvColor, alpha: Unipolar) -> HsluvColor {
        let s = SCALE as int;
        let contributed = target.lightness@ * alpha@ / s;
        let blended = if self.lightness@ + contributed <= s {
            self.lightness@ + contributed
        } else {
            s
        };
        let share = if blended == 0 {
            s
        } else {
            self.lightness@ * s / blended
        };
        HsluvColor {
            chroma_x: lerp_int(target.spec_x(), self.spec_x(), share) as i64,
            chroma_y: lerp_int(target.spec_y(), self.spec_y(), share) as i64,
            lightness: Unipolar::from_int(blended),
        }
    }

    fn black() -> (r: HsluvColor) {
        let dark = Unipolar::zero();
        proof {
            crate::unipolar::lemma_from_int_exact(dark, 0);
        }
        HsluvColor { chroma_x: SCALE as i64, chroma_y: 0, lightness: dark }
    }

    fn with_envelope(&self, envelope: Unipolar) -> (r: HsluvColor) {
        proof {
            use_type_invariant(*self);
        }
        let scaled = self.lightness.scale_by(envelope);
        proof {
            use_type_invariant(scaled);
            crate::unipolar::lemma_from_int_exact(scaled, scaled@);
        }
        HsluvColor { chroma_x: self.chroma_x, chroma_y: self.chroma_y, lightness: scaled }
    }

    fn weighted_interpolation(&self, target: &HsluvColor, alpha: Unipolar) -> (r: HsluvColor) {
        proof {
            use_type_invariant(*self);
            use_type_invariant(*target);
            use_type_invariant(self.lightness);
            use_type_invariant(alpha);
        }
        // The incoming color's lightness comes through scaled by alpha; our
        // own lightness is left whole and the two add (clamped): the newer
        // event borrows from the older one without dimming it.
        let contributed = target.lightness.scale_by(alpha);
        let blended = self.lightness.add_clamped(contributed);
        proof {
            use_type_invariant(contributed);
            use_type_invariant(blended);
            crate::unipolar::lemma_from_int_exact(blended, blended@);
        }
        // Our share of the blended lightness weights the chroma blend.
        let share: u64 = if blended.value() == 0 {
            SCALE
        } else {
            proof {
                lemma_share_in_range(self.lightness@, blended@);
            }
            self.lightness.value() * SCALE / blended.value()
        };
        // Interpolate the chroma in rectangular coordinates.
        let (x_current, y_current) = self.rect();
        let (x_target, y_target) = target.rect();
        let x = lerp(x_target, x_current, share);
        let y = lerp(y_target, y_current, share);
        HsluvColor { chroma_x: x, chroma_y: y, lightness: blended }
    }
}

/// A lightness share of a blend it contributes to is at most full scale.
proof fn lemma_share_in_range(own: int, blended: int)
    requires
        0 <= own <= blended,
        blended > 0,
    ensures
        0 <= own * (SCALE as int) / blended <= SCALE as int,
{
    let s = SCALE as int;
    assert(own * s <= blended * s) by (nonlinear_arith)
        requires
            0 <= own <= blended,
            s >= 0,
    ;
    vstd::arithmetic::div_mod::lemma_div_is_ordered(own * s, blended * s, blended);
    vstd::arithmetic::div_mod::lemma_div_by_multiple(s, blended);
    vstd::arithmetic::div_mod::lemma_div_pos_is_pos(own * s, blended);
}

/// What black is made of: zero lightness, with the chroma point of full
/// saturation at hue zero.
pub proof fn lemma_black_components()
    ensures
        HsluvColor::black_spec().spec_lightness()@ == 0,
        HsluvColor::black_spec().spec_x() == SCALE as int,
        HsluvColor::black_spec().spec_y() == 0,
{
    crate::unipolar::lemma_from_int_val(0);
}

/// Scaling by an envelope multiplies the lightness and nothing else: the
/// chroma point — and with it hue and saturation — is exactly preserved.
pub proof fn lemma_with_envelope_components(c: HsluvColor, envelope: Unipolar)
    requires
        c.spec_lightness().in_range(),
        envelope.in_range(),
    ensures
        c.with_envelope_spec(envelope).spec_x() == c.spec_x(),
        c.with_envelope_spec(envelope).spec_y() == c.spec_y(),
        c.with_envelope_spec(envelope).spec_lightness()@ == c.spec_lightness()@ * envelope@ / (
        SCALE as int),
{
    crate::unipolar::lemma_unit_product_bounded(c.spec_lightness()@, envelope@);
    crate::unipolar::lemma_from_int_val(c.spec_lightness()@ * envelope@ / (SCALE as int));
}

/// The blend equations: the target's lightness, attenuated by `alpha`, is
/// added onto this color's own lightness (clamped at full scale, never
/// attenuating self); the chroma point is the two points interpolated with
/// this color's share of the blended lightness as its weight (all of it
/// when the blend is fully dark).
pub proof fn lemma_weighted_interpolation_components(
    c: HsluvColor,
    target: HsluvColor,
    alpha: Unipolar,
)
    requires
        c.in_gamut(),
        target.in_gamut(),
        c.spec_lightness().in_range(),
        target.spec_lightness().in_range(),
        alpha.in_range(),
    ensures
        ({
            let s = SCALE as int;
            let contributed = target.spec_lightness()@ * alpha@ / s;
            let blended = if c.spec_lightness()@ + contributed <= s {
                c.spec_lightness()@ + contributed
            } else {
                s
            };
            let share = if blended == 0 {
                s
            } else {
                c.spec_lightness()@ * s / blended
            };
            &&& c.weighted_interpolation_spec(target, alpha).spec_lightness()@ == blended
            &&& c.weighted_interpolation_spec(target, alpha).spec_x() == lerp_int(
                target.spec_x(),
                c.spec_x(),
                share,
            )
            &&& c.weighted_interpolation_spec(target, alpha).spec_y() == lerp_int(
                target.spec_y(),
                c.spec_y(),
                share,
            )
        }),
{
    let s = SCALE as int;
    crate::unipolar::lemma_unit_product_bounded(target.spec_lightness()@, alpha@);
    let contributed = target.spec_lightness()@ * alpha@ / s;
    let blended = if c.spec_lightness()@ + contributed <= s {
        c.spec_lightness()@ + contributed
    } else {
        s
    };
    crate::unipolar::lemma_from_int_val(blended);
    let share = if blended == 0 {
        s
    } else {
        lemma_share_in_range(c.spec_lightness()@, blended);
        c.spec_lightness()@ * s / blended
    };
    lemma_lerp_bounds(target.spec_x(), c.spec_x(), share);
    lemma_lerp_bounds(target.spec_y(), c.spec_y(), share);
}

/// Interpolating a color with itself returns the same hue and saturation at
/// any scale factor: both colors put the same chroma point into the blend,
/// every weighting of a point with itself is that point, and the chroma
/// point determines hue and saturation.
pub proof fn law_self_interpolation_keeps_chroma(c: HsluvColor, alpha: Unipolar)
    ensures
        c.weighted_interpolation_spec(c, alpha).spec_x() == c.spec_x(),
        c.weighted_interpolation_spec(c, alpha).spec_y() == c.spec_y(),
{
    let s = SCALE as int;
    lemma_lerp_self(c.spec_x());
    lemma_lerp_self(c.spec_y());
    let contributed = c.spec_lightness()@ * alpha@ / s;
    let blended = if c.spec_lightness()@ + contributed <= s {
        c.spec_lightness()@ + contributed
    } else {
        s
    };
    let share = if blended == 0 {
        s
    } else {
        c.spec_lightness()@ * s / blended
    };
    assert(lerp_int(c.spec_x(), c.spec_x(), share) == c.spec_x());
    assert(lerp_int(c.spec_y(), c.spec_y(), share) == c.spec_y());
}

/// Interpolating a coordinate with itself is the identity, whatever the
/// weight: the weights add up to full scale.
proof fn lemma_lerp_self(v: int)
    ensures
        forall|share: int| #[trigger] lerp_int(v, v, share) == v,
{
    let s = SCALE as int;
    assert forall|share: int| #[trigger] lerp_int(v, v, share) == v by {
        assert(share * v + (s - share) * v == s * v) by (nonlinear_arith);
        if v >= 0 {
            vstd::arithmetic::div_mod::lemma_div_by_multiple(v, s);
            assert(s * v == v * s) by (nonlinear_arith);
        } else {
            vstd::arithmetic::div_mod::lemma_div_by_multiple(-v, s);
            assert(-(s * v) == (-v) * s) by (nonlinear_arith);
        }
    }
}

} // verus!
