//! The ADSR envelope state machine.
//!
//! An envelope is created in its attack phase, advances through decay into
//! sustain as elapsed time accumulates, and enters release when released.
//! Its value is an intensity scalar; `None` means the envelope has closed
//! and will never contribute again.
//!
//! All level arithmetic is fixed point in thousandths (see `unipolar`), and
//! time is counted in whole nanoseconds (see `time`), so every value the
//! envelope takes is pinned down exactly by the model functions below.
use vstd::prelude::*;

use crate::time::Duration;
use crate::unipolar::lemma_unit_product_bounded;
use crate::unipolar::Unipolar;
use crate::unipolar::SCALE;

verus! {

/// The shape of an envelope transition edge.  A shape maps the unit
/// interval onto itself, sending 0 to 0 and 1 to 1; it describes a rising
/// edge, and falling edges run the same shape backwards.
#[derive(Clone, Copy, Debug, PartialEq, Eq, Structural)]
pub enum EdgeShape {
    /// The identity profile: intensity tracks phase progress directly.
    Linear,
}

impl EdgeShape {
    /// What the shape sends a phase-progress value to.
    pub open spec fn apply_spec(self, alpha: int) -> int {
        match self {
            EdgeShape::Linear => alpha,
        }
    }

    /// Apply the shape to a phase-progress value.
    pub fn apply(self, alpha: Unipolar) -> (r: Unipolar)
        ensures
            r@ == self.apply_spec(alpha@),
    {
        match self {
            EdgeShape::Linear => alpha,
        }
    }
}

/// A linear edge function.
pub fn linear_edge(alpha: Unipolar) -> (r: Unipolar)
    ensures
        r@ == alpha@,
{
    alpha
}

/// The parameters of an ADSR envelope.
#[derive(Clone, Copy, Debug, PartialEq, Eq)]
pub struct EnvelopeParameters {
    pub attack: Duration,
    pub attack_level: Unipolar,
    pub attack_shape: EdgeShape,
    pub decay: Duration,
    pub decay_shape: EdgeShape,
    pub sustain_level: Unipolar,
    pub release: Duration,
    pub release_shape: EdgeShape,
}

impl EnvelopeParameters {
    /// Return envelope parameters with linear edges.
    pub fn linear(
        attack: Duration,
        attack_level: Unipolar,
        decay: Duration,
        sustain_level: Unipolar,
        release: Duration,
    ) -> (r: EnvelopeParameters)
        ensures
            r == (EnvelopeParameters {
                attack,
                attack_level,
                attack_shape: EdgeShape::Linear,
                decay,
                decay_shape: EdgeShape::Linear,
                sustain_level,
                release,
                release_shape: EdgeShape::Linear,
            }),
    {
        EnvelopeParameters {
            attack,
            attack_level,
            attack_shape: EdgeShape::Linear,
            decay,
            decay_shape: EdgeShape::Linear,
            sustain_level,
            release,
            release_shape: EdgeShape::Linear,
        }
    }
}

/// The value of a rising edge: starts at `offset`, reaches full scale as
/// `alpha` reaches full scale.
pub open spec fn rising_int(shape: EdgeShape, alpha: int, offset: int) -> int {
    offset + shape.apply_spec(alpha) * (SCALE as int - offset) / (SCALE as int)
}

/// The value of a falling edge: the rising edge run backwards.
pub open spec fn falling_int(shape: EdgeShape, alpha: int, offset: int) -> int {
    rising_int(shape, SCALE as int - alpha, offset)
}

/// How far through a phase of length `dur` the time `elapsed` is, as a
/// fixed-point fraction of full scale (rounded down).
pub open spec fn phase_alpha(elapsed: int, dur: int) -> int
    recommends
        dur > 0,
{
    elapsed * (SCALE as int) / dur
}

/// The envelope value determined by a parameter set, the cumulative elapsed
/// time, and the release state.  `None` means the envelope has closed.
pub open spec fn envelope_value(
    p: EnvelopeParameters,
    elapsed: int,
    released: bool,
    release_elapsed: int,
) -> Option<int> {
    if elapsed <= p.attack.nanos {
        // Attack: rise from the attack level to full scale.  A zero-length
        // attack is complete from the start, so its progress is full scale.
        let alpha = if p.attack.nanos == 0 {
            SCALE as int
        } else {
            phase_alpha(elapsed, p.attack.nanos as int)
        };
        Some(rising_int(p.attack_shape, alpha, p.attack_level@))
    } else if elapsed <= p.attack.nanos + p.decay.nanos {
        // Decay: fall from full scale to the sustain level.  A zero decay
        // never reaches this branch, since the attack bound is inclusive.
        Some(
            falling_int(
                p.decay_shape,
                phase_alpha(elapsed - p.attack.nanos, p.decay.nanos as int),
                p.sustain_level@,
            ),
        )
    } else if p.sustain_level@ == 0 {
        // Nothing to sustain: the envelope closes once decay is exhausted.
        None
    } else if !released {
        // Sustain: hold until released.
        Some(p.sustain_level@)
    } else if release_elapsed >= p.release.nanos {
        // Release complete (immediately so for a zero release).
        None
    } else {
        // Release: fall from the sustain level to zero.
        Some(
            p.sustain_level@ * falling_int(
                p.release_shape,
                phase_alpha(release_elapsed, p.release.nanos as int),
                0,
            ) / (SCALE as int),
        )
    }
}

/// `envelope_value`, wrapped back into a stored intensity scalar.
pub open spec fn envelope_value_unipolar(
    p: EnvelopeParameters,
    elapsed: int,
    released: bool,
    release_elapsed: int,
) -> Option<Unipolar> {
    match envelope_value(p, elapsed, released, release_elapsed) {
        Some(v) => Some(Unipolar::from_int(v)),
        None => None,
    }
}

/// An evolving ADSR envelope.
/// The current envelope value is computed during update and stored.
#[derive(Clone, Copy, Debug, PartialEq, Eq)]
pub struct Envelope {
    pub parameters: EnvelopeParameters,
    pub elapsed: Duration,
    pub released: bool,
    /// The current value of the envelope. Updated during state update.
    /// If None, the envelope has closed.
    pub value: Option<Unipolar>,
    pub release_elapsed: Duration,
}

impl Envelope {
    /// The state after a release signal: a one-way flag flip; the cached
    /// value is untouched until the next update.
    pub open spec fn release_spec(self) -> Envelope {
        Envelope { released: true, ..self }
    }

    /// The state after advancing time by `delta`.  A closed envelope is
    /// left untouched; otherwise elapsed time accumulates (release time
    /// too, once released) and the value is recomputed.
    pub open spec fn step_spec(self, delta: Duration) -> Envelope {
        if self.value is None {
            self
        } else {
            let elapsed = self.elapsed.spec_add(delta);
            let release_elapsed = if self.released {
                self.release_elapsed.spec_add(delta)
            } else {
                self.release_elapsed
            };
            Envelope {
                elapsed,
                release_elapsed,
                value: envelope_value_unipolar(
                    self.parameters,
                    elapsed.nanos as int,
                    self.released,
                    release_elapsed.nanos as int,
                ),
                ..self
            }
        }
    }

    pub fn new(parameters: EnvelopeParameters) -> (r: Envelope)
        ensures
            r == (Envelope {
                parameters,
                elapsed: Duration { nanos: 0 },
                released: false,
                value: envelope_value_unipolar(parameters, 0, false, 0),
                release_elapsed: Duration { nanos: 0 },
            }),
    {
        let mut envelope = Envelope {
            value: None,
            parameters,
            elapsed: Duration::from_nanos(0),
            released: false,
            release_elapsed: Duration::from_nanos(0),
        };
        // Initialize value.
        envelope.update_value();
        envelope
    }

    /// Return true if this envelope is released.
    pub fn released(&self) -> (r: bool)
        ensures
            r == self.released,
    {
        self.released
    }

    /// Set this envelope as released.
    pub fn release(&mut self)
        ensures
            *final(self) == old(self).release_spec(),
    {
        self.released = true;
    }

    /// Get the current value of this envelope.
    /// Return None if the envelope has closed.
    pub fn value(&self) -> (r: Option<Unipolar>)
        ensures
            r == self.value,
    {
        self.value
    }

    /// Update the state of this envelope.
    pub fn update_state(&mut self, delta_t: Duration)
        ensures
            *final(self) == old(self).step_spec(delta_t),
    {
        // Short-circuit state update for closed envelopes.
        if self.value.is_none() {
            return ;
        }
        self.elapsed = self.elapsed.saturating_add(delta_t);
        if self.released {
            self.release_elapsed = self.release_elapsed.saturating_add(delta_t);
        }
        self.update_value();
    }

    /// True once cumulative elapsed time has moved past the attack phase.
    pub open spec fn attack_complete_spec(self) -> bool {
        self.elapsed.nanos > self.parameters.attack.nanos
    }

    /// Return true if this envelope has completed the attack.
    pub fn attack_complete(&self) -> (r: bool)
        ensures
            r == self.attack_complete_spec(),
    {
        self.elapsed.nanos > self.parameters.attack.nanos
    }

    /// Return true if this envelope has closed.
    pub fn closed(&self) -> (r: bool)
        ensures
            r == (self.value is None),
    {
        self.value.is_none()
    }

    /// Update the current stored value of this envelope.
    /// Set None if the envelope has closed.
    fn update_value(&mut self)
        ensures
            *final(self) == (Envelope {
                value: envelope_value_unipolar(
                    old(self).parameters,
                    old(self).elapsed.nanos as int,
                    old(self).released,
                    old(self).release_elapsed.nanos as int,
                ),
                ..*old(self)
            }),
    {
        let p = self.parameters;
        self.value = if self.elapsed.nanos <= p.attack.nanos {
            // attack portion
            let alpha = if p.attack.nanos == 0 {
                Unipolar::one()
            } else {
                phase_progress(self.elapsed, p.attack)
            };
            let v = rising_edge(p.attack_shape, alpha, p.attack_level);
            proof {
                use_type_invariant(v);
                crate::unipolar::lemma_from_int_exact(v, v@);
            }
            Some(v)
        } else if self.elapsed.nanos <= p.attack.nanos.saturating_add(p.decay.nanos) {
            // decay portion; a zero decay always takes the attack branch
            // above, so the phase length is nonzero here.
            let decay_elapsed = Duration::from_nanos(self.elapsed.nanos - p.attack.nanos);
            let alpha = phase_progress(decay_elapsed, p.decay);
            let v = falling_edge(p.decay_shape, alpha, p.sustain_level);
            proof {
                use_type_invariant(v);
                crate::unipolar::lemma_from_int_exact(v, v@);
            }
            Some(v)
        } else if p.sustain_level.value() == 0 {
            // attack and decay are exhausted with nothing to sustain.
            None
        } else if !self.released {
            // holding the sustain level.
            proof {
                use_type_invariant(p.sustain_level);
                crate::unipolar::lemma_from_int_exact(p.sustain_level, p.sustain_level@);
            }
            Some(p.sustain_level)
        } else if self.release_elapsed.nanos >= p.release.nanos {
            // release complete, envelope is closed.
            None
        } else {
            // releasing.
            let alpha = phase_progress(self.release_elapsed, p.release);
            let v = p.sustain_level.scale_by(
                falling_edge(p.release_shape, alpha, Unipolar::zero()),
            );
            proof {
                use_type_invariant(v);
                crate::unipolar::lemma_from_int_exact(v, v@);
            }
            Some(v)
        };
    }
}

/// A fresh envelope starts exactly at its attack level — except that a
/// zero-length attack is already complete, so the envelope starts at full
/// scale.
pub proof fn law_initial_value(p: EnvelopeParameters)
    requires
        p.attack_level.in_range(),
    ensures
        envelope_value(p, 0, false, 0) == Some(
            if p.attack.nanos == 0 {
                SCALE as int
            } else {
                p.attack_level@
            },
        ),
{
    if p.attack.nanos == 0 {
        // A complete rise lands exactly on full scale.
        vstd::arithmetic::div_mod::lemma_div_by_multiple(
            SCALE as int - p.attack_level@,
            SCALE as int,
        );
        assert((SCALE as int) * (SCALE as int - p.attack_level@) == (SCALE as int
            - p.attack_level@) * (SCALE as int)) by (nonlinear_arith);
    } else {
        assert(phase_alpha(0, p.attack.nanos as int) == 0) by {
            vstd::arithmetic::div_mod::lemma_div_of0(p.attack.nanos as int);
        }
        assert(rising_int(p.attack_shape, 0, p.attack_level@) == p.attack_level@) by {
            vstd::arithmetic::div_mod::lemma_div_of0(SCALE as int);
        }
    }
}

/// Advancing by a zero duration is idempotent: a second zero-length update
/// changes nothing.  (A zero-length update is still not always a no-op: the
/// first one after a release with a zero release duration closes the
/// envelope; the second then leaves the closed state alone.)
pub proof fn law_zero_update_idempotent(e: Envelope)
    ensures
        e.step_spec(Duration { nanos: 0 }).step_spec(Duration { nanos: 0 }) == e.step_spec(
            Duration { nanos: 0 },
        ),
{
    let e1 = e.step_spec(Duration { nanos: 0 });
    if e1.value is Some {
        assert(e1.elapsed.spec_add(Duration { nanos: 0 }) == e1.elapsed);
        assert(e1.release_elapsed.spec_add(Duration { nanos: 0 }) == e1.release_elapsed);
    }
}

/// Sustain holds indefinitely: once attack and decay are exhausted with a
/// positive sustain level and no release signal, an update of any length
/// leaves the value at exactly the sustain level.  (The one machine limit:
/// the new elapsed time must still be representable, since elapsed time
/// saturates at the largest nanosecond count.)
pub proof fn law_sustain_holds(e: Envelope, delta: Duration)
    requires
        e.parameters.sustain_level.in_range(),
        e.parameters.sustain_level@ > 0,
        !e.released,
        e.value is Some,
        e.elapsed.nanos + delta.nanos > e.parameters.attack.nanos + e.parameters.decay.nanos,
        e.elapsed.nanos + delta.nanos <= u64::MAX,
    ensures
        e.step_spec(delta).value == Some(e.parameters.sustain_level),
{
    crate::unipolar::lemma_from_int_exact(e.parameters.sustain_level, e.parameters.sustain_level@);
}

/// Closing is terminal: once the value is `None`, neither advancing time
/// nor a release signal can ever make it non-`None` again.
pub proof fn law_closing_is_terminal(e: Envelope, delta: Duration)
    requires
        e.value is None,
    ensures
        e.step_spec(delta) == e,
        e.release_spec().value is None,
        e.release_spec().step_spec(delta).value is None,
{
}

/// How far through a phase of length `dur` the time `elapsed` is.
fn phase_progress(elapsed: Duration, dur: Duration) -> (r: Unipolar)
    requires
        0 < dur.nanos,
        elapsed.nanos <= dur.nanos,
    ensures
        r@ == phase_alpha(elapsed.nanos as int, dur.nanos as int),
{
    proof {
        assert(elapsed.nanos * SCALE <= u64::MAX * SCALE) by (nonlinear_arith)
            requires
                elapsed.nanos <= u64::MAX,
        ;
        assert(elapsed.nanos * SCALE <= dur.nanos * SCALE) by (nonlinear_arith)
            requires
                elapsed.nanos <= dur.nanos,
        ;
        vstd::arithmetic::div_mod::lemma_div_is_ordered(
            elapsed.nanos * SCALE,
            dur.nanos * SCALE,
            dur.nanos as int,
        );
        vstd::arithmetic::div_mod::lemma_div_by_multiple(SCALE as int, dur.nanos as int);
        vstd::arithmetic::div_mod::lemma_div_pos_is_pos(
            elapsed.nanos * SCALE,
            dur.nanos as int,
        );
    }
    let alpha: u64 = ((elapsed.nanos as u128) * (SCALE as u128) / (dur.nanos as u128)) as u64;
    Unipolar::new(alpha)
}

/// Return the value for a rising edge.
fn rising_edge(shape: EdgeShape, alpha: Unipolar, offset: Unipolar) -> (r: Unipolar)
    ensures
        r@ == rising_int(shape, alpha@, offset@),
{
    proof {
        use_type_invariant(alpha);
        use_type_invariant(offset);
    }
    let shaped = shape.apply(alpha);
    proof {
        use_type_invariant(shaped);
        lemma_unit_product_bounded(shaped@, SCALE as int - offset@);
    }
    // offset + shape(alpha) * (ONE - offset)
    Unipolar::new(offset.value() + shaped.value() * (SCALE - offset.value()) / SCALE)
}

/// Return the value for a falling edge.
fn falling_edge(shape: EdgeShape, alpha: Unipolar, offset: Unipolar) -> (r: Unipolar)
    ensures
        r@ == falling_int(shape, alpha@, offset@),
{
    // Create a falling edge by inverting alpha, essentially running the edge backwards.
    rising_edge(shape, alpha.invert(), offset)
}

} // verus!
