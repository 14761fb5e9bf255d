//! Generate envelope parameters based on higher-level controls.
//!
//! The generator holds each phase length as a fraction of a time scale, so
//! a UI can steer envelopes with plain unit-interval faders.
use vstd::prelude::*;

use crate::envelope::EdgeShape;
use crate::envelope::EnvelopeParameters;
use crate::time::Duration;
use crate::unipolar::Unipolar;
use crate::unipolar::SCALE;

verus! {

/// Envelope parameter source, driven by unit-interval controls.
pub struct EnvelopeGenerator {
    pub attack: Unipolar,
    pub attack_level: Unipolar,
    pub decay: Unipolar,
    pub sustain_level: Unipolar,
    pub release: Unipolar,
    /// The unit of time associated with the envelope parameters.
    /// For example, if attack is 1, it will have this length.
    pub time_scale: Duration,
}

/// The duration a unit-interval fraction of a time scale selects.
pub open spec fn scaled_duration(time_scale: Duration, fraction: Unipolar) -> Duration {
    Duration { nanos: (time_scale.nanos * fraction@ / (SCALE as int)) as u64 }
}

impl EnvelopeGenerator {
    /// The envelope parameters the current controls select: each phase
    /// length is its fraction of the time scale, with linear edges.
    pub open spec fn generate_spec(self) -> EnvelopeParameters {
        EnvelopeParameters {
            attack: scaled_duration(self.time_scale, self.attack),
            attack_level: self.attack_level,
            attack_shape: EdgeShape::Linear,
            decay: scaled_duration(self.time_scale, self.decay),
            decay_shape: EdgeShape::Linear,
            sustain_level: self.sustain_level,
            release: scaled_duration(self.time_scale, self.release),
            release_shape: EdgeShape::Linear,
        }
    }

    /// The default controls: every phase at full length of a one-second
    /// time scale, silent attack start, full sustain.
    pub open spec fn new_spec() -> EnvelopeGenerator {
        EnvelopeGenerator {
            attack: Unipolar::from_int(SCALE as int),
            attack_level: Unipolar::from_int(0),
            decay: Unipolar::from_int(SCALE as int),
            sustain_level: Unipolar::from_int(SCALE as int),
            release: Unipolar::from_int(SCALE as int),
            time_scale: Duration { nanos: crate::time::NANOS_PER_SEC },
        }
    }

    pub fn new() -> (r: EnvelopeGenerator)
        ensures
            r == EnvelopeGenerator::new_spec(),
    {
        let one = Unipolar::one();
        let zero = Unipolar::zero();
        proof {
            crate::unipolar::lemma_from_int_exact(one, SCALE as int);
            crate::unipolar::lemma_from_int_exact(zero, 0);
        }
        EnvelopeGenerator {
            attack: one,
            attack_level: zero,
            decay: one,
            sustain_level: one,
            release: one,
            time_scale: Duration::from_secs(1),
        }
    }

    /// Generate current envelope parameters.
    pub fn generate(&self) -> (r: EnvelopeParameters)
        ensures
            r == self.generate_spec(),
    {
        EnvelopeParameters::linear(
            scale_duration(self.time_scale, self.attack),
            self.attack_level,
            scale_duration(self.time_scale, self.decay),
            self.sustain_level,
            scale_duration(self.time_scale, self.release),
        )
    }

    /// Emit all observable state using the provided emitter.
    pub fn emit_state<E: EmitStateChange>(&self, emitter: &E) {
        emitter.emit_envelope_generator_state_change(StateChange::Attack(self.attack));
        emitter.emit_envelope_generator_state_change(StateChange::AttackLevel(self.attack_level));
        emitter.emit_envelope_generator_state_change(StateChange::Decay(self.decay));
        emitter.emit_envelope_generator_state_change(StateChange::SustainLevel(self.sustain_level));
        emitter.emit_envelope_generator_state_change(StateChange::Release(self.release));
        emitter.emit_envelope_generator_state_change(StateChange::TimeScale(self.time_scale));
    }

    /// What handling a state change leaves in the generator.
    pub open spec fn apply_state_change(self, sc: StateChange) -> EnvelopeGenerator {
        match sc {
            StateChange::Attack(v) => EnvelopeGenerator { attack: v, ..self },
            StateChange::AttackLevel(v) => EnvelopeGenerator { attack_level: v, ..self },
            StateChange::Decay(v) => EnvelopeGenerator { decay: v, ..self },
            StateChange::SustainLevel(v) => EnvelopeGenerator { sustain_level: v, ..self },
            StateChange::Release(v) => EnvelopeGenerator { release: v, ..self },
            StateChange::TimeScale(v) => EnvelopeGenerator { time_scale: v, ..self },
        }
    }

    /// Handle a control message.
    pub fn control<E: EmitStateChange>(&mut self, msg: ControlMessage, emitter: &E)
        ensures
            *final(self) == match msg {
                ControlMessage::SetState(sc) => old(self).apply_state_change(sc),
            },
    {
        match msg {
            ControlMessage::SetState(sc) => self.handle_state_change(sc, emitter),
        }
    }

    fn handle_state_change<E: EmitStateChange>(&mut self, sc: StateChange, emitter: &E)
        ensures
            *final(self) == old(self).apply_state_change(sc),
    {
        match sc {
            StateChange::Attack(v) => self.attack = v,
            StateChange::AttackLevel(v) => self.attack_level = v,
            StateChange::Decay(v) => self.decay = v,
            StateChange::SustainLevel(v) => self.sustain_level = v,
            StateChange::Release(v) => self.release = v,
            StateChange::TimeScale(v) => self.time_scale = v,
        }
        emitter.emit_envelope_generator_state_change(sc);
    }
}

/// Take the given unit-interval fraction of a time scale.
fn scale_duration(time_scale: Duration, fraction: Unipolar) -> (r: Duration)
    ensures
        r == scaled_duration(time_scale, fraction),
{
    proof {
        use_type_invariant(fraction);
        lemma_fraction_of(time_scale.nanos as int, fraction@);
        assert(time_scale.nanos * fraction@ <= u64::MAX * SCALE) by (nonlinear_arith)
            requires
                0 <= fraction@ <= SCALE as int,
                time_scale.nanos <= u64::MAX,
        ;
    }
    Duration {
        nanos: ((time_scale.nanos as u128) * (fraction.value() as u128) / (SCALE as u128)) as u64,
    }
}

/// A unit-interval fraction of a quantity is no more than the quantity.
proof fn lemma_fraction_of(n: int, a: int)
    requires
        0 <= n,
        0 <= a <= SCALE as int,
    ensures
        0 <= n * a / (SCALE as int) <= n,
{
    assert(n * a <= n * SCALE) by (nonlinear_arith)
        requires
            0 <= n,
            a <= SCALE as int,
    ;
    assert(n * a >= 0) by (nonlinear_arith)
        requires
            0 <= n,
            0 <= a,
    ;
    vstd::arithmetic::div_mod::lemma_div_is_ordered(n * a, n * SCALE, SCALE as int);
    vstd::arithmetic::div_mod::lemma_div_by_multiple(n, SCALE as int);
    assert(n * (SCALE as int) == (SCALE as int) * n) by (nonlinear_arith);
    vstd::arithmetic::div_mod::lemma_div_pos_is_pos(n * a, SCALE as int);
}

#[derive(Clone, Copy, Debug)]
pub enum ControlMessage {
    SetState(StateChange),
}

#[derive(Clone, Copy, Debug)]
pub enum StateChange {
    Attack(Unipolar),
    AttackLevel(Unipolar),
    Decay(Unipolar),
    SustainLevel(Unipolar),
    Release(Unipolar),
    TimeScale(Duration),
}

/// A sink for observable generator state, implemented by the host UI.
pub trait EmitStateChange {
    fn emit_envelope_generator_state_change(&self, sc: StateChange);
}

} // verus!
