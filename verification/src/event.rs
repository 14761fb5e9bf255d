//! A color event: one color anchored to one envelope instance.
use vstd::prelude::*;

use crate::color::enveloped_spec;
use crate::color::Color;
use crate::envelope::Envelope;
use crate::time::Duration;

verus! {

/// An identifier given to a color event to tie a subsequent off event to
/// existing running color events.  For midi inputs, this is the same as the
/// midi note.  For other organ inputs, this may be an ID managed by the
/// color event source.  Not necessarily unique: simultaneous events may
/// share one, so a single off trigger releases them all.
pub type ReleaseId = i32;

/// A color, shaped by an envelope, including envelope evolution state.
#[derive(Clone, Copy, Debug)]
pub struct ColorEvent<C: Color> {
    /// The color this event is initialized with.
    pub color: C,
    pub envelope: Envelope,
    pub release_id: ReleaseId,
    /// The current enveloped color.
    pub value: C,
}

impl<C: Color> ColorEvent<C> {
    /// The state after a release broadcast with the given id: the envelope
    /// is released exactly when the id matches this event's.
    pub open spec fn release_spec(self, release_id: ReleaseId) -> ColorEvent<C> {
        if release_id == self.release_id {
            ColorEvent { envelope: self.envelope.release_spec(), ..self }
        } else {
            self
        }
    }

    /// The state after advancing time by `delta`: the envelope advances and
    /// the cached color is recomputed from its new value.
    pub open spec fn step_spec(self, delta: Duration) -> ColorEvent<C> {
        let envelope = self.envelope.step_spec(delta);
        ColorEvent { envelope, value: enveloped_spec(self.color, envelope.value), ..self }
    }

    pub fn new(color: C, envelope: Envelope, release_id: ReleaseId) -> (r: ColorEvent<C>)
        ensures
            r == (ColorEvent { color, envelope, release_id, value: enveloped_spec(color, envelope.value) }),
    {
        let mut event = ColorEvent { color, envelope, release_id, value: C::black() };
        event.update_value();
        event
    }

    /// Release the envelope in this event if the release ID matches the provided one.
    pub fn release(&mut self, release_id: ReleaseId)
        ensures
            *final(self) == old(self).release_spec(release_id),
    {
        if self.release_id == release_id {
            self.envelope.release();
        }
    }

    /// Update the state of this color event.
    pub fn update_state(&mut self, delta_t: Duration)
        ensures
            *final(self) == old(self).step_spec(delta_t),
    {
        self.envelope.update_state(delta_t);
        self.update_value();
    }

    /// Update the current color of this event using the current envelope value.
    fn update_value(&mut self)
        ensures
            *final(self) == (ColorEvent {
                value: enveloped_spec(old(self).color, old(self).envelope.value),
                ..*old(self)
            }),
    {
        self.value = self.color.enveloped(self.envelope.value());
    }

    /// Return the current value of this event.
    pub fn value(&self) -> (r: &C)
        ensures
            *r == self.value,
    {
        &self.value
    }

    /// Return an immutable reference to the envelope.
    pub fn envelope(&self) -> (r: &Envelope)
        ensures
            *r == self.envelope,
    {
        &self.envelope
    }
}

} // verus!
