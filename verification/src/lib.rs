//! A color organ: discrete trigger events become time-evolving colors on a
//! set of lighting fixtures.  Each trigger spawns a color event shaped by an
//! ADSR envelope; events are shared between the fixtures they were routed to
//! and a global store that can broadcast release-by-id; every tick each
//! fixture blends the events currently influencing it into one color.
pub mod arena;
pub mod bank;
pub mod color;
pub mod envelope;
pub mod envelope_gen;
pub mod event;
pub mod fixture;
pub mod organ;
pub mod store;
pub mod time;
pub mod unipolar;

pub use unipolar::Unipolar;
pub use unipolar::SCALE;
