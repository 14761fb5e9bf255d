use color_organ::color::HsluvColor;
use color_organ::envelope::Envelope;
use color_organ::envelope::EnvelopeParameters;
use color_organ::event::ColorEvent;
use color_organ::time::Duration;
use color_organ::unipolar::Unipolar;
use color_organ::unipolar::SCALE;

#[test]
fn test_new_clamps() {
    assert_eq!(Unipolar::new(400).value(), 400);
    assert_eq!(Unipolar::new(SCALE), Unipolar::one());
    assert_eq!(Unipolar::new(1500), Unipolar::one());
    assert_eq!(Unipolar::new(0), Unipolar::zero());
}

#[test]
fn test_arithmetic() {
    assert_eq!(Unipolar::new(500).scale_by(Unipolar::new(500)), Unipolar::new(250));
    assert_eq!(Unipolar::new(700).scale_by(Unipolar::one()), Unipolar::new(700));
    assert_eq!(Unipolar::new(700).scale_by(Unipolar::zero()), Unipolar::zero());
    assert_eq!(Unipolar::new(700).add_clamped(Unipolar::new(600)), Unipolar::one());
    assert_eq!(Unipolar::new(300).add_clamped(Unipolar::new(400)), Unipolar::new(700));
    assert_eq!(Unipolar::new(300).invert(), Unipolar::new(700));
}

#[test]
fn test_durations() {
    assert_eq!(Duration::from_secs(1).as_nanos(), 1_000_000_000);
    assert_eq!(Duration::from_millis(500).as_nanos(), 500_000_000);
    assert_eq!(Duration::from_nanos(7).as_nanos(), 7);
    assert!(Duration::from_secs(0).is_zero());
    let sum = Duration::from_secs(1).saturating_add(Duration::from_millis(500));
    assert_eq!(sum.as_nanos(), 1_500_000_000);
    let huge = Duration::from_nanos(u64::MAX).saturating_add(Duration::from_secs(1));
    assert_eq!(huge.as_nanos(), u64::MAX);
}

#[test]
/// A color event is released only by its own id, and recomputes its cached
/// color as its envelope advances.
fn test_event_lifecycle() {
    let params = EnvelopeParameters::linear(
        Duration::from_secs(1),
        Unipolar::new(400),
        Duration::from_secs(1),
        Unipolar::new(600),
        Duration::from_secs(1),
    );
    let color = HsluvColor::new(1000, 0, Unipolar::one());
    let mut event = ColorEvent::new(color, Envelope::new(params), 7);
    // The cached value starts from the envelope's starting intensity.
    assert_eq!(event.value().lightness(), Unipolar::new(400));
    event.update_state(Duration::from_millis(500));
    assert_eq!(event.value().lightness(), Unipolar::new(700));
    // A mismatched release id is a no-op.
    event.release(9);
    assert!(!event.envelope().released());
    event.release(7);
    assert!(event.envelope().released());
    // Chroma is never touched by the envelope.
    assert_eq!(event.value().rect(), (1000, 0));
}
