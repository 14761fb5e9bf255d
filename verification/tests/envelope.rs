use color_organ::envelope::Envelope;
use color_organ::envelope::EnvelopeParameters;
use color_organ::time::Duration;
use color_organ::unipolar::Unipolar;

/// Return basic envelope parameters for testing.
fn params() -> EnvelopeParameters {
    EnvelopeParameters::linear(
        Duration::from_secs(1),
        Unipolar::new(400),
        Duration::from_secs(1),
        Unipolar::new(600),
        Duration::from_secs(1),
    )
}

#[test]
/// Basic test of envelope shape.
fn test_full_shape() {
    let params = params();
    let mut envelope = Envelope::new(params.clone());
    assert_eq!(Some(params.attack_level), envelope.value());

    // Evolve for half of the attack.
    envelope.update_state(Duration::from_millis(500));
    assert_eq!(Some(Unipolar::new(700)), envelope.value());

    // Complete attack.
    envelope.update_state(Duration::from_millis(500));
    assert_eq!(Some(Unipolar::one()), envelope.value());

    // Half of decay.
    envelope.update_state(Duration::from_millis(500));
    assert_eq!(Some(Unipolar::new(800)), envelope.value());

    // Complete decay.
    envelope.update_state(Duration::from_millis(500));
    assert_eq!(Some(params.sustain_level), envelope.value());

    // Sustain holds however long the note lasts.
    envelope.update_state(Duration::from_secs(1));
    assert_eq!(Some(params.sustain_level), envelope.value());
    envelope.update_state(Duration::from_secs(1));
    assert_eq!(Some(params.sustain_level), envelope.value());
    envelope.update_state(Duration::from_secs(1000));
    assert_eq!(Some(params.sustain_level), envelope.value());

    // Release.
    envelope.release();
    assert_eq!(Some(params.sustain_level), envelope.value());

    envelope.update_state(Duration::from_millis(500));
    assert_eq!(Some(Unipolar::new(300)), envelope.value());

    // Complete release and confirm that envelope closes.
    envelope.update_state(Duration::from_millis(500));
    assert_eq!(None, envelope.value());
}

#[test]
/// Test zero-attack envelope.
fn test_zero_attack() {
    let mut params = params();
    params.attack = Duration::from_secs(0);
    let mut envelope = Envelope::new(params);
    assert_eq!(Some(Unipolar::one()), envelope.value());

    // Check expected decay.
    envelope.update_state(Duration::from_millis(500));
    assert_eq!(Some(Unipolar::new(800)), envelope.value());
}

#[test]
/// Test zero-decay envelope.
fn test_zero_decay() {
    let mut params = params();
    params.decay = Duration::from_secs(0);
    let mut envelope = Envelope::new(params.clone());
    envelope.update_state(params.attack);
    assert_eq!(Some(Unipolar::one()), envelope.value());

    // Should immediately fall to sustain level.
    envelope.update_state(Duration::from_nanos(1));
    assert_eq!(Some(params.sustain_level), envelope.value());
}

#[test]
/// Test zero-release envelope.
fn test_zero_release() {
    let mut params = params();
    params.release = Duration::from_secs(0);
    let mut envelope = Envelope::new(params.clone());
    envelope.update_state(params.attack.saturating_add(params.decay));
    assert_eq!(Some(params.sustain_level), envelope.value());

    // nudge just past the decay into sustain.
    envelope.update_state(Duration::from_nanos(1));
    assert_eq!(Some(params.sustain_level), envelope.value());

    envelope.release();
    // Since release is a step-change in state, even a zero-duration state
    // update should force the envelope to close due to zero release.
    envelope.update_state(Duration::from_secs(0));
    assert_eq!(None, envelope.value());
}

#[test]
/// Test zero-sustain envelope.
fn test_zero_sustain() {
    let mut params = params();
    params.sustain_level = Unipolar::zero();
    let mut envelope = Envelope::new(params.clone());
    envelope.update_state(params.attack);
    assert_eq!(Some(Unipolar::one()), envelope.value());

    envelope.update_state(Duration::from_millis(500));
    assert_eq!(Some(Unipolar::new(500)), envelope.value());

    // Complete decay - envelope should not close until next update since we
    // are still on the trailing edge of decay.
    envelope.update_state(Duration::from_millis(500));
    assert_eq!(Some(Unipolar::zero()), envelope.value());

    // Any further evolution should close the envelope.
    envelope.update_state(Duration::from_nanos(1));
    assert_eq!(None, envelope.value());
}

#[test]
/// Test weird edge case - the all-zero timing envelope.
/// This envelope should start at full scale, then jump immediately
/// to the sustain level, then close immediately when released.
fn test_all_zero_envelope() {
    let mut params = params();
    params.attack = Duration::from_secs(0);
    params.decay = Duration::from_secs(0);
    params.release = Duration::from_secs(0);
    let mut envelope = Envelope::new(params.clone());
    assert_eq!(Some(Unipolar::one()), envelope.value());

    envelope.update_state(Duration::from_nanos(1));
    assert_eq!(Some(params.sustain_level), envelope.value());

    envelope.release();
    envelope.update_state(Duration::from_secs(0));
    assert_eq!(None, envelope.value());
}

#[test]
/// A zero-length update is idempotent: a second one changes nothing.
fn test_zero_update_idempotent() {
    let mut envelope = Envelope::new(params());
    envelope.update_state(Duration::from_millis(250));
    let once = envelope.value();
    envelope.update_state(Duration::from_secs(0));
    let twice = envelope.value();
    assert_eq!(once, twice);
    assert_eq!(Some(Unipolar::new(550)), twice);
}

#[test]
/// Once closed, neither updates nor releases reopen the envelope.
fn test_closed_is_terminal() {
    let mut params = params();
    params.sustain_level = Unipolar::zero();
    let mut envelope = Envelope::new(params);
    envelope.update_state(Duration::from_secs(3));
    assert_eq!(None, envelope.value());
    envelope.release();
    assert_eq!(None, envelope.value());
    envelope.update_state(Duration::from_secs(1));
    assert_eq!(None, envelope.value());
    assert!(envelope.closed());
}

#[test]
/// The attack flag flips strictly after the attack duration elapses.
fn test_attack_complete() {
    let mut envelope = Envelope::new(params());
    assert!(!envelope.attack_complete());
    envelope.update_state(Duration::from_secs(1));
    assert!(!envelope.attack_complete());
    envelope.update_state(Duration::from_nanos(1));
    assert!(envelope.attack_complete());
}
