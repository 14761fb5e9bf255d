use color_organ::envelope_gen::ControlMessage;
use color_organ::envelope_gen::EnvelopeGenerator;
use color_organ::envelope_gen::StateChange;
use color_organ::organ::IgnoreEmitter;
use color_organ::time::Duration;
use color_organ::unipolar::Unipolar;

#[test]
/// The default generator cuts envelopes with every phase at the full
/// one-second time scale.
fn test_default_parameters() {
    let generator = EnvelopeGenerator::new();
    let params = generator.generate();
    assert_eq!(params.attack, Duration::from_secs(1));
    assert_eq!(params.attack_level, Unipolar::zero());
    assert_eq!(params.decay, Duration::from_secs(1));
    assert_eq!(params.sustain_level, Unipolar::one());
    assert_eq!(params.release, Duration::from_secs(1));
}

#[test]
/// Controls rescale the phases as fractions of the time scale.
fn test_control_rescales() {
    let mut generator = EnvelopeGenerator::new();
    let emitter = IgnoreEmitter;
    generator.control(ControlMessage::SetState(StateChange::Attack(Unipolar::new(250))), &emitter);
    generator.control(
        ControlMessage::SetState(StateChange::TimeScale(Duration::from_secs(2))),
        &emitter,
    );
    let params = generator.generate();
    // a quarter of the two-second time scale
    assert_eq!(params.attack, Duration::from_millis(500));
    assert_eq!(params.decay, Duration::from_secs(2));
}
