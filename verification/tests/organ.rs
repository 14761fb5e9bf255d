use color_organ::color::HsluvColor;
use color_organ::fixture::FixtureId;
use color_organ::organ::ColorOrganHsluv;
use color_organ::organ::ControlMessage;
use color_organ::organ::IgnoreEmitter;
use color_organ::time::Duration;
use color_organ::envelope_gen;
use color_organ::unipolar::Unipolar;

#[test]
/// A fresh organ renders black on every fixture and nothing out of range.
fn test_render_bounds() {
    let organ: ColorOrganHsluv = ColorOrganHsluv::new(4);
    assert_eq!(organ.render(FixtureId(0)), Some(HsluvColor::default()));
    assert_eq!(organ.render(FixtureId(3)), Some(HsluvColor::default()));
    assert_eq!(organ.render(FixtureId(4)), None);
}

#[test]
/// Triggers and ticks leave the organ consistent even with no bank
/// selected to route events anywhere.
fn test_trigger_cycle() {
    let mut organ: ColorOrganHsluv = ColorOrganHsluv::new(2);
    organ.note_on(HsluvColor::new(1000, 0, Unipolar::one()), Unipolar::one(), 42);
    organ.update_state(Duration::from_millis(500));
    organ.note_off(42);
    organ.update_state(Duration::from_millis(500));
    assert_eq!(organ.render(FixtureId(0)), Some(HsluvColor::default()));
    assert_eq!(organ.render(FixtureId(1)), Some(HsluvColor::default()));
}

#[test]
/// Control messages drive the same paths as the direct calls, and a
/// blackout leaves every fixture dark.
fn test_control_messages() {
    let mut organ: ColorOrganHsluv = ColorOrganHsluv::new(2);
    let emitter = IgnoreEmitter;
    organ.control(
        ControlMessage::NoteOn {
            color: HsluvColor::new(0, 1000, Unipolar::one()),
            velocity: Unipolar::new(700),
            release_id: 3,
        },
        &emitter,
    );
    organ.update_state(Duration::from_millis(100));
    organ.control(ControlMessage::NoteOff(3), &emitter);
    organ.control(ControlMessage::Blackout, &emitter);
    assert_eq!(organ.render(FixtureId(0)), Some(HsluvColor::default()));
    assert_eq!(organ.render(FixtureId(1)), Some(HsluvColor::default()));
}

#[test]
/// Envelope generator controls reach the generator through the organ.
fn test_envelope_control() {
    let mut organ: ColorOrganHsluv = ColorOrganHsluv::new(1);
    let emitter = IgnoreEmitter;
    organ.control(
        ControlMessage::Envelope(envelope_gen::ControlMessage::SetState(
            envelope_gen::StateChange::Attack(Unipolar::new(250)),
        )),
        &emitter,
    );
    organ.emit_state(&emitter);
}
