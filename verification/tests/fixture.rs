use color_organ::arena::EventArena;
use color_organ::arena::StrongHandle;
use color_organ::color::Color;
use color_organ::color::HsluvColor;
use color_organ::envelope::Envelope;
use color_organ::envelope::EnvelopeParameters;
use color_organ::event::ColorEvent;
use color_organ::event::ReleaseId;
use color_organ::fixture::Fixture;
use color_organ::store::ColorEventStore;
use color_organ::time::Duration;
use color_organ::unipolar::Unipolar;

fn params() -> EnvelopeParameters {
    EnvelopeParameters::linear(
        Duration::from_secs(1),
        Unipolar::zero(),
        Duration::from_secs(1),
        Unipolar::new(600),
        Duration::from_secs(1),
    )
}

fn mkevent(
    arena: &mut EventArena<HsluvColor>,
    color: HsluvColor,
    release_id: ReleaseId,
) -> StrongHandle {
    arena.insert(ColorEvent::new(color, Envelope::new(params()), release_id))
}

#[test]
/// An empty fixture renders black.
fn test_render_empty() {
    let arena: EventArena<HsluvColor> = EventArena::new();
    let fixture = Fixture::new();
    assert_eq!(fixture.render(&arena), HsluvColor::black());
}

#[test]
/// A newer event cross-fades over the older one while its attack ramps,
/// occludes it outright once the attack completes, and the prune then
/// drops the older event from the buffer entirely.
fn test_two_event_crossfade() {
    let mut arena: EventArena<HsluvColor> = EventArena::new();
    let mut store = ColorEventStore::new();
    let mut fixture = Fixture::new();

    let red_ish = HsluvColor::new(1000, 0, Unipolar::one());
    let e1 = mkevent(&mut arena, red_ish, 1);
    let w1 = arena.downgrade(&e1);
    store.add(&arena, &e1);
    fixture.add_event(e1);

    // Let the first event finish its attack and settle into decay.
    store.update(&mut arena, Duration::from_millis(1500));
    fixture.update(&mut arena);
    assert!(arena.is_live(w1));

    let green_ish = HsluvColor::new(0, 1000, Unipolar::one());
    let e2 = mkevent(&mut arena, green_ish, 2);
    let w2 = arena.downgrade(&e2);
    store.add(&arena, &e2);
    fixture.add_event(e2);

    // While the newer event ramps in, the rendered color is the older
    // event's value with the newer blended over it at its intensity.
    store.update(&mut arena, Duration::from_millis(500));
    fixture.update(&mut arena);
    assert!(arena.is_live(w1));
    let v1 = *arena.get_event(w1).unwrap().value();
    let v2 = *arena.get_event(w2).unwrap().value();
    let intensity = arena.get_event(w2).unwrap().envelope().value().unwrap();
    assert_eq!(intensity, Unipolar::new(500));
    assert_eq!(fixture.render(&arena), v1.weighted_interpolation(&v2, intensity));

    // Once the newer event's attack completes it fully occludes the older
    // one, and the prune drops the older event — its last owner was this
    // buffer, so the event expires.
    store.update(&mut arena, Duration::from_millis(600));
    fixture.update(&mut arena);
    assert!(!arena.is_live(w1));
    assert!(arena.is_live(w2));
    assert_eq!(fixture.render(&arena), *arena.get_event(w2).unwrap().value());
}

#[test]
/// A lone event that has fully closed is pruned, darkening the fixture.
fn test_closed_event_pruned() {
    let mut arena: EventArena<HsluvColor> = EventArena::new();
    let mut store = ColorEventStore::new();
    let mut fixture = Fixture::new();

    let e = mkevent(&mut arena, HsluvColor::new(1000, 0, Unipolar::one()), 1);
    let w = arena.downgrade(&e);
    store.add(&arena, &e);
    fixture.add_event(e);

    store.release(&mut arena, 1);
    // Run attack, decay and the full release out.
    store.update(&mut arena, Duration::from_secs(4));
    assert!(arena.get_event(w).unwrap().envelope().closed());
    fixture.update(&mut arena);
    assert!(!arena.is_live(w));
    assert_eq!(fixture.render(&arena), HsluvColor::black());
}

#[test]
/// Clearing a fixture drops every buffered event unconditionally.
fn test_clear() {
    let mut arena: EventArena<HsluvColor> = EventArena::new();
    let mut fixture = Fixture::new();
    let e1 = mkevent(&mut arena, HsluvColor::new(1000, 0, Unipolar::one()), 1);
    let e2 = mkevent(&mut arena, HsluvColor::new(0, 1000, Unipolar::one()), 2);
    let w1 = arena.downgrade(&e1);
    let w2 = arena.downgrade(&e2);
    fixture.add_event(e1);
    fixture.add_event(e2);
    fixture.clear(&mut arena);
    assert!(!arena.is_live(w1));
    assert!(!arena.is_live(w2));
    assert_eq!(fixture.render(&arena), HsluvColor::black());
}
