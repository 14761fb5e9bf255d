use color_organ::arena::EventArena;
use color_organ::arena::StrongHandle;
use color_organ::color::HsluvColor;
use color_organ::envelope::Envelope;
use color_organ::envelope::EnvelopeParameters;
use color_organ::event::ColorEvent;
use color_organ::event::ReleaseId;
use color_organ::store::ColorEventStore;
use color_organ::time::Duration;
use color_organ::unipolar::Unipolar;

fn envelope() -> Envelope {
    Envelope::new(EnvelopeParameters::linear(
        Duration::from_secs(1),
        Unipolar::zero(),
        Duration::from_secs(1),
        Unipolar::new(500),
        Duration::from_secs(1),
    ))
}

fn color() -> HsluvColor {
    HsluvColor::new(1000, 0, Unipolar::one())
}

fn mkevent(arena: &mut EventArena<HsluvColor>, release_id: ReleaseId) -> StrongHandle {
    arena.insert(ColorEvent::new(color(), envelope(), release_id))
}

#[test]
fn test_release() {
    let mut arena: EventArena<HsluvColor> = EventArena::new();
    let mut store = ColorEventStore::new();
    let event_0 = mkevent(&mut arena, 0);
    let event_1 = mkevent(&mut arena, 1);
    store.add(&arena, &event_0);
    store.add(&arena, &event_1);
    store.release(&mut arena, 0);
    assert!(arena.event(&event_0).envelope().released());
    assert!(!arena.event(&event_1).envelope().released());
}

#[test]
/// Two events sharing a release id are both released by one broadcast; an
/// event with another id is unaffected.
fn test_release_shared_id() {
    let mut arena: EventArena<HsluvColor> = EventArena::new();
    let mut store = ColorEventStore::new();
    let event_a = mkevent(&mut arena, 7);
    let event_b = mkevent(&mut arena, 7);
    let event_c = mkevent(&mut arena, 9);
    store.add(&arena, &event_a);
    store.add(&arena, &event_b);
    store.add(&arena, &event_c);
    store.release(&mut arena, 7);
    assert!(arena.event(&event_a).envelope().released());
    assert!(arena.event(&event_b).envelope().released());
    assert!(!arena.event(&event_c).envelope().released());
}

#[test]
/// The store's update advances every live event it watches.
fn test_update_advances() {
    let mut arena: EventArena<HsluvColor> = EventArena::new();
    let mut store = ColorEventStore::new();
    let event = mkevent(&mut arena, 0);
    store.add(&arena, &event);
    store.update(&mut arena, Duration::from_millis(500));
    // half the attack, rising from zero: intensity 500 thousandths
    assert_eq!(arena.event(&event).envelope().value(), Some(Unipolar::new(500)));
}

#[test]
/// A dead handle is skipped: releasing after the last owner dropped its
/// event is a silent no-op, and update still advances the survivors.
fn test_dead_handles_skipped() {
    let mut arena: EventArena<HsluvColor> = EventArena::new();
    let mut store = ColorEventStore::new();
    let doomed = mkevent(&mut arena, 0);
    let survivor = mkevent(&mut arena, 1);
    store.add(&arena, &doomed);
    store.add(&arena, &survivor);
    let watcher = arena.downgrade(&doomed);
    arena.drop_strong(doomed);
    assert!(!arena.is_live(watcher));
    store.release(&mut arena, 0);
    store.update(&mut arena, Duration::from_millis(250));
    assert_eq!(arena.event(&survivor).envelope().value(), Some(Unipolar::new(250)));
}

#[test]
/// An event stays alive exactly as long as some strong handle holds it.
fn test_arena_ownership() {
    let mut arena: EventArena<HsluvColor> = EventArena::new();
    let first = mkevent(&mut arena, 0);
    let second = arena.clone_strong(&first);
    let watcher = arena.downgrade(&first);
    assert!(arena.is_live(watcher));
    arena.drop_strong(first);
    assert!(arena.is_live(watcher));
    arena.drop_strong(second);
    assert!(!arena.is_live(watcher));
    assert!(arena.get_event(watcher).is_none());
}

#[test]
/// A slot freed by its last owner can be reused without resurrecting old
/// handles: the generation moves on.
fn test_generation_check() {
    let mut arena: EventArena<HsluvColor> = EventArena::new();
    let first = mkevent(&mut arena, 0);
    let stale = arena.downgrade(&first);
    arena.drop_strong(first);
    let second = mkevent(&mut arena, 1);
    let fresh = arena.downgrade(&second);
    assert!(!arena.is_live(stale));
    assert!(arena.is_live(fresh));
    arena.drop_strong(second);
}
