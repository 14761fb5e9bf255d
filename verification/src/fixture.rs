//! Fixtures: the rendering targets that receive color events.
//!
//! A fixture owns a small ordered buffer of events, newest at the front.
//! Each tick it prunes events that no longer matter — everything older
//! than the newest fully-attacked event — and on demand folds the buffer,
//! oldest to newest, into the one color it currently shows.
use std::collections::VecDeque;

use vstd::prelude::*;

use crate::arena::arena_after_drops;
use crate::arena::count_matching;
use crate::arena::counts_bounded;
use crate::arena::handles_valid;
use crate::arena::lemma_count_positive;
use crate::arena::lemma_count_push_front;
use crate::arena::lemma_count_split;
use crate::arena::lemma_count_take_step;
use crate::arena::live_in;
use crate::arena::EventArena;
use crate::arena::SlotView;
use crate::arena::StrongHandle;
use crate::color::Color;
use crate::event::ColorEvent;
use crate::unipolar::Unipolar;

verus! {

/// A stable numeric id addressing one fixture slot.
#[derive(Hash, Copy, Clone, PartialEq, Eq, PartialOrd, Ord, Debug, Structural)]
pub struct FixtureId(pub u32);

/// The events a handle buffer points at, in buffer order (newest first).
pub open spec fn buffer_events<C: Color>(
    handles: Seq<StrongHandle>,
    v: Seq<SlotView<C>>,
) -> Seq<ColorEvent<C>> {
    handles.map_values(|h: StrongHandle| v[h.idx()].entry->Some_0.event)
}

/// `j` is the position of the newest event whose attack is complete.
pub open spec fn is_first_complete<C: Color>(events: Seq<ColorEvent<C>>, j: int) -> bool {
    &&& 0 <= j < events.len()
    &&& events[j].envelope.attack_complete_spec()
    &&& forall|m: int|
        0 <= m < j ==> !(#[trigger] events[m]).envelope.attack_complete_spec()
}

/// How many buffer entries a prune keeps: everything down to the newest
/// fully-attacked event (older events are occluded and dropped), the whole
/// buffer if no attack is complete — except that a lone closed event is
/// dropped too, leaving the buffer empty.
pub open spec fn prune_keep<C: Color>(events: Seq<ColorEvent<C>>) -> int {
    let base = if exists|j: int| is_first_complete(events, j) {
        (choose|j: int| is_first_complete(events, j)) + 1
    } else {
        events.len() as int
    };
    if base == 1 && events[0].envelope.value is None {
        0
    } else {
        base
    }
}

/// The intensity an event contributes to a blend: its envelope value, or
/// zero once the envelope has closed.
pub open spec fn intensity_of<C: Color>(e: ColorEvent<C>) -> Unipolar {
    match e.envelope.value {
        Some(v) => v,
        None => Unipolar::from_int(0),
    }
}

/// The color a buffer of events (newest first) renders: a fold from the
/// oldest event towards the newest.  A fully-attacked event occludes
/// everything older outright; an event still ramping in is blended over
/// the accumulated color, weighted by its own intensity.  An empty buffer
/// renders black.
pub open spec fn render_fold<C: Color>(events: Seq<ColorEvent<C>>) -> C
    decreases events.len(),
{
    if events.len() == 0 {
        C::black_spec()
    } else if events.len() == 1 {
        events[0].value
    } else if events[0].envelope.attack_complete_spec() {
        events[0].value
    } else {
        render_fold(events.skip(1)).weighted_interpolation_spec(
            events[0].value,
            intensity_of(events[0]),
        )
    }
}

/// A fixture that can receive color organ events.
/// Stores a buffer of color events it is listening to, and knows how to
/// interpolate between them if multiple events are present.
pub struct Fixture {
    /// FIFO buffer of color events.  Newer events will evict older events after
    /// an interpolated transition.
    event_buffer: VecDeque<StrongHandle>,
}

impl View for Fixture {
    type V = Seq<StrongHandle>;

    closed spec fn view(&self) -> Seq<StrongHandle> {
        self.event_buffer@
    }
}

impl Fixture {
    pub fn new() -> (r: Fixture)
        ensures
            r@ == Seq::<StrongHandle>::empty(),
    {
        Fixture { event_buffer: VecDeque::new() }
    }

    /// Clear all events from the buffer, giving every handle back to the
    /// arena: an unconditional blackout for this fixture.
    pub fn clear<C: Color>(&mut self, arena: &mut EventArena<C>)
        requires
            handles_valid(old(self)@, old(arena)@),
            counts_bounded(old(self)@, old(arena)@),
        ensures
            final(self)@ == Seq::<StrongHandle>::empty(),
            arena_after_drops(old(arena)@, final(arena)@, old(self)@),
    {
        self.drop_tail(arena, 0);
        proof {
            assert(old(self)@.take(0) =~= Seq::<StrongHandle>::empty());
            assert(old(self)@.skip(0) =~= old(self)@);
        }
    }

    /// Push a newly arrived event to the front of the buffer, taking
    /// ownership of the handle.
    pub fn add_event(&mut self, event: StrongHandle)
        ensures
            final(self)@ == seq![event] + old(self)@,
    {
        self.event_buffer.push_front(event);
    }

    /// Update the state of this fixture's event buffer.
    /// Drop all events that the fixture is no longer responding to: once an
    /// event has completed its attack it fully occludes everything older,
    /// so everything older is dropped; and a lone closed event is dropped,
    /// letting the fixture go dark.
    pub fn update<C: Color>(&mut self, arena: &mut EventArena<C>)
        requires
            handles_valid(old(self)@, old(arena)@),
            counts_bounded(old(self)@, old(arena)@),
        ensures
            final(self)@.len() <= old(self)@.len(),
            final(self)@ == old(self)@.take(final(self)@.len() as int),
            final(self)@ == old(self)@.take(
                prune_keep(buffer_events(old(self)@, old(arena)@)),
            ),
            arena_after_drops(
                old(arena)@,
                final(arena)@,
                old(self)@.skip(final(self)@.len() as int),
            ),
            handles_valid(final(self)@, final(arena)@),
            counts_bounded(final(self)@, final(arena)@),
            // After a prune the buffer never holds an event behind one
            // whose attack is complete: a fully-attacked event can only be
            // the last (oldest) entry.
            forall|m: int|
                0 <= m < final(self)@.len() - 1 ==> !(#[trigger] buffer_events(
                    final(self)@,
                    final(arena)@,
                )[m]).envelope.attack_complete_spec(),
    {
        let ghost b0 = self@;
        let ghost a0 = arena@;
        let ghost events = buffer_events(b0, a0);
        let len = self.event_buffer.len();
        // Find the newest event with a completed attack; everything older
        // is no longer relevant.
        let mut keep: usize = len;
        let mut m: usize = 0;
        let mut found = false;
        while m < len && !found
            invariant
                0 <= m <= len,
                b0 == old(self)@,
                a0 == old(arena)@,
                self@ == b0,
                arena@ == a0,
                len == b0.len(),
                events == buffer_events(b0, a0),
                handles_valid(b0, a0),
                found ==> (is_first_complete(events, m as int) && keep == m + 1 && m < len),
                !found ==> (keep == len && forall|q: int|
                    0 <= q < m ==> !(#[trigger] events[q]).envelope.attack_complete_spec()),
            decreases len - m + if found {
                0int
            } else {
                1int
            },
        {
            let h = &self.event_buffer[m];
            if arena.event(h).envelope().attack_complete() {
                keep = m + 1;
                found = true;
            } else {
                m = m + 1;
            }
        }
        // A lone event that has closed is dropped as well, so the fixture
        // goes dark and later events start from an empty buffer.
        if keep == 1 {
            let h = &self.event_buffer[0];
            let e = arena.event(h);
            proof {
                assert(self@[0] == b0[0]);
                assert(*e == events[0]);
            }
            if e.envelope().closed() {
                keep = 0;
            }
        }
        proof {
            lemma_prune_keep_agrees(events, keep as int, found, m as int, len as int);
        }
        self.drop_tail(arena, keep);
        proof {
            assert forall|q: int| 0 <= q < self@.len() - 1 implies !(#[trigger] buffer_events(
                self@,
                arena@,
            )[q]).envelope.attack_complete_spec() by {
                assert(self@[q] == b0.take(keep as int)[q]);
                let hq = b0[q];
                assert(self@[q] == hq);
                assert(live_in(a0, hq.idx(), hq.gen()));
                assert(live_in(arena@, hq.idx(), hq.gen()));
                let i = hq.idx();
                assert(arena@[i].entry->Some_0.event == a0[i].entry->Some_0.event);
                assert(buffer_events(self@, arena@)[q] == arena@[i].entry->Some_0.event);
                assert(events[q] == a0[i].entry->Some_0.event);
                assert(q < keep - 1);
                if found {
                    assert(q < m as int);
                }
            }
        }
    }

    /// Return the current color for this fixture.
    pub fn render<C: Color>(&self, arena: &EventArena<C>) -> (r: C)
        requires
            handles_valid(self@, arena@),
        ensures
            r == render_fold(buffer_events(self@, arena@)),
    {
        let ghost events = buffer_events(self@, arena@);
        let n = self.event_buffer.len();
        if n == 0 {
            return C::black();
        }
        // Fold backwards over all events in the buffer, interpolating each
        // pair of color events from the oldest to the newest.
        let mut acc = *arena.event(&self.event_buffer[n - 1]).value();
        proof {
            assert(events.skip(n as int - 1) =~= seq![events[n as int - 1]]);
        }
        let mut m: usize = n - 1;
        while m > 0
            invariant
                0 <= m < n,
                n == self@.len(),
                handles_valid(self@, arena@),
                events == buffer_events(self@, arena@),
                acc == render_fold(events.skip(m as int)),
            decreases m,
        {
            let e = arena.event(&self.event_buffer[m - 1]);
            if e.envelope().attack_complete() {
                acc = *e.value();
            } else {
                let intensity = match e.envelope().value() {
                    Some(v) => v,
                    None => {
                        let z = Unipolar::zero();
                        proof {
                            crate::unipolar::lemma_from_int_exact(z, 0);
                        }
                        z
                    },
                };
                acc = acc.weighted_interpolation(e.value(), intensity);
            }
            proof {
                assert(events.skip(m as int - 1).skip(1) =~= events.skip(m as int));
                assert(events.skip(m as int - 1)[0] == events[m as int - 1]);
                assert(events.skip(m as int - 1).len() >= 2);
            }
            m = m - 1;
        }
        proof {
            assert(events.skip(0) =~= events);
        }
        acc
    }

    /// Give the handles behind position `keep` back to the arena and
    /// truncate the buffer to its first `keep` entries.
    fn drop_tail<C: Color>(&mut self, arena: &mut EventArena<C>, keep: usize)
        requires
            keep <= old(self)@.len(),
            handles_valid(old(self)@, old(arena)@),
            counts_bounded(old(self)@, old(arena)@),
        ensures
            final(self)@ == old(self)@.take(keep as int),
            arena_after_drops(old(arena)@, final(arena)@, old(self)@.skip(keep as int)),
            handles_valid(final(self)@, final(arena)@),
            counts_bounded(final(self)@, final(arena)@),
    {
        let ghost b0 = self@;
        let ghost a0 = arena@;
        let mut n = self.event_buffer.len();
        proof {
            assert(b0.take(n as int) =~= b0);
            assert(b0.skip(n as int) =~= Seq::<StrongHandle>::empty());
        }
        while n > keep
            invariant
                keep <= n <= b0.len(),
                b0 == old(self)@,
                a0 == old(arena)@,
                n == self.event_buffer.len(),
                self@ == b0.take(n as int),
                handles_valid(b0, a0),
                counts_bounded(b0, a0),
                arena_after_drops(a0, arena@, b0.skip(n as int)),
            decreases n,
        {
            let h = match self.event_buffer.pop_back() {
                Some(h) => h,
                None => {
                    proof {
                        assert(false);
                    }
                    unreached()
                },
            };
            proof {
                assert(b0.take(n as int).last() == b0[n as int - 1]);
                assert(h == b0[n as int - 1]);
                assert(self@ =~= b0.take(n as int - 1));
                let i = h.idx();
                assert(live_in(a0, i, h.gen()));
                let g = a0[i].generation;
                lemma_count_split(b0, n as int, i, g);
                lemma_count_take_step(b0, n as int, i, g);
                lemma_count_positive(b0.take(n as int - 1 + 1), n as int - 1);
                assert(b0.take(n as int - 1 + 1) =~= b0.take(n as int));
                // The slot is still occupied: the handles not yet dropped
                // account for at least this one owner.
                assert(count_matching(b0.skip(n as int), i, g) < a0[i].entry->Some_0.strong);
                assert(arena.strong_valid(h));
            }
            arena.drop_strong(h);
            proof {
                assert(b0.skip(n as int - 1) =~= seq![b0[n as int - 1]] + b0.skip(n as int));
                assert forall|i2: int| 0 <= i2 < a0.len() implies {
                    let d = count_matching(b0.skip(n as int - 1), i2, (#[trigger] a0[i2]).generation);
                    &&& arena@[i2].generation == a0[i2].generation
                    &&& (a0[i2].entry is None ==> arena@[i2] == a0[i2])
                    &&& (a0[i2].entry is Some ==> if d == 0 {
                        arena@[i2] == a0[i2]
                    } else if d < a0[i2].entry->Some_0.strong {
                        &&& arena@[i2].entry is Some
                        &&& arena@[i2].entry->Some_0.strong == a0[i2].entry->Some_0.strong - d
                        &&& arena@[i2].entry->Some_0.event == a0[i2].entry->Some_0.event
                    } else {
                        arena@[i2].entry is None
                    })
                } by {
                    lemma_count_push_front(
                        b0.skip(n as int),
                        b0[n as int - 1],
                        i2,
                        a0[i2].generation,
                    );
                }
                assert(arena_after_drops(a0, arena@, b0.skip(n as int - 1)));
            }
            n = n - 1;
        }
        proof {
            lemma_drops_keep_validity(b0, keep as int, a0, arena@);
        }
    }
}

/// Cached event colors agree with their envelopes: a closed envelope's
/// event shows black.  Updates keep events in this state, since closing
/// happens only inside an update, which recomputes the cached color.
pub open spec fn values_coherent<C: Color>(events: Seq<ColorEvent<C>>) -> bool {
    forall|m: int|
        0 <= m < events.len() ==> ((#[trigger] events[m]).envelope.value is None ==> events[m].value
            == C::black_spec())
}

/// Pruning never changes the rendered color: a fully-attacked event
/// occludes everything older in the render fold exactly as the prune rule
/// drops it, and a lone closed event already rendered black.  Buffer
/// contents and rendered output never disagree about which events matter.
pub proof fn law_prune_preserves_render<C: Color>(events: Seq<ColorEvent<C>>)
    requires
        values_coherent(events),
    ensures
        render_fold(events.take(prune_keep(events))) == render_fold(events),
{
    let keep = prune_keep(events);
    if exists|j: int| is_first_complete(events, j) {
        let j = choose|j: int| is_first_complete(events, j);
        if j + 1 == 1 && events[0].envelope.value is None {
            // A lone kept event that has closed: the buffer is emptied,
            // and both sides render black.
            assert(keep == 0);
            assert(events.take(0) =~= Seq::<ColorEvent<C>>::empty());
            lemma_render_first_complete(events, 0);
            assert(render_fold(events) == events[0].value);
        } else {
            assert(keep == j + 1);
            lemma_render_drops_occluded(events, j);
        }
    } else {
        if events.len() == 1 && events[0].envelope.value is None {
            assert(keep == 0);
            assert(events.take(0) =~= Seq::<ColorEvent<C>>::empty());
            assert(render_fold(events) == events[0].value);
        } else {
            assert(keep == events.len());
            assert(events.take(events.len() as int) =~= events);
        }
    }
}

/// A buffer whose newest event has a complete attack renders that event's
/// value outright.
proof fn lemma_render_first_complete<C: Color>(events: Seq<ColorEvent<C>>, j: int)
    requires
        is_first_complete(events, j),
        j == 0,
    ensures
        render_fold(events) == events[0].value,
{
}

/// Truncating behind the newest fully-attacked event leaves the fold's
/// result untouched: the fold discards the occluded suffix at that event
/// anyway.
proof fn lemma_render_drops_occluded<C: Color>(events: Seq<ColorEvent<C>>, j: int)
    requires
        is_first_complete(events, j),
    ensures
        render_fold(events.take(j + 1)) == render_fold(events),
    decreases j,
{
    let kept = events.take(j + 1);
    if j == 0 {
        lemma_render_first_complete(events, 0);
        assert(kept.len() == 1);
        assert(kept[0] == events[0]);
    } else {
        assert(!events[0].envelope.attack_complete_spec());
        assert(events.len() >= j + 1);
        assert(kept[0] == events[0]);
        assert(kept.len() == j + 1 >= 2);
        assert(kept.skip(1) =~= events.skip(1).take(j));
        assert(is_first_complete(events.skip(1), j - 1)) by {
            assert(events.skip(1)[j - 1] == events[j]);
            assert forall|m: int|
                0 <= m < j - 1 implies !(#[trigger] events.skip(1)[m]).envelope.attack_complete_spec() by {
                assert(events.skip(1)[m] == events[m + 1]);
            }
        }
        lemma_render_drops_occluded(events.skip(1), j - 1);
        assert(render_fold(events) == render_fold(events.skip(1)).weighted_interpolation_spec(
            events[0].value,
            intensity_of(events[0]),
        ));
        assert(render_fold(kept) == render_fold(kept.skip(1)).weighted_interpolation_spec(
            kept[0].value,
            intensity_of(kept[0]),
        ));
    }
}

/// The keep count the pruning scan computed is the one the specification
/// names.
proof fn lemma_prune_keep_agrees<C: Color>(
    events: Seq<ColorEvent<C>>,
    keep: int,
    found: bool,
    m: int,
    len: int,
)
    requires
        len == events.len(),
        found ==> is_first_complete(events, m),
        !found ==> m == len && (forall|q: int|
            0 <= q < len ==> !(#[trigger] events[q]).envelope.attack_complete_spec()),
        ({
            let base = if found {
                m + 1
            } else {
                len
            };
            keep == if base == 1 && events[0].envelope.value is None {
                0int
            } else {
                base
            }
        }),
    ensures
        keep == prune_keep(events),
{
    if found {
        let j = choose|j: int| is_first_complete(events, j);
        assert(is_first_complete(events, j));
        if j < m {
            assert(!events[j].envelope.attack_complete_spec());
            assert(false);
        }
        if m < j {
            assert(!events[m].envelope.attack_complete_spec());
            assert(false);
        }
    } else {
        if exists|j: int| is_first_complete(events, j) {
            let j = choose|j: int| is_first_complete(events, j);
            assert(!events[j].envelope.attack_complete_spec());
            assert(false);
        }
    }
}

/// After the dropped suffix is given back, the kept prefix still points at
/// live slots, and still owns no more than each slot's remaining count.
proof fn lemma_drops_keep_validity<C: Color>(
    b0: Seq<StrongHandle>,
    keep: int,
    a0: Seq<SlotView<C>>,
    a1: Seq<SlotView<C>>,
)
    requires
        0 <= keep <= b0.len(),
        handles_valid(b0, a0),
        counts_bounded(b0, a0),
        arena_after_drops(a0, a1, b0.skip(keep)),
    ensures
        handles_valid(b0.take(keep), a1),
        counts_bounded(b0.take(keep), a1),
{
    assert forall|m: int| 0 <= m < b0.take(keep).len() implies live_in(
        a1,
        (#[trigger] b0.take(keep)[m]).idx(),
        b0.take(keep)[m].gen(),
    ) by {
        let h = b0.take(keep)[m];
        assert(h == b0[m]);
        assert(live_in(a0, h.idx(), h.gen()));
        let i = h.idx();
        let g = a0[i].generation;
        lemma_count_split(b0, keep, i, g);
        lemma_count_positive(b0.take(keep), m);
        assert(count_matching(b0.skip(keep), i, g) < a0[i].entry->Some_0.strong);
    }
    assert forall|i: int| 0 <= i < a1.len() && (#[trigger] a1[i]).entry is Some implies count_matching(
        b0.take(keep),
        i,
        a1[i].generation,
    ) <= a1[i].entry->Some_0.strong by {
        let g = a0[i].generation;
        if a0[i].entry is Some {
            lemma_count_split(b0, keep, i, g);
        } else {
            assert(a1[i] == a0[i]);
        }
    }
}

} // verus!
