//! A registry of weak references to the active color events.
//!
//! The store never owns an event — it holds weak handles only, so it never
//! keeps a dead event alive.  Its whole job is fan-out: release-by-id to
//! every live event, and the once-per-tick time advance.  Because the
//! advance happens here, centrally, an event shared by several fixtures is
//! advanced exactly once per tick, however many fixtures reference it.
use vstd::prelude::*;

use crate::arena::EventArena;
use crate::arena::SlotView;
use crate::arena::StrongHandle;
use crate::arena::WeakHandle;
use crate::color::Color;
use crate::event::ReleaseId;
use crate::time::Duration;

verus! {

/// True if some handle in the sequence points at this slot and generation.
pub open spec fn watches(handles: Seq<WeakHandle>, index: int, generation: u64) -> bool {
    exists|k: int|
        0 <= k < handles.len() && handles[k].idx() == index && handles[k].gen() == generation
}

/// The liveness test for weak handles against a fixed arena state.
pub open spec fn live_pred<C: Color>(v: Seq<SlotView<C>>) -> spec_fn(WeakHandle) -> bool {
    |w: WeakHandle| crate::arena::live_in(v, w.idx(), w.gen())
}

/// No two handles point at the same slot and generation — that is, at the
/// same event.  The store stays in this state because each event is
/// registered once, when it is created under a generation never issued
/// before.
pub open spec fn distinct_handles(handles: Seq<WeakHandle>) -> bool {
    forall|a: int, b: int|
        0 <= a < b < handles.len() ==> !(handles[a].idx() == handles[b].idx() && handles[a].gen()
            == handles[b].gen())
}

/// What a release broadcast leaves in one arena slot: a watched, occupied
/// slot's event is released (when its id matches); everything else — the
/// generation, the owner count, unwatched or empty slots — is untouched.
pub open spec fn slot_after_release<C: Color>(
    s: SlotView<C>,
    watched: bool,
    release_id: ReleaseId,
) -> SlotView<C> {
    match s.entry {
        Some(e) => if watched {
            SlotView {
                generation: s.generation,
                entry: Some(
                    crate::arena::EntryView { event: e.event.release_spec(release_id), strong: e.strong },
                ),
            }
        } else {
            s
        },
        None => s,
    }
}

/// What a tick leaves in one arena slot: a watched, occupied slot's event
/// advances by the tick once; everything else is untouched.
pub open spec fn slot_after_step<C: Color>(
    s: SlotView<C>,
    watched: bool,
    delta_t: Duration,
) -> SlotView<C> {
    match s.entry {
        Some(e) => if watched {
            SlotView {
                generation: s.generation,
                entry: Some(
                    crate::arena::EntryView { event: e.event.step_spec(delta_t), strong: e.strong },
                ),
            }
        } else {
            s
        },
        None => s,
    }
}

/// A collection of active color events, held weakly.
pub struct ColorEventStore {
    handles: Vec<WeakHandle>,
}

impl View for ColorEventStore {
    type V = Seq<WeakHandle>;

    closed spec fn view(&self) -> Seq<WeakHandle> {
        self.handles@
    }
}

impl ColorEventStore {
    pub fn new() -> (r: ColorEventStore)
        ensures
            r@ == Seq::<WeakHandle>::empty(),
    {
        ColorEventStore { handles: Vec::new() }
    }

    /// Register an event: the store starts watching it, without owning it.
    pub fn add<C: Color>(&mut self, arena: &EventArena<C>, event: &StrongHandle)
        ensures
            final(self)@.len() == old(self)@.len() + 1,
            final(self)@.last().idx() == event.idx(),
            final(self)@.last().gen() == event.gen(),
            final(self)@.drop_last() == old(self)@,
    {
        let w = arena.downgrade(event);
        self.handles.push(w);
        proof {
            assert(self@.drop_last() =~= old(self)@);
        }
    }

    /// Release all events with the given release ID.  Dead handles are
    /// skipped: an event may legitimately have expired before its release
    /// arrives, so that is a normal outcome, not an error.
    pub fn release<C: Color>(&mut self, arena: &mut EventArena<C>, release_id: ReleaseId)
        ensures
            final(self)@ == old(self)@,
            final(arena)@.len() == old(arena)@.len(),
            forall|i: int|
                0 <= i < old(arena)@.len() ==> final(arena)@[i] == slot_after_release(
                    old(arena)@[i],
                    watches(old(self)@, i, old(arena)@[i].generation),
                    release_id,
                ),
    {
        let ghost handles0 = self@;
        let mut k: usize = 0;
        while k < self.handles.len()
            invariant
                0 <= k <= self.handles.len(),
                self@ == handles0,
                handles0 == old(self)@,
                arena@.len() == old(arena)@.len(),
                forall|i: int|
                    0 <= i < old(arena)@.len() ==> arena@[i] == slot_after_release(
                        old(arena)@[i],
                        watches(handles0.take(k as int), i, old(arena)@[i].generation),
                        release_id,
                    ),
            decreases self.handles.len() - k,
        {
            let w = self.handles[k];
            match arena.get_event(w) {
                Some(event) => {
                    let mut event = event;
                    event.release(release_id);
                    arena.set_event(w, event);
                },
                None => {},
            }
            proof {
                assert forall|i: int| 0 <= i < old(arena)@.len() implies arena@[i]
                    == slot_after_release(
                    old(arena)@[i],
                    watches(handles0.take(k as int + 1), i, old(arena)@[i].generation),
                    release_id,
                ) by {
                    lemma_watches_take_unroll(
                        handles0,
                        k as int,
                        i,
                        old(arena)@[i].generation,
                    );
                }
            }
            k = k + 1;
        }
        proof {
            assert(handles0.take(self.handles.len() as int) =~= handles0);
        }
    }

    /// Update the state of all the events in this store, dropping handles
    /// whose event has expired.  This is the one place events are advanced:
    /// each live event steps exactly once per call.
    pub fn update<C: Color>(&mut self, arena: &mut EventArena<C>, delta_t: Duration)
        requires
            distinct_handles(old(self)@),
        ensures
            final(self)@ == old(self)@.filter(live_pred(old(arena)@)),
            // only handles whose event is still owned somewhere survive
            forall|m: int|
                0 <= m < final(self)@.len() ==> crate::arena::live_in(
                    old(arena)@,
                    (#[trigger] final(self)@[m]).idx(),
                    final(self)@[m].gen(),
                ),
            final(arena)@.len() == old(arena)@.len(),
            forall|i: int|
                0 <= i < old(arena)@.len() ==> final(arena)@[i] == slot_after_step(
                    old(arena)@[i],
                    watches(final(self)@, i, old(arena)@[i].generation),
                    delta_t,
                ),
    {
        self.clean(arena);
        proof {
            lemma_filter_keeps_distinct(old(self)@, live_pred(old(arena)@));
            lemma_filter_keeps_live(old(arena)@, old(self)@);
        }
        let ghost handles0 = self@;
        let mut k: usize = 0;
        while k < self.handles.len()
            invariant
                0 <= k <= self.handles.len(),
                self@ == handles0,
                handles0 == old(self)@.filter(live_pred(old(arena)@)),
                distinct_handles(handles0),
                forall|m: int| 0 <= m < handles0.len() ==> old(arena).weak_live(#[trigger] handles0[m]),
                arena@.len() == old(arena)@.len(),
                forall|i: int|
                    0 <= i < old(arena)@.len() ==> arena@[i] == slot_after_step(
                        old(arena)@[i],
                        watches(handles0.take(k as int), i, old(arena)@[i].generation),
                        delta_t,
                    ),
            decreases self.handles.len() - k,
        {
            let w = self.handles[k];
            match arena.get_event(w) {
                Some(event) => {
                    let mut event = event;
                    event.update_state(delta_t);
                    arena.set_event(w, event);
                },
                None => {},
            }
            proof {
                assert forall|i: int| 0 <= i < old(arena)@.len() implies arena@[i]
                    == slot_after_step(
                    old(arena)@[i],
                    watches(handles0.take(k as int + 1), i, old(arena)@[i].generation),
                    delta_t,
                ) by {
                    lemma_watches_take_unroll(
                        handles0,
                        k as int,
                        i,
                        old(arena)@[i].generation,
                    );
                }
            }
            k = k + 1;
        }
        proof {
            assert(handles0.take(self.handles.len() as int) =~= handles0);
        }
    }

    /// Remove all events that are no longer alive.
    fn clean<C: Color>(&mut self, arena: &EventArena<C>)
        ensures
            final(self)@ == old(self)@.filter(live_pred(arena@)),
    {
        let mut kept: Vec<WeakHandle> = Vec::new();
        let mut k: usize = 0;
        while k < self.handles.len()
            invariant
                0 <= k <= self.handles.len(),
                self@ == old(self)@,
                kept@ == old(self)@.take(k as int).filter(live_pred(arena@)),
            decreases self.handles.len() - k,
        {
            let w = self.handles[k];
            proof {
                reveal(Seq::filter);
                assert(old(self)@.take(k as int + 1).drop_last() =~= old(self)@.take(k as int));
                assert(old(self)@.take(k as int + 1).last() == old(self)@[k as int]);
            }
            if arena.is_live(w) {
                kept.push(w);
            }
            k = k + 1;
        }
        proof {
            assert(old(self)@.take(self.handles.len() as int) =~= old(self)@);
        }
        self.handles = kept;
    }
}

/// Every element of a filtered sequence stands somewhere in the original.
proof fn lemma_filter_element_origin<A>(s: Seq<A>, pred: spec_fn(A) -> bool, a: int)
    requires
        0 <= a < s.filter(pred).len(),
    ensures
        exists|m: int| 0 <= m < s.len() && s[m] == s.filter(pred)[a],
    decreases s.len(),
{
    reveal(Seq::filter);
    if s.len() > 0 {
        let prefix = s.drop_last();
        if pred(s.last()) {
            if a < prefix.filter(pred).len() {
                lemma_filter_element_origin(prefix, pred, a);
                let m = choose|m: int|
                    0 <= m < prefix.len() && prefix[m] == prefix.filter(pred)[a];
                assert(s[m] == s.filter(pred)[a]);
            } else {
                assert(s[s.len() - 1] == s.filter(pred)[a]);
            }
        } else {
            lemma_filter_element_origin(prefix, pred, a);
            let m = choose|m: int|
                0 <= m < prefix.len() && prefix[m] == prefix.filter(pred)[a];
            assert(s[m] == s.filter(pred)[a]);
        }
    }
}

/// Filtering keeps handles pairwise distinct.
pub proof fn lemma_filter_keeps_distinct(handles: Seq<WeakHandle>, pred: spec_fn(WeakHandle) -> bool)
    requires
        distinct_handles(handles),
    ensures
        distinct_handles(handles.filter(pred)),
    decreases handles.len(),
{
    reveal(Seq::filter);
    if handles.len() > 0 {
        let prefix = handles.drop_last();
        assert(distinct_handles(prefix));
        lemma_filter_keeps_distinct(prefix, pred);
        let filtered = handles.filter(pred);
        if pred(handles.last()) {
            assert(filtered == prefix.filter(pred).push(handles.last()));
            assert forall|a: int, b: int| 0 <= a < b < filtered.len() implies !(filtered[a].idx()
                == filtered[b].idx() && filtered[a].gen() == filtered[b].gen()) by {
                if b == filtered.len() - 1 {
                    assert(filtered[b] == handles.last());
                    assert(filtered[a] == prefix.filter(pred)[a]);
                    lemma_filter_element_origin(prefix, pred, a);
                    let m = choose|m: int|
                        0 <= m < prefix.len() && prefix[m] == prefix.filter(pred)[a];
                    assert(handles[m] == filtered[a]);
                    assert(handles.last() == handles[handles.len() - 1]);
                }
            }
        }
    }
}

/// Every handle that survives the liveness filter is live.
pub proof fn lemma_filter_keeps_live<C: Color>(v: Seq<SlotView<C>>, handles: Seq<WeakHandle>)
    ensures
        forall|m: int|
            0 <= m < handles.filter(live_pred::<C>(v)).len() ==> crate::arena::live_in(
                v,
                (#[trigger] handles.filter(live_pred::<C>(v))[m]).idx(),
                handles.filter(live_pred::<C>(v))[m].gen(),
            ),
{
    assert forall|m: int| 0 <= m < handles.filter(live_pred::<C>(v)).len() implies crate::arena::live_in(
        v,
        (handles.filter(live_pred::<C>(v))[m]).idx(),
        handles.filter(live_pred::<C>(v))[m].gen(),
    ) by {
        handles.lemma_filter_pred(live_pred::<C>(v), m);
    }
}

/// A one-handle-longer prefix watches a slot exactly when the shorter
/// prefix does, or the added handle itself points there.
proof fn lemma_watches_take_unroll(
    handles: Seq<WeakHandle>,
    k: int,
    index: int,
    generation: u64,
)
    requires
        0 <= k < handles.len(),
    ensures
        watches(handles.take(k + 1), index, generation) == (watches(
            handles.take(k),
            index,
            generation,
        ) || (handles[k].idx() == index && handles[k].gen() == generation)),
{
    let longer = handles.take(k + 1);
    let shorter = handles.take(k);
    if watches(longer, index, generation) {
        let m = choose|m: int|
            0 <= m < longer.len() && longer[m].idx() == index && longer[m].gen() == generation;
        if m < k {
            assert(shorter[m] == longer[m]);
            assert(watches(shorter, index, generation));
        } else {
            assert(longer[m] == handles[k]);
        }
    }
    if watches(shorter, index, generation) {
        let m = choose|m: int|
            0 <= m < shorter.len() && shorter[m].idx() == index && shorter[m].gen() == generation;
        assert(longer[m] == shorter[m]);
        assert(watches(longer, index, generation));
    }
    if handles[k].idx() == index && handles[k].gen() == generation {
        assert(longer[k] == handles[k]);
        assert(watches(longer, index, generation));
    }
}

} // verus!
