//! The color organ: turns note-on / note-off triggers into evolving colors
//! on a set of fixtures.
//!
//! On note-on it builds a color event from the envelope generator's current
//! parameters, registers it weakly with the store, and hands an owning
//! handle to every fixture the bank routes it to.  On note-off it asks the
//! store to broadcast the release.  On each tick it advances every live
//! event once (through the store) and then lets every fixture prune its
//! buffer.  Colors are read back per fixture id.
use vstd::prelude::*;

use crate::arena::arena_after_drops;
use crate::arena::count_matching;
use crate::arena::handles_valid;
use crate::arena::lemma_count_positive;
use crate::arena::lemma_count_push_front;
use crate::arena::lemma_count_split;
use crate::arena::live_in;
use crate::arena::EventArena;
use crate::arena::SlotView;
use crate::arena::StrongHandle;
use crate::arena::WeakHandle;
use crate::bank::Banks;
use crate::color::enveloped_spec;
use crate::color::Color;
use crate::color::HsluvColor;
use crate::envelope::envelope_value_unipolar;
use crate::envelope::Envelope;
use crate::envelope_gen::EnvelopeGenerator;
use crate::event::ColorEvent;
use crate::event::ReleaseId;
use crate::fixture::buffer_events;
use crate::fixture::prune_keep;
use crate::fixture::render_fold;
use crate::fixture::Fixture;
use crate::fixture::FixtureId;
use crate::store::distinct_handles;
use crate::store::slot_after_release;
use crate::store::watches;
use crate::store::ColorEventStore;
use crate::time::Duration;
use crate::unipolar::Unipolar;

verus! {

pub type ColorOrganHsluv = ColorOrgan<HsluvColor>;

/// How many handles over all fixture buffers point at the given slot and
/// generation: the total ownership of one event by the fixtures.
pub open spec fn total_refs(
    bufs: Seq<Seq<StrongHandle>>,
    index: int,
    generation: u64,
) -> nat
    decreases bufs.len(),
{
    if bufs.len() == 0 {
        0
    } else {
        total_refs(bufs.drop_last(), index, generation) + count_matching(
            bufs.last(),
            index,
            generation,
        )
    }
}

/// The event a note-on builds: the trigger's color anchored to a fresh
/// envelope cut from the generator's current parameters.
pub open spec fn fresh_event<C: Color>(
    generator: EnvelopeGenerator,
    color: C,
    release_id: ReleaseId,
) -> ColorEvent<C> {
    let parameters = generator.generate_spec();
    let envelope = Envelope {
        parameters,
        elapsed: Duration { nanos: 0 },
        released: false,
        value: envelope_value_unipolar(parameters, 0, false, 0),
        release_elapsed: Duration { nanos: 0 },
    };
    ColorEvent { color, envelope, release_id, value: enveloped_spec(color, envelope.value) }
}

/// How many of the routed ids address an existing fixture slot.
pub open spec fn valid_count(ids: Seq<FixtureId>, fixture_count: int) -> nat
    decreases ids.len(),
{
    if ids.len() == 0 {
        0
    } else {
        valid_count(ids.drop_last(), fixture_count) + if (ids.last().0 as int) < fixture_count {
            1nat
        } else {
            0nat
        }
    }
}

/// Extending a prefix of the routed ids by one raises the valid count by
/// that id's own validity.
proof fn lemma_valid_count_take_step(ids: Seq<FixtureId>, k: int, fixture_count: int)
    requires
        1 <= k <= ids.len(),
    ensures
        valid_count(ids.take(k), fixture_count) == valid_count(ids.take(k - 1), fixture_count)
            + if (ids[k - 1].0 as int) < fixture_count {
            1nat
        } else {
            0nat
        },
        valid_count(ids.take(k), fixture_count) <= k,
    decreases k,
{
    assert(ids.take(k).drop_last() =~= ids.take(k - 1));
    assert(ids.take(k).last() == ids[k - 1]);
    if k > 1 {
        lemma_valid_count_take_step(ids, k - 1, fixture_count);
    } else {
        assert(valid_count(ids.take(0), fixture_count) == 0);
    }
}

/// How many of the routed ids name one particular fixture: the number of
/// owning handles that fixture receives.
pub open spec fn id_count(ids: Seq<FixtureId>, fixture: int) -> nat
    decreases ids.len(),
{
    if ids.len() == 0 {
        0
    } else {
        id_count(ids.drop_last(), fixture) + if ids.last().0 as int == fixture {
            1nat
        } else {
            0nat
        }
    }
}

/// Extending a prefix of the routed ids by one raises a fixture's count by
/// that id's own match.
proof fn lemma_id_count_take_step(ids: Seq<FixtureId>, k: int, fixture: int)
    requires
        1 <= k <= ids.len(),
    ensures
        id_count(ids.take(k), fixture) == id_count(ids.take(k - 1), fixture) + if ids[k - 1].0
            as int == fixture {
            1nat
        } else {
            0nat
        },
{
    assert(ids.take(k).drop_last() =~= ids.take(k - 1));
    assert(ids.take(k).last() == ids[k - 1]);
}

/// No handle in a valid buffer points at a slot and generation that is not
/// live: in particular none points at a freshly issued generation.
proof fn lemma_count_zero_when_dead<C: Color>(
    buf: Seq<StrongHandle>,
    v: Seq<SlotView<C>>,
    index: int,
    generation: u64,
)
    requires
        handles_valid(buf, v),
        !live_in(v, index, generation),
    ensures
        count_matching(buf, index, generation) == 0,
    decreases buf.len(),
{
    if buf.len() > 0 {
        assert(handles_valid(buf.drop_last(), v)) by {
            assert(forall|m: int|
                0 <= m < buf.len() - 1 ==> buf.drop_last()[m] == (#[trigger] buf[m]));
        }
        lemma_count_zero_when_dead(buf.drop_last(), v, index, generation);
        assert(buf.last() == buf[buf.len() - 1]);
        if buf.last().idx() == index && buf.last().gen() == generation {
            assert(live_in(v, index, generation));
        }
    }
}

/// A slot and generation no buffer can point at has a zero total.
proof fn lemma_total_zero_when_dead<C: Color>(
    bufs: Seq<Seq<StrongHandle>>,
    v: Seq<SlotView<C>>,
    index: int,
    generation: u64,
)
    requires
        forall|f: int| 0 <= f < bufs.len() ==> handles_valid(#[trigger] bufs[f], v),
        !live_in(v, index, generation),
    ensures
        total_refs(bufs, index, generation) == 0,
    decreases bufs.len(),
{
    if bufs.len() > 0 {
        assert(forall|f: int|
            0 <= f < bufs.len() - 1 ==> bufs.drop_last()[f] == (#[trigger] bufs[f]));
        lemma_total_zero_when_dead(bufs.drop_last(), v, index, generation);
        assert(bufs.last() == bufs[bufs.len() - 1]);
        lemma_count_zero_when_dead(bufs.last(), v, index, generation);
    }
}

/// The arena as one tick's central advance leaves it: every slot the
/// store watches has its event stepped once by the tick; every other slot
/// is untouched.
pub open spec fn arena_after_tick<C: Color>(
    v0: Seq<SlotView<C>>,
    store: Seq<WeakHandle>,
    delta_t: Duration,
) -> Seq<SlotView<C>> {
    Seq::new(
        v0.len(),
        |i: int| crate::store::slot_after_step(v0[i], watches(store, i, v0[i].generation), delta_t),
    )
}

/// Handle give-backs never touch events: every slot still occupied holds
/// the event it held before, under the same generation.
pub open spec fn events_preserved<C: Color>(from: Seq<SlotView<C>>, to: Seq<SlotView<C>>) -> bool {
    &&& to.len() == from.len()
    &&& forall|i: int|
        0 <= i < from.len() ==> (#[trigger] to[i]).generation == from[i].generation && (to[i].entry
            is Some ==> from[i].entry is Some && to[i].entry->Some_0.event
            == from[i].entry->Some_0.event)
}

/// A buffer of live handles reads the same events out of two arena states
/// when the second preserves the first's events.
proof fn lemma_buffer_events_agree<C: Color>(
    buf: Seq<StrongHandle>,
    to: Seq<SlotView<C>>,
    from: Seq<SlotView<C>>,
)
    requires
        handles_valid(buf, to),
        events_preserved(from, to),
    ensures
        buffer_events(buf, to) == buffer_events(buf, from),
{
    assert forall|m: int| 0 <= m < buf.len() implies buffer_events(buf, to)[m] == buffer_events(
        buf,
        from,
    )[m] by {
        assert(live_in(to, buf[m].idx(), buf[m].gen()));
    }
    assert(buffer_events(buf, to) =~= buffer_events(buf, from));
}

/// The coherence of the organ's shared-ownership state:
/// - every handle a fixture holds still points at a live slot;
/// - each occupied slot's owner count is exactly the number of fixture
///   buffer entries holding it, and at least one;
/// - the store watches each event at most once, and never watches a slot
///   generation that has not been issued yet.
pub open spec fn organ_inv<C: Color>(
    v: Seq<SlotView<C>>,
    bufs: Seq<Seq<StrongHandle>>,
    store: Seq<WeakHandle>,
) -> bool {
    &&& forall|f: int| 0 <= f < bufs.len() ==> handles_valid(#[trigger] bufs[f], v)
    &&& forall|i: int|
        0 <= i < v.len() && (#[trigger] v[i]).entry is Some ==> v[i].entry->Some_0.strong
            == total_refs(bufs, i, v[i].generation) && v[i].entry->Some_0.strong >= 1
    &&& distinct_handles(store)
    &&& forall|k: int|
        0 <= k < store.len() ==> 0 <= (#[trigger] store[k]).idx() < v.len() && store[k].gen()
            <= v[store[k].idx()].generation
}

/// The composed color organ.
pub struct ColorOrgan<C: Color> {
    envelope_gen: EnvelopeGenerator,
    arena: EventArena<C>,
    event_store: ColorEventStore,
    banks: Banks,
    fixture_state: Vec<Fixture>,
}

impl<C: Color> ColorOrgan<C> {
    /// The arena slots holding the live events.
    pub closed spec fn arena_view(self) -> Seq<SlotView<C>> {
        self.arena@
    }

    /// The store's weak handles.
    pub closed spec fn store_view(self) -> Seq<WeakHandle> {
        self.event_store@
    }

    /// Every fixture's event buffer, by fixture id.
    pub closed spec fn buffers(self) -> Seq<Seq<StrongHandle>> {
        self.fixture_state@.map_values(|f: Fixture| f@)
    }

    /// How many fixtures the organ drives.
    pub closed spec fn fixture_count_spec(self) -> int {
        self.fixture_state@.len() as int
    }

    /// The envelope parameter source.
    pub closed spec fn envelope_gen_spec(self) -> EnvelopeGenerator {
        self.envelope_gen
    }

    /// The routing banks.
    pub closed spec fn banks_spec(self) -> Banks {
        self.banks
    }

    /// The organ's shared-ownership state is coherent, there is one buffer
    /// per fixture, and its banks can be run.  Established by the
    /// constructor, preserved by every operation.
    pub open spec fn wf(self) -> bool {
        &&& organ_inv(self.arena_view(), self.buffers(), self.store_view())
        &&& self.buffers().len() == self.fixture_count_spec()
        &&& self.banks_spec().wf()
    }

    pub fn new(fixture_count: usize) -> (r: ColorOrgan<C>)
        ensures
            r.wf(),
            r.fixture_count_spec() == fixture_count,
            r.store_view() == Seq::<WeakHandle>::empty(),
            r.envelope_gen_spec() == EnvelopeGenerator::new_spec(),
            forall|f: int|
                0 <= f < fixture_count ==> (#[trigger] r.buffers()[f]) == Seq::<
                    StrongHandle,
                >::empty(),
    {
        let mut fixture_state: Vec<Fixture> = Vec::new();
        let mut i: usize = 0;
        while i < fixture_count
            invariant
                0 <= i <= fixture_count,
                fixture_state@.len() == i,
                forall|f: int|
                    0 <= f < i ==> (#[trigger] fixture_state@[f])@ == Seq::<
                        StrongHandle,
                    >::empty(),
            decreases fixture_count - i,
        {
            fixture_state.push(Fixture::new());
            i = i + 1;
        }
        ColorOrgan {
            envelope_gen: EnvelopeGenerator::new(),
            arena: EventArena::new(),
            event_store: ColorEventStore::new(),
            banks: Banks::new(fixture_count),
            fixture_state,
        }
    }

    /// Handle a note on event: build a color event from the generator's
    /// current parameters, register it with the store, and hand an owning
    /// handle to every fixture the bank routes it to.  Ids with no backing
    /// fixture slot are skipped; an event routed to no fixture at all is
    /// gone by the time this returns (nothing owns it).
    pub fn note_on(&mut self, color: C, velocity: Unipolar, release_id: ReleaseId)
        requires
            old(self).wf(),
        ensures
            final(self).wf(),
            final(self).fixture_count_spec() == old(self).fixture_count_spec(),
            final(self).envelope_gen_spec() == old(self).envelope_gen_spec(),
            final(self).store_view().len() == old(self).store_view().len() + 1,
            final(self).store_view().drop_last() == old(self).store_view(),
            ({
                let w = final(self).store_view().last();
                let n = valid_count(
                    old(self).banks_spec().next_ids_spec(),
                    old(self).fixture_count_spec(),
                );
                &&& (n == 0 ==> !live_in(final(self).arena_view(), w.idx(), w.gen()))
                &&& (n >= 1 ==> live_in(final(self).arena_view(), w.idx(), w.gen())
                    && final(self).arena_view()[w.idx()].entry->Some_0.event == fresh_event(
                    old(self).envelope_gen_spec(),
                    color,
                    release_id,
                ) && final(self).arena_view()[w.idx()].entry->Some_0.strong == n)
            }),
            // every fixture the bank names — and only those — receives one
            // owning handle to the new event per mention; the rest of every
            // buffer is untouched
            forall|f: int|
                0 <= f < old(self).fixture_count_spec() ==> {
                    let w = final(self).store_view().last();
                    let occ = id_count(old(self).banks_spec().next_ids_spec(), f);
                    &&& (#[trigger] final(self).buffers()[f]).len() == old(self).buffers()[f].len()
                        + occ
                    &&& final(self).buffers()[f].skip(occ as int) == old(self).buffers()[f]
                    &&& forall|p: int|
                        0 <= p < occ ==> (#[trigger] final(self).buffers()[f][p]).idx() == w.idx()
                            && final(self).buffers()[f][p].gen() == w.gen()
                },
    {
        let ghost a0 = self.arena_view();
        let ghost bufs0 = self.buffers();
        let ghost store0 = self.store_view();
        let event = ColorEvent::new(color, Envelope::new(self.envelope_gen.generate()), release_id);
        let ghost event0 = event;
        let handle = self.arena.insert(event);
        let ghost wi = handle.idx();
        let ghost wg = handle.gen();
        let ghost a1 = self.arena_view();
        proof {
            // The chosen slot was not live before, under any generation a
            // handle could hold, so no fixture points at it.
            assert forall|f: int| 0 <= f < bufs0.len() implies handles_valid(
                #[trigger] bufs0[f],
                a1,
            ) by {
                assert forall|m: int| 0 <= m < bufs0[f].len() implies live_in(
                    a1,
                    (#[trigger] bufs0[f][m]).idx(),
                    bufs0[f][m].gen(),
                ) by {
                    assert(live_in(a0, bufs0[f][m].idx(), bufs0[f][m].gen()));
                    assert(bufs0[f][m].idx() != wi);
                }
            }
            assert(!live_in(a0, wi, wg));
            lemma_total_zero_when_dead(bufs0, a0, wi, wg);
            assert forall|i: int| 0 <= i < a0.len() && i != wi implies total_refs(
                bufs0,
                i,
                (#[trigger] a0[i]).generation,
            ) == total_refs(bufs0, i, a1[i].generation) by {}
        }
        self.event_store.add(&self.arena, &handle);
        proof {
            assert(self.store_view().drop_last() == store0);
            // The new handle is fresh: older store handles hold older
            // generations (or smaller indices), so distinctness holds.
            assert forall|k1: int, k2: int|
                0 <= k1 < k2 < self.store_view().len() implies !((#[trigger] self.store_view()[k1]).idx()
                == (#[trigger] self.store_view()[k2]).idx() && self.store_view()[k1].gen()
                == self.store_view()[k2].gen()) by {
                if k2 == self.store_view().len() - 1 {
                    assert(self.store_view()[k1] == store0[k1]);
                    assert(0 <= store0[k1].idx() < a0.len());
                    if store0[k1].idx() == wi {
                        assert(wi < a0.len());
                        assert(store0[k1].gen() <= a0[wi].generation);
                        assert(wg == a0[wi].generation + 1);
                    }
                } else {
                    assert(self.store_view()[k1] == store0[k1]);
                    assert(self.store_view()[k2] == store0[k2]);
                }
            }
            // No store handle watches a generation the arena has not
            // issued.
            assert forall|q: int|
                0 <= q < self.store_view().len() implies 0 <= (#[trigger] self.store_view()[q]).idx()
                < self.arena_view().len() && self.store_view()[q].gen()
                <= self.arena_view()[self.store_view()[q].idx()].generation by {
                if q < store0.len() {
                    assert(self.store_view()[q] == store0[q]);
                    assert(0 <= store0[q].idx() < a0.len());
                    if store0[q].idx() == wi {
                        assert(store0[q].gen() <= a0[wi].generation);
                    } else {
                        assert(self.arena_view()[store0[q].idx()] == a0[store0[q].idx()]);
                    }
                } else {
                    assert(self.store_view()[q].idx() == wi);
                    assert(self.store_view()[q].gen() == wg);
                }
            }
        }
        let ids = self.banks.next(velocity);
        let ghost n_total = valid_count(ids@, self.fixture_state@.len() as int);
        let count = self.fixture_state.len();
        let mut k: usize = 0;
        while k < ids.len()
            invariant
                0 <= k <= ids@.len(),
                count == self.fixture_state@.len(),
                count == old(self).fixture_count_spec(),
                handle.idx() == wi,
                handle.gen() == wg,
                self.envelope_gen_spec() == old(self).envelope_gen_spec(),
                self.banks_spec().wf(),
                // store: one fresh handle on top of the old ones
                self.store_view().len() == store0.len() + 1,
                self.store_view().drop_last() == store0,
                self.store_view().last().idx() == wi,
                self.store_view().last().gen() == wg,
                distinct_handles(self.store_view()),
                store0 == old(self).store_view(),
                // arena: all slots but the fresh one are as before
                a1.len() == self.arena_view().len(),
                forall|j: int|
                    0 <= j < a1.len() && j != wi ==> (#[trigger] self.arena_view()[j]) == a1[j],
                forall|j: int| 0 <= j < a1.len() ==> (#[trigger] self.arena_view()[j]).generation == a1[j].generation,
                0 <= wi < a1.len(),
                self.arena_view()[wi].generation == wg,
                self.arena_view()[wi].entry is Some,
                self.arena_view()[wi].entry->Some_0.event == event0,
                self.arena_view()[wi].entry->Some_0.strong == 1 + valid_count(
                    ids@.take(k as int),
                    count as int,
                ),
                valid_count(ids@.take(k as int), count as int) <= k,
                // fixtures: valid handles, and exact ownership totals
                forall|f: int|
                    0 <= f < self.buffers().len() ==> handles_valid(
                        #[trigger] self.buffers()[f],
                        self.arena_view(),
                    ),
                self.buffers().len() == count,
                bufs0 == old(self).buffers(),
                forall|f: int|
                    0 <= f < count ==> {
                        let occ = id_count(ids@.take(k as int), f);
                        &&& (#[trigger] self.buffers()[f]).len() == bufs0[f].len() + occ
                        &&& self.buffers()[f].skip(occ as int) == bufs0[f]
                        &&& forall|p: int|
                            0 <= p < occ ==> (#[trigger] self.buffers()[f][p]).idx() == wi
                                && self.buffers()[f][p].gen() == wg
                    },
                total_refs(self.buffers(), wi, wg) == valid_count(ids@.take(k as int), count as int),
                forall|i: int|
                    0 <= i < a1.len() && i != wi && (#[trigger] self.arena_view()[i]).entry is Some
                        ==> self.arena_view()[i].entry->Some_0.strong == total_refs(
                        self.buffers(),
                        i,
                        self.arena_view()[i].generation,
                    ) && self.arena_view()[i].entry->Some_0.strong >= 1,
                // the store never watches a generation not issued yet
                forall|q: int|
                    0 <= q < self.store_view().len() ==> 0 <= (#[trigger] self.store_view()[q]).idx()
                        < self.arena_view().len() && self.store_view()[q].gen()
                        <= self.arena_view()[self.store_view()[q].idx()].generation,
            decreases ids@.len() - k,
        {
            let ghost bufs_pre = self.buffers();
            let ghost v_pre = self.arena_view();
            let id = ids[k];
            if (id.0 as usize) < count {
                let h2 = self.arena.clone_strong(&handle);
                let mut fx = self.fixture_state.remove(id.0 as usize);
                fx.add_event(h2);
                self.fixture_state.insert(id.0 as usize, fx);
                proof {
                    let fi = id.0 as int;
                    assert(self.buffers() =~= bufs_pre.update(fi, seq![h2] + bufs_pre[fi]));
                    lemma_valid_count_take_step(ids@, k as int + 1, count as int);
                    assert forall|f: int| 0 <= f < count implies {
                        let occ = id_count(ids@.take(k as int + 1), f);
                        &&& (#[trigger] self.buffers()[f]).len() == bufs0[f].len() + occ
                        &&& self.buffers()[f].skip(occ as int) == bufs0[f]
                        &&& forall|p: int|
                            0 <= p < occ ==> (#[trigger] self.buffers()[f][p]).idx() == wi
                                && self.buffers()[f][p].gen() == wg
                    } by {
                        lemma_id_count_take_step(ids@, k as int + 1, f);
                        let occ0 = id_count(ids@.take(k as int), f);
                        if f == fi {
                            assert(self.buffers()[f] == seq![h2] + bufs_pre[f]);
                            assert(self.buffers()[f].skip(occ0 as int + 1) =~= bufs_pre[f].skip(
                                occ0 as int,
                            ));
                            assert forall|p: int|
                                0 <= p < occ0 + 1 implies (#[trigger] self.buffers()[f][p]).idx()
                                == wi && self.buffers()[f][p].gen() == wg by {
                                if p == 0 {
                                    assert(self.buffers()[f][p] == h2);
                                } else {
                                    assert(self.buffers()[f][p] == bufs_pre[f][p - 1]);
                                }
                            }
                        }
                    }
                    assert forall|i: int|
                        0 <= i < v_pre.len() implies {
                        let delta: nat = if i == wi {
                            1nat
                        } else {
                            0nat
                        };
                        total_refs(self.buffers(), i, (#[trigger] v_pre[i]).generation)
                            == total_refs(bufs_pre, i, v_pre[i].generation) + delta
                    } by {
                        let gen = v_pre[i].generation;
                        lemma_total_refs_update(bufs_pre, fi, seq![h2] + bufs_pre[fi], i, gen);
                        lemma_count_push_front(bufs_pre[fi], h2, i, gen);
                    }
                    assert forall|f: int| 0 <= f < self.buffers().len() implies handles_valid(
                        #[trigger] self.buffers()[f],
                        self.arena_view(),
                    ) by {
                        assert forall|m: int| 0 <= m < self.buffers()[f].len() implies live_in(
                            self.arena_view(),
                            (#[trigger] self.buffers()[f][m]).idx(),
                            self.buffers()[f][m].gen(),
                        ) by {
                            if f == fi && m == 0 {
                                assert(self.buffers()[f][m] == h2);
                            } else {
                                let h = if f == fi {
                                    bufs_pre[f][m - 1]
                                } else {
                                    bufs_pre[f][m]
                                };
                                assert(self.buffers()[f][m] == h);
                                assert(live_in(v_pre, h.idx(), h.gen()));
                            }
                        }
                    }
                }
            } else {
                // fixture ID out of range: skipped, the trigger still
                // reaches every valid target.
                proof {
                    lemma_valid_count_take_step(ids@, k as int + 1, count as int);
                    assert forall|f: int| 0 <= f < count implies id_count(
                        ids@.take(k as int + 1),
                        f,
                    ) == id_count(ids@.take(k as int), f) by {
                        lemma_id_count_take_step(ids@, k as int + 1, f);
                    }
                }
            }
            k = k + 1;
        }
        proof {
            assert(ids@.take(ids@.len() as int) =~= ids@);
            assert(n_total == valid_count(ids@, count as int));
        }
        let ghost v_pre = self.arena_view();
        let ghost bufs_fin = self.buffers();
        self.arena.drop_strong(handle);
        proof {
            if n_total == 0 {
                assert(!live_in(self.arena_view(), wi, wg));
            } else {
                assert(live_in(self.arena_view(), wi, wg));
            }
            // Coherence of the final state: the fresh slot's count is the
            // number of owners handed out; every other slot is untouched.
            assert forall|f: int| 0 <= f < bufs_fin.len() implies handles_valid(
                #[trigger] bufs_fin[f],
                self.arena_view(),
            ) by {
                assert forall|m: int| 0 <= m < bufs_fin[f].len() implies live_in(
                    self.arena_view(),
                    (#[trigger] bufs_fin[f][m]).idx(),
                    bufs_fin[f][m].gen(),
                ) by {
                    let h = bufs_fin[f][m];
                    assert(live_in(v_pre, h.idx(), h.gen()));
                    if h.idx() == wi && h.gen() == wg {
                        lemma_count_positive(bufs_fin[f], m);
                        lemma_count_le_total(bufs_fin, f, wi, wg);
                        assert(n_total >= 1);
                    }
                }
            }
            assert(organ_inv(self.arena_view(), self.buffers(), self.store_view()));
        }
    }

    /// Handle a note off event.
    /// Release all of the notes with the given release ID.
    pub fn note_off(&mut self, release_id: ReleaseId)
        requires
            old(self).wf(),
        ensures
            final(self).wf(),
            final(self).buffers() == old(self).buffers(),
            final(self).store_view() == old(self).store_view(),
            final(self).fixture_count_spec() == old(self).fixture_count_spec(),
            final(self).envelope_gen_spec() == old(self).envelope_gen_spec(),
            final(self).arena_view().len() == old(self).arena_view().len(),
            forall|i: int|
                0 <= i < old(self).arena_view().len() ==> final(self).arena_view()[i]
                    == slot_after_release(
                    old(self).arena_view()[i],
                    watches(old(self).store_view(), i, old(self).arena_view()[i].generation),
                    release_id,
                ),
    {
        self.event_store.release(&mut self.arena, release_id);
        proof {
            lemma_event_rewrite_preserves_inv(
                old(self).arena_view(),
                self.arena_view(),
                self.buffers(),
                self.store_view(),
            );
        }
    }

    pub fn update_state(&mut self, delta_t: Duration)
        requires
            old(self).wf(),
        ensures
            final(self).wf(),
            final(self).fixture_count_spec() == old(self).fixture_count_spec(),
            final(self).envelope_gen_spec() == old(self).envelope_gen_spec(),
            final(self).banks_spec() == old(self).banks_spec(),
            final(self).store_view() == old(self).store_view().filter(
                crate::store::live_pred(old(self).arena_view()),
            ),
            final(self).arena_view().len() == old(self).arena_view().len(),
            // events advance by exactly one tick: every surviving slot
            // holds the once-stepped event under its old generation, and
            // each fixture buffer is what pruning against the freshly
            // advanced envelope state keeps of its old self
            events_preserved(
                arena_after_tick(old(self).arena_view(), final(self).store_view(), delta_t),
                final(self).arena_view(),
            ),
            final(self).buffers().len() == old(self).buffers().len(),
            forall|f: int|
                0 <= f < old(self).buffers().len() ==> (#[trigger] final(self).buffers()[f])
                    == old(self).buffers()[f].take(
                    prune_keep(
                        buffer_events(
                            old(self).buffers()[f],
                            arena_after_tick(
                                old(self).arena_view(),
                                final(self).store_view(),
                                delta_t,
                            ),
                        ),
                    ),
                ),
            forall|f: int|
                0 <= f < old(self).buffers().len() ==> (#[trigger] final(self).buffers()[f])
                    == old(self).buffers()[f].take(final(self).buffers()[f].len() as int),
    {
        // update the events: each live event advances exactly once, before
        // any fixture reads its state
        self.event_store.update(&mut self.arena, delta_t);
        proof {
            crate::store::lemma_filter_keeps_distinct(
                old(self).store_view(),
                crate::store::live_pred(old(self).arena_view()),
            );
            crate::store::lemma_filter_keeps_live::<C>(
                old(self).arena_view(),
                old(self).store_view(),
            );
            assert forall|k: int| 0 <= k < self.store_view().len() implies 0 <= (
            #[trigger] self.store_view()[k]).idx() < old(self).arena_view().len()
                && self.store_view()[k].gen() <= old(self).arena_view()[self.store_view()[k].idx()].generation by {
                assert(live_in(
                    old(self).arena_view(),
                    self.store_view()[k].idx(),
                    self.store_view()[k].gen(),
                ));
            }
            assert(organ_inv(old(self).arena_view(), self.buffers(), self.store_view()));
            lemma_event_rewrite_preserves_inv(
                old(self).arena_view(),
                self.arena_view(),
                self.buffers(),
                self.store_view(),
            );
        }
        let ghost stepped = arena_after_tick(old(self).arena_view(), self.store_view(), delta_t);
        proof {
            assert(self.arena_view() =~= stepped);
        }
        // then update the fixtures
        let ghost store1 = self.store_view();
        let mut f: usize = 0;
        while f < self.fixture_state.len()
            invariant
                0 <= f <= self.fixture_state@.len(),
                self.fixture_state@.len() == old(self).fixture_count_spec(),
                self.store_view() == store1,
                store1 == old(self).store_view().filter(
                    crate::store::live_pred(old(self).arena_view()),
                ),
                self.envelope_gen_spec() == old(self).envelope_gen_spec(),
                self.banks_spec() == old(self).banks_spec(),
                self.banks_spec().wf(),
                organ_inv(self.arena_view(), self.buffers(), self.store_view()),
                self.arena_view().len() == old(self).arena_view().len(),
                self.buffers().len() == old(self).buffers().len(),
                stepped == arena_after_tick(old(self).arena_view(), store1, delta_t),
                events_preserved(stepped, self.arena_view()),
                forall|g: int|
                    0 <= g < f ==> (#[trigger] self.buffers()[g]) == old(self).buffers()[g].take(
                        prune_keep(buffer_events(old(self).buffers()[g], stepped)),
                    ),
                forall|g: int|
                    0 <= g < f ==> (#[trigger] self.buffers()[g]) == old(self).buffers()[g].take(
                        self.buffers()[g].len() as int,
                    ),
                forall|g: int|
                    f <= g < self.buffers().len() ==> (#[trigger] self.buffers()[g]) == old(
                        self,
                    ).buffers()[g],
            decreases self.fixture_state@.len() - f,
        {
            let ghost bufs_pre = self.buffers();
            let ghost v_pre = self.arena_view();
            let mut fx = self.fixture_state.remove(f);
            proof {
                assert(bufs_pre[f as int] == fx@);
                assert forall|i: int|
                    0 <= i < v_pre.len() && (#[trigger] v_pre[i]).entry is Some implies count_matching(
                    fx@,
                    i,
                    v_pre[i].generation,
                ) <= v_pre[i].entry->Some_0.strong by {
                    lemma_count_le_total(bufs_pre, f as int, i, v_pre[i].generation);
                }
            }
            proof {
                lemma_buffer_events_agree(bufs_pre[f as int], v_pre, stepped);
            }
            fx.update(&mut self.arena);
            self.fixture_state.insert(f, fx);
            proof {
                assert(self.buffers() =~= bufs_pre.update(f as int, bufs_pre[f as int].take(
                    self.buffers()[f as int].len() as int,
                )));
                lemma_prune_preserves_inv(
                    v_pre,
                    self.arena_view(),
                    bufs_pre,
                    f as int,
                    self.buffers()[f as int],
                );
                // give-backs leave every surviving event as the tick left it
                assert forall|i: int|
                    0 <= i < stepped.len() implies (#[trigger] self.arena_view()[i]).generation
                    == stepped[i].generation && (self.arena_view()[i].entry is Some
                    ==> stepped[i].entry is Some && self.arena_view()[i].entry->Some_0.event
                    == stepped[i].entry->Some_0.event) by {
                    // mention the dropped count so the give-back relation
                    // instantiates at this slot
                    let d = count_matching(
                        bufs_pre[f as int].skip(self.buffers()[f as int].len() as int),
                        i,
                        v_pre[i].generation,
                    );
                }
            }
            f = f + 1;
        }
    }

    /// Get the current color for a specific fixture by ID.
    ///
    /// Return None if the ID is out of range.
    pub fn render(&self, id: FixtureId) -> (r: Option<C>)
        requires
            self.wf(),
        ensures
            r == if 0 <= id.0 < self.fixture_count_spec() {
                Some(
                    render_fold(
                        buffer_events(self.buffers()[id.0 as int], self.arena_view()),
                    ),
                )
            } else {
                None::<C>
            },
    {
        if (id.0 as usize) < self.fixture_state.len() {
            proof {
                assert(self.buffers()[id.0 as int] == self.fixture_state@[id.0 as int]@);
            }
            Some(self.fixture_state[id.0 as usize].render(&self.arena))
        } else {
            None
        }
    }

    /// Handle a control message: envelope-generator tuning, triggers, or a
    /// hard blackout that unconditionally clears every fixture's buffer.
    pub fn control<E: EmitStateChange>(&mut self, msg: ControlMessage<C>, emitter: &E)
        requires
            old(self).wf(),
        ensures
            final(self).wf(),
            final(self).fixture_count_spec() == old(self).fixture_count_spec(),
            match msg {
                ControlMessage::Envelope(em) => {
                    &&& final(self).envelope_gen_spec() == match em {
                        crate::envelope_gen::ControlMessage::SetState(sc) => old(self).envelope_gen_spec().apply_state_change(sc),
                    }
                    &&& final(self).arena_view() == old(self).arena_view()
                    &&& final(self).buffers() == old(self).buffers()
                    &&& final(self).store_view() == old(self).store_view()
                },
                ControlMessage::NoteOn { color, velocity, release_id } => {
                    &&& final(self).envelope_gen_spec() == old(self).envelope_gen_spec()
                    &&& final(self).store_view().len() == old(self).store_view().len() + 1
                    &&& final(self).store_view().drop_last() == old(self).store_view()
                    &&& ({
                        let w = final(self).store_view().last();
                        let n = valid_count(
                            old(self).banks_spec().next_ids_spec(),
                            old(self).fixture_count_spec(),
                        );
                        &&& (n == 0 ==> !live_in(final(self).arena_view(), w.idx(), w.gen()))
                        &&& (n >= 1 ==> live_in(final(self).arena_view(), w.idx(), w.gen())
                            && final(self).arena_view()[w.idx()].entry->Some_0.event
                            == fresh_event(old(self).envelope_gen_spec(), color, release_id)
                            && final(self).arena_view()[w.idx()].entry->Some_0.strong == n)
                    })
                    &&& forall|f: int|
                        0 <= f < old(self).fixture_count_spec() ==> {
                            let w = final(self).store_view().last();
                            let occ = id_count(old(self).banks_spec().next_ids_spec(), f);
                            &&& (#[trigger] final(self).buffers()[f]).len() == old(
                                self,
                            ).buffers()[f].len() + occ
                            &&& final(self).buffers()[f].skip(occ as int) == old(
                                self,
                            ).buffers()[f]
                            &&& forall|p: int|
                                0 <= p < occ ==> (#[trigger] final(self).buffers()[f][p]).idx()
                                    == w.idx() && final(self).buffers()[f][p].gen() == w.gen()
                        }
                },
                ControlMessage::NoteOff(release_id) => final(self).arena_view().len() == old(self).arena_view().len() && forall|i: int|
                    0 <= i < old(self).arena_view().len() ==> final(self).arena_view()[i]
                        == slot_after_release(
                        old(self).arena_view()[i],
                        watches(old(self).store_view(), i, old(self).arena_view()[i].generation),
                        release_id,
                    ),
                ControlMessage::Blackout => {
                    &&& forall|f: int|
                        0 <= f < final(self).buffers().len() ==> (#[trigger] final(self).buffers()[f]) == Seq::<StrongHandle>::empty()
                    &&& final(self).store_view() == old(self).store_view()
                    &&& final(self).envelope_gen_spec() == old(self).envelope_gen_spec()
                },
            },
    {
        match msg {
            ControlMessage::Envelope(em) => self.envelope_gen.control(em, emitter),
            ControlMessage::NoteOn { color, velocity, release_id } => self.note_on(
                color,
                velocity,
                release_id,
            ),
            ControlMessage::NoteOff(release_id) => self.note_off(release_id),
            ControlMessage::Blackout => {
                let mut f: usize = 0;
                while f < self.fixture_state.len()
                    invariant
                        0 <= f <= self.fixture_state@.len(),
                        self.fixture_state@.len() == old(self).fixture_count_spec(),
                        self.store_view() == old(self).store_view(),
                        self.envelope_gen_spec() == old(self).envelope_gen_spec(),
                        self.banks_spec() == old(self).banks_spec(),
                        self.banks_spec().wf(),
                        organ_inv(self.arena_view(), self.buffers(), self.store_view()),
                        forall|g: int|
                            0 <= g < f ==> (#[trigger] self.buffers()[g]) == Seq::<
                                StrongHandle,
                            >::empty(),
                    decreases self.fixture_state@.len() - f,
                {
                    let ghost bufs_pre = self.buffers();
                    let ghost v_pre = self.arena_view();
                    let mut fx = self.fixture_state.remove(f);
                    proof {
                        assert(bufs_pre[f as int] == fx@);
                        assert forall|i: int|
                            0 <= i < v_pre.len() && (#[trigger] v_pre[i]).entry
                                is Some implies count_matching(fx@, i, v_pre[i].generation)
                            <= v_pre[i].entry->Some_0.strong by {
                            lemma_count_le_total(bufs_pre, f as int, i, v_pre[i].generation);
                        }
                    }
                    fx.clear(&mut self.arena);
                    self.fixture_state.insert(f, fx);
                    proof {
                        assert(self.buffers() =~= bufs_pre.update(
                            f as int,
                            Seq::<StrongHandle>::empty(),
                        ));
                        assert(bufs_pre[f as int].take(0) =~= Seq::<StrongHandle>::empty());
                        assert(bufs_pre[f as int].skip(0) =~= bufs_pre[f as int]);
                        lemma_prune_preserves_inv(
                            v_pre,
                            self.arena_view(),
                            bufs_pre,
                            f as int,
                            Seq::<StrongHandle>::empty(),
                        );
                    }
                    f = f + 1;
                }
            },
        }
    }

    /// Emit all observable state using the provided emitter.
    pub fn emit_state<E: EmitStateChange>(&self, emitter: &E) {
        self.envelope_gen.emit_state(emitter);
    }
}

/// The store never holds more live weak references than there are
/// still-owning fixtures referencing those events: in a coherent organ,
/// every event a live store handle points at is held by at least one
/// fixture buffer entry — and by exactly as many as the slot's owner
/// count says.
pub proof fn law_live_store_refs_are_owned<C: Color>(organ: ColorOrgan<C>, k: int)
    requires
        organ.wf(),
        0 <= k < organ.store_view().len(),
        live_in(
            organ.arena_view(),
            organ.store_view()[k].idx(),
            organ.store_view()[k].gen(),
        ),
    ensures
        total_refs(
            organ.buffers(),
            organ.store_view()[k].idx(),
            organ.store_view()[k].gen(),
        ) >= 1,
        organ.arena_view()[organ.store_view()[k].idx()].entry->Some_0.strong == total_refs(
            organ.buffers(),
            organ.store_view()[k].idx(),
            organ.store_view()[k].gen(),
        ),
{
}

/// Replacing one fixture's buffer shifts a slot's total by the difference
/// of the two buffers' matching counts.
proof fn lemma_total_refs_update(
    bufs: Seq<Seq<StrongHandle>>,
    f: int,
    nb: Seq<StrongHandle>,
    index: int,
    generation: u64,
)
    requires
        0 <= f < bufs.len(),
    ensures
        total_refs(bufs.update(f, nb), index, generation) + count_matching(
            bufs[f],
            index,
            generation,
        ) == total_refs(bufs, index, generation) + count_matching(nb, index, generation),
    decreases bufs.len(),
{
    let l = bufs.len() - 1;
    if f == l {
        assert(bufs.update(f, nb).drop_last() =~= bufs.drop_last());
        assert(bufs.update(f, nb).last() == nb);
    } else {
        assert(bufs.update(f, nb).drop_last() =~= bufs.drop_last().update(f, nb));
        assert(bufs.update(f, nb).last() == bufs[l]);
        assert(bufs.drop_last()[f] == bufs[f]);
        lemma_total_refs_update(bufs.drop_last(), f, nb, index, generation);
    }
}

/// One buffer's matching count never exceeds the total over all buffers.
proof fn lemma_count_le_total(
    bufs: Seq<Seq<StrongHandle>>,
    f: int,
    index: int,
    generation: u64,
)
    requires
        0 <= f < bufs.len(),
    ensures
        count_matching(bufs[f], index, generation) <= total_refs(bufs, index, generation),
    decreases bufs.len(),
{
    let l = bufs.len() - 1;
    if f < l {
        assert(bufs.drop_last()[f] == bufs[f]);
        lemma_count_le_total(bufs.drop_last(), f, index, generation);
    }
}

/// Two different buffers' matching counts fit in the total together.
proof fn lemma_two_counts_le_total(
    bufs: Seq<Seq<StrongHandle>>,
    f: int,
    g: int,
    index: int,
    generation: u64,
)
    requires
        0 <= f < bufs.len(),
        0 <= g < bufs.len(),
        f != g,
    ensures
        count_matching(bufs[f], index, generation) + count_matching(bufs[g], index, generation)
            <= total_refs(bufs, index, generation),
    decreases bufs.len(),
{
    let l = bufs.len() - 1;
    if f == l {
        assert(bufs.drop_last()[g] == bufs[g]);
        lemma_count_le_total(bufs.drop_last(), g, index, generation);
    } else if g == l {
        assert(bufs.drop_last()[f] == bufs[f]);
        lemma_count_le_total(bufs.drop_last(), f, index, generation);
    } else {
        assert(bufs.drop_last()[f] == bufs[f]);
        assert(bufs.drop_last()[g] == bufs[g]);
        lemma_two_counts_le_total(bufs.drop_last(), f, g, index, generation);
    }
}

/// Truncating one fixture's buffer and giving the dropped handles back to
/// the arena leaves the organ's ownership accounting coherent.
proof fn lemma_prune_preserves_inv<C: Color>(
    v0: Seq<SlotView<C>>,
    v1: Seq<SlotView<C>>,
    bufs: Seq<Seq<StrongHandle>>,
    f: int,
    kept: Seq<StrongHandle>,
)
    requires
        forall|g: int| 0 <= g < bufs.len() ==> handles_valid(#[trigger] bufs[g], v0),
        forall|i: int|
            0 <= i < v0.len() && (#[trigger] v0[i]).entry is Some ==> v0[i].entry->Some_0.strong
                == total_refs(bufs, i, v0[i].generation) && v0[i].entry->Some_0.strong >= 1,
        0 <= f < bufs.len(),
        kept.len() <= bufs[f].len(),
        kept == bufs[f].take(kept.len() as int),
        arena_after_drops(v0, v1, bufs[f].skip(kept.len() as int)),
    ensures
        forall|g: int|
            0 <= g < bufs.len() ==> handles_valid(#[trigger] bufs.update(f, kept)[g], v1),
        forall|i: int|
            0 <= i < v1.len() && (#[trigger] v1[i]).entry is Some ==> v1[i].entry->Some_0.strong
                == total_refs(bufs.update(f, kept), i, v1[i].generation)
                && v1[i].entry->Some_0.strong >= 1,
        v1.len() == v0.len(),
        forall|i: int| 0 <= i < v0.len() ==> (#[trigger] v1[i]).generation == v0[i].generation,
{
    let kl = kept.len() as int;
    let dropped = bufs[f].skip(kl);
    assert forall|g: int| 0 <= g < bufs.len() implies handles_valid(
        #[trigger] bufs.update(f, kept)[g],
        v1,
    ) by {
        let buf = bufs.update(f, kept)[g];
        assert forall|m: int| 0 <= m < buf.len() implies live_in(
            v1,
            (#[trigger] buf[m]).idx(),
            buf[m].gen(),
        ) by {
            let h = buf[m];
            if g == f {
                assert(h == bufs[f][m]);
            }
            assert(h == bufs[g][m]);
            assert(live_in(v0, h.idx(), h.gen()));
            let i = h.idx();
            let gen = v0[i].generation;
            lemma_count_split(bufs[f], kl, i, gen);
            lemma_count_le_total(bufs, f, i, gen);
            if g == f {
                lemma_count_positive(kept, m);
            } else {
                lemma_count_positive(bufs[g], m);
                lemma_two_counts_le_total(bufs, f, g, i, gen);
            }
            assert(count_matching(dropped, i, gen) < v0[i].entry->Some_0.strong);
        }
    }
    assert forall|i: int|
        0 <= i < v1.len() && (#[trigger] v1[i]).entry is Some implies v1[i].entry->Some_0.strong
        == total_refs(bufs.update(f, kept), i, v1[i].generation) && v1[i].entry->Some_0.strong
        >= 1 by {
        assert(v0[i].entry is Some);
        let gen = v0[i].generation;
        let d = count_matching(dropped, i, gen);
        lemma_count_split(bufs[f], kl, i, gen);
        lemma_total_refs_update(bufs, f, kept, i, gen);
        assert(d < v0[i].entry->Some_0.strong);
    }
}

/// Rewriting slot events in place — what a release broadcast or a tick
/// advance does — never disturbs the ownership accounting: generations,
/// occupancy and owner counts are all as before.
proof fn lemma_event_rewrite_preserves_inv<C: Color>(
    v0: Seq<SlotView<C>>,
    v1: Seq<SlotView<C>>,
    bufs: Seq<Seq<StrongHandle>>,
    store: Seq<WeakHandle>,
)
    requires
        organ_inv(v0, bufs, store),
        v1.len() == v0.len(),
        forall|i: int|
            0 <= i < v0.len() ==> (#[trigger] v1[i]).generation == v0[i].generation && (v1[i].entry
                is Some <==> v0[i].entry is Some) && (v0[i].entry is Some
                ==> v1[i].entry->Some_0.strong == v0[i].entry->Some_0.strong),
    ensures
        organ_inv(v1, bufs, store),
{
    assert forall|f: int| 0 <= f < bufs.len() implies handles_valid(#[trigger] bufs[f], v1) by {
        assert forall|m: int| 0 <= m < bufs[f].len() implies live_in(
            v1,
            (#[trigger] bufs[f][m]).idx(),
            bufs[f][m].gen(),
        ) by {
            assert(live_in(v0, bufs[f][m].idx(), bufs[f][m].gen()));
        }
    }
}

pub trait EmitStateChange {
    fn emit_state_change(&self, sc: StateChange);
}

/// Control messages steering a color organ.
#[derive(Clone, Debug)]
pub enum ControlMessage<C> {
    Envelope(crate::envelope_gen::ControlMessage),
    NoteOn { color: C, velocity: Unipolar, release_id: ReleaseId },
    NoteOff(ReleaseId),
    /// Clear all fixture state, creating an instant blackout.
    Blackout,
}

/// Observable state changes a color organ reports.
pub enum StateChange {
    Envelope(crate::envelope_gen::StateChange),
}

/// An emitter that discards every state change.
pub struct IgnoreEmitter;

impl EmitStateChange for IgnoreEmitter {
    fn emit_state_change(&self, _sc: StateChange) {
    }
}

/// Anything that can take the organ's state changes can take the envelope
/// generator's, wrapped.
impl<T: EmitStateChange> crate::envelope_gen::EmitStateChange for T {
    fn emit_envelope_generator_state_change(&self, sc: crate::envelope_gen::StateChange) {
        self.emit_state_change(StateChange::Envelope(sc));
    }
}

} // verus!
