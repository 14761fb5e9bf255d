//! Shared ownership of color events.
//!
//! One color event may be held by several fixtures at once while the global
//! store watches it without owning it.  Events therefore live in an arena
//! of generation-checked slots, which reproduces reference-counted sharing
//! with weak references:
//!
//! - a *strong* handle keeps its slot occupied: the arena counts the strong
//!   handles to each slot and frees the slot when the count returns to
//!   zero.  Strong handles cannot be copied — only the arena duplicates
//!   them, so the count stays true;
//! - a *weak* handle never keeps a slot occupied; it can be checked for
//!   liveness, and goes stale when its slot is freed, because the slot's
//!   generation then moves past the handle's.
use vstd::prelude::*;

use crate::color::Color;
use crate::event::ColorEvent;

verus! {

/// An owning reference to a color event: while it exists, the event does.
/// Deliberately neither `Clone` nor `Copy`: ask the arena to duplicate or
/// discard one, so that the arena's count of owners stays exact.
#[derive(Debug)]
pub struct StrongHandle {
    index: usize,
    generation: u64,
}

/// A non-owning reference to a color event.  May outlive the event; the
/// arena answers whether its target is still alive.
#[derive(Clone, Copy, Debug, PartialEq, Eq, Structural)]
pub struct WeakHandle {
    index: usize,
    generation: u64,
}

impl StrongHandle {
    /// The slot this handle points into.
    pub closed spec fn idx(self) -> int {
        self.index as int
    }

    /// The slot generation this handle was issued for.
    pub closed spec fn gen(self) -> u64 {
        self.generation
    }

    /// The slot this handle points into.
    pub fn index(&self) -> (r: usize)
        ensures
            r as int == self.idx(),
    {
        self.index
    }
}

impl WeakHandle {
    /// The slot this handle points into.
    pub closed spec fn idx(self) -> int {
        self.index as int
    }

    /// The slot generation this handle was issued for.
    pub closed spec fn gen(self) -> u64 {
        self.generation
    }

    /// The slot this handle points into.
    pub fn index(&self) -> (r: usize)
        ensures
            r as int == self.idx(),
    {
        self.index
    }
}

struct Entry<C: Color> {
    event: ColorEvent<C>,
    /// How many strong handles to this slot exist.
    strong: u128,
}

struct Slot<C: Color> {
    /// Bumped every time the slot is reallocated, so handles from an
    /// earlier occupancy never match a later one.
    generation: u64,
    entry: Option<Entry<C>>,
}

/// What one arena slot holds, as seen by contracts.
pub struct SlotView<C: Color> {
    pub generation: u64,
    pub entry: Option<EntryView<C>>,
}

/// An occupied slot: the event it holds and its count of strong handles.
pub struct EntryView<C: Color> {
    pub event: ColorEvent<C>,
    pub strong: nat,
}

/// The arena that owns every live color event.
pub struct EventArena<C: Color> {
    slots: Vec<Slot<C>>,
}

spec fn view_of_slot<C: Color>(s: Slot<C>) -> SlotView<C> {
    SlotView {
        generation: s.generation,
        entry: match s.entry {
            Some(e) => Some(EntryView { event: e.event, strong: e.strong as nat }),
            None => None,
        },
    }
}

spec fn views_of<C: Color>(slots: Seq<Slot<C>>) -> Seq<SlotView<C>> {
    slots.map_values(|s: Slot<C>| view_of_slot(s))
}

impl<C: Color> View for EventArena<C> {
    type V = Seq<SlotView<C>>;

    closed spec fn view(&self) -> Seq<SlotView<C>> {
        views_of(self.slots@)
    }
}

/// Every occupied slot is owned by at least one strong handle.
spec fn counts_positive_seq<C: Color>(v: Seq<SlotView<C>>) -> bool {
    forall|i: int|
        0 <= i < v.len() && (#[trigger] v[i]).entry is Some ==> v[i].entry->Some_0.strong >= 1
}

impl<C: Color> EventArena<C> {
    /// Every occupied slot is owned by at least one strong handle.
    #[verifier::type_invariant]
    spec fn counts_positive(self) -> bool {
        counts_positive_seq(self@)
    }

    /// True if the slot a handle with this index and generation points to
    /// still holds the event the handle was issued for.
    pub open spec fn live_at(self, index: int, generation: u64) -> bool {
        live_in(self@, index, generation)
    }

    /// The event in the (occupied) slot at `index`.
    pub open spec fn event_at(self, index: int) -> ColorEvent<C>
        recommends
            0 <= index < self@.len(),
            self@[index].entry is Some,
    {
        self@[index].entry->Some_0.event
    }

    /// The strong-handle count of the (occupied) slot at `index`.
    pub open spec fn strong_at(self, index: int) -> nat
        recommends
            0 <= index < self@.len(),
            self@[index].entry is Some,
    {
        self@[index].entry->Some_0.strong
    }

    /// A strong handle is valid while its slot still holds its event.
    /// Every strong handle held anywhere in this system is; a handle only
    /// leaves this state by being given back to `drop_strong`.
    pub open spec fn strong_valid(self, h: StrongHandle) -> bool {
        self.live_at(h.idx(), h.gen())
    }

    /// A weak handle is live while its slot still holds its event.
    pub open spec fn weak_live(self, w: WeakHandle) -> bool {
        self.live_at(w.idx(), w.gen())
    }

    pub fn new() -> (r: EventArena<C>)
        ensures
            r@ == Seq::<SlotView<C>>::empty(),
    {
        EventArena { slots: Vec::new() }
    }

    /// Move an event into the arena.  The returned handle is its single
    /// owner.  The slot chosen was not live before, and its generation is
    /// new, so no existing handle matches it.
    pub fn insert(&mut self, event: ColorEvent<C>) -> (h: StrongHandle)
        ensures
            final(self).strong_valid(h),
            0 <= h.idx() < final(self)@.len(),
            if h.idx() < old(self)@.len() {
                &&& old(self)@[h.idx()].entry is None
                &&& h.gen() == old(self)@[h.idx()].generation + 1
                &&& final(self)@ == old(self)@.update(
                    h.idx(),
                    SlotView { generation: h.gen(), entry: Some(EntryView { event, strong: 1nat }) },
                )
            } else {
                &&& h.idx() == old(self)@.len()
                &&& final(self)@ == old(self)@.push(
                    SlotView { generation: h.gen(), entry: Some(EntryView { event, strong: 1nat }) },
                )
            },
    {
        proof {
            use_type_invariant(&*self);
        }
        let ghost pre = self@;
        let mut slots: Vec<Slot<C>> = Vec::new();
        core::mem::swap(&mut slots, &mut self.slots);
        let mut i: usize = 0;
        // Reuse a free slot whose generation can still be bumped.
        while i < slots.len()
            invariant
                0 <= i <= slots.len(),
                views_of(slots@) == pre,
                pre == old(self)@,
                counts_positive_seq(pre),
            decreases slots.len() - i,
        {
            if slots[i].entry.is_none() && slots[i].generation < u64::MAX {
                let generation = slots[i].generation + 1;
                slots[i] = Slot { generation, entry: Some(Entry { event, strong: 1 }) };
                proof {
                    assert(views_of(slots@) =~= pre.update(
                        i as int,
                        SlotView {
                            generation,
                            entry: Some(EntryView { event, strong: 1nat }),
                        },
                    ));
                }
                self.slots = slots;
                return StrongHandle { index: i, generation };
            }
            i = i + 1;
        }
        // No reusable slot: grow the arena.
        let index = slots.len();
        slots.push(Slot { generation: 0, entry: Some(Entry { event, strong: 1 }) });
        proof {
            assert(views_of(slots@) =~= pre.push(
                SlotView { generation: 0, entry: Some(EntryView { event, strong: 1nat }) },
            ));
        }
        self.slots = slots;
        StrongHandle { index, generation: 0 }
    }

    /// Duplicate a strong handle: its event gains one more owner.
    pub fn clone_strong(&mut self, h: &StrongHandle) -> (h2: StrongHandle)
        requires
            old(self).strong_valid(*h),
            old(self).strong_at(h.idx()) < u128::MAX,
        ensures
            h2.idx() == h.idx(),
            h2.gen() == h.gen(),
            final(self)@ == old(self)@.update(
                h.idx(),
                SlotView {
                    generation: h.gen(),
                    entry: Some(
                        EntryView {
                            event: old(self).event_at(h.idx()),
                            strong: (old(self).strong_at(h.idx()) + 1) as nat,
                        },
                    ),
                },
            ),
    {
        proof {
            use_type_invariant(&*self);
        }
        let ghost pre = self@;
        let mut slots: Vec<Slot<C>> = Vec::new();
        core::mem::swap(&mut slots, &mut self.slots);
        let i = h.index;
        match &slots[i].entry {
            Some(entry) => {
                let event = entry.event;
                let strong = entry.strong + 1;
                slots[i] = Slot { generation: h.generation, entry: Some(Entry { event, strong }) };
                proof {
                    assert(views_of(slots@) =~= pre.update(
                        i as int,
                        SlotView {
                            generation: h.generation,
                            entry: Some(
                                EntryView { event, strong: strong as nat },
                            ),
                        },
                    ));
                }
                self.slots = slots;
                StrongHandle { index: i, generation: h.generation }
            },
            None => {
                // Unreachable: the handle is valid, so the slot is occupied.
                proof {
                    assert(false);
                }
                self.slots = slots;
                StrongHandle { index: i, generation: h.generation }
            },
        }
    }

    /// Give a strong handle back: its event loses one owner, and the slot
    /// is freed once no owner is left.
    pub fn drop_strong(&mut self, h: StrongHandle)
        requires
            old(self).strong_valid(h),
        ensures
            final(self)@ == old(self)@.update(
                h.idx(),
                if old(self).strong_at(h.idx()) > 1 {
                    SlotView {
                        generation: h.gen(),
                        entry: Some(
                            EntryView {
                                event: old(self).event_at(h.idx()),
                                strong: (old(self).strong_at(h.idx()) - 1) as nat,
                            },
                        ),
                    }
                } else {
                    SlotView { generation: h.gen(), entry: None }
                },
            ),
    {
        proof {
            use_type_invariant(&*self);
        }
        let ghost pre = self@;
        let mut slots: Vec<Slot<C>> = Vec::new();
        core::mem::swap(&mut slots, &mut self.slots);
        let i = h.index;
        match &slots[i].entry {
            Some(entry) => {
                if entry.strong > 1 {
                    let event = entry.event;
                    let strong = entry.strong - 1;
                    slots[i] = Slot {
                        generation: h.generation,
                        entry: Some(Entry { event, strong }),
                    };
                    proof {
                        assert(views_of(slots@) =~= pre.update(
                            i as int,
                            SlotView {
                                generation: h.generation,
                                entry: Some(
                                    EntryView { event, strong: strong as nat },
                                ),
                            },
                        ));
                    }
                    self.slots = slots;
                } else {
                    slots[i] = Slot { generation: h.generation, entry: None };
                    proof {
                        assert(views_of(slots@) =~= pre.update(
                            i as int,
                            SlotView { generation: h.generation, entry: None },
                        ));
                    }
                    self.slots = slots;
                }
            },
            None => {
                proof {
                    assert(false);
                }
                self.slots = slots;
            },
        }
    }

    /// A non-owning handle to the same event.
    pub fn downgrade(&self, h: &StrongHandle) -> (w: WeakHandle)
        ensures
            w.idx() == h.idx(),
            w.gen() == h.gen(),
    {
        WeakHandle { index: h.index, generation: h.generation }
    }

    /// Whether the event a weak handle was issued for is still alive.
    pub fn is_live(&self, w: WeakHandle) -> (r: bool)
        ensures
            r == self.weak_live(w),
    {
        w.index < self.slots.len() && self.slots[w.index].generation == w.generation
            && self.slots[w.index].entry.is_some()
    }

    /// Read the event behind a strong handle.
    pub fn event(&self, h: &StrongHandle) -> (r: &ColorEvent<C>)
        requires
            self.strong_valid(*h),
        ensures
            *r == self.event_at(h.idx()),
    {
        match &self.slots[h.index].entry {
            Some(entry) => &entry.event,
            None => {
                proof {
                    assert(false);
                }
                unreached()
            },
        }
    }

    /// Read the event behind a weak handle, if it is still alive.
    pub fn get_event(&self, w: WeakHandle) -> (r: Option<ColorEvent<C>>)
        ensures
            r == if self.weak_live(w) {
                Some(self.event_at(w.idx()))
            } else {
                None::<ColorEvent<C>>
            },
    {
        if w.index < self.slots.len() && self.slots[w.index].generation == w.generation {
            match &self.slots[w.index].entry {
                Some(entry) => Some(entry.event),
                None => None,
            }
        } else {
            None
        }
    }

    /// Replace the event behind a live weak handle.  Ownership counts and
    /// generations are untouched.
    pub fn set_event(&mut self, w: WeakHandle, event: ColorEvent<C>)
        requires
            old(self).weak_live(w),
        ensures
            final(self)@ == old(self)@.update(
                w.idx(),
                SlotView {
                    generation: w.gen(),
                    entry: Some(
                        EntryView { event, strong: old(self).strong_at(w.idx()) },
                    ),
                },
            ),
    {
        proof {
            use_type_invariant(&*self);
        }
        let ghost pre = self@;
        let mut slots: Vec<Slot<C>> = Vec::new();
        core::mem::swap(&mut slots, &mut self.slots);
        let i = w.index;
        match &slots[i].entry {
            Some(entry) => {
                let strong = entry.strong;
                slots[i] = Slot {
                    generation: w.generation,
                    entry: Some(Entry { event, strong }),
                };
                proof {
                    assert(views_of(slots@) =~= pre.update(
                        i as int,
                        SlotView {
                            generation: w.generation,
                            entry: Some(
                                EntryView { event, strong: strong as nat },
                            ),
                        },
                    ));
                }
                self.slots = slots;
            },
            None => {
                proof {
                    assert(false);
                }
                self.slots = slots;
            },
        }
    }
}

/// True if the slot at `index` in this arena state still holds the event a
/// handle with this index and generation was issued for.
pub open spec fn live_in<C: Color>(v: Seq<SlotView<C>>, index: int, generation: u64) -> bool {
    &&& 0 <= index < v.len()
    &&& v[index].generation == generation
    &&& v[index].entry is Some
}

/// Every handle in the sequence points at a slot that still holds its
/// event.
pub open spec fn handles_valid<C: Color>(handles: Seq<StrongHandle>, v: Seq<SlotView<C>>) -> bool {
    forall|m: int|
        0 <= m < handles.len() ==> live_in(v, (#[trigger] handles[m]).idx(), handles[m].gen())
}

/// No slot is pointed at by more handles of this sequence than its owner
/// count: the sequence holds at most this holder's share of each event.
pub open spec fn counts_bounded<C: Color>(handles: Seq<StrongHandle>, v: Seq<SlotView<C>>) -> bool {
    forall|i: int|
        0 <= i < v.len() && (#[trigger] v[i]).entry is Some ==> count_matching(
            handles,
            i,
            v[i].generation,
        ) <= v[i].entry->Some_0.strong
}

/// How giving a sequence of handles back to the arena changes it: each
/// slot loses as many owners as handles pointed at it, it is freed when
/// none is left, and its generation and event are otherwise untouched.
pub open spec fn arena_after_drops<C: Color>(
    pre: Seq<SlotView<C>>,
    post: Seq<SlotView<C>>,
    dropped: Seq<StrongHandle>,
) -> bool {
    &&& post.len() == pre.len()
    &&& forall|i: int|
        0 <= i < pre.len() ==> {
            let d = count_matching(dropped, i, (#[trigger] pre[i]).generation);
            &&& post[i].generation == pre[i].generation
            &&& (pre[i].entry is None ==> post[i] == pre[i])
            &&& (pre[i].entry is Some ==> if d == 0 {
                post[i] == pre[i]
            } else if d < pre[i].entry->Some_0.strong {
                &&& post[i].entry is Some
                &&& post[i].entry->Some_0.strong == pre[i].entry->Some_0.strong - d
                &&& post[i].entry->Some_0.event == pre[i].entry->Some_0.event
            } else {
                post[i].entry is None
            })
        }
}

/// How many handles in a sequence point at the given slot and generation.
pub open spec fn count_matching(handles: Seq<StrongHandle>, index: int, generation: u64) -> nat
    decreases handles.len(),
{
    if handles.len() == 0 {
        0
    } else {
        count_matching(handles.drop_last(), index, generation) + if handles.last().idx() == index
            && handles.last().gen() == generation {
            1nat
        } else {
            0nat
        }
    }
}

/// Appending one handle raises the matching count by its own match.
pub proof fn lemma_count_push(handles: Seq<StrongHandle>, h: StrongHandle, index: int, generation: u64)
    ensures
        count_matching(handles.push(h), index, generation) == count_matching(
            handles,
            index,
            generation,
        ) + if h.idx() == index && h.gen() == generation {
            1nat
        } else {
            0nat
        },
{
    assert(handles.push(h).drop_last() =~= handles);
}

/// Prepending one handle raises the matching count by its own match.
pub proof fn lemma_count_push_front(
    handles: Seq<StrongHandle>,
    h: StrongHandle,
    index: int,
    generation: u64,
)
    ensures
        count_matching(seq![h] + handles, index, generation) == count_matching(
            handles,
            index,
            generation,
        ) + if h.idx() == index && h.gen() == generation {
            1nat
        } else {
            0nat
        },
    decreases handles.len(),
{
    let whole = seq![h] + handles;
    if handles.len() == 0 {
        assert(whole =~= seq![h]);
        assert(whole.drop_last() =~= Seq::<StrongHandle>::empty());
        assert(whole.last() == h);
        assert(count_matching(whole.drop_last(), index, generation) == 0);
    } else {
        assert(whole.drop_last() =~= seq![h] + handles.drop_last());
        assert(whole.last() == handles.last());
        lemma_count_push_front(handles.drop_last(), h, index, generation);
        assert(count_matching(whole, index, generation) == count_matching(
            seq![h] + handles.drop_last(),
            index,
            generation,
        ) + if handles.last().idx() == index && handles.last().gen() == generation {
            1nat
        } else {
            0nat
        });
    }
}

/// Shortening a prefix by one lowers the matching count by the dropped
/// handle's own match.
pub proof fn lemma_count_take_step(
    handles: Seq<StrongHandle>,
    k: int,
    index: int,
    generation: u64,
)
    requires
        1 <= k <= handles.len(),
    ensures
        count_matching(handles.take(k), index, generation) == count_matching(
            handles.take(k - 1),
            index,
            generation,
        ) + if handles[k - 1].idx() == index && handles[k - 1].gen() == generation {
            1nat
        } else {
            0nat
        },
{
    assert(handles.take(k).drop_last() =~= handles.take(k - 1));
    assert(handles.take(k).last() == handles[k - 1]);
}

/// The matching count splits across a cut of the sequence.
pub proof fn lemma_count_split(handles: Seq<StrongHandle>, k: int, index: int, generation: u64)
    requires
        0 <= k <= handles.len(),
    ensures
        count_matching(handles, index, generation) == count_matching(
            handles.take(k),
            index,
            generation,
        ) + count_matching(handles.skip(k), index, generation),
    decreases handles.len() - k,
{
    if k == handles.len() {
        assert(handles.take(k) =~= handles);
        assert(handles.skip(k) =~= Seq::<StrongHandle>::empty());
    } else {
        lemma_count_split(handles, k + 1, index, generation);
        lemma_count_take_step(handles, k + 1, index, generation);
        assert(handles.skip(k) =~= seq![handles[k]] + handles.skip(k + 1));
        lemma_count_push_front(handles.skip(k + 1), handles[k], index, generation);
    }
}

/// A sequence containing a handle counts at least one match for its slot.
pub proof fn lemma_count_positive(handles: Seq<StrongHandle>, m: int)
    requires
        0 <= m < handles.len(),
    ensures
        count_matching(handles, handles[m].idx(), handles[m].gen()) >= 1,
    decreases handles.len(),
{
    if m == handles.len() - 1 {
        assert(handles.last() == handles[m]);
    } else {
        lemma_count_positive(handles.drop_last(), m);
        assert(handles.drop_last()[m] == handles[m]);
    }
}

} // verus!

