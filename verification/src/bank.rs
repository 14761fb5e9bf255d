//! Pattern banks: which fixtures the next trigger is routed to.
//!
//! A bank holds pattern sequences; each trigger asks the current sequence
//! for the next batch of fixture ids, and a sequence that runs out rotates
//! the bank to its next sequence.  With no bank selected, triggers are
//! routed nowhere.
use vstd::prelude::*;

use crate::fixture::FixtureId;
use crate::unipolar::Unipolar;

verus! {

/// The collection of banks defined for a color organ.
pub struct Banks {
    banks: Vec<Bank>,
    current_bank: Option<usize>,
}

impl Banks {
    /// A selected bank is in range and well formed.
    pub open spec fn wf(self) -> bool {
        self.current_bank_spec() matches Some(b) ==> 0 <= b < self.banks_spec().len()
            && self.banks_spec()[b as int].wf()
    }

    /// The banks on hand.
    pub closed spec fn banks_spec(self) -> Seq<Bank> {
        self.banks@
    }

    /// Which bank is selected, if any.
    pub closed spec fn current_bank_spec(self) -> Option<usize> {
        self.current_bank
    }

    /// The ids the next trigger is routed to.
    pub open spec fn next_ids_spec(self) -> Seq<FixtureId> {
        match self.current_bank_spec() {
            None => Seq::empty(),
            Some(b) => self.banks_spec()[b as int].next_ids_spec(),
        }
    }

    /// One bank holding a single run over every fixture id below
    /// `fixture_count`; no bank selected to begin with.
    pub fn new(fixture_count: usize) -> (r: Banks)
        ensures
            r.wf(),
            r.current_bank_spec() is None,
            r.banks_spec().len() == 1,
            r.banks_spec()[0].name_spec() == "test"@,
            r.banks_spec()[0].current_sequence_spec() == Some(0usize),
            r.banks_spec()[0].sequences_spec().len() == 1,
            r.banks_spec()[0].sequences_spec()[0] matches PatternSequence::Run(run) && {
                &&& run.current_index == 0
                &&& run.fixtures@.len() == fixture_count
                &&& forall|i: int|
                    0 <= i < fixture_count ==> (#[trigger] run.fixtures@[i]).0 == i as u32
            },
    {
        let mut fixtures: Vec<FixtureId> = Vec::new();
        let mut i: usize = 0;
        while i < fixture_count
            invariant
                0 <= i <= fixture_count,
                fixtures@.len() == i,
                forall|j: int| 0 <= j < i ==> (#[trigger] fixtures@[j]).0 == j as u32,
            decreases fixture_count - i,
        {
            fixtures.push(FixtureId(#[verifier::truncate] (i as u32)));
            i = i + 1;
        }
        Banks {
            banks: vec![
                Bank {
                    name: "test".to_owned(),
                    sequences: vec![
                        PatternSequence::Run(FixtureRun { fixtures, current_index: 0 }),
                    ],
                    current_sequence: Some(0),
                },
            ],
            current_bank: None,
        }
    }

    /// Return the fixture IDs in the next pattern of the current bank, and
    /// advance it.  With no bank selected this is a no-op yielding nothing.
    pub fn next(&mut self, _velocity: Unipolar) -> (ids: Vec<FixtureId>)
        requires
            old(self).wf(),
        ensures
            final(self).wf(),
            ids@ == old(self).next_ids_spec(),
            final(self).current_bank_spec() == old(self).current_bank_spec(),
            match old(self).current_bank_spec() {
                None => final(self).banks_spec() == old(self).banks_spec() && ids@ == Seq::<
                    FixtureId,
                >::empty(),
                Some(b) => {
                    &&& ids@ == old(self).banks_spec()[b as int].next_ids_spec()
                    &&& final(self).banks_spec().len() == old(self).banks_spec().len()
                    &&& forall|j: int|
                        0 <= j < old(self).banks_spec().len() && j != b as int
                            ==> final(self).banks_spec()[j] == old(self).banks_spec()[j]
                    &&& old(self).banks_spec()[b as int].advances_to(
                        final(self).banks_spec()[b as int],
                    )
                },
            },
    {
        match self.current_bank {
            Some(bank_id) => {
                let mut bank = self.banks.remove(bank_id);
                let ids = bank.next(_velocity);
                self.banks.insert(bank_id, bank);
                ids
            },
            None => Vec::new(),
        }
    }

    /// Return the name of the current bank.
    pub fn current_bank(&self) -> (r: Option<&str>)
        requires
            self.wf(),
        ensures
            match self.current_bank_spec() {
                None => r is None,
                Some(b) => r matches Some(name) && name@ == self.banks_spec()[b as int].name_spec(),
            },
    {
        match self.current_bank {
            Some(id) => Some(self.banks[id].name.as_str()),
            None => None,
        }
    }
}

/// A bank is a collection of pattern sequences.
pub struct Bank {
    name: String,
    sequences: Vec<PatternSequence>,
    current_sequence: Option<usize>,
}

impl Bank {
    /// A selected sequence is in range, and every sequence can be run.
    pub open spec fn wf(self) -> bool {
        &&& (self.current_sequence_spec() matches Some(i) ==> 0 <= i < self.sequences_spec().len())
        &&& forall|k: int|
            0 <= k < self.sequences_spec().len() ==> (#[trigger] self.sequences_spec()[k]).wf()
    }

    /// This bank's display name.
    pub closed spec fn name_spec(self) -> Seq<char> {
        self.name@
    }

    /// The pattern sequences of this bank.
    pub closed spec fn sequences_spec(self) -> Seq<PatternSequence> {
        self.sequences@
    }

    /// Which sequence runs next, if any.
    pub closed spec fn current_sequence_spec(self) -> Option<usize> {
        self.current_sequence
    }

    /// The ids the next trigger is routed to.
    pub open spec fn next_ids_spec(self) -> Seq<FixtureId> {
        match self.current_sequence_spec() {
            None => Seq::empty(),
            Some(i) => self.sequences_spec()[i as int].next_ids_spec(),
        }
    }

    /// How one trigger advances a bank: the running sequence advances, and
    /// a sequence with nothing further rotates the bank to the next one.
    pub open spec fn advances_to(self, nb: Bank) -> bool {
        match self.current_sequence_spec() {
            None => nb == self,
            Some(i) => {
                &&& nb.name_spec() == self.name_spec()
                &&& nb.sequences_spec() == self.sequences_spec().update(
                    i as int,
                    self.sequences_spec()[i as int].next_state_spec(),
                )
                &&& nb.current_sequence_spec() matches Some(j) && j as int == if self.sequences_spec()[i as int].has_more_spec() {
                    i as int
                } else {
                    (i as int + 1) % self.sequences_spec().len() as int
                }
            },
        }
    }

    /// Next returns the fixture IDs in the next pattern and advances this
    /// bank's state.
    /// Velocity will eventually be used to support velocity bucketing.
    pub fn next(&mut self, _velocity: Unipolar) -> (ids: Vec<FixtureId>)
        requires
            old(self).wf(),
        ensures
            final(self).wf(),
            ids@ == old(self).next_ids_spec(),
            old(self).advances_to(*final(self)),
    {
        match self.current_sequence {
            Some(sequence_id) => {
                let mut sequence = self.sequences.remove(sequence_id);
                let (ids, has_more) = sequence.next();
                self.sequences.insert(sequence_id, sequence);
                proof {
                    assert(self.sequences@ =~= old(self).sequences@.update(
                        sequence_id as int,
                        old(self).sequences@[sequence_id as int].next_state_spec(),
                    ));
                }
                if !has_more {
                    // Advance to the next sequence.
                    let n = self.sequences.len();
                    proof {
                        assert(sequence_id < n);
                    }
                    let next_sequence_id = (sequence_id + 1) % n;
                    self.current_sequence = Some(next_sequence_id);
                }
                ids
            },
            None => Vec::new(),
        }
    }
}

/// Options for color organ pattern sequences.
pub enum PatternSequence {
    /// A static collection of fixtures, delivered whole on every trigger.
    FixtureSet(Vec<FixtureId>),
    /// A stateful generator; the one kind so far is a linear run.
    Run(FixtureRun),
}

impl PatternSequence {
    /// A runnable sequence: a run must have somewhere to point.
    pub open spec fn wf(self) -> bool {
        match self {
            PatternSequence::FixtureSet(_) => true,
            PatternSequence::Run(run) => run.wf(),
        }
    }

    /// The ids this sequence yields on the next trigger.
    pub open spec fn next_ids_spec(self) -> Seq<FixtureId> {
        match self {
            PatternSequence::FixtureSet(fixtures) => fixtures@,
            PatternSequence::Run(run) => seq![run.fixtures@[run.current_index as int]],
        }
    }

    /// The sequence state after one trigger.
    pub open spec fn next_state_spec(self) -> PatternSequence {
        match self {
            PatternSequence::FixtureSet(_) => self,
            PatternSequence::Run(run) => PatternSequence::Run(run.next_state_spec()),
        }
    }

    /// Whether this sequence has more patterns before it wraps around.
    pub open spec fn has_more_spec(self) -> bool {
        match self {
            PatternSequence::FixtureSet(_) => false,
            PatternSequence::Run(run) => run.current_index + 1 < run.fixtures@.len(),
        }
    }

    /// Yield the fixture IDs in the next pattern and advance.
    /// The second result is true if this sequence has additional patterns
    /// after this one.
    pub fn next(&mut self) -> (r: (Vec<FixtureId>, bool))
        requires
            old(self).wf(),
        ensures
            final(self).wf(),
            r.0@ == old(self).next_ids_spec(),
            r.1 == old(self).has_more_spec(),
            *final(self) == old(self).next_state_spec(),
    {
        match self {
            PatternSequence::FixtureSet(fixtures) => {
                let mut ids: Vec<FixtureId> = Vec::new();
                let mut i: usize = 0;
                while i < fixtures.len()
                    invariant
                        0 <= i <= fixtures@.len(),
                        ids@ == fixtures@.take(i as int),
                    decreases fixtures@.len() - i,
                {
                    ids.push(fixtures[i]);
                    proof {
                        assert(ids@ =~= fixtures@.take(i as int + 1));
                    }
                    i = i + 1;
                }
                proof {
                    assert(fixtures@.take(fixtures@.len() as int) =~= fixtures@);
                }
                (ids, false)
            },
            PatternSequence::Run(run) => run.next(),
        }
    }
}

/// A linear run pattern sequence, one fixture at a time.
pub struct FixtureRun {
    pub fixtures: Vec<FixtureId>,
    pub current_index: usize,
}

impl FixtureRun {
    /// There is a fixture to point at, and the cursor points at one.
    pub open spec fn wf(self) -> bool {
        0 <= self.current_index < self.fixtures@.len()
    }

    /// The run state after one trigger: the cursor advances, wrapping back
    /// to the start after the last fixture.
    pub open spec fn next_state_spec(self) -> FixtureRun {
        FixtureRun {
            fixtures: self.fixtures,
            current_index: if self.current_index + 1 < self.fixtures@.len() {
                (self.current_index + 1) as usize
            } else {
                0
            },
        }
    }

    /// Yield the fixture under the cursor and advance it.
    pub fn next(&mut self) -> (r: (Vec<FixtureId>, bool))
        requires
            old(self).wf(),
        ensures
            final(self).wf(),
            r.0@ == seq![old(self).fixtures@[old(self).current_index as int]],
            r.1 == (old(self).current_index + 1 < old(self).fixtures@.len()),
            *final(self) == old(self).next_state_spec(),
    {
        let mut ids: Vec<FixtureId> = Vec::new();
        ids.push(self.fixtures[self.current_index]);
        let has_more = if self.current_index == self.fixtures.len() - 1 {
            self.current_index = 0;
            false
        } else {
            self.current_index = self.current_index + 1;
            true
        };
        proof {
            assert(ids@ =~= seq![old(self).fixtures@[old(self).current_index as int]]);
        }
        (ids, has_more)
    }
}

} // verus!
