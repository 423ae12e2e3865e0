//! The permit ledger of a batch, as mathematics: which requests wait, which
//! hold a permit, which are done, and what each step does to that.
//!
//! Nothing here runs. [`crate::dispatch::Dispatcher`] is the executable
//! counterpart, and every one of its methods is specified by a function of
//! this module.

use crate::response::{outcome_of, Outcome, Received, TransportError};
use vstd::prelude::*;

verus! {

/// Where one request of a batch stands.
#[derive(Clone, Copy, Debug, PartialEq, Eq, Structural)]
pub enum Slot {
    /// Not started.
    Waiting,
    /// Started and not yet finished: it holds one permit.
    InFlight,
    /// Finished; its outcome was the one recorded at this position.
    Done(usize),
}

/// How many of `slots` hold a permit.
pub open spec fn in_flight(slots: Seq<Slot>) -> nat
    decreases slots.len(),
{
    if slots.len() == 0 {
        0
    } else {
        in_flight(slots.drop_last()) + if slots.last() is InFlight {
            1nat
        } else {
            0nat
        }
    }
}

/// How many of `slots` have not started.
pub open spec fn waiting(slots: Seq<Slot>) -> nat
    decreases slots.len(),
{
    if slots.len() == 0 {
        0
    } else {
        waiting(slots.drop_last()) + if slots.last() is Waiting {
            1nat
        } else {
            0nat
        }
    }
}

/// Some outcome among `outcomes` belongs to the request `ordinal`.
pub open spec fn has_ordinal(outcomes: Seq<Outcome>, ordinal: int) -> bool {
    exists|i: int| 0 <= i < outcomes.len() && (#[trigger] outcomes[i]).index == ordinal
}

/// The outcomes are those of `count` requests, one for each ordinal below
/// `count`: every ordinal occurs, and none twice.
pub open spec fn each_ordinal_once(outcomes: Seq<Outcome>, count: nat) -> bool {
    &&& outcomes.len() == count
    &&& forall|i: int| 0 <= i < outcomes.len() ==> (#[trigger] outcomes[i]).index < count
    &&& forall|i: int, j: int|
        0 <= i < j < outcomes.len() ==> (#[trigger] outcomes[i]).index != (
        #[trigger] outcomes[j]).index
    &&& forall|k: int| 0 <= k < count ==> #[trigger] has_ordinal(outcomes, k)
}

/// One thing that can happen to a ledger.
pub enum Event {
    /// The lowest waiting request asks for a permit.
    StartNext,
    /// The request with this ordinal asks for a permit.
    Start(u32),
    /// The request with this ordinal ended, with this result.
    Finish(u32, Result<Received, TransportError>),
}

/// A batch under a concurrency bound.
pub struct Ledger {
    /// The number of permits.
    pub limit: nat,
    /// One slot for each request, by ordinal.
    pub slots: Seq<Slot>,
    /// The outcomes recorded so far, in the order in which they came.
    pub outcomes: Seq<Outcome>,
}

impl Ledger {
    /// A batch of `count` requests, none of them started.
    pub open spec fn fresh(count: nat, limit: nat) -> Ledger {
        Ledger { limit, slots: Seq::new(count, |k: int| Slot::Waiting), outcomes: Seq::empty() }
    }

    /// The number of requests in the batch.
    pub open spec fn count(self) -> nat {
        self.slots.len()
    }

    /// The number of requests that hold a permit.
    pub open spec fn in_flight(self) -> nat {
        in_flight(self.slots)
    }

    /// The number of requests that have not started.
    pub open spec fn waiting(self) -> nat {
        waiting(self.slots)
    }

    /// The number of requests that have finished.
    pub open spec fn completed(self) -> nat {
        self.outcomes.len()
    }

    /// Every request has finished.
    pub open spec fn done(self) -> bool {
        self.waiting() == 0 && self.in_flight() == 0
    }

    /// `ordinal` is the lowest request that has not started.
    pub open spec fn is_next(self, ordinal: int) -> bool {
        &&& 0 <= ordinal < self.slots.len()
        &&& self.slots[ordinal] is Waiting
        &&& forall|k: int| 0 <= k < ordinal ==> !(#[trigger] self.slots[k] is Waiting)
    }

    /// The request `ordinal` may start now: it waits, and a permit is free.
    pub open spec fn can_start(self, ordinal: int) -> bool {
        &&& 0 <= ordinal < self.slots.len()
        &&& self.slots[ordinal] is Waiting
        &&& self.in_flight() < self.limit
    }

    /// The ledger after `ordinal` has taken a permit; unchanged where it may
    /// not start.
    pub open spec fn start(self, ordinal: int) -> Ledger {
        if self.can_start(ordinal) {
            Ledger { slots: self.slots.update(ordinal, Slot::InFlight), ..self }
        } else {
            self
        }
    }

    /// The lowest request that has not started, or the batch size if all
    /// have.
    pub open spec fn next_waiting(self) -> int {
        first_waiting(self.slots, 0)
    }

    /// The ledger after the lowest waiting request has taken a permit;
    /// unchanged where none waits or no permit is free.
    pub open spec fn start_next(self) -> Ledger {
        self.start(self.next_waiting())
    }

    /// The request `ordinal` holds a permit, and so can finish.
    pub open spec fn can_finish(self, ordinal: int) -> bool {
        0 <= ordinal < self.slots.len() && self.slots[ordinal] is InFlight
    }

    /// The ledger after `ordinal` has given its permit back and its outcome
    /// has been recorded; unchanged where it holds no permit.
    pub open spec fn finish(self, ordinal: int, outcome: Outcome) -> Ledger {
        if self.can_finish(ordinal) {
            Ledger {
                slots: self.slots.update(ordinal, Slot::Done(self.outcomes.len() as usize)),
                outcomes: self.outcomes.push(outcome),
                ..self
            }
        } else {
            self
        }
    }

    /// The ledger after `event`.
    pub open spec fn apply(self, event: Event) -> Ledger {
        match event {
            Event::StartNext => self.start_next(),
            Event::Start(ordinal) => self.start(ordinal as int),
            Event::Finish(ordinal, result) => self.finish(
                ordinal as int,
                outcome_of(ordinal, result),
            ),
        }
    }

    /// The ledger after `events`, one after the other.
    pub open spec fn replay(self, events: Seq<Event>) -> Ledger
        decreases events.len(),
    {
        if events.len() == 0 {
            self
        } else {
            self.replay(events.drop_last()).apply(events.last())
        }
    }

    /// What holds of a ledger however it was driven: no more permits are out
    /// than there are, every request is in exactly one of the three states,
    /// and slots and outcomes point at each other.
    pub open spec fn wf(self) -> bool {
        &&& self.slots.len() <= u32::MAX
        &&& self.in_flight() <= self.limit
        &&& self.waiting() + self.in_flight() + self.outcomes.len() == self.slots.len()
        &&& forall|k: int|
            0 <= k < self.slots.len() ==> (#[trigger] self.slots[k] matches Slot::Done(at) ==> at
                < self.outcomes.len() && self.outcomes[at as int].index == k)
        &&& forall|i: int|
            0 <= i < self.outcomes.len() ==> (#[trigger] self.outcomes[i]).index
                < self.slots.len() && self.slots[self.outcomes[i].index as int] == Slot::Done(
                i as usize,
            )
    }
}

/// The first index at or after `from` whose slot waits, or the length.
pub open spec fn first_waiting(slots: Seq<Slot>, from: int) -> int
    decreases slots.len() - from,
{
    if from < 0 || from >= slots.len() {
        slots.len() as int
    } else if slots[from] is Waiting {
        from
    } else {
        first_waiting(slots, from + 1)
    }
}

/// [`first_waiting`] finds the lowest waiting slot at or after `from`.
pub proof fn lemma_first_waiting(slots: Seq<Slot>, from: int)
    requires
        0 <= from <= slots.len(),
    ensures
        from <= first_waiting(slots, from) <= slots.len(),
        first_waiting(slots, from) < slots.len() ==> slots[first_waiting(slots, from)] is Waiting,
        forall|k: int| from <= k < first_waiting(slots, from) ==> !(#[trigger] slots[k] is Waiting),
    decreases slots.len() - from,
{
    if from < slots.len() && !(slots[from] is Waiting) {
        lemma_first_waiting(slots, from + 1);
    }
}

/// Replacing one slot moves the two counts by what left and what came.
pub proof fn lemma_counts_update(slots: Seq<Slot>, at: int, slot: Slot)
    requires
        0 <= at < slots.len(),
    ensures
        in_flight(slots.update(at, slot)) + (if slots[at] is InFlight {
            1nat
        } else {
            0nat
        }) == in_flight(slots) + (if slot is InFlight {
            1nat
        } else {
            0nat
        }),
        waiting(slots.update(at, slot)) + (if slots[at] is Waiting {
            1nat
        } else {
            0nat
        }) == waiting(slots) + (if slot is Waiting {
            1nat
        } else {
            0nat
        }),
    decreases slots.len(),
{
    let changed = slots.update(at, slot);
    if at == slots.len() - 1 {
        assert(changed.drop_last() =~= slots.drop_last());
    } else {
        lemma_counts_update(slots.drop_last(), at, slot);
        assert(changed.drop_last() =~= slots.drop_last().update(at, slot));
    }
}

/// A count of zero means that no slot is in that state, and back.
pub proof fn lemma_counts_zero(slots: Seq<Slot>)
    ensures
        in_flight(slots) == 0 <==> forall|k: int|
            0 <= k < slots.len() ==> !(#[trigger] slots[k] is InFlight),
        waiting(slots) == 0 <==> forall|k: int|
            0 <= k < slots.len() ==> !(#[trigger] slots[k] is Waiting),
        in_flight(slots) + waiting(slots) <= slots.len(),
    decreases slots.len(),
{
    if slots.len() > 0 {
        let front = slots.drop_last();
        lemma_counts_zero(front);
        assert(forall|k: int| 0 <= k < front.len() ==> front[k] == slots[k]);
        if in_flight(slots) == 0 {
            assert forall|k: int| 0 <= k < slots.len() implies !(#[trigger] slots[k]
                is InFlight) by {
                if k < front.len() {
                    assert(front[k] == slots[k]);
                }
            }
        }
        if waiting(slots) == 0 {
            assert forall|k: int| 0 <= k < slots.len() implies !(#[trigger] slots[k]
                is Waiting) by {
                if k < front.len() {
                    assert(front[k] == slots[k]);
                }
            }
        }
    }
}

/// In a batch where nothing has started, everything waits.
pub proof fn lemma_fresh_counts(count: nat)
    ensures
        waiting(Seq::new(count, |k: int| Slot::Waiting)) == count,
        in_flight(Seq::new(count, |k: int| Slot::Waiting)) == 0,
    decreases count,
{
    if count > 0 {
        lemma_fresh_counts((count - 1) as nat);
        assert(Seq::new(count, |k: int| Slot::Waiting).drop_last() =~= Seq::new(
            (count - 1) as nat,
            |k: int| Slot::Waiting,
        ));
    }
}

/// Taking a permit keeps a ledger well formed, and moves one request from
/// waiting to in flight.
pub proof fn lemma_start(ledger: Ledger, ordinal: int)
    requires
        ledger.wf(),
    ensures
        ledger.start(ordinal).wf(),
        ledger.start(ordinal).limit == ledger.limit,
        ledger.start(ordinal).count() == ledger.count(),
        ledger.start(ordinal).outcomes == ledger.outcomes,
        ledger.can_start(ordinal) ==> ledger.start(ordinal).in_flight() == ledger.in_flight() + 1
            && ledger.start(ordinal).waiting() + 1 == ledger.waiting(),
{
    if ledger.can_start(ordinal) {
        lemma_counts_update(ledger.slots, ordinal, Slot::InFlight);
        let after = ledger.start(ordinal);
        assert forall|i: int| 0 <= i < after.outcomes.len() implies (#[trigger] after.outcomes[i]).index
            < after.slots.len() && after.slots[after.outcomes[i].index as int] == Slot::Done(
            i as usize,
        ) by {
            assert(ledger.slots[ledger.outcomes[i].index as int] == Slot::Done(i as usize));
        }
    }
}

/// Giving a permit back keeps a ledger well formed, and moves one request
/// from in flight to done.
pub proof fn lemma_finish(ledger: Ledger, ordinal: int, outcome: Outcome)
    requires
        ledger.wf(),
        outcome.index == ordinal,
    ensures
        ledger.finish(ordinal, outcome).wf(),
        ledger.finish(ordinal, outcome).limit == ledger.limit,
        ledger.finish(ordinal, outcome).count() == ledger.count(),
        ledger.finish(ordinal, outcome).waiting() == ledger.waiting(),
        ledger.can_finish(ordinal) ==> ledger.finish(ordinal, outcome).in_flight() + 1
            == ledger.in_flight() && ledger.finish(ordinal, outcome).completed() == ledger.completed()
            + 1,
        !ledger.can_finish(ordinal) ==> ledger.finish(ordinal, outcome) == ledger,
{
    if ledger.can_finish(ordinal) {
        let at = ledger.outcomes.len() as usize;
        lemma_counts_update(ledger.slots, ordinal, Slot::Done(at));
        lemma_counts_zero(ledger.slots);
        let after = ledger.finish(ordinal, outcome);
        assert forall|k: int| 0 <= k < after.slots.len() implies (#[trigger] after.slots[k] matches Slot::Done(
            pos,
        ) ==> pos < after.outcomes.len() && after.outcomes[pos as int].index == k) by {
            if k != ordinal {
                assert(after.slots[k] == ledger.slots[k]);
            }
        }
        assert forall|i: int| 0 <= i < after.outcomes.len() implies (#[trigger] after.outcomes[i]).index
            < after.slots.len() && after.slots[after.outcomes[i].index as int] == Slot::Done(
            i as usize,
        ) by {
            if i < ledger.outcomes.len() {
                assert(after.outcomes[i] == ledger.outcomes[i]);
                assert(ledger.slots[ledger.outcomes[i].index as int] == Slot::Done(i as usize));
            }
        }
    }
}

/// Whatever happens to a well-formed ledger leaves it well formed, with the
/// same batch and the same number of permits, and takes no outcome away.
pub proof fn lemma_apply(ledger: Ledger, event: Event)
    requires
        ledger.wf(),
    ensures
        ledger.apply(event).wf(),
        ledger.apply(event).limit == ledger.limit,
        ledger.apply(event).count() == ledger.count(),
        ledger.apply(event).completed() >= ledger.completed(),
{
    match event {
        Event::StartNext => {
            lemma_start(ledger, ledger.next_waiting());
        },
        Event::Start(ordinal) => {
            lemma_start(ledger, ordinal as int);
        },
        Event::Finish(ordinal, result) => {
            lemma_finish(ledger, ordinal as int, outcome_of(ordinal, result));
        },
    }
}

/// The same of any number of events.
pub proof fn lemma_replay(ledger: Ledger, events: Seq<Event>)
    requires
        ledger.wf(),
    ensures
        ledger.replay(events).wf(),
        ledger.replay(events).limit == ledger.limit,
        ledger.replay(events).count() == ledger.count(),
        ledger.replay(events).completed() >= ledger.completed(),
    decreases events.len(),
{
    if events.len() > 0 {
        lemma_replay(ledger, events.drop_last());
        lemma_apply(ledger.replay(events.drop_last()), events.last());
    }
}

/// A batch in which nothing has started is well formed.
pub proof fn lemma_fresh(count: u32, limit: u32)
    ensures
        Ledger::fresh(count as nat, limit as nat).wf(),
        Ledger::fresh(count as nat, limit as nat).waiting() == count,
        Ledger::fresh(count as nat, limit as nat).in_flight() == 0,
{
    lemma_fresh_counts(count as nat);
}

/// In a well-formed ledger where every request has finished, the outcomes are
/// those of the whole batch, each ordinal once.
pub proof fn lemma_done_covers(ledger: Ledger)
    requires
        ledger.wf(),
        ledger.done(),
    ensures
        each_ordinal_once(ledger.outcomes, ledger.count()),
{
    lemma_counts_zero(ledger.slots);
    let outcomes = ledger.outcomes;
    assert forall|i: int, j: int| 0 <= i < j < outcomes.len() implies (#[trigger] outcomes[i]).index
        != (#[trigger] outcomes[j]).index by {
        assert(ledger.slots[outcomes[i].index as int] == Slot::Done(i as usize));
        assert(ledger.slots[outcomes[j].index as int] == Slot::Done(j as usize));
    }
    assert forall|k: int| 0 <= k < ledger.count() implies #[trigger] has_ordinal(outcomes, k) by {
        assert(!(ledger.slots[k] is Waiting));
        assert(!(ledger.slots[k] is InFlight));
        let at = ledger.slots[k]->Done_0;
        assert(ledger.slots[k] matches Slot::Done(pos) ==> pos < outcomes.len() && outcomes[pos as int].index == k);
        assert(outcomes[at as int].index == k);
    }
}

/// However a batch of `count` requests is driven under a bound of `limit`
/// permits, at no moment are more than `limit` requests in flight.
pub proof fn law_in_flight_bounded(count: u32, limit: u32, events: Seq<Event>)
    ensures
        Ledger::fresh(count as nat, limit as nat).replay(events).in_flight() <= limit,
{
    lemma_fresh(count, limit);
    lemma_replay(Ledger::fresh(count as nat, limit as nat), events);
}

/// However a batch of `count` requests is driven, once every
/// request has finished there are exactly `count` outcomes, and their
/// ordinals are the numbers below `count`, each once.
pub proof fn law_each_ordinal_once(count: u32, limit: u32, events: Seq<Event>)
    requires
        Ledger::fresh(count as nat, limit as nat).replay(events).done(),
    ensures
        each_ordinal_once(Ledger::fresh(count as nat, limit as nat).replay(events).outcomes, count as nat),
{
    lemma_fresh(count, limit);
    lemma_replay(Ledger::fresh(count as nat, limit as nat), events);
    lemma_done_covers(Ledger::fresh(count as nat, limit as nat).replay(events));
}

/// The number of finished requests never goes down: after more events it is
/// at least what it was.
pub proof fn law_progress_monotone(count: u32, limit: u32, before: Seq<Event>, after: Seq<Event>)
    ensures
        Ledger::fresh(count as nat, limit as nat).replay(before + after).completed() >= Ledger::fresh(
            count as nat,
            limit as nat,
        ).replay(before).completed(),
{
    let ledger = Ledger::fresh(count as nat, limit as nat);
    lemma_fresh(count, limit);
    lemma_replay(ledger, before);
    lemma_replay_concat(ledger, before, after);
    lemma_replay(ledger.replay(before), after);
}

/// Replaying two runs of events one after the other is replaying their
/// concatenation.
pub proof fn lemma_replay_concat(ledger: Ledger, before: Seq<Event>, after: Seq<Event>)
    ensures
        ledger.replay(before + after) == ledger.replay(before).replay(after),
    decreases after.len(),
{
    if after.len() == 0 {
        assert(before + after =~= before);
    } else {
        lemma_replay_concat(ledger, before, after.drop_last());
        assert((before + after).drop_last() =~= before + after.drop_last());
        assert((before + after).last() == after.last());
    }
}

} // verus!
