//! The bounded dispatcher: it decides which request of a batch may start,
//! and files each outcome under its ordinal.
//!
//! The dispatcher sends nothing itself. Its caller asks it for the next
//! request to start, performs the request, and reports how it ended. However
//! the caller interleaves these calls, the dispatcher never has more
//! requests in flight than it has permits.

use crate::error::SetupError;
use crate::ledger::{
    each_ordinal_once, lemma_counts_update, lemma_counts_zero, lemma_done_covers, lemma_finish,
    lemma_first_waiting, lemma_fresh, lemma_start, Ledger, Slot,
};
use crate::response::{outcome_of, Outcome, PyResponse, Received, TransportError};
use vstd::prelude::*;

verus! {

/// Why the end of a request was not accepted.
#[derive(Clone, Copy, Debug, PartialEq, Eq, Structural)]
pub enum DispatchError {
    /// The batch has no request with this ordinal.
    UnknownOrdinal,
    /// The request with this ordinal holds no permit: it has not started,
    /// or its end was reported before.
    NotInFlight,
}

/// What the caller of a dispatcher does next.
#[derive(Clone, Copy, Debug, PartialEq, Eq, Structural)]
pub enum Action {
    /// Start the request with this ordinal; it now holds a permit.
    Launch(u32),
    /// Nothing can start: wait for a request in flight to end.
    Wait,
    /// Every request has ended: collect the outcomes.
    Finished,
}

/// What a list of responses holds.
pub open spec fn outcomes_view(responses: Seq<PyResponse>) -> Seq<Outcome> {
    Seq::new(responses.len(), |i: int| responses[i]@)
}

/// A batch of requests and the permits they run under.
pub struct Dispatcher {
    limit: u32,
    slots: Vec<Slot>,
    /// Every slot below the cursor has started.
    cursor: usize,
    running: u32,
    pending: u32,
    outcomes: Vec<PyResponse>,
}

impl View for Dispatcher {
    type V = Ledger;

    closed spec fn view(&self) -> Ledger {
        Ledger {
            limit: self.limit as nat,
            slots: self.slots@,
            outcomes: outcomes_view(self.outcomes@),
        }
    }
}

impl Dispatcher {
    /// The dispatcher's bookkeeping agrees with its ledger, and the ledger is
    /// well formed.
    pub closed spec fn wf(&self) -> bool {
        &&& self@.wf()
        &&& self.limit >= 1
        &&& self.running == self@.in_flight()
        &&& self.pending == self@.waiting()
        &&& self.cursor <= self.slots.len()
        &&& forall|k: int| 0 <= k < self.cursor ==> !(#[trigger] self.slots[k] is Waiting)
    }

    /// A well-formed dispatcher has a well-formed ledger with at least one
    /// permit, so all that is proved of such ledgers holds of it.
    pub proof fn lemma_wf(&self)
        requires
            self.wf(),
        ensures
            self@.wf(),
            self@.limit >= 1,
            self@.in_flight() <= self@.limit,
            self@.count() <= u32::MAX,
    {
    }

    /// A dispatcher for `count` requests of which at most `concurrency` are
    /// in flight at a time. With no permit at all there is nothing to set
    /// up.
    pub fn new(count: u32, concurrency: u32) -> (r: Result<Self, SetupError>)
        ensures
            concurrency == 0 <==> r is Err,
            r matches Ok(dispatcher) ==> dispatcher.wf() && dispatcher@ == Ledger::fresh(
                count as nat,
                concurrency as nat,
            ),
            r matches Err(e) ==> e == SetupError::NoPermits,
    {
        if concurrency == 0 {
            return Err(SetupError::NoPermits);
        }
        let mut slots: Vec<Slot> = Vec::new();
        let mut k: u32 = 0;
        while k < count
            invariant
                k <= count,
                slots.len() == k,
                forall|j: int| 0 <= j < k ==> slots[j] == Slot::Waiting,
            decreases count - k,
        {
            slots.push(Slot::Waiting);
            k += 1;
        }
        let outcomes: Vec<PyResponse> = Vec::new();
        let dispatcher = Dispatcher {
            limit: concurrency,
            slots,
            cursor: 0,
            running: 0,
            pending: count,
            outcomes,
        };
        proof {
            lemma_fresh(count, concurrency);
            assert(dispatcher@.slots =~= Ledger::fresh(count as nat, concurrency as nat).slots);
            assert(dispatcher@.outcomes =~= Ledger::fresh(count as nat, concurrency as nat).outcomes);
        }
        Ok(dispatcher)
    }

    /// The number of requests in the batch.
    pub fn count(&self) -> (r: u32)
        requires
            self.wf(),
        ensures
            r == self@.count(),
    {
        self.slots.len() as u32
    }

    /// The number of permits.
    pub fn limit(&self) -> (r: u32)
        ensures
            r == self@.limit,
    {
        self.limit
    }

    /// The number of requests that hold a permit now.
    pub fn in_flight(&self) -> (r: u32)
        requires
            self.wf(),
        ensures
            r == self@.in_flight(),
            r <= self@.limit,
    {
        self.running
    }

    /// The number of requests that have not started.
    pub fn waiting(&self) -> (r: u32)
        requires
            self.wf(),
        ensures
            r == self@.waiting(),
    {
        self.pending
    }

    /// The number of requests that have ended. It never goes down, so it
    /// can drive a progress indicator.
    pub fn completed(&self) -> (r: u32)
        requires
            self.wf(),
        ensures
            r == self@.completed(),
    {
        self.outcomes.len() as u32
    }

    /// Whether every request has ended.
    pub fn is_done(&self) -> (r: bool)
        requires
            self.wf(),
        ensures
            r == self@.done(),
    {
        self.pending == 0 && self.running == 0
    }

    /// Lets one given request start, if it waits and a permit is free.
    /// Returns whether it did.
    pub fn start(&mut self, ordinal: u32) -> (started: bool)
        requires
            old(self).wf(),
        ensures
            final(self).wf(),
            started == old(self)@.can_start(ordinal as int),
            final(self)@ == old(self)@.start(ordinal as int),
            started ==> final(self)@.in_flight() == old(self)@.in_flight() + 1 && final(self)@.waiting() + 1 == old(self)@.waiting(),
    {
        if ordinal as usize >= self.slots.len() {
            return false;
        }
        if self.running >= self.limit {
            return false;
        }
        match self.slots[ordinal as usize] {
            Slot::Waiting => {},
            _ => {
                return false;
            },
        }
        proof {
            lemma_start(self@, ordinal as int);
            lemma_counts_zero(self@.slots);
        }
        self.slots.set(ordinal as usize, Slot::InFlight);
        self.running = self.running + 1;
        self.pending = self.pending - 1;
        true
    }

    /// Lets the lowest waiting request start, if there is one and a permit
    /// is free. Returns its ordinal.
    pub fn start_next(&mut self) -> (started: Option<u32>)
        requires
            old(self).wf(),
        ensures
            final(self).wf(),
            final(self)@ == old(self)@.start_next(),
            match started {
                Some(ordinal) => old(self)@.is_next(ordinal as int) && old(self)@.can_start(
                    ordinal as int,
                ) && final(self)@ == old(self)@.start(ordinal as int) && final(self)@.in_flight() == old(self)@.in_flight() + 1 && final(self)@.waiting() + 1 == old(self)@.waiting(),
                None => (old(self)@.waiting() == 0 || old(self)@.in_flight() == old(self)@.limit)
                    && final(self)@ == old(self)@,
            },
    {
        proof {
            lemma_first_waiting(self@.slots, 0);
            lemma_counts_zero(self@.slots);
        }
        if self.pending == 0 || self.running >= self.limit {
            return None;
        }
        while self.cursor < self.slots.len() && !matches!(self.slots[self.cursor], Slot::Waiting)
            invariant
                self.cursor <= self.slots.len(),
                self.slots == old(self).slots,
                self.limit == old(self).limit,
                self.running == old(self).running,
                self.pending == old(self).pending,
                self.outcomes == old(self).outcomes,
                forall|k: int| 0 <= k < self.cursor ==> !(#[trigger] self.slots[k] is Waiting),
            decreases self.slots.len() - self.cursor,
        {
            self.cursor = self.cursor + 1;
        }
        assert(self.cursor < self.slots.len());
        let ordinal = self.cursor as u32;
        assert(old(self)@.next_waiting() == ordinal as int) by {
            let next = old(self)@.next_waiting();
            if next < ordinal {
                assert(!(self.slots[next] is Waiting));
            } else if next > ordinal {
                assert(!(old(self)@.slots[ordinal as int] is Waiting));
            }
        }
        let started = self.start(ordinal);
        assert(started);
        Some(ordinal)
    }

    /// Records how the request `ordinal` ended and gives its permit back.
    /// A failure in transit is recorded as an outcome like any other; the
    /// batch goes on.
    pub fn finish(&mut self, ordinal: u32, result: Result<Received, TransportError>) -> (r: Result<
        (),
        DispatchError,
    >)
        requires
            old(self).wf(),
        ensures
            final(self).wf(),
            final(self)@ == old(self)@.finish(ordinal as int, outcome_of(ordinal, result)),
            r is Ok <==> old(self)@.can_finish(ordinal as int),
            r is Ok ==> final(self)@.in_flight() + 1 == old(self)@.in_flight() && final(self)@.completed() == old(self)@.completed() + 1 && final(self)@.waiting() == old(self)@.waiting(),
            r matches Err(e) ==> e == (if ordinal >= old(self)@.count() {
                DispatchError::UnknownOrdinal
            } else {
                DispatchError::NotInFlight
            }),
    {
        if ordinal as usize >= self.slots.len() {
            return Err(DispatchError::UnknownOrdinal);
        }
        match self.slots[ordinal as usize] {
            Slot::InFlight => {},
            _ => {
                return Err(DispatchError::NotInFlight);
            },
        }
        let response = PyResponse::settle(ordinal, result);
        proof {
            lemma_finish(self@, ordinal as int, response@);
            lemma_counts_zero(self@.slots);
        }
        let at = self.outcomes.len();
        self.slots.set(ordinal as usize, Slot::Done(at));
        self.outcomes.push(response);
        self.running = self.running - 1;
        assert(outcomes_view(self.outcomes@) =~= outcomes_view(old(self).outcomes@).push(
            response@,
        ));
        Ok(())
    }

    /// What the caller does next: start a request, wait for one to end, or
    /// collect the outcomes. A request named in [`Action::Launch`] has been
    /// given its permit.
    pub fn advance(&mut self) -> (action: Action)
        requires
            old(self).wf(),
        ensures
            final(self).wf(),
            final(self)@ == old(self)@.start_next(),
            match action {
                Action::Launch(ordinal) => old(self)@.is_next(ordinal as int) && old(self)@.can_start(ordinal as int),
                Action::Wait => !old(self)@.done() && final(self)@ == old(self)@ && old(self)@.in_flight() > 0,
                Action::Finished => old(self)@.done() && final(self)@ == old(self)@,
            },
    {
        if self.is_done() {
            proof {
                lemma_first_waiting(self@.slots, 0);
                lemma_counts_zero(self@.slots);
            }
            return Action::Finished;
        }
        match self.start_next() {
            Some(ordinal) => Action::Launch(ordinal),
            None => Action::Wait,
        }
    }

    /// The outcomes recorded, in the order in which the requests ended.
    /// Once every request has ended these are the outcomes of the whole
    /// batch, one for each ordinal.
    pub fn into_outcomes(self) -> (r: Vec<PyResponse>)
        requires
            self.wf(),
        ensures
            outcomes_view(r@) == self@.outcomes,
            r.len() == self@.completed(),
            self@.done() ==> each_ordinal_once(outcomes_view(r@), self@.count()),
    {
        proof {
            if self@.done() {
                lemma_done_covers(self@);
            }
        }
        self.outcomes
    }
}

/// A run of consecutive ordinals that one worker takes, one request at a
/// time.
#[derive(Clone, Copy, Debug, PartialEq, Eq, Structural)]
pub struct Share {
    /// The first ordinal of the run.
    pub first: u32,
    /// How many ordinals the run holds.
    pub len: u32,
}

/// How many of `count` requests the worker `worker` of `workers` takes:
/// the even share, and one more for each of the first `count % workers`
/// workers, so that no request is left over.
pub open spec fn share_len(count: nat, workers: nat, worker: nat) -> nat {
    count / workers + if worker < count % workers {
        1nat
    } else {
        0nat
    }
}

/// The first ordinal of the worker `worker`: what the workers before it
/// take together.
pub open spec fn share_first(count: nat, workers: nat, worker: nat) -> nat {
    worker * (count / workers) + if worker < count % workers {
        worker
    } else {
        count % workers
    }
}

/// The shares of successive workers follow each other without gap or
/// overlap, from ordinal 0 up to the batch size: they split the batch.
pub proof fn law_shares_split_batch(count: nat, workers: nat)
    requires
        workers >= 1,
    ensures
        share_first(count, workers, 0) == 0,
        share_first(count, workers, workers) == count,
        forall|w: nat|
            w < workers ==> #[trigger] share_first(count, workers, w + 1) == share_first(
                count,
                workers,
                w,
            ) + share_len(count, workers, w),
{
    let base = count / workers;
    let extra = count % workers;
    assert(0 * base == 0);
    assert(workers * base + extra == count) by (nonlinear_arith)
        requires
            workers >= 1,
            base == count / workers,
            extra == count % workers,
    ;
    assert(extra < workers) by (nonlinear_arith)
        requires
            workers >= 1,
            extra == count % workers,
    ;
    assert forall|w: nat| w < workers implies #[trigger] share_first(count, workers, w + 1)
        == share_first(count, workers, w) + share_len(count, workers, w) by {
        assert((w + 1) * base == w * base + base) by (nonlinear_arith);
    }
}

/// Every share lies within the batch.
pub proof fn lemma_share_within(count: nat, workers: nat, worker: nat)
    requires
        workers >= 1,
        worker <= workers,
    ensures
        share_first(count, workers, worker) <= count,
        worker < workers ==> share_first(count, workers, worker) + share_len(
            count,
            workers,
            worker,
        ) <= count,
{
    let base = count / workers;
    let extra = count % workers;
    assert(workers * base + extra == count) by (nonlinear_arith)
        requires
            workers >= 1,
            base == count / workers,
            extra == count % workers,
    ;
    assert(worker * base <= workers * base) by (nonlinear_arith)
        requires
            worker <= workers,
            base >= 0,
    ;
    if worker < workers {
        assert((worker + 1) * base == worker * base + base) by (nonlinear_arith);
        assert((worker + 1) * base <= workers * base) by (nonlinear_arith)
            requires
                worker + 1 <= workers,
                base >= 0,
        ;
    }
}

/// Splits a batch of `count` requests among `workers` workers that each
/// send their share one request at a time, so that at most `workers`
/// requests are in flight. No request is dropped: the remainder of the
/// division goes, one each, to the first workers. With no worker there is
/// nothing to set up.
pub fn shares(count: u32, workers: u32) -> (r: Result<Vec<Share>, SetupError>)
    ensures
        workers == 0 <==> r is Err,
        r matches Err(e) ==> e == SetupError::NoPermits,
        r matches Ok(split) ==> split.len() == workers && forall|w: int|
            0 <= w < workers ==> (#[trigger] split[w]).first == share_first(
                count as nat,
                workers as nat,
                w as nat,
            ) && split[w].len == share_len(count as nat, workers as nat, w as nat),
{
    if workers == 0 {
        return Err(SetupError::NoPermits);
    }
    let base: u32 = count / workers;
    let extra: u32 = count % workers;
    let mut split: Vec<Share> = Vec::new();
    let mut first: u32 = 0;
    let mut w: u32 = 0;
    proof {
        law_shares_split_batch(count as nat, workers as nat);
    }
    while w < workers
        invariant
            workers >= 1,
            w <= workers,
            base == count / workers,
            extra == count % workers,
            split.len() == w,
            first == share_first(count as nat, workers as nat, w as nat),
            forall|k: int|
                0 <= k < w ==> (#[trigger] split[k]).first == share_first(
                    count as nat,
                    workers as nat,
                    k as nat,
                ) && split[k].len == share_len(count as nat, workers as nat, k as nat),
        decreases workers - w,
    {
        proof {
            lemma_share_within(count as nat, workers as nat, w as nat);
            law_shares_split_batch(count as nat, workers as nat);
            assert(share_first(count as nat, workers as nat, (w as nat) + 1) == share_first(
                count as nat,
                workers as nat,
                w as nat,
            ) + share_len(count as nat, workers as nat, w as nat));
        }
        let len: u32 = if w < extra {
            base + 1
        } else {
            base
        };
        split.push(Share { first, len });
        first = first + len;
        w += 1;
    }
    Ok(split)
}

} // verus!
