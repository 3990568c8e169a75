//! The bounded worker pool, as a state machine.
//!
//! The pool owns a batch of items and a fixed number of slots. Its driver
//! asks it what to do next, runs the item it is told to start, and reports
//! each result back. The pool never has more items in flight than it has
//! slots, and it is finished only when every item has reported.

use vstd::prelude::*;
use vstd::pervasive::unreached;
use crate::outcome::{
    items_of, outcome_view, outcomes_view, result_view, Outcome, OutcomeView,
};
use crate::table::texts;

verus! {

/// What the driver of a pool does next.
#[derive(Debug, PartialEq, Eq)]
pub enum PoolStep {
    /// A slot is taken for the item: run it, and report its result under `ticket`.
    Start { ticket: usize, item: String },
    /// Every slot is taken, or nothing is left to start: wait for an item in flight to report.
    Wait,
    /// Every item has reported.
    Done,
}

/// Why a pool refuses a request. These are faults of the driver or of the
/// configuration, never of an item.
#[derive(Clone, Copy, Debug, PartialEq, Eq, Structural)]
pub enum PoolError {
    /// Items are left to start, nothing is in flight, and the pool has no slot at all.
    NoSlot,
    /// A result was reported under a ticket that is not in flight.
    NotRunning,
}

/// A pool as a value of mathematics.
pub struct PoolView {
    /// The number of slots.
    pub capacity: nat,
    /// The keys of the items, in the order in which they were submitted.
    pub items: Seq<Seq<char>>,
    /// How many items have been started: the tickets below this number.
    pub started: nat,
    /// For each ticket, the result that was reported under it, if any.
    pub results: Seq<Option<Result<(), Seq<char>>>>,
}

/// What a pool decides when asked for the next step.
pub enum PoolDecision {
    Start,
    Wait,
    Done,
    NoSlot,
}

impl PoolView {
    /// Whether the item under `ticket` has been started and has not reported.
    pub open spec fn is_running(self, ticket: int) -> bool {
        0 <= ticket < self.started && self.results[ticket] is None
    }

    /// The tickets in flight.
    pub open spec fn running(self) -> Set<int> {
        Set::new(|ticket: int| self.is_running(ticket))
    }

    /// The number of items in flight.
    pub open spec fn in_flight(self) -> nat {
        self.running().len()
    }

    /// Whether every item has reported.
    pub open spec fn is_done(self) -> bool {
        self.started == self.items.len() && self.in_flight() == 0
    }

    /// What holds of every pool: one result place for each item, results
    /// only under tickets that were started, and no more items in flight
    /// than there are slots.
    pub open spec fn well_formed(self) -> bool {
        &&& self.results.len() == self.items.len()
        &&& self.started <= self.items.len()
        &&& forall|ticket: int|
            self.started <= ticket < self.items.len() ==> (#[trigger] self.results[ticket]) is None
        &&& self.in_flight() <= self.capacity
    }

    /// A pool that has started nothing.
    pub open spec fn initial(items: Seq<Seq<char>>, capacity: nat) -> PoolView {
        PoolView {
            capacity,
            items,
            started: 0,
            results: Seq::new(items.len(), |i: int| None::<Result<(), Seq<char>>>),
        }
    }

    /// What the pool answers when asked for the next step.
    pub open spec fn decision(self) -> PoolDecision {
        if self.started < self.items.len() && self.in_flight() < self.capacity {
            PoolDecision::Start
        } else if self.in_flight() > 0 {
            PoolDecision::Wait
        } else if self.started == self.items.len() {
            PoolDecision::Done
        } else {
            PoolDecision::NoSlot
        }
    }

    /// The pool after it has started its next item.
    pub open spec fn start(self) -> PoolView {
        PoolView { started: self.started + 1, ..self }
    }

    /// The pool after `result` was reported under `ticket`.
    pub open spec fn complete(self, ticket: int, result: Result<(), Seq<char>>) -> PoolView {
        PoolView { results: self.results.update(ticket, Some(result)), ..self }
    }

    /// The outcomes of a pool in which every item has reported, in the order of the items.
    pub open spec fn outcomes(self) -> Seq<OutcomeView> {
        Seq::new(self.items.len(), |i: int| (self.items[i], self.results[i]->0))
    }
}

/// The tickets in flight are finitely many, and all below the number of items started.
pub proof fn lemma_running_finite(pool: PoolView)
    ensures
        pool.running().finite(),
        pool.running().len() <= pool.started,
{
    vstd::set_lib::lemma_int_range(0, pool.started as int);
    let all = vstd::set_lib::set_int_range(0, pool.started as int);
    assert(pool.running().subset_of(all));
    vstd::set_lib::lemma_len_subset(pool.running(), all);
}

/// Starting the next item puts exactly its ticket in flight.
pub proof fn lemma_start(pool: PoolView)
    requires
        pool.well_formed(),
        pool.started < pool.items.len(),
    ensures
        pool.start().running() == pool.running().insert(pool.started as int),
        !pool.running().contains(pool.started as int),
        pool.start().in_flight() == pool.in_flight() + 1,
{
    lemma_running_finite(pool);
    assert(pool.results[pool.started as int] is None);
    assert(pool.start().running() =~= pool.running().insert(pool.started as int));
}

/// Reporting under a ticket in flight takes exactly that ticket out of flight.
pub proof fn lemma_complete(pool: PoolView, ticket: int, result: Result<(), Seq<char>>)
    requires
        pool.well_formed(),
        pool.is_running(ticket),
    ensures
        pool.complete(ticket, result).running() == pool.running().remove(ticket),
        pool.complete(ticket, result).in_flight() + 1 == pool.in_flight(),
{
    lemma_running_finite(pool);
    assert(pool.complete(ticket, result).running() =~= pool.running().remove(ticket));
}

/// What a driver can do to a pool.
pub enum PoolEvent {
    /// The driver asks for the next step.
    Ask,
    /// The driver reports a result under a ticket.
    Report(int, Result<(), Seq<char>>),
}

impl PoolView {
    /// The number of items that have reported.
    pub open spec fn reported(self) -> nat {
        (self.started - self.in_flight()) as nat
    }

    /// The pool after one event. Asking starts the next item where the
    /// decision is to start one; a report is taken under a ticket in
    /// flight; anything else leaves the pool as it is.
    pub open spec fn after(self, event: PoolEvent) -> PoolView {
        match event {
            PoolEvent::Ask => if self.decision() is Start {
                self.start()
            } else {
                self
            },
            PoolEvent::Report(ticket, result) => if self.is_running(ticket) {
                self.complete(ticket, result)
            } else {
                self
            },
        }
    }

    /// The pool after a sequence of events, taken in their order.
    pub open spec fn after_all(self, events: Seq<PoolEvent>) -> PoolView
        decreases events.len(),
    {
        if events.len() == 0 {
            self
        } else {
            self.after_all(events.drop_last()).after(events.last())
        }
    }
}

/// A pool that has started nothing is well formed, with nothing in flight.
pub proof fn lemma_initial(items: Seq<Seq<char>>, capacity: nat)
    ensures
        PoolView::initial(items, capacity).well_formed(),
        PoolView::initial(items, capacity).in_flight() == 0,
        items.len() == 0 ==> PoolView::initial(items, capacity).is_done(),
        items.len() == 0 ==> PoolView::initial(items, capacity).decision() is Done,
{
    assert(PoolView::initial(items, capacity).running() =~= Set::<int>::empty());
}

/// No event takes a well-formed pool out of its bounds.
pub proof fn lemma_after_keeps_bound(pool: PoolView, event: PoolEvent)
    requires
        pool.well_formed(),
    ensures
        pool.after(event).well_formed(),
        pool.after(event).in_flight() <= pool.capacity,
        pool.after(event).capacity == pool.capacity,
        pool.after(event).items == pool.items,
{
    match event {
        PoolEvent::Ask => {
            if pool.decision() is Start {
                lemma_start(pool);
            }
        },
        PoolEvent::Report(ticket, result) => {
            if pool.is_running(ticket) {
                lemma_complete(pool, ticket, result);
            }
        },
    }
}

/// The concurrency bound. Whatever a driver does with a pool of `capacity`
/// slots over any batch, in any order and for any number of events, the
/// number of items in flight never exceeds `capacity`. A pool over an
/// empty batch is done before the first event.
pub proof fn concurrency_bound(items: Seq<Seq<char>>, capacity: nat, events: Seq<PoolEvent>)
    ensures
        PoolView::initial(items, capacity).after_all(events).well_formed(),
        PoolView::initial(items, capacity).after_all(events).in_flight() <= capacity,
        PoolView::initial(items, capacity).after_all(events).capacity == capacity,
        items.len() == 0 ==> PoolView::initial(items, capacity).is_done(),
    decreases events.len(),
{
    lemma_initial(items, capacity);
    if events.len() > 0 {
        concurrency_bound(items, capacity, events.drop_last());
        lemma_after_keeps_bound(
            PoolView::initial(items, capacity).after_all(events.drop_last()),
            events.last(),
        );
    }
}

/// Failure isolation. What one item reports decides the result kept
/// under its own ticket and nothing else: had it reported anything else,
/// every other ticket would hold the same result, and the same items
/// would have been started.
pub proof fn failure_isolation(
    pool: PoolView,
    ticket: int,
    reported: Result<(), Seq<char>>,
    instead: Result<(), Seq<char>>,
    other: int,
)
    requires
        pool.well_formed(),
        0 <= other < pool.items.len(),
        other != ticket,
    ensures
        pool.after(PoolEvent::Report(ticket, reported)).results[other] == pool.results[other],
        pool.after(PoolEvent::Report(ticket, reported)).results[other] == pool.after(
            PoolEvent::Report(ticket, instead),
        ).results[other],
        pool.after(PoolEvent::Report(ticket, reported)).started == pool.after(
            PoolEvent::Report(ticket, instead),
        ).started,
        pool.is_running(ticket) ==> pool.after(PoolEvent::Report(ticket, reported)).results[ticket]
            == Some(reported),
{
}

/// When nothing is in flight, every ticket that was started has its result.
pub proof fn lemma_idle_all_reported(pool: PoolView)
    requires
        pool.well_formed(),
        pool.in_flight() == 0,
    ensures
        forall|ticket: int|
            0 <= ticket < pool.started ==> (#[trigger] pool.results[ticket]) is Some,
{
    lemma_running_finite(pool);
    pool.running().lemma_len0_is_empty();
    assert forall|ticket: int|
        0 <= ticket < pool.started implies (#[trigger] pool.results[ticket]) is Some by {
        assert(!pool.running().contains(ticket));
    }
}

#[derive(Debug)]
struct Core {
    capacity: usize,
    items: Vec<String>,
    started: usize,
    results: Vec<Option<Result<(), String>>>,
    in_flight: usize,
}

impl Core {
    spec fn view(&self) -> PoolView {
        PoolView {
            capacity: self.capacity as nat,
            items: texts(self.items@),
            started: self.started as nat,
            results: Seq::new(
                self.results@.len(),
                |i: int|
                    match self.results@[i] {
                        Some(result) => Some(result_view(result)),
                        None => None,
                    },
            ),
        }
    }

    spec fn sound(&self) -> bool {
        self.view().well_formed() && self.in_flight == self.view().in_flight()
    }

    fn idle() -> (core: Core)
        ensures
            core.sound(),
    {
        let core = Core {
            capacity: 0,
            items: Vec::new(),
            started: 0,
            results: Vec::new(),
            in_flight: 0,
        };
        proof {
            assert(core.view().running() =~= Set::<int>::empty());
        }
        core
    }
}

/// A bounded worker pool over a batch of items.
#[derive(Debug)]
pub struct WorkerPool {
    core: Core,
}

impl View for WorkerPool {
    type V = PoolView;

    closed spec fn view(&self) -> PoolView {
        self.core.view()
    }
}

impl WorkerPool {
    #[verifier::type_invariant]
    spec fn sound(&self) -> bool {
        self.core.sound()
    }

    /// A pool with `capacity` slots over `items`, none of them started.
    pub fn new(items: Vec<String>, capacity: usize) -> (pool: WorkerPool)
        ensures
            pool@ == PoolView::initial(texts(items@), capacity as nat),
            pool@.well_formed(),
            pool@.in_flight() == 0,
    {
        let mut results: Vec<Option<Result<(), String>>> = Vec::new();
        let mut i: usize = 0;
        while i < items.len()
            invariant
                i <= items@.len(),
                results@.len() == i,
                forall|j: int| 0 <= j < i ==> (#[trigger] results@[j]) is None,
            decreases items@.len() - i,
        {
            results.push(None);
            i = i + 1;
        }
        let core = Core { capacity, items, started: 0, results, in_flight: 0 };
        proof {
            let expected = PoolView::initial(texts(items@), capacity as nat);
            assert(core.view().results =~= expected.results);
            assert(core.view().items =~= expected.items);
            assert(core.view().running() =~= Set::<int>::empty());
        }
        WorkerPool { core }
    }

    /// The number of slots.
    pub fn capacity(&self) -> (n: usize)
        ensures
            n == self@.capacity,
    {
        self.core.capacity
    }

    /// The number of items in the batch.
    pub fn len(&self) -> (n: usize)
        ensures
            n == self@.items.len(),
    {
        self.core.items.len()
    }

    /// The number of items in flight. It never exceeds the number of slots.
    pub fn in_flight(&self) -> (n: usize)
        ensures
            n == self@.in_flight(),
            n <= self@.capacity,
            self@.well_formed(),
    {
        proof {
            use_type_invariant(self);
        }
        self.core.in_flight
    }

    /// The number of items that have reported.
    pub fn reported(&self) -> (n: usize)
        ensures
            n == self@.reported(),
            n <= self@.started,
    {
        proof {
            use_type_invariant(self);
            lemma_running_finite(self@);
        }
        self.core.started - self.core.in_flight
    }

    /// Whether every item has reported.
    pub fn is_done(&self) -> (done: bool)
        ensures
            done == self@.is_done(),
            self@.well_formed(),
    {
        proof {
            use_type_invariant(self);
        }
        self.core.started == self.core.items.len() && self.core.in_flight == 0
    }

    /// Decides the next step. An item is started while one is left and a
    /// slot is free; else the driver waits while anything is in flight;
    /// else the batch is done. A pool without any slot cannot start its
    /// first item, and says so.
    pub fn next_step(&mut self) -> (step: Result<PoolStep, PoolError>)
        ensures
            final(self)@ == old(self)@.after(PoolEvent::Ask),
            final(self)@.well_formed(),
            final(self)@.in_flight() <= final(self)@.capacity,
            match old(self)@.decision() {
                PoolDecision::Start => {
                    &&& step matches Ok(PoolStep::Start { ticket, item })
                    &&& ticket == old(self)@.started
                    &&& item@ == old(self)@.items[ticket as int]
                    &&& final(self)@ == old(self)@.start()
                    &&& final(self)@.in_flight() == old(self)@.in_flight() + 1
                },
                PoolDecision::Wait => step == Ok::<PoolStep, PoolError>(PoolStep::Wait),
                PoolDecision::Done => step == Ok::<PoolStep, PoolError>(PoolStep::Done),
                PoolDecision::NoSlot => step == Err::<PoolStep, PoolError>(PoolError::NoSlot),
            },
    {
        proof {
            use_type_invariant(&*self);
        }
        if self.core.started < self.core.items.len() && self.core.in_flight < self.core.capacity {
            // The state leaves the pool while it changes: the pool itself
            // is never seen between two assignments.
            let mut core = Core::idle();
            core::mem::swap(&mut self.core, &mut core);
            let ticket = core.started;
            let item = core.items[ticket].clone();
            proof {
                lemma_start(core.view());
            }
            core.started = core.started + 1;
            core.in_flight = core.in_flight + 1;
            proof {
                assert(core.view() == old(self)@.start());
            }
            self.core = core;
            Ok(PoolStep::Start { ticket, item })
        } else if self.core.in_flight > 0 {
            Ok(PoolStep::Wait)
        } else if self.core.started == self.core.items.len() {
            Ok(PoolStep::Done)
        } else {
            Err(PoolError::NoSlot)
        }
    }

    /// Takes the result that an item reports. Under a ticket in flight the
    /// result is kept and the slot is free again; the results of all other
    /// items stay as they are. Under any other ticket nothing changes.
    pub fn complete(
        &mut self,
        ticket: usize,
        result: Result<(), String>,
    ) -> (done: Result<(), PoolError>)
        ensures
            final(self)@ == old(self)@.after(PoolEvent::Report(ticket as int, result_view(result))),
            final(self)@.well_formed(),
            final(self)@.in_flight() <= final(self)@.capacity,
            old(self)@.is_running(ticket as int) ==> {
                &&& done is Ok
                &&& final(self)@ == old(self)@.complete(ticket as int, result_view(result))
                &&& final(self)@.in_flight() + 1 == old(self)@.in_flight()
            },
            !old(self)@.is_running(ticket as int) ==> {
                &&& done == Err::<(), PoolError>(PoolError::NotRunning)
                &&& final(self)@ == old(self)@
            },
    {
        proof {
            use_type_invariant(&*self);
        }
        if ticket < self.core.started && self.core.results[ticket].is_none() {
            let mut core = Core::idle();
            core::mem::swap(&mut self.core, &mut core);
            proof {
                lemma_complete(core.view(), ticket as int, result_view(result));
                lemma_running_finite(core.view());
            }
            core.results.set(ticket, Some(result));
            core.in_flight = core.in_flight - 1;
            proof {
                assert(core.view().results =~= old(self)@.complete(
                    ticket as int,
                    result_view(result),
                ).results);
                assert(core.view() == old(self)@.complete(ticket as int, result_view(result)));
            }
            self.core = core;
            Ok(())
        } else {
            Err(PoolError::NotRunning)
        }
    }

    /// The outcome of every item, in the order of the items, once every
    /// item has reported; `None` before that.
    pub fn outcomes(&self) -> (collected: Option<Vec<Outcome>>)
        ensures
            collected is Some <==> self@.is_done(),
            collected matches Some(outcomes) ==> outcomes_view(outcomes@) == self@.outcomes(),
    {
        proof {
            use_type_invariant(self);
        }
        if !(self.core.started == self.core.items.len() && self.core.in_flight == 0) {
            return None;
        }
        proof {
            lemma_idle_all_reported(self@);
            let results = self.core.results@;
            assert forall|ticket: int|
                0 <= ticket < results.len() implies (#[trigger] results[ticket]) is Some by {
                assert(self@.results[ticket] is Some);
            }
        }
        let mut outcomes: Vec<Outcome> = Vec::new();
        let mut i: usize = 0;
        while i < self.core.items.len()
            invariant
                i <= self.core.items@.len(),
                self.core.results@.len() == self.core.items@.len(),
                forall|ticket: int|
                    0 <= ticket < self.core.items@.len()
                        ==> (#[trigger] self.core.results@[ticket]) is Some,
                outcomes@.len() == i,
                forall|j: int|
                    0 <= j < i ==> outcome_view(#[trigger] outcomes@[j]) == (
                        self.core.items@[j]@,
                        result_view(self.core.results@[j]->0),
                    ),
            decreases self.core.items@.len() - i,
        {
            let result = match &self.core.results[i] {
                Some(Err(message)) => Err(message.clone()),
                _ => Ok(()),
            };
            outcomes.push((self.core.items[i].clone(), result));
            i = i + 1;
        }
        proof {
            assert(outcomes_view(outcomes@) =~= self@.outcomes());
        }
        Some(outcomes)
    }
}

/// Whether `outcome` is what `transform` came to on its item: some call of
/// `transform` on a string with the outcome's key returned a result with
/// the outcome's success or failure message.
pub open spec fn came_from<F: Fn(&String) -> Result<(), String>>(
    transform: F,
    outcome: OutcomeView,
) -> bool {
    exists|item: String, result: Result<(), String>|
        item@ == outcome.0 && result_view(result) == outcome.1 && call_ensures(
            transform,
            (&item,),
            result,
        )
}

/// Runs `transform` over every item through a pool with `capacity` slots,
/// one item at a time, and collects every outcome, in the order of the
/// items. The failure of one item neither stops the batch nor touches the
/// outcome of another. An empty batch is done at once; a pool without a
/// slot cannot run a batch that has items.
pub fn run_batch<F: Fn(&String) -> Result<(), String>>(
    items: Vec<String>,
    capacity: usize,
    transform: &F,
) -> (batch: Result<Vec<Outcome>, PoolError>)
    requires
        forall|item: String| call_requires(*transform, (&item,)),
    ensures
        batch is Err <==> capacity == 0 && items@.len() > 0,
        batch is Err ==> batch == Err::<Vec<Outcome>, PoolError>(PoolError::NoSlot),
        batch matches Ok(outcomes) ==> {
            &&& texts(items_of(outcomes@)) == texts(items@)
            &&& forall|i: int|
                0 <= i < outcomes@.len() ==> came_from(
                    *transform,
                    outcome_view(#[trigger] outcomes@[i]),
                )
        },
{
    let ghost keys = texts(items@);
    let mut pool = WorkerPool::new(items, capacity);
    let total = pool.len();
    let mut done: usize = 0;
    while done < total
        invariant
            done <= total,
            total == keys.len(),
            keys.len() == items@.len(),
            done > 0 ==> capacity > 0,
            pool@.well_formed(),
            pool@.items == keys,
            pool@.capacity == capacity,
            pool@.started == done,
            pool@.in_flight() == 0,
            forall|item: String| call_requires(*transform, (&item,)),
            forall|i: int|
                0 <= i < done ==> (#[trigger] pool@.results[i]) is Some && came_from(
                    *transform,
                    (keys[i], pool@.results[i]->0),
                ),
        decreases total - done,
    {
        let ghost before = pool@;
        match pool.next_step() {
            Ok(PoolStep::Start { ticket, item }) => {
                let result = transform(&item);
                proof {
                    lemma_start(before);
                    assert(pool@.is_running(ticket as int)) by {
                        assert(pool@.running().contains(ticket as int));
                    }
                }
                let ghost started = pool@;
                let ghost reported = result_view(result);
                let accepted = pool.complete(ticket, result);
                proof {
                    assert(came_from(*transform, (keys[ticket as int], reported)));
                    assert forall|i: int|
                        0 <= i < done + 1 implies (#[trigger] pool@.results[i]) is Some
                        && came_from(*transform, (keys[i], pool@.results[i]->0)) by {
                        if i < done {
                            assert(before.results[i] is Some);
                            assert(pool@.results[i] == before.results[i]);
                        }
                    }
                }
                done = done + 1;
            },
            Ok(_) => unreached(),
            Err(_) => {
                return Err(PoolError::NoSlot);
            },
        }
    }
    proof {
        assert(pool@.is_done());
    }
    match pool.outcomes() {
        Some(outcomes) => {
            proof {
                assert(outcomes@.len() == outcomes_view(outcomes@).len());
                assert forall|i: int| 0 <= i < keys.len() implies (#[trigger] outcomes@[i]).0@
                    == keys[i] && came_from(*transform, outcome_view(outcomes@[i])) by {
                    assert(outcomes_view(outcomes@)[i] == outcome_view(outcomes@[i]));
                    assert(pool@.outcomes()[i] == (keys[i], pool@.results[i]->0));
                    assert(pool@.results[i] is Some);
                }
                assert(texts(items_of(outcomes@)) =~= keys);
            }
            Ok(outcomes)
        },
        None => unreached(),
    }
}

} // verus!
