//! The work queue shared by the sending workers of a file run.
//!
//! Records are handed out in the order in which they were read, each to the
//! first worker that asks for one; every worker then reports how its send went.
use vstd::prelude::*;

verus! {

/// Where one record stands.
#[derive(PartialEq, Eq, Structural, Clone, Copy, Debug)]
pub enum RecordState {
    /// Not handed out yet.
    Waiting,
    /// Handed to `worker`, whose send has not been reported.
    InFlight { worker: usize },
    /// `worker` sent it.
    Sent { worker: usize },
    /// `worker` tried to send it and the send failed.
    Failed { worker: usize },
}

impl RecordState {
    pub open spec fn is_settled(self) -> bool {
        self is Sent || self is Failed
    }

    /// The worker the record was handed to, for a record that has left the queue.
    pub open spec fn owner(self) -> usize {
        match self {
            RecordState::Waiting => 0,
            RecordState::InFlight { worker } => worker,
            RecordState::Sent { worker } => worker,
            RecordState::Failed { worker } => worker,
        }
    }
}

/// A record handed to a worker: its position in the input and its text.
pub struct Job {
    pub index: usize,
    pub payload: String,
}

/// Why the dispatcher turned a request down.
#[derive(PartialEq, Eq, Structural, Clone, Copy, Debug)]
pub enum DispatchError {
    /// The worker number is not below the pool's size.
    UnknownWorker,
    /// The record named in a report is not out with a worker.
    NotInFlight,
}

/// The abstract state of a dispatcher.
pub struct PoolState {
    pub records: Seq<Seq<char>>,
    pub workers: nat,
    pub states: Seq<RecordState>,
    pub next: nat,
}

/// A state that a dispatcher can be in.
pub open spec fn well_formed(v: PoolState) -> bool {
    &&& 1 <= v.workers <= usize::MAX
    &&& v.states.len() == v.records.len()
    &&& v.next <= v.records.len()
    &&& forall|i: int| 0 <= i < v.states.len() ==> (#[trigger] v.states[i] is Waiting <==> i >= v.next)
    &&& forall|i: int| 0 <= i < v.next ==> (#[trigger] v.states[i]).owner() < v.workers
}

/// The state before anything is handed out.
pub open spec fn start(records: Seq<Seq<char>>, workers: nat) -> PoolState {
    PoolState {
        records,
        workers,
        states: Seq::new(records.len(), |i: int| RecordState::Waiting),
        next: 0,
    }
}

/// A request for work by `worker` (below the pool's size): the next waiting
/// record goes to it, if one is left.
pub open spec fn take(v: PoolState, worker: nat) -> (PoolState, Option<nat>) {
    if v.next >= v.records.len() {
        (v, None)
    } else {
        (
            PoolState {
                states: v.states.update(v.next as int, RecordState::InFlight { worker: worker as usize }),
                next: v.next + 1,
                ..v
            },
            Some(v.next),
        )
    }
}

/// A report on record `index` is accepted only while the record is out.
pub open spec fn can_report(v: PoolState, index: nat) -> bool {
    index < v.states.len() && v.states[index as int] is InFlight
}

/// The state after the send of record `index` came back, `sent` telling
/// whether it succeeded.
pub open spec fn settle(v: PoolState, index: nat, sent: bool) -> PoolState {
    let w = v.states[index as int].owner();
    PoolState {
        states: v.states.update(
            index as int,
            if sent { RecordState::Sent { worker: w } } else { RecordState::Failed { worker: w } },
        ),
        ..v
    }
}

/// Every record has been handed out and every send has come back.
pub open spec fn drained(v: PoolState) -> bool {
    &&& v.next == v.records.len()
    &&& forall|i: int| 0 <= i < v.states.len() ==> (#[trigger] v.states[i]).is_settled()
}

/// How many of `states` are settled.
pub open spec fn settled_count(states: Seq<RecordState>) -> nat
    decreases states.len(),
{
    if states.len() == 0 {
        0
    } else {
        settled_count(states.drop_last()) + if states.last().is_settled() { 1nat } else { 0nat }
    }
}

proof fn lemma_settled_count_bound(states: Seq<RecordState>)
    ensures
        settled_count(states) <= states.len(),
        settled_count(states) == states.len() <==> forall|i: int|
            0 <= i < states.len() ==> (#[trigger] states[i]).is_settled(),
    decreases states.len(),
{
    if states.len() > 0 {
        lemma_settled_count_bound(states.drop_last());
        if settled_count(states) == states.len() {
            assert forall|i: int| 0 <= i < states.len() implies (#[trigger] states[i]).is_settled() by {
                if i < states.len() - 1 {
                    assert(states.drop_last()[i] == states[i]);
                }
            }
        }
        if forall|i: int| 0 <= i < states.len() ==> (#[trigger] states[i]).is_settled() {
            assert forall|i: int| 0 <= i < states.drop_last().len() implies (
            #[trigger] states.drop_last()[i]).is_settled() by {
                assert(states.drop_last()[i] == states[i]);
            }
            assert(states[states.len() - 1].is_settled());
        }
    }
}

proof fn lemma_settled_count_update(states: Seq<RecordState>, i: int, s: RecordState)
    requires
        0 <= i < states.len(),
    ensures
        settled_count(states.update(i, s)) + (if states[i].is_settled() { 1int } else { 0int })
            == settled_count(states) + (if s.is_settled() { 1int } else { 0int }),
    decreases states.len(),
{
    let u = states.update(i, s);
    if i < states.len() - 1 {
        assert(u.drop_last() =~= states.drop_last().update(i, s));
        lemma_settled_count_update(states.drop_last(), i, s);
    } else {
        assert(u.drop_last() =~= states.drop_last());
    }
}

/// Hands records to workers and keeps track of what became of each.
pub struct Dispatcher {
    records: Vec<String>,
    workers: usize,
    states: Vec<RecordState>,
    next: usize,
    settled: usize,
}

impl View for Dispatcher {
    type V = PoolState;

    closed spec fn view(&self) -> PoolState {
        PoolState {
            records: self.records@.map_values(|r: String| r@),
            workers: self.workers as nat,
            states: self.states@,
            next: self.next as nat,
        }
    }
}

impl Dispatcher {
    pub closed spec fn wf(&self) -> bool {
        &&& well_formed(self@)
        &&& self.settled == settled_count(self.states@)
    }

    /// A dispatcher over `records` for a pool of `workers` workers.
    pub fn new(records: Vec<String>, workers: usize) -> (r: Dispatcher)
        requires
            workers >= 1,
        ensures
            r.wf(),
            r@ == start(records@.map_values(|s: String| s@), workers as nat),
    {
        let n = records.len();
        let mut states: Vec<RecordState> = Vec::new();
        for i in 0..n
            invariant
                states@ == Seq::new(i as nat, |k: int| RecordState::Waiting),
        {
            states.push(RecordState::Waiting);
            assert(states@ =~= Seq::new((i + 1) as nat, |k: int| RecordState::Waiting));
        }
        let r = Dispatcher { records, workers, states, next: 0, settled: 0 };
        proof {
            assert(r@.states =~= start(r@.records, workers as nat).states);
            assert(settled_count(r.states@) == 0) by {
                lemma_settled_count_bound(r.states@);
                if settled_count(r.states@) > 0 {
                    lemma_zero_settled(r.states@);
                }
            }
        }
        r
    }

    /// The number of workers the pool was made for.
    pub fn workers(&self) -> (r: usize)
        ensures
            r == self@.workers,
    {
        self.workers
    }

    /// The number of records.
    pub fn len(&self) -> (r: usize)
        ensures
            r == self@.records.len(),
    {
        self.records.len()
    }

    /// Where record `index` stands.
    pub fn state(&self, index: usize) -> (r: Option<RecordState>)
        ensures
            index < self@.states.len() ==> r == Some(self@.states[index as int]),
            index >= self@.states.len() ==> r.is_none(),
    {
        if index < self.states.len() {
            Some(self.states[index])
        } else {
            None
        }
    }

    /// `worker` asks for work: it gets the next waiting record, or `None`
    /// once every record has been handed out.
    pub fn next_job(&mut self, worker: usize) -> (r: Result<Option<Job>, DispatchError>)
        requires
            old(self).wf(),
        ensures
            final(self).wf(),
            worker >= old(self)@.workers ==> r == Err::<Option<Job>, DispatchError>(
                DispatchError::UnknownWorker,
            ) && final(self)@ == old(self)@,
            worker < old(self)@.workers ==> r is Ok && ({
                let (v, j) = take(old(self)@, worker as nat);
                &&& final(self)@ == v
                &&& j is None ==> r->Ok_0 is None
                &&& j is Some ==> r->Ok_0 is Some && r->Ok_0->Some_0.index == j->Some_0
                    && r->Ok_0->Some_0.payload@ == old(self)@.records[j->Some_0 as int]
            }),
    {
        if worker >= self.workers {
            return Err(DispatchError::UnknownWorker);
        }
        if self.next >= self.records.len() {
            return Ok(None);
        }
        let index = self.next;
        let payload = self.records[index].clone();
        proof {
            lemma_settled_count_update(self.states@, index as int, RecordState::InFlight { worker });
        }
        self.states.set(index, RecordState::InFlight { worker });
        self.next = index + 1;
        proof {
            let v = take(old(self)@, worker as nat).0;
            assert(self@.states =~= v.states);
        }
        Ok(Some(Job { index, payload }))
    }

    /// The worker that held record `index` reports its send: `sent` is
    /// whether it succeeded. Either way the record is done with.
    pub fn report(&mut self, index: usize, sent: bool) -> (r: Result<(), DispatchError>)
        requires
            old(self).wf(),
        ensures
            final(self).wf(),
            can_report(old(self)@, index as nat) ==> r is Ok && final(self)@ == settle(
                old(self)@,
                index as nat,
                sent,
            ),
            !can_report(old(self)@, index as nat) ==> r == Err::<(), DispatchError>(
                DispatchError::NotInFlight,
            ) && final(self)@ == old(self)@,
    {
        if index >= self.states.len() {
            return Err(DispatchError::NotInFlight);
        }
        let worker = match self.states[index] {
            RecordState::InFlight { worker } => worker,
            _ => {
                return Err(DispatchError::NotInFlight);
            },
        };
        let s = if sent { RecordState::Sent { worker } } else { RecordState::Failed { worker } };
        proof {
            lemma_settled_count_update(self.states@, index as int, s);
            lemma_settled_count_bound(self.states@);
        }
        self.states.set(index, s);
        self.settled = self.settled + 1;
        proof {
            assert(self@.states =~= settle(old(self)@, index as nat, sent).states);
        }
        Ok(())
    }

    /// Whether every record has been handed out and every send reported.
    pub fn is_drained(&self) -> (r: bool)
        requires
            self.wf(),
        ensures
            r == drained(self@),
    {
        proof {
            lemma_settled_count_bound(self.states@);
            if self.settled == self.states.len() {
                assert forall|i: int| 0 <= i < self.states@.len() implies (
                #[trigger] self.states@[i]) !is Waiting by {}
            }
        }
        self.settled == self.states.len()
    }
}

proof fn lemma_zero_settled(states: Seq<RecordState>)
    requires
        forall|i: int| 0 <= i < states.len() ==> #[trigger] states[i] is Waiting,
    ensures
        settled_count(states) == 0,
    decreases states.len(),
{
    if states.len() > 0 {
        assert forall|i: int| 0 <= i < states.drop_last().len() implies #[trigger] states.drop_last()[i] is Waiting by {
            assert(states.drop_last()[i] == states[i]);
        }
        lemma_zero_settled(states.drop_last());
    }
}

/// One step in the life of a pool: a worker asks for work, or reports on a send.
pub enum PoolEvent {
    Take { worker: nat },
    Report { index: nat, sent: bool },
}

/// The effect of one event, as the dispatcher's methods have it, and the
/// hand-out it makes, as (worker, record) if it makes one. Requests that the
/// dispatcher turns down change nothing.
pub open spec fn apply(v: PoolState, e: PoolEvent) -> (PoolState, Option<(nat, nat)>) {
    match e {
        PoolEvent::Take { worker } => {
            if worker < v.workers {
                let (u, j) = take(v, worker);
                (u, if j is Some { Some((worker, j->Some_0)) } else { None })
            } else {
                (v, None)
            }
        },
        PoolEvent::Report { index, sent } => {
            if can_report(v, index) {
                (settle(v, index, sent), None)
            } else {
                (v, None)
            }
        },
    }
}

/// The state after `events`, and every hand-out on the way, in order.
pub open spec fn run(v: PoolState, events: Seq<PoolEvent>) -> (PoolState, Seq<(nat, nat)>)
    decreases events.len(),
{
    if events.len() == 0 {
        (v, Seq::empty())
    } else {
        let (u, log) = run(v, events.drop_last());
        let (w, h) = apply(u, events.last());
        (w, if h is Some { log.push(h->Some_0) } else { log })
    }
}

proof fn lemma_run_shape(records: Seq<Seq<char>>, workers: nat, events: Seq<PoolEvent>)
    requires
        1 <= workers <= usize::MAX,
    ensures
        ({
            let (u, log) = run(start(records, workers), events);
            &&& well_formed(u)
            &&& u.records == records
            &&& u.workers == workers
            &&& log.len() == u.next
            &&& forall|k: int| 0 <= k < log.len() ==> (#[trigger] log[k]).1 == k && log[k].0 < workers
                && u.states[k].owner() == log[k].0
        }),
    decreases events.len(),
{
    if events.len() == 0 {
        let v = start(records, workers);
        assert forall|i: int| 0 <= i < v.states.len() implies (#[trigger] v.states[i] is Waiting <==> i >= v.next) by {}
    } else {
        lemma_run_shape(records, workers, events.drop_last());
        let (u, log) = run(start(records, workers), events.drop_last());
        let (w, h) = apply(u, events.last());
        match events.last() {
            PoolEvent::Take { worker } => {
                if worker < u.workers && u.next < u.records.len() {
                    assert forall|i: int| 0 <= i < w.states.len() implies (#[trigger] w.states[i] is Waiting <==> i >= w.next) by {
                        if i != u.next {
                            assert(w.states[i] == u.states[i]);
                        }
                    }
                    assert forall|i: int| 0 <= i < w.next implies (#[trigger] w.states[i]).owner() < w.workers by {
                        if i != u.next {
                            assert(w.states[i] == u.states[i]);
                        }
                    }
                    let log2 = log.push((worker, u.next));
                    assert(run(start(records, workers), events) == (w, log2));
                    assert forall|k: int| 0 <= k < log2.len() implies (#[trigger] log2[k]).1 == k && log2[k].0 < workers
                        && w.states[k].owner() == log2[k].0 by {
                        if k < log.len() {
                            assert(log2[k] == log[k]);
                            assert(w.states[k] == u.states[k]);
                        }
                    }
                }
            },
            PoolEvent::Report { index, sent } => {
                if can_report(u, index) {
                    assert forall|i: int| 0 <= i < w.states.len() implies (#[trigger] w.states[i] is Waiting <==> i >= w.next) by {
                        if i != index {
                            assert(w.states[i] == u.states[i]);
                        }
                    }
                    assert forall|i: int| 0 <= i < w.next implies (#[trigger] w.states[i]).owner() < w.workers by {
                        if i != index {
                            assert(w.states[i] == u.states[i]);
                        }
                    }
                    assert forall|k: int| 0 <= k < log.len() implies (#[trigger] log[k]).1 == k && log[k].0 < workers
                        && w.states[k].owner() == log[k].0 by {
                        if k != index {
                            assert(w.states[k] == u.states[k]);
                        }
                    }
                }
            },
        }
    }
}

/// Whatever the number of workers, once a run has drained there has been one
/// send attempt for every record: as many hand-outs as records, and every
/// record's send has come back, successful or not.
pub proof fn lemma_attempts_match_records(records: Seq<Seq<char>>, workers: nat, events: Seq<PoolEvent>)
    requires
        1 <= workers <= usize::MAX,
        drained(run(start(records, workers), events).0),
    ensures
        run(start(records, workers), events).1.len() == records.len(),
        forall|i: int|
            0 <= i < records.len() ==> (#[trigger] run(start(records, workers), events).0.states[i]).is_settled(),
{
    lemma_run_shape(records, workers, events);
}

/// Each record goes to exactly one worker: the hand-outs of a run name the
/// records in reading order, none twice and none skipped, each to a worker of
/// the pool, and the record keeps the worker it went to.
pub proof fn lemma_each_record_to_one_worker(records: Seq<Seq<char>>, workers: nat, events: Seq<PoolEvent>)
    requires
        1 <= workers <= usize::MAX,
    ensures
        ({
            let (u, log) = run(start(records, workers), events);
            &&& log.len() <= records.len()
            &&& forall|k: int| 0 <= k < log.len() ==> (#[trigger] log[k]).1 == k
            &&& forall|k: int, l: int| 0 <= k < l < log.len() ==> (#[trigger] log[k]).1 != (#[trigger] log[l]).1
            &&& forall|k: int| 0 <= k < log.len() ==> (#[trigger] log[k]).0 < workers && u.states[k].owner() == log[k].0
            &&& drained(u) ==> log.len() == records.len()
        }),
{
    lemma_run_shape(records, workers, events);
}

/// With a single worker, records are handed out, and so sent, in the order
/// in which they were read.
pub proof fn lemma_single_worker_keeps_order(records: Seq<Seq<char>>, events: Seq<PoolEvent>)
    ensures
        ({
            let log = run(start(records, 1), events).1;
            forall|k: int| 0 <= k < log.len() ==> #[trigger] log[k] == (0nat, k as nat)
        }),
{
    lemma_run_shape(records, 1, events);
}

/// A failed send settles its record like a successful one, and does not
/// change what any worker gets next.
pub proof fn lemma_failure_does_not_block(v: PoolState, index: nat, worker: nat)
    requires
        well_formed(v),
        can_report(v, index),
        worker < v.workers,
    ensures
        settle(v, index, false).states[index as int].is_settled(),
        well_formed(settle(v, index, false)),
        take(settle(v, index, false), worker).1 == take(v, worker).1,
        take(settle(v, index, false), worker).1 == take(settle(v, index, true), worker).1,
{
    let w = settle(v, index, false);
    assert forall|i: int| 0 <= i < w.states.len() implies (#[trigger] w.states[i] is Waiting <==> i >= w.next) by {
        if i != index {
            assert(w.states[i] == v.states[i]);
        }
    }
    assert forall|i: int| 0 <= i < w.next implies (#[trigger] w.states[i]).owner() < w.workers by {
        if i != index {
            assert(w.states[i] == v.states[i]);
        }
    }
}

} // verus!
