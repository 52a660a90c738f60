//! The bookkeeping of a worker pool: which workers registered, which job goes
//! to which worker, when the run is over and how it ended.

use vstd::prelude::*;
use crate::job::{fresh_token, is_token, JobOutcome};
use crate::manifest::{Manifest, Source};
use crate::tree::{
    built, forest_order, lemma_built_parent_first, lemma_built_partition, parent_first, Entry,
    LayerTree,
};

verus! {

/// What a worker tells the pool.
#[derive(Debug, PartialEq)]
pub enum WorkerEvent {
    /// The worker with this identity has started and waits for jobs.
    Online(String),
    /// The worker with this identity has ended a job and waits for the next.
    Idle(String),
}

impl WorkerEvent {
    /// The identity of the worker that the event comes from.
    pub open spec fn sender(self) -> Seq<char> {
        match self {
            WorkerEvent::Online(id) => id@,
            WorkerEvent::Idle(id) => id@,
        }
    }

    /// The announcement of a worker that starts, under an identity that is
    /// drawn for it.
    pub fn register() -> (event: WorkerEvent)
        ensures
            event is Online,
            is_token(event.sender()),
    {
        WorkerEvent::Online(fresh_token())
    }

    /// The identity of the worker that the event comes from.
    pub fn identity(&self) -> (id: &String)
        ensures
            id@ == self.sender(),
    {
        match self {
            WorkerEvent::Online(id) => id,
            WorkerEvent::Idle(id) => id,
        }
    }
}

/// Why a pool or a run failed.
#[derive(Debug, PartialEq)]
pub enum PoolError {
    /// A worker did not register while the pool was set up.
    RegistrationFailure,
    /// The workers fell silent before all of them were finished.
    ReceiveFailure,
    /// One job or more failed.
    AggregateJobFailure,
    /// A staged clone could not be moved to its destination.
    PlacementFailure(String),
}

/// A job handed to a worker.
#[derive(Debug, PartialEq)]
pub struct Dispatch {
    /// The identity of the worker that gets the job.
    pub worker: String,
    /// The repository to clone.
    pub source: Source,
}

/// What the pool does in answer to an event.
#[derive(Debug, PartialEq)]
pub enum Step {
    /// It hands the next job to the worker that became idle.
    Assign(Dispatch),
    /// It marks the worker that became idle as finished.
    Retire,
    /// Nothing.
    Skip,
}

/// The texts of a list of strings, in order.
pub open spec fn texts(strings: Seq<String>) -> Seq<Seq<char>> {
    strings.map_values(|text: String| text@)
}

/// Finds the first of `workers` with the identity `id`.
fn position(workers: &Vec<String>, id: &String) -> (found: Option<usize>)
    ensures
        match found {
            Some(at) => at < workers.len() && texts(workers@)[at as int] == id@ && forall|k: int|
                0 <= k < at ==> texts(workers@)[k] != id@,
            None => !texts(workers@).contains(id@),
        },
{
    let mut i: usize = 0;
    while i < workers.len()
        invariant
            i <= workers.len(),
            forall|k: int| 0 <= k < i ==> texts(workers@)[k] != id@,
        decreases workers.len() - i,
    {
        if workers[i] == *id {
            return Some(i);
        }
        i += 1;
    }
    None
}

/// Whether the first `amount` of `registrations` each announce a worker.
pub open spec fn all_registered(registrations: Seq<Option<WorkerEvent>>, amount: nat) -> bool {
    &&& amount <= registrations.len()
    &&& forall|i: int|
        0 <= i < amount ==> #[trigger] registrations[i] matches Some(WorkerEvent::Online(_))
}

/// The identities that the first `amount` of `registrations` announce, each
/// once, in the order in which they first occur.
pub open spec fn identities(registrations: Seq<Option<WorkerEvent>>, amount: nat) -> Seq<Seq<char>>
    decreases amount,
{
    if amount == 0 {
        Seq::empty()
    } else {
        let earlier = identities(registrations, (amount - 1) as nat);
        match registrations[amount - 1] {
            Some(WorkerEvent::Online(id)) => if earlier.contains(id@) {
                earlier
            } else {
                earlier.push(id@)
            },
            _ => earlier,
        }
    }
}

/// The state of a run: the workers, which of them are finished, and the
/// jobs that no worker has been given yet.
pub struct Run {
    pub workers: Seq<Seq<char>>,
    pub finished: Seq<bool>,
    pub pending: Seq<Source>,
}

impl Run {
    /// Every worker is known by one identity and is finished or not, and no
    /// worker is finished while a job is still to be given out.
    pub open spec fn well_formed(self) -> bool {
        &&& self.workers.len() == self.finished.len()
        &&& self.workers.no_duplicates()
        &&& self.finished.contains(true) ==> self.pending.len() == 0
    }

    /// Whether every worker is finished.
    pub open spec fn settled(self) -> bool {
        forall|i: int| 0 <= i < self.finished.len() ==> self.finished[i]
    }

    /// The number of workers that have a job.
    pub open spec fn busy(self) -> nat {
        self.finished.filter(|done: bool| !done).len()
    }

    /// The run at its start: the first jobs go to the workers in turn, one
    /// each, and the workers for which no job is left are finished.
    pub open spec fn start(workers: Seq<Seq<char>>, sources: Seq<Source>) -> Run {
        Run {
            workers,
            finished: Seq::new(workers.len(), |i: int| sources.len() <= i),
            pending: if sources.len() <= workers.len() {
                Seq::empty()
            } else {
                sources.skip(workers.len() as int)
            },
        }
    }

    /// The run after an event: when a known worker becomes idle it gets the
    /// next job, or is finished where none is left. Nothing else changes a
    /// run.
    pub open spec fn after(self, event: Option<WorkerEvent>) -> Run {
        match event {
            Some(WorkerEvent::Idle(id)) if self.workers.contains(id@) => if self.pending.len() > 0 {
                Run { pending: self.pending.skip(1), ..self }
            } else {
                Run { finished: self.finished.update(self.workers.index_of(id@), true), ..self }
            },
            _ => self,
        }
    }

    /// What the pool does in answer to an event.
    pub open spec fn reply(self, event: Option<WorkerEvent>) -> Result<Step, PoolError> {
        match event {
            None => Err(PoolError::ReceiveFailure),
            Some(WorkerEvent::Online(_)) => Ok(Step::Skip),
            Some(WorkerEvent::Idle(id)) => if !self.workers.contains(id@) {
                Ok(Step::Skip)
            } else if self.pending.len() > 0 {
                Ok(Step::Assign(Dispatch { worker: id, source: self.pending[0] }))
            } else {
                Ok(Step::Retire)
            },
        }
    }
}

/// The jobs that are handed out when a run starts: the first sources, one
/// for each worker in turn, as far as there are sources.
pub open spec fn first_round(
    workers: Seq<Seq<char>>,
    sources: Seq<Source>,
    round: Seq<Dispatch>,
) -> bool {
    &&& round.len() == if sources.len() <= workers.len() {
        sources.len()
    } else {
        workers.len()
    }
    &&& forall|i: int|
        0 <= i < round.len() ==> (#[trigger] round[i]).worker@ == workers[i] && round[i].source
            == sources[i]
}

/// Whether one of `outcomes` is a failure.
pub open spec fn any_failed(outcomes: Seq<JobOutcome>) -> bool {
    exists|i: int| 0 <= i < outcomes.len() && #[trigger] outcomes[i] is Failed
}

/// The destinations and staging paths of the jobs among `outcomes` that are
/// ready, in the order in which they arrived.
pub open spec fn staged_entries(outcomes: Seq<JobOutcome>) -> Seq<Entry>
    decreases outcomes.len(),
{
    if outcomes.len() == 0 {
        Seq::empty()
    } else {
        let earlier = staged_entries(outcomes.drop_last());
        match outcomes.last() {
            JobOutcome::Ready { destination, staged } => earlier.push((destination@, staged@)),
            JobOutcome::Failed { .. } => earlier,
        }
    }
}

/// The run after a sequence of events.
pub open spec fn after_all(run: Run, events: Seq<Option<WorkerEvent>>) -> Run
    decreases events.len(),
{
    if events.len() == 0 {
        run
    } else {
        after_all(run, events.drop_last()).after(events.last())
    }
}

/// The identity that a registration announces.
pub open spec fn announced(registration: Option<WorkerEvent>) -> Seq<char> {
    match registration {
        Some(event) => event.sender(),
        None => Seq::empty(),
    }
}

/// Where every worker registers under an identity of its own, the pool has
/// as many workers as were asked for, in the order in which they registered.
pub proof fn lemma_every_worker_counts(registrations: Seq<Option<WorkerEvent>>, amount: nat)
    requires
        all_registered(registrations, amount),
        forall|i: int, j: int|
            0 <= i < j < amount ==> announced(#[trigger] registrations[i]) != announced(
                #[trigger] registrations[j],
            ),
    ensures
        identities(registrations, amount).len() == amount,
        forall|i: int|
            0 <= i < amount ==> identities(registrations, amount)[i] == announced(
                #[trigger] registrations[i],
            ),
    decreases amount,
{
    if amount > 0 {
        let fewer = (amount - 1) as nat;
        lemma_every_worker_counts(registrations, fewer);
        let earlier = identities(registrations, fewer);
        let last = announced(registrations[amount - 1]);
        if earlier.contains(last) {
            let k = choose|k: int| 0 <= k < earlier.len() && earlier[k] == last;
            assert(earlier[k] == announced(registrations[k]));
        }
    }
}

/// Where no job failed, every job is ready.
pub proof fn lemma_all_ready(outcomes: Seq<JobOutcome>)
    requires
        !any_failed(outcomes),
    ensures
        staged_entries(outcomes).len() == outcomes.len(),
    decreases outcomes.len(),
{
    if outcomes.len() > 0 {
        let earlier = outcomes.drop_last();
        assert(!any_failed(earlier));
        lemma_all_ready(earlier);
    }
}

/// An event keeps a run well formed, never adds a job to those that wait,
/// and never takes the mark off a finished worker.
pub proof fn lemma_after(run: Run, event: Option<WorkerEvent>)
    requires
        run.well_formed(),
    ensures
        run.after(event).well_formed(),
        run.after(event).workers == run.workers,
        run.after(event).pending.len() <= run.pending.len(),
        run.after(event).pending == run.pending.skip(
            run.pending.len() - run.after(event).pending.len(),
        ),
        forall|i: int|
            0 <= i < run.finished.len() && run.finished[i] ==> run.after(event).finished[i],
        run.reply(event) matches Ok(Step::Assign(dispatch)) ==> run.pending.len() > 0
            && dispatch.source == run.pending[0] && run.after(event).pending == run.pending.skip(1)
            && run.workers.contains(dispatch.worker@),
{
    assert(run.after(event).finished.len() == run.finished.len());
}

/// Whatever events arrive, the jobs that still wait are the last of the
/// manifest: jobs are handed out in the order of the manifest, each once.
pub proof fn lemma_pending_is_suffix(
    workers: Seq<Seq<char>>,
    sources: Seq<Source>,
    events: Seq<Option<WorkerEvent>>,
)
    requires
        workers.no_duplicates(),
    ensures
        ({
            let run = after_all(Run::start(workers, sources), events);
            &&& run.well_formed()
            &&& run.workers == workers
            &&& run.pending.len() <= sources.len()
            &&& run.pending == sources.skip(sources.len() - run.pending.len())
        }),
    decreases events.len(),
{
    let start = Run::start(workers, sources);
    if events.len() == 0 {
        if start.finished.contains(true) {
            let k = choose|k: int| 0 <= k < start.finished.len() && start.finished[k];
            assert(sources.len() <= k);
        }
    } else {
        lemma_pending_is_suffix(workers, sources, events.drop_last());
        lemma_after(after_all(start, events.drop_last()), events.last());
    }
}

/// With no more jobs than workers, every job is handed out when the run
/// starts, the workers beyond the jobs are finished from the start and stay
/// so, and no event makes the pool hand out a job.
pub proof fn lemma_spare_workers(
    workers: Seq<Seq<char>>,
    sources: Seq<Source>,
    events: Seq<Option<WorkerEvent>>,
    event: Option<WorkerEvent>,
)
    requires
        workers.no_duplicates(),
        sources.len() <= workers.len(),
    ensures
        Run::start(workers, sources).pending.len() == 0,
        forall|i: int|
            0 <= i < workers.len() ==> (Run::start(workers, sources).finished[i] <==> sources.len()
                <= i),
        forall|i: int|
            sources.len() <= i < workers.len() ==> after_all(
                Run::start(workers, sources),
                events,
            ).finished[i],
        !(after_all(Run::start(workers, sources), events).reply(event) is Ok && after_all(
            Run::start(workers, sources),
            events,
        ).reply(event)->Ok_0 is Assign),
    decreases events.len(),
{
    let start = Run::start(workers, sources);
    if events.len() > 0 {
        let earlier = events.drop_last();
        lemma_spare_workers(workers, sources, earlier, events.last());
        lemma_pending_is_suffix(workers, sources, earlier);
    }
    assert(after_all(start, events).pending.len() == 0) by {
        lemma_no_job_returns(start, events);
    }
}

/// Once no job waits, none ever waits again.
pub proof fn lemma_no_job_returns(run: Run, events: Seq<Option<WorkerEvent>>)
    requires
        run.pending.len() == 0,
    ensures
        after_all(run, events).pending.len() == 0,
    decreases events.len(),
{
    if events.len() > 0 {
        lemma_no_job_returns(run, events.drop_last());
    }
}

/// A run that is settled has handed out every job, if it has a worker at
/// all, and no worker has a job any more.
pub proof fn lemma_settled_run(run: Run)
    requires
        run.well_formed(),
        run.settled(),
        run.workers.len() > 0,
    ensures
        run.pending.len() == 0,
        run.busy() == 0,
{
    assert(run.finished[0]);
    lemma_unfinished(run.finished);
}

/// At no time do more workers have a job than there are workers: a worker
/// has one job at most.
pub proof fn lemma_one_job_each(run: Run)
    requires
        run.well_formed(),
    ensures
        run.busy() <= run.workers.len(),
{
}

proof fn lemma_unfinished(finished: Seq<bool>)
    ensures
        finished.filter(|done: bool| !done).len() <= finished.len(),
        (forall|i: int| 0 <= i < finished.len() ==> finished[i]) ==> finished.filter(
            |done: bool| !done,
        ).len() == 0,
    decreases finished.len(),
{
    reveal(Seq::filter);
    if finished.len() > 0 {
        lemma_unfinished(finished.drop_last());
    }
}

/// A pool of registered workers.
pub struct WorkerPool {
    workers: Vec<String>,
}

impl WorkerPool {
    #[verifier::type_invariant]
    spec fn well_formed(&self) -> bool {
        texts(self.workers@).no_duplicates()
    }

    /// The identities of the workers, in the order in which they registered.
    pub closed spec fn workers(&self) -> Seq<Seq<char>> {
        texts(self.workers@)
    }

    /// Sets up a pool of `amount` workers from what arrived on the
    /// registration channel, one entry for each time the pool waited on it:
    /// the event that came, or `None` where the channel was closed. The pool
    /// exists only if each of the first `amount` entries announces a worker.
    pub fn create(amount: usize, registrations: Vec<Option<WorkerEvent>>) -> (pool: Result<
        WorkerPool,
        PoolError,
    >)
        ensures
            pool is Ok <==> all_registered(registrations@, amount as nat),
            pool matches Ok(pool) ==> {
                &&& pool.workers() == identities(registrations@, amount as nat)
                &&& pool.workers().no_duplicates()
            },
            pool matches Err(error) ==> error is RegistrationFailure,
    {
        let mut workers: Vec<String> = Vec::new();
        let mut i: usize = 0;
        while i < amount
            invariant
                i <= amount,
                all_registered(registrations@, i as nat),
                texts(workers@) == identities(registrations@, i as nat),
                texts(workers@).no_duplicates(),
            decreases amount - i,
        {
            if i >= registrations.len() {
                return Err(PoolError::RegistrationFailure);
            }
            match &registrations[i] {
                Some(WorkerEvent::Online(id)) => {
                    if position(&workers, id).is_none() {
                        let ghost known = texts(workers@);
                        workers.push(id.clone());
                        assert(texts(workers@) =~= known.push(id@));
                    }
                },
                _ => {
                    return Err(PoolError::RegistrationFailure);
                },
            }
            i += 1;
        }
        Ok(WorkerPool { workers })
    }

    /// The number of workers.
    pub fn worker_count(&self) -> (count: usize)
        ensures
            count == self.workers().len(),
    {
        self.workers.len()
    }
}

/// A run of a pool on the repositories of a manifest.
pub struct Execution {
    workers: Vec<String>,
    finished: Vec<bool>,
    sources: Vec<Source>,
    handed_out: usize,
}

impl View for Execution {
    type V = Run;

    closed spec fn view(&self) -> Run {
        Run {
            workers: texts(self.workers@),
            finished: self.finished@,
            pending: self.sources@.skip(self.handed_out as int),
        }
    }
}

impl WorkerPool {
    /// Starts a run on the repositories of a manifest. In the order in which
    /// they registered, each worker gets one job as long as there are jobs;
    /// the workers for which none is left are finished at once, and no job is
    /// ever handed to them. The jobs are to be sent as they are listed.
    pub fn execute(self, manifest: Manifest) -> (started: (Execution, Vec<Dispatch>))
        ensures
            started.0@ == Run::start(self.workers(), manifest.sources@),
            started.0@.well_formed(),
            first_round(self.workers(), manifest.sources@, started.1@),
    {
        proof {
            use_type_invariant(&self);
        }
        let ghost ids = texts(self.workers@);
        let workers = self.workers;
        let sources = manifest.sources;
        let mut finished: Vec<bool> = Vec::new();
        let mut round: Vec<Dispatch> = Vec::new();
        let mut i: usize = 0;
        while i < workers.len()
            invariant
                i <= workers.len(),
                ids == texts(workers@),
                finished@ == Seq::new(i as nat, |k: int| sources.len() <= k),
                first_round(ids.take(i as int), sources@, round@),
            decreases workers.len() - i,
        {
            if i < sources.len() {
                round.push(Dispatch { worker: workers[i].clone(), source: sources[i].clone() });
                finished.push(false);
            } else {
                finished.push(true);
            }
            i += 1;
        }
        let handed_out = if sources.len() <= workers.len() {
            sources.len()
        } else {
            workers.len()
        };
        let ghost start = Run::start(ids, sources@);
        assert(sources@.skip(handed_out as int) =~= start.pending);
        proof {
            if start.finished.contains(true) {
                let k = choose|k: int| 0 <= k < start.finished.len() && start.finished[k];
                assert(sources.len() <= k);
            }
        }
        (Execution { workers, finished, sources, handed_out }, round)
    }
}

impl Execution {
    #[verifier::type_invariant]
    spec fn well_formed(&self) -> bool {
        self@.well_formed() && self.handed_out <= self.sources@.len()
    }

    /// Whether every worker is finished, so that no further event is awaited.
    pub fn settled(&self) -> (settled: bool)
        ensures
            settled == self@.settled(),
    {
        let mut i: usize = 0;
        while i < self.finished.len()
            invariant
                i <= self.finished.len(),
                forall|k: int| 0 <= k < i ==> self.finished@[k],
            decreases self.finished.len() - i,
        {
            if !self.finished[i] {
                assert(!self@.finished[i as int]);
                return false;
            }
            i += 1;
        }
        true
    }

    /// Ends the run with the outcomes of its jobs, in the order in which
    /// they arrived. One failure fails the run as a whole, and nothing is
    /// placed. Otherwise every staged clone is put into a placement tree, and
    /// the result is the order in which they are to be moved: each
    /// destination before all destinations below it.
    pub fn conclude(self, outcomes: Vec<JobOutcome>) -> (placements: Result<
        Vec<(String, String)>,
        PoolError,
    >)
        ensures
            placements is Err <==> any_failed(outcomes@),
            placements matches Err(error) ==> error is AggregateJobFailure,
            placements matches Ok(order) ==> {
                &&& order.deep_view() == forest_order(built(staged_entries(outcomes@)))
                &&& parent_first(order.deep_view())
                &&& order.deep_view().to_multiset() == staged_entries(outcomes@).to_multiset()
                &&& order.len() == outcomes.len()
            },
    {
        let ghost all = outcomes@;
        let mut failed = false;
        let mut tree = LayerTree::default();
        for outcome in walk: outcomes
            invariant
                walk.seq() == all,
                tree@ == built(staged_entries(all.take(walk.index() as int))),
                failed == any_failed(all.take(walk.index() as int)),
        {
            let ghost at = walk.index() as int;
            assert(all.take(at + 1).drop_last() =~= all.take(at));
            proof {
                let seen = all.take(at);
                let now = all.take(at + 1);
            }
            match outcome {
                JobOutcome::Ready { destination, staged } => {
                    let ghost entries = staged_entries(all.take(at));
                    let ghost entry = (destination@, staged@);
                    tree.add(destination, staged);
                    assert(entries.push(entry).drop_last() =~= entries);
                },
                JobOutcome::Failed { error: _ } => {
                    failed = true;
                },
            }
        }
        assert(all.take(all.len() as int) =~= all);
        if failed {
            Err(PoolError::AggregateJobFailure)
        } else {
            proof {
                lemma_built_parent_first(staged_entries(all));
                lemma_built_partition(staged_entries(all));
                lemma_all_ready(all);
            }
            Ok(tree.consume())
        }
    }

    /// Takes what arrived on the event channel: the event, or `None` where
    /// the channel was closed, which fails the run. A known worker that
    /// became idle gets the next job in the order of the manifest, or is
    /// marked as finished where no job is left.
    pub fn handle(&mut self, event: Option<WorkerEvent>) -> (step: Result<Step, PoolError>)
        ensures
            final(self)@ == old(self)@.after(event),
            step == old(self)@.reply(event),
            final(self)@.well_formed(),
    {
        proof {
            use_type_invariant(&*self);
        }
        match event {
            None => Err(PoolError::ReceiveFailure),
            Some(WorkerEvent::Online(_)) => Ok(Step::Skip),
            Some(WorkerEvent::Idle(id)) => {
                match position(&self.workers, &id) {
                    None => Ok(Step::Skip),
                    Some(at) => {
                        if self.handed_out < self.sources.len() {
                            let ghost waiting = self@.pending;
                            let source = self.sources[self.handed_out].clone();
                            self.handed_out = self.handed_out + 1;
                            assert(self@.pending =~= waiting.skip(1));
                            Ok(Step::Assign(Dispatch { worker: id, source }))
                        } else {
                            self.finished[at] = true;
                            Ok(Step::Retire)
                        }
                    },
                }
            },
        }
    }
}

} // verus!
