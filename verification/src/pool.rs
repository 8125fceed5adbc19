//! The scheduler: which worker gets which job, and what becomes of their messages.
use crate::compiler::{CompilerError, CompilerErrorView, compiler_error_views};
use crate::context::{ContextView, LexContext, committed_work_is_kept, queued_jobs_start};
use crate::lexer::{LexResult, Lexer};
use crate::scheduler::{
    FailedResponseError, MessageView, PanicView, SchedulerError, SchedulerErrorView,
    ThreadPanicError,
};
use vstd::prelude::*;
use vstd::string::*;

verus! {

#[derive(Debug, Clone, Copy, PartialEq, Eq, Structural)]
pub enum WorkerState {
    /// Waits for a job.
    Idle,
    /// Has a job.
    Running,
    /// Has come to an end, and has to be replaced.
    Dead,
    /// Came to an end as it should, and is not used any more.
    Retired,
}

/// Hands the jobs of `ctx` out to workers and gathers what goes wrong. `all_workers_idle` tells
/// whether a round through the workers has found nothing to do so far.
pub struct Scheduler<F> {
    pub errors: Vec<CompilerError>,
    pub threads: usize,
    pub workers: Vec<WorkerState>,
    pub ctx: LexContext<F>,
    pub all_workers_idle: bool,
}

#[verifier::ext_equal]
pub struct SchedulerView<F> {
    pub errors: Seq<CompilerErrorView>,
    pub threads: int,
    pub workers: Seq<WorkerState>,
    pub ctx: ContextView<F>,
    pub all_workers_idle: bool,
}

impl<F> View for Scheduler<F> {
    type V = SchedulerView<F>;

    open spec fn view(&self) -> SchedulerView<F> {
        SchedulerView {
            errors: compiler_error_views(self.errors@),
            threads: self.threads as int,
            workers: self.workers@,
            ctx: self.ctx@,
            all_workers_idle: self.all_workers_idle,
        }
    }
}

/// What a round asks for at a worker.
pub enum Visit<F> {
    /// Nothing.
    Pass,
    /// To send the worker a job: the number of a module, and its source.
    Offer(usize, F),
    /// To put a new worker in place of the one that has come to an end, and to see how it ended.
    Replace,
}

/// How a worker ended.
pub enum Ending {
    /// It panicked with a message.
    Panicked(String),
    /// It gave up.
    Failed(SchedulerError),
    /// It was done.
    Finished,
}

pub enum EndingView {
    Panicked(Seq<char>),
    Failed(SchedulerErrorView),
    Finished,
}

impl View for Ending {
    type V = EndingView;

    open spec fn view(&self) -> EndingView {
        match self {
            Ending::Panicked(message) => EndingView::Panicked(message@),
            Ending::Failed(err) => EndingView::Failed(err@),
            Ending::Finished => EndingView::Finished,
        }
    }
}

impl<F> SchedulerView<F> {
    /// With another error of the scheduler.
    pub open spec fn failed(self, error: SchedulerErrorView) -> SchedulerView<F> {
        SchedulerView { errors: self.errors.push(CompilerErrorView::Scheduler(error)), ..self }
    }

    /// With worker `i` in the state `state`.
    pub open spec fn with_worker(self, i: int, state: WorkerState) -> SchedulerView<F> {
        SchedulerView { workers: self.workers.update(i, state), ..self }
    }

    /// Not every worker is idle.
    pub open spec fn busy(self) -> SchedulerView<F> {
        SchedulerView { all_workers_idle: false, ..self }
    }

    /// At the start of a round.
    pub open spec fn round_begun(self) -> SchedulerView<F> {
        SchedulerView { all_workers_idle: true, ..self }
    }

    /// The round comes to worker `i`, which has come to an end if it is `finished`.
    pub open spec fn visited(self, i: int, finished: bool) -> (SchedulerView<F>, Visit<F>) {
        let state = if finished {
            WorkerState::Dead
        } else {
            self.workers[i]
        };
        let at = self.with_worker(i, state);
        match state {
            WorkerState::Idle => {
                let (ctx, job) = self.ctx.job_taken();
                match job {
                    Ok(None) => (at, Visit::Pass),
                    Ok(Some(file)) => (
                        SchedulerView { ctx, ..at },
                        Visit::Offer(self.ctx.job_queue[0], file),
                    ),
                    Err(err) => (SchedulerView { ctx, ..at }.failed(err), Visit::Pass),
                }
            },
            WorkerState::Dead => (at.with_worker(i, WorkerState::Idle).busy(), Visit::Replace),
            WorkerState::Running => (at.busy(), Visit::Pass),
            WorkerState::Retired => (at, Visit::Pass),
        }
    }

    /// A job was sent to worker `i`, and reached it if it was `delivered`.
    pub open spec fn offered(self, i: int, delivered: bool) -> SchedulerView<F> {
        if delivered {
            self.with_worker(i, WorkerState::Running).busy()
        } else {
            self.failed(
                SchedulerErrorView::FailedResponse(
                    MessageView { worker_id: i, msg_type: "New Job"@ },
                ),
            )
        }
    }

    /// The worker that was worker `i` before it was replaced ended as `ending` tells.
    pub open spec fn replaced(self, i: int, ending: EndingView) -> SchedulerView<F> {
        match ending {
            EndingView::Panicked(message) => self.failed(
                SchedulerErrorView::ThreadPanic(PanicView { thread_id: i, message }),
            ),
            EndingView::Failed(err) => self.failed(err),
            EndingView::Finished => self.with_worker(i, WorkerState::Retired),
        }
    }

    /// Worker `i` has lexed a module.
    pub open spec fn work_received(self, i: int, result: LexResult) -> SchedulerView<F> {
        let at = SchedulerView {
            ctx: self.ctx.committed(result),
            ..self.with_worker(i, WorkerState::Idle)
        };
        if self.ctx.modules[result.file_id as int].1.state is Processing {
            at
        } else {
            at.failed(SchedulerErrorView::NotProcessing)
        }
    }

    /// The answer to a request was sent to worker `i`, and reached it if it was `delivered`.
    pub open spec fn responded(self, i: int, delivered: bool) -> SchedulerView<F> {
        if delivered {
            self
        } else {
            self.failed(
                SchedulerErrorView::FailedResponse(
                    MessageView { worker_id: i, msg_type: "Response to Request"@ },
                ),
            )
        }
    }
}

/// The number of workers: as many as asked for, or as many as can run at the same time.
pub open spec fn worker_count(threads: int, available: int) -> int {
    if threads != 0 {
        threads
    } else {
        available
    }
}

impl<F> Scheduler<F> {
    /// A scheduler with `threads` workers, or with `available` ones where `threads` is zero.
    pub fn new(
        errors: Vec<CompilerError>,
        threads: usize,
        available: usize,
        ctx: LexContext<F>,
    ) -> (r: Self)
        ensures
            r@ == (SchedulerView {
                errors: compiler_error_views(errors@),
                threads: worker_count(threads as int, available as int),
                workers: Seq::new(
                    worker_count(threads as int, available as int) as nat,
                    |i: int| WorkerState::Idle,
                ),
                ctx: ctx@,
                all_workers_idle: false,
            }),
    {
        let threads: usize = if threads != 0 {
            threads
        } else {
            available
        };
        let mut workers: Vec<WorkerState> = Vec::new();
        let mut i: usize = 0;
        while i < threads
            invariant
                i <= threads,
                workers@ == Seq::new(i as nat, |i: int| WorkerState::Idle),
            decreases threads - i,
        {
            workers.push(WorkerState::Idle);
            i += 1;
            assert(workers@ =~= Seq::new(i as nat, |i: int| WorkerState::Idle));
        }
        Scheduler { errors, threads, workers, ctx, all_workers_idle: false }
    }

    fn fail(&mut self, error: SchedulerError)
        ensures
            final(self)@ == old(self)@.failed(error@),
    {
        let ghost before = self@;
        self.errors.push(CompilerError::Scheduler(error));
        assert(self@ =~= before.failed(error@));
    }

    /// Starts a round through the workers.
    pub fn begin_round(&mut self)
        ensures
            final(self)@ == old(self)@.round_begun(),
    {
        self.all_workers_idle = true;
    }

    /// Comes to worker `i`, which has come to an end if it is `finished`, and tells what to do.
    pub fn visit(&mut self, i: usize, finished: bool) -> (r: Visit<F>)
        requires
            i < old(self)@.workers.len(),
            old(self)@.ctx.job_queue.len() > 0 ==> old(self)@.ctx.job_queue[0] < old(
                self,
            )@.ctx.modules.len(),
        ensures
            final(self)@ == old(self)@.visited(i as int, finished).0,
            r == old(self)@.visited(i as int, finished).1,
    {
        let ghost before = self@;
        if finished {
            self.workers[i] = WorkerState::Dead;
        }
        proof {
            let state = if finished {
                WorkerState::Dead
            } else {
                before.workers[i as int]
            };
            assert(self@ =~= before.with_worker(i as int, state));
        }
        match self.workers[i] {
            WorkerState::Idle => {
                if self.ctx.job_queue.len() == 0 {
                    return Visit::Pass;
                }
                let job_id: usize = self.ctx.job_queue[0];
                match Lexer::new_job(&mut self.ctx) {
                    Ok(Some(job)) => Visit::Offer(job_id, job),
                    Ok(None) => Visit::Pass,
                    Err(err) => {
                        self.fail(err);
                        Visit::Pass
                    },
                }
            },
            WorkerState::Dead => {
                self.all_workers_idle = false;
                self.workers[i] = WorkerState::Idle;
                Visit::Replace
            },
            WorkerState::Running => {
                self.all_workers_idle = false;
                Visit::Pass
            },
            WorkerState::Retired => Visit::Pass,
        }
    }

    /// Takes note of whether the job for worker `i` was `delivered`.
    pub fn job_sent(&mut self, i: usize, delivered: bool)
        requires
            i < old(self)@.workers.len(),
        ensures
            final(self)@ == old(self)@.offered(i as int, delivered),
    {
        if delivered {
            self.workers[i] = WorkerState::Running;
            self.all_workers_idle = false;
        } else {
            self.fail(SchedulerError::FailedResponse(FailedResponseError::new(i, "New Job")));
        }
    }

    /// Takes note of how the worker ended that was worker `i` before it was replaced.
    pub fn worker_replaced(&mut self, i: usize, ending: Ending)
        requires
            i < old(self)@.workers.len(),
        ensures
            final(self)@ == old(self)@.replaced(i as int, ending@),
    {
        match ending {
            Ending::Panicked(message) => {
                self.fail(SchedulerError::ThreadPanic(ThreadPanicError { thread_id: i, message }));
            },
            Ending::Failed(err) => self.fail(err),
            Ending::Finished => {
                self.workers[i] = WorkerState::Retired;
            },
        }
    }

    /// Takes what became of the module that worker `i` has lexed.
    pub fn receive_work(&mut self, i: usize, result: LexResult)
        requires
            i < old(self)@.workers.len(),
            result.file_id < old(self)@.ctx.modules.len(),
        ensures
            final(self)@ == old(self)@.work_received(i as int, result),
    {
        self.workers[i] = WorkerState::Idle;
        if let Err(err) = Lexer::commit_work(result, &mut self.ctx) {
            self.fail(err);
        }
    }

    /// Takes note of whether the answer to a request of worker `i` was `delivered`.
    pub fn response_sent(&mut self, i: usize, delivered: bool)
        ensures
            final(self)@ == old(self)@.responded(i as int, delivered),
    {
        if !delivered {
            self.fail(
                SchedulerError::FailedResponse(FailedResponseError::new(i, "Response to Request")),
            );
        }
    }
}

/// What happens to a worker when a round comes to it: whether it has come to an end, whether a
/// job that is sent to it is delivered, and how it ended if it is replaced.
pub struct WorkerEvent {
    pub finished: bool,
    pub delivered: bool,
    pub ending: EndingView,
}

impl<F> SchedulerView<F> {
    /// After the round has been at worker `i`.
    pub open spec fn updated(self, i: int, event: WorkerEvent) -> SchedulerView<F> {
        let (at, visit) = self.visited(i, event.finished);
        match visit {
            Visit::Pass => at,
            Visit::Offer(_, _) => at.offered(i, event.delivered),
            Visit::Replace => at.replaced(i, event.ending),
        }
    }

    /// After the round has been at the workers from `i` on.
    pub open spec fn updated_from(self, i: int, events: Seq<WorkerEvent>) -> SchedulerView<F>
        decreases events.len() - i,
    {
        if i < 0 || i >= events.len() {
            self
        } else {
            self.updated(i, events[i]).updated_from(i + 1, events)
        }
    }

    /// After a round in which `events` happened to the workers.
    pub open spec fn round(self, events: Seq<WorkerEvent>) -> SchedulerView<F> {
        self.round_begun().updated_from(0, events)
    }
}

/// A worker was replaced in a round, or is at work after it.
pub open spec fn keeps_going(before: WorkerState, after: WorkerState, event: WorkerEvent) -> bool {
    event.finished || before is Dead || after is Running
}

proof fn lemma_updated<F>(s: SchedulerView<F>, i: int, event: WorkerEvent)
    requires
        0 <= i < s.workers.len(),
    ensures
        ({
            let after = s.updated(i, event);
            &&& after.workers.len() == s.workers.len()
            &&& forall|j: int|
                0 <= j < s.workers.len() && j != i ==> #[trigger] after.workers[j] == s.workers[j]
            &&& after.all_workers_idle == (s.all_workers_idle && !keeps_going(
                s.workers[i],
                after.workers[i],
                event,
            ))
            &&& !(after.workers[i] is Dead)
        }),
{
}

proof fn lemma_updated_from<F>(s: SchedulerView<F>, i: int, events: Seq<WorkerEvent>)
    requires
        0 <= i <= events.len(),
        events.len() == s.workers.len(),
    ensures
        ({
            let after = s.updated_from(i, events);
            &&& after.workers.len() == s.workers.len()
            &&& forall|j: int| 0 <= j < i ==> #[trigger] after.workers[j] == s.workers[j]
            &&& after.all_workers_idle <==> s.all_workers_idle && forall|j: int|
                i <= j < events.len() ==> !keeps_going(
                    #[trigger] s.workers[j],
                    after.workers[j],
                    events[j],
                )
            &&& forall|j: int| i <= j < events.len() ==> !((#[trigger] after.workers[j]) is Dead)
        }),
    decreases events.len() - i,
{
    if i < events.len() {
        let mid = s.updated(i, events[i]);
        lemma_updated(s, i, events[i]);
        lemma_updated_from(mid, i + 1, events);
        let after = mid.updated_from(i + 1, events);
        assert(after.workers[i] == mid.workers[i]);
        assert(after.all_workers_idle <==> s.all_workers_idle && forall|j: int|
            i <= j < events.len() ==> !keeps_going(
                #[trigger] s.workers[j],
                after.workers[j],
                events[j],
            )) by {
            assert forall|j: int| i + 1 <= j < events.len() implies #[trigger] mid.workers[j]
                == s.workers[j] by {}
            if after.all_workers_idle {
                assert forall|j: int| i <= j < events.len() implies !keeps_going(
                    #[trigger] s.workers[j],
                    after.workers[j],
                    events[j],
                ) by {
                    if j > i {
                        assert(mid.workers[j] == s.workers[j]);
                    }
                }
            } else if s.all_workers_idle && mid.all_workers_idle {
                let j = choose|j: int|
                    i + 1 <= j < events.len() && keeps_going(
                        #[trigger] mid.workers[j],
                        after.workers[j],
                        events[j],
                    );
                assert(keeps_going(s.workers[j], after.workers[j], events[j]));
            } else if s.all_workers_idle {
                assert(keeps_going(s.workers[i], after.workers[i], events[i]));
            }
        }
    }
}

/// A round tells that all workers are idle where none of them had come to an end and none is at
/// work after it, and only there. No worker that had come to an end is left unreplaced.
pub proof fn idle_round<F>(s: SchedulerView<F>, events: Seq<WorkerEvent>)
    requires
        events.len() == s.workers.len(),
    ensures
        s.round(events).workers.len() == s.workers.len(),
        s.round(events).all_workers_idle <==> forall|i: int|
            0 <= i < events.len() ==> !keeps_going(
                #[trigger] s.workers[i],
                s.round(events).workers[i],
                events[i],
            ),
        forall|i: int|
            0 <= i < events.len() ==> !((#[trigger] s.round(events).workers[i]) is Dead),
{
    lemma_updated_from(s.round_begun(), 0, events);
}

proof fn lemma_no_job_left<F>(s: SchedulerView<F>, i: int, events: Seq<WorkerEvent>)
    requires
        0 <= i <= events.len(),
        events.len() == s.workers.len(),
        s.ctx.consistent(),
        forall|j: int| 0 <= j < events.len() ==> (#[trigger] events[j]).delivered,
    ensures
        ({
            let after = s.updated_from(i, events);
            &&& after.ctx.consistent()
            &&& after.ctx.job_queue.len() <= s.ctx.job_queue.len()
            &&& after.all_workers_idle && after.ctx.job_queue.len() > 0 ==> forall|j: int|
                i <= j < events.len() ==> #[trigger] after.workers[j] is Retired
        }),
    decreases events.len() - i,
{
    if i < events.len() {
        let mid = s.updated(i, events[i]);
        let after = mid.updated_from(i + 1, events);
        lemma_updated(s, i, events[i]);
        if s.ctx.job_queue.len() > 0 {
            queued_jobs_start(s.ctx);
        }
        assert(events[i].delivered);
        lemma_no_job_left(mid, i + 1, events);
        lemma_updated_from(mid, i + 1, events);
        assert(after.workers[i] == mid.workers[i]);
        if after.all_workers_idle && after.ctx.job_queue.len() > 0 {
            assert(!keeps_going(s.workers[i], mid.workers[i], events[i]));
        }
    }
}

/// Where every job that is sent is delivered, a round that tells that all workers are idle leaves
/// no job in the queue that a worker could still take.
pub proof fn idle_round_leaves_no_job<F>(s: SchedulerView<F>, events: Seq<WorkerEvent>)
    requires
        events.len() == s.workers.len(),
        s.ctx.consistent(),
        forall|i: int| 0 <= i < events.len() ==> (#[trigger] events[i]).delivered,
        s.round(events).all_workers_idle,
    ensures
        s.round(events).ctx.consistent(),
        s.round(events).ctx.job_queue.len() == 0 || forall|i: int|
            0 <= i < events.len() ==> #[trigger] s.round(events).workers[i] is Retired,
{
    lemma_no_job_left(s.round_begun(), 0, events);
}

/// Whatever the scheduler does, modules and queue stay consistent, and then the first job in the
/// queue is that of a known module.
pub proof fn scheduling_keeps_consistent<F>(
    s: SchedulerView<F>,
    i: int,
    event: WorkerEvent,
    result: LexResult,
)
    requires
        s.ctx.consistent(),
        result.file_id < s.ctx.modules.len(),
    ensures
        s.updated(i, event).ctx.consistent(),
        s.work_received(i, result).ctx.consistent(),
        s.responded(i, event.delivered).ctx.consistent(),
        s.ctx.job_queue.len() > 0 ==> s.ctx.job_queue[0] < s.ctx.modules.len(),
{
    if s.ctx.job_queue.len() > 0 {
        queued_jobs_start(s.ctx);
    }
    committed_work_is_kept(s.ctx, result);
}

} // verus!
