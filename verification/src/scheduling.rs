//! What becomes of modules, jobs and workers.
use crate::compiler::{CompilerErrorView, CompilerView};
use crate::context::{ContextView, lemma_find};
use crate::graphemes::grapheme_count;
use crate::lex_error::{BadIncludeError, LexErrorView, SpannedView};
use crate::lexer::{FileLexView, LexResult, LexResultView, ModIdRequestView, requests_sent};
use crate::part::{PartStage, PartState, PartView, finished, stage_of, started};
use crate::path::PathView;
use crate::pool::{EndingView, SchedulerView, Visit, worker_count};
use crate::scheduler::{MessageView, PanicView, SchedulerErrorView, WrongStageError};
use crate::spelling::stretch;
use crate::worker::{
    SchedulerResponse, WorkerStepView, answer_step, first_step, job_step, pending_step,
    reported_step, requested_step, with_answer,
};
use std::sync::mpsc::RecvError;
use vstd::prelude::*;

verus! {

/// All modules of `before` are still there, and they are as they were.
pub open spec fn keeps_modules<F>(before: ContextView<F>, after: ContextView<F>) -> bool {
    &&& after.modules.len() >= before.modules.len()
    &&& forall|i: int|
        0 <= i < before.modules.len() ==> #[trigger] after.modules[i] == before.modules[i]
}

/// A module that was not known is added behind the others, under the path and the name that it was
/// asked for by, with its source, and waits in the queue behind the others. The answer is its
/// number.
pub proof fn new_modules_are_added<F>(ctx: ContextView<F>, rq: ModIdRequestView, file: F)
    requires
        forall|i: int|
            0 <= i < ctx.modules.len() ==> (#[trigger] ctx.modules[i]).0 != ctx.requested(rq),
        ctx.modules.len() < usize::MAX,
    ensures
        ({
            let (after, answer) = ctx.answered(rq, Some(file));
            let id = ctx.modules.len() as int;
            &&& answer == Ok::<int, SpannedView>(id)
            &&& keeps_modules(ctx, after)
            &&& after.modules.len() == id + 1
            &&& after.modules[id].0 == ctx.requested(rq)
            &&& after.modules[id].1.name == rq.name
            &&& after.modules[id].1.state == PartState::Source(file)
            &&& after.job_queue.len() == ctx.job_queue.len() + 1
            &&& after.job_queue.drop_last() == ctx.job_queue
            &&& after.job_queue.last() == id
        }),
{
    lemma_find(ctx, ctx.requested(rq), 0);
    lemma_find(ctx, ctx.requested(rq), ctx.modules.len() as int);
}

/// A module that came to be known while its source was opened is not added again.
pub proof fn modules_are_not_added_twice<F>(
    ctx: ContextView<F>,
    rq: ModIdRequestView,
    path: PathView,
    from: int,
    file: F,
    id: int,
)
    requires
        0 <= from <= id < ctx.modules.len(),
        ctx.modules[id].0 == path,
        forall|i: int| from <= i < id ==> (#[trigger] ctx.modules[i]).0 != path,
    ensures
        ctx.opened(rq, path, from, Some(file)) == (ctx, Ok::<int, SpannedView>(id)),
{
    lemma_find(ctx, path, from);
}

/// A module that could not be opened is reported under the name that it was asked for by, and at
/// the place where it was asked for, as far as the name reaches. Nothing changes.
pub proof fn missing_modules_are_reported<F>(
    ctx: ContextView<F>,
    rq: ModIdRequestView,
    path: PathView,
    from: int,
)
    ensures
        ({
            let (after, answer) = ctx.opened(rq, path, from, None);
            &&& after == ctx
            &&& answer matches Err(missing) && {
                &&& missing.bad == rq.name
                &&& missing.prov == stretch(rq.pos, grapheme_count(rq.name) as int)
            }
        }),
{
}

/// The first job in the queue is handed out: the source of its module, if there is nothing more of
/// the module yet. From then on the module is being processed, under the same path and name. The
/// last job takes its place in the queue. There is no job where the queue is empty, and an error
/// where the module is being processed or has been lexed; the job stays in the queue then.
pub proof fn jobs_are_handed_out<F>(ctx: ContextView<F>)
    requires
        ctx.job_queue.len() > 0 ==> ctx.job_queue[0] < ctx.modules.len(),
    ensures
        ({
            let (after, job) = ctx.job_taken();
            let id = ctx.job_queue[0] as int;
            if ctx.job_queue.len() == 0 {
                after == ctx && job == Ok::<Option<F>, SchedulerErrorView>(None)
            } else {
                &&& after.modules.len() == ctx.modules.len()
                &&& forall|i: int|
                    0 <= i < ctx.modules.len() && i != id ==> #[trigger] after.modules[i]
                        == ctx.modules[i]
                &&& after.modules[id].0 == ctx.modules[id].0
                &&& after.modules[id].1.name == ctx.modules[id].1.name
                &&& after.modules[id].1.state is Processing
                &&& match ctx.modules[id].1.state {
                    PartState::Source(file) => {
                        &&& job == Ok::<Option<F>, SchedulerErrorView>(Some(file))
                        &&& after.job_queue.len() == ctx.job_queue.len() - 1
                        &&& after.job_queue.len() > 0 ==> after.job_queue[0]
                            == ctx.job_queue.last()
                        &&& forall|k: int|
                            0 < k < after.job_queue.len() ==> #[trigger] after.job_queue[k]
                                == ctx.job_queue[k]
                    },
                    PartState::Processing => {
                        &&& job == Err::<Option<F>, SchedulerErrorView>(
                            SchedulerErrorView::AlreadyProcessing,
                        )
                        &&& after == ctx
                    },
                    PartState::Tokens(_) => {
                        &&& job matches Err(SchedulerErrorView::WrongStage(err)) && err.stage
                            is Tokens && err.expected is Source
                        &&& after.job_queue == ctx.job_queue
                    },
                }
            }
        }),
{
}

/// What was lexed of a module that is being processed is kept in the place of that module. Where
/// the module is not being processed nothing changes.
pub proof fn results_are_kept<F>(ctx: ContextView<F>, result: LexResult)
    requires
        result.file_id < ctx.modules.len(),
    ensures
        ({
            let after = ctx.committed(result);
            let id = result.file_id as int;
            &&& after.job_queue == ctx.job_queue
            &&& after.modules.len() == ctx.modules.len()
            &&& forall|i: int|
                0 <= i < ctx.modules.len() && i != id ==> #[trigger] after.modules[i]
                    == ctx.modules[i]
            &&& after.modules[id].0 == ctx.modules[id].0
            &&& after.modules[id].1.name == ctx.modules[id].1.name
            &&& after.modules[id].1.state == if ctx.modules[id].1.state is Processing {
                PartState::Tokens(result)
            } else {
                ctx.modules[id].1.state
            }
        }),
{
}

/// A module keeps its name, whatever is handed out or brought back of it, and has the state that
/// is brought back only where something was handed out.
pub proof fn states_are_handed_out_and_brought_back<F>(part: PartView<F>, state: PartState<F>)
    ensures
        started(part).name == part.name,
        started(part).state is Processing,
        finished(part, state).name == part.name,
        part.state is Processing ==> finished(part, state).state == state,
        !(part.state is Processing) ==> finished(part, state).state == part.state,
{
}

/// The stage of a module tells what there is of it.
pub proof fn stages_tell_states<F>(state: PartState<F>)
    ensures
        stage_of(state) is Processing <==> state is Processing,
        stage_of(state) is Source <==> state is Source,
        stage_of(state) is Tokens <==> state is Tokens,
{
}

/// There are as many workers as before, and none of them but `i` has changed.
pub open spec fn only_worker_differs<F>(
    before: SchedulerView<F>,
    after: SchedulerView<F>,
    i: int,
) -> bool {
    &&& after.threads == before.threads
    &&& after.workers.len() == before.workers.len()
    &&& forall|j: int|
        0 <= j < before.workers.len() && j != i ==> #[trigger] after.workers[j]
            == before.workers[j]
}

/// The errors of `after` are those of `before` and behind them `error`.
pub open spec fn adds_error<F>(
    before: SchedulerView<F>,
    after: SchedulerView<F>,
    error: SchedulerErrorView,
) -> bool {
    &&& after.errors.len() == before.errors.len() + 1
    &&& after.errors.drop_last() =~= before.errors
    &&& after.errors.last() == CompilerErrorView::Scheduler(error)
}

/// A round starts out from the assumption that every worker is idle, and changes nothing else.
pub proof fn rounds_begin_idle<F>(s: SchedulerView<F>)
    ensures
        s.round_begun().all_workers_idle,
        s.round_begun().errors == s.errors,
        s.round_begun().threads == s.threads,
        s.round_begun().workers == s.workers,
        s.round_begun().ctx == s.ctx,
{
}

/// A worker that has come to an end is replaced by one that is idle, and the round has found
/// something to do.
pub proof fn ended_workers_are_replaced<F>(s: SchedulerView<F>, i: int, finished: bool)
    requires
        0 <= i < s.workers.len(),
        finished || s.workers[i] is Dead,
    ensures
        ({
            let (after, visit) = s.visited(i, finished);
            &&& visit is Replace
            &&& after.workers[i] is Idle
            &&& !after.all_workers_idle
            &&& only_worker_differs(s, after, i)
            &&& after.errors == s.errors
            &&& after.ctx == s.ctx
        }),
{
}

/// A worker that has a job is left alone, and so is one that came to an end as it should. The
/// former keeps the round from finding every worker idle.
pub proof fn other_workers_are_passed_by<F>(s: SchedulerView<F>, i: int)
    requires
        0 <= i < s.workers.len(),
        s.workers[i] is Running || s.workers[i] is Retired,
    ensures
        ({
            let (after, visit) = s.visited(i, false);
            &&& visit is Pass
            &&& after.all_workers_idle == (s.all_workers_idle && s.workers[i] is Retired)
            &&& after.workers =~= s.workers
            &&& after.threads == s.threads
            &&& after.errors == s.errors
            &&& after.ctx == s.ctx
        }),
{
}

/// An idle worker is offered the first job in the queue, with the number and the source of its
/// module. Without a job it is passed by, and so it is where the module is not ready, which is
/// reported.
pub proof fn idle_workers_are_offered_jobs<F>(s: SchedulerView<F>, i: int)
    requires
        0 <= i < s.workers.len(),
        s.workers[i] is Idle,
        s.ctx.job_queue.len() > 0 ==> s.ctx.job_queue[0] < s.ctx.modules.len(),
    ensures
        ({
            let (after, visit) = s.visited(i, false);
            let id = s.ctx.job_queue[0];
            &&& after.workers =~= s.workers
            &&& after.threads == s.threads
            &&& after.all_workers_idle == s.all_workers_idle
            &&& after.ctx == s.ctx.job_taken().0
            &&& if s.ctx.job_queue.len() == 0 {
                visit is Pass && after.errors == s.errors
            } else {
                match s.ctx.modules[id as int].1.state {
                    PartState::Source(file) => visit == Visit::Offer(id, file) && after.errors
                        == s.errors,
                    PartState::Processing => visit is Pass && adds_error(
                        s,
                        after,
                        SchedulerErrorView::AlreadyProcessing,
                    ),
                    PartState::Tokens(_) => visit is Pass && adds_error(
                        s,
                        after,
                        SchedulerErrorView::WrongStage(
                            WrongStageError {
                                stage: PartStage::Tokens,
                                expected: PartStage::Source,
                            },
                        ),
                    ),
                }
            }
        }),
{
}

/// A worker that a job has reached is running, and the round has found something to do. A job that
/// did not reach its worker is reported, with the number of the worker, and nothing else changes.
pub proof fn jobs_are_sent<F>(s: SchedulerView<F>, i: int, delivered: bool)
    requires
        0 <= i < s.workers.len(),
    ensures
        ({
            let after = s.offered(i, delivered);
            &&& only_worker_differs(s, after, i)
            &&& after.ctx == s.ctx
            &&& if delivered {
                &&& after.workers[i] is Running
                &&& !after.all_workers_idle
                &&& after.errors == s.errors
            } else {
                &&& after.workers[i] == s.workers[i]
                &&& after.all_workers_idle == s.all_workers_idle
                &&& adds_error(
                    s,
                    after,
                    SchedulerErrorView::FailedResponse(
                        MessageView {
                            worker_id: i,
                            msg_type: seq!['N', 'e', 'w', ' ', 'J', 'o', 'b'],
                        },
                    ),
                )
            }
        }),
{
    reveal_strlit("New Job");
    assert("New Job"@ =~= seq!['N', 'e', 'w', ' ', 'J', 'o', 'b']);
}

/// How a worker ended that did not end as it should is reported: its own error, or the message that
/// it panicked with and its number. One that did is not used any more.
pub proof fn endings_are_reported<F>(s: SchedulerView<F>, i: int, ending: EndingView)
    requires
        0 <= i < s.workers.len(),
    ensures
        ({
            let after = s.replaced(i, ending);
            &&& only_worker_differs(s, after, i)
            &&& after.ctx == s.ctx
            &&& after.all_workers_idle == s.all_workers_idle
            &&& match ending {
                EndingView::Finished => after.workers[i] is Retired && after.errors == s.errors,
                EndingView::Failed(error) => after.workers[i] == s.workers[i] && adds_error(
                    s,
                    after,
                    error,
                ),
                EndingView::Panicked(message) => after.workers[i] == s.workers[i] && adds_error(
                    s,
                    after,
                    SchedulerErrorView::ThreadPanic(PanicView { thread_id: i, message }),
                ),
            }
        }),
{
}

/// A worker that has lexed a module is idle again, and the result is kept; where the module was not
/// being processed, that is reported.
pub proof fn work_is_received<F>(s: SchedulerView<F>, i: int, result: LexResult)
    requires
        0 <= i < s.workers.len(),
        result.file_id < s.ctx.modules.len(),
    ensures
        ({
            let after = s.work_received(i, result);
            &&& only_worker_differs(s, after, i)
            &&& after.workers[i] is Idle
            &&& after.all_workers_idle == s.all_workers_idle
            &&& after.ctx == s.ctx.committed(result)
            &&& if s.ctx.modules[result.file_id as int].1.state is Processing {
                after.errors == s.errors
            } else {
                adds_error(s, after, SchedulerErrorView::NotProcessing)
            }
        }),
{
}

/// An answer that did not reach its worker is reported, with the number of the worker. Nothing else
/// changes, and nothing at all where it did.
pub proof fn answers_are_sent<F>(s: SchedulerView<F>, i: int, delivered: bool)
    ensures
        ({
            let after = s.responded(i, delivered);
            &&& after.ctx == s.ctx
            &&& after.threads == s.threads
            &&& after.workers =~= s.workers
            &&& after.all_workers_idle == s.all_workers_idle
            &&& if delivered {
                after.errors == s.errors
            } else {
                adds_error(
                    s,
                    after,
                    SchedulerErrorView::FailedResponse(
                        MessageView { worker_id: i, msg_type: "Response to Request"@ },
                    ),
                )
            }
        }),
{
}

/// There are as many workers as were asked for, and as many as can run at the same time where none
/// were asked for.
pub proof fn workers_are_counted(threads: int, available: int)
    ensures
        threads != 0 ==> worker_count(threads, available) == threads,
        threads == 0 ==> worker_count(threads, available) == available,
{
}

/// Lexing starts with idle workers, as many as given, and with the errors and modules from before.
/// The root module comes behind those, under its path and name, with its source, and it alone waits
/// in the queue.
pub proof fn lexing_starts_with_the_root<F>(
    compiler: CompilerView<F>,
    path: PathView,
    name: Seq<char>,
    file: F,
    workers: int,
)
    requires
        workers >= 0,
        compiler.parts.len() < usize::MAX,
    ensures
        ({
            let s = compiler.lexing(path, name, file, workers);
            let id = compiler.parts.len() as int;
            &&& s.errors == compiler.errors
            &&& s.threads == workers
            &&& s.workers.len() == workers
            &&& forall|i: int| 0 <= i < workers ==> #[trigger] s.workers[i] is Idle
            &&& !s.all_workers_idle
            &&& s.ctx.modules.len() == id + 1
            &&& s.ctx.modules.drop_last() == compiler.parts
            &&& s.ctx.modules[id].0 == path
            &&& s.ctx.modules[id].1.name == name
            &&& s.ctx.modules[id].1.state == PartState::Source(file)
            &&& s.ctx.job_queue.len() == 1
            &&& s.ctx.job_queue[0] == id
        }),
{
}

/// A worker without a file lexes the file that it is sent, ends where it is told to, and gives up
/// where it is sent an answer.
pub proof fn workers_take_jobs<F>(
    file_id: usize,
    file: F,
    answer: Result<usize, BadIncludeError>,
)
    ensures
        job_step(SchedulerResponse::NewJob(file_id, file)) == WorkerStepView::Lex(file_id, file),
        job_step(SchedulerResponse::<F>::ShutDown) is Done,
        job_step(SchedulerResponse::<F>::Respond(answer)) == WorkerStepView::<F>::Failed(
            SchedulerErrorView::Lex(LexErrorView::BadResponse),
        ),
{
}

/// A worker that waits for answers takes one at a time: a module's number is added to the modules
/// of the result, an error to its errors. Behind the last one it reports the result. It ends where
/// it is told to, and gives up where it is sent a file.
pub proof fn workers_take_answers<F>(
    result: LexResultView,
    outstanding: int,
    file_id: usize,
    file: F,
    answer: Result<usize, BadIncludeError>,
)
    requires
        outstanding > 0,
    ensures
        ({
            let next = with_answer(result, answer);
            &&& next.file_id == result.file_id
            &&& next.tokens == result.tokens
            &&& next.const_macros == result.const_macros
            &&& next.macro_funcs == result.macro_funcs
            &&& match answer {
                Ok(id) => {
                    &&& next.modules.len() == result.modules.len() + 1
                    &&& next.modules.drop_last() == result.modules
                    &&& next.modules.last() == id
                    &&& next.errors == result.errors
                },
                Err(missing) => {
                    &&& next.errors.len() == result.errors.len() + 1
                    &&& next.errors.drop_last() == result.errors
                    &&& next.errors.last() == LexErrorView::BadInclude(
                        SpannedView { bad: missing.bad@, prov: missing.prov@ },
                    )
                    &&& next.modules == result.modules
                },
            }
            &&& answer_step(result, outstanding, SchedulerResponse::<F>::Respond(answer))
                == if outstanding == 1 {
                WorkerStepView::<F>::Report(next)
            } else {
                WorkerStepView::<F>::Collect(next, outstanding - 1)
            }
        }),
        answer_step(result, outstanding, SchedulerResponse::<F>::ShutDown) is Done,
        answer_step(result, outstanding, SchedulerResponse::NewJob(file_id, file))
            == WorkerStepView::<F>::Failed(SchedulerErrorView::Lex(LexErrorView::BadResponse)),
{
}

/// A worker waits for answers as long as there is one outstanding, and reports the result as it is
/// otherwise.
pub proof fn workers_wait_for_answers<F>(result: LexResultView, outstanding: int)
    ensures
        outstanding > 0 ==> pending_step::<F>(result, outstanding) == WorkerStepView::<F>::Collect(
            result,
            outstanding,
        ),
        outstanding <= 0 ==> pending_step::<F>(result, outstanding) == WorkerStepView::<F>::Report(
            result,
        ),
{
}

/// Where all requests of a file were sent, as many answers are outstanding, and the result is that
/// of the file, if it has one. Where one of them was not, those before it are outstanding, and the
/// result is the error that it was not sent, with the number of the worker.
pub proof fn sent_requests_are_outstanding(file: FileLexView, worker_id: int, accepted: int)
    requires
        0 <= accepted,
    ensures
        accepted >= file.requests.len() ==> match file.result {
            Some(result) => requests_sent(file, worker_id, accepted) == Some(
                (file.requests.len() as int, result),
            ),
            None => requests_sent(file, worker_id, accepted) is None,
        },
        accepted < file.requests.len() ==> requests_sent(file, worker_id, accepted) == Some(
            (
                accepted,
                Err::<LexResultView, LexErrorView>(
                    LexErrorView::FailedRequest(
                        MessageView { worker_id, msg_type: "ModID Request"@ },
                    ),
                ),
            ),
        ),
{
}

/// The first message of all is taken like any other, and a worker that gets none gives up with the
/// error that it got in its place.
pub proof fn workers_take_their_first_message<F>(message: SchedulerResponse<F>, err: RecvError)
    ensures
        first_step(Ok::<SchedulerResponse<F>, RecvError>(message)) == job_step(message),
        first_step(Err::<SchedulerResponse<F>, RecvError>(err)) == WorkerStepView::<F>::Failed(
            SchedulerErrorView::Recv(err),
        ),
{
}

/// A worker whose result has reached the scheduler waits for the next file. One whose result has
/// not gives up, and tells its own number.
pub proof fn workers_go_on_from_reports<F>(id: int)
    ensures
        reported_step::<F>(id, true) is Listen,
        reported_step::<F>(id, false) == WorkerStepView::<F>::Failed(
            SchedulerErrorView::Lex(
                LexErrorView::FailedRequest(
                    MessageView {
                        worker_id: id,
                        msg_type: seq!['N', 'e', 'w', ' ', 'J', 'o', 'b'],
                    },
                ),
            ),
        ),
{
    reveal_strlit("New Job");
    assert("New Job"@ =~= seq!['N', 'e', 'w', ' ', 'J', 'o', 'b']);
}

/// A worker that has sent all requests of a file waits for an answer to each of them, or reports
/// the result where there are none. It gives up where a request could not be sent, and with the
/// error that the file could not be read to its end. A file with a line that cannot be lexed leads
/// nowhere.
pub proof fn workers_go_on_from_files<F>(id: int, file: FileLexView, accepted: int)
    requires
        0 <= accepted,
    ensures
        ({
            let next = requested_step::<F>(id, file, accepted);
            if accepted < file.requests.len() {
                next == Some(
                    WorkerStepView::<F>::Failed(
                        SchedulerErrorView::Lex(
                            LexErrorView::FailedRequest(
                                MessageView { worker_id: id, msg_type: "ModID Request"@ },
                            ),
                        ),
                    ),
                )
            } else {
                match file.result {
                    None => next is None,
                    Some(Err(error)) => next == Some(
                        WorkerStepView::<F>::Failed(SchedulerErrorView::Lex(error)),
                    ),
                    Some(Ok(result)) => next == Some(
                        if file.requests.len() == 0 {
                            WorkerStepView::<F>::Report(result)
                        } else {
                            WorkerStepView::<F>::Collect(result, file.requests.len() as int)
                        },
                    ),
                }
            }
        }),
{
}

/// The modules and errors of a scheduler that is done are those of the compilation.
pub proof fn modules_and_errors_are_brought_back<F>(s: SchedulerView<F>)
    ensures
        CompilerView::brought_back(s).parts == s.ctx.modules,
        CompilerView::brought_back(s).errors == s.errors,
{
}

} // verus!
