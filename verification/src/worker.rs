//! A worker: what it does with each message that it gets.
use crate::lex_error::{BadIncludeError, BadResponseError, LexError, LexErrorView, error_views};
use crate::lexer::{
    FileLex, FileLexView, LexResult, LexResultView, Lexer, ModIdRequest, requests_sent,
};
use crate::scheduler::{FailedRequestError, MessageView, SchedulerError, SchedulerErrorView};
use std::sync::mpsc::RecvError;
use vstd::prelude::*;
use vstd::string::*;

verus! {

/// A message from the scheduler to a worker. `F` is an open source file.
pub enum SchedulerResponse<F> {
    NewJob(usize, F),
    Respond(Result<usize, BadIncludeError>),
    ShutDown,
}

/// A message from a worker to the scheduler.
pub enum WorkerRequest {
    NewJob(LexResult),
    Request(ModIdRequest),
}

/// A file that has been lexed, with the number of its requests that are not answered yet.
pub struct Pending {
    pub result: LexResult,
    pub outstanding: usize,
}

/// What a worker does next.
pub enum WorkerStep<F> {
    /// Lexes the file with the given number.
    Lex(usize, F),
    /// Waits for the answer to a request.
    Collect(Pending),
    /// Sends what became of a file, and asks for the next one.
    Report(LexResult),
    /// Waits for the next file.
    Listen,
    /// Ends.
    Stop(Result<(), SchedulerError>),
}

pub enum WorkerStepView<F> {
    Lex(usize, F),
    Collect(LexResultView, int),
    Report(LexResultView),
    Listen,
    Done,
    Failed(SchedulerErrorView),
}

impl<F> View for WorkerStep<F> {
    type V = WorkerStepView<F>;

    open spec fn view(&self) -> WorkerStepView<F> {
        match self {
            WorkerStep::Lex(file_id, file) => WorkerStepView::Lex(*file_id, *file),
            WorkerStep::Collect(pending) => WorkerStepView::Collect(
                pending.result@,
                pending.outstanding as int,
            ),
            WorkerStep::Report(result) => WorkerStepView::Report(result@),
            WorkerStep::Listen => WorkerStepView::Listen,
            WorkerStep::Stop(Ok(())) => WorkerStepView::Done,
            WorkerStep::Stop(Err(err)) => WorkerStepView::Failed(err@),
        }
    }
}

/// What a worker without a file does with a message.
pub open spec fn job_step<F>(message: SchedulerResponse<F>) -> WorkerStepView<F> {
    match message {
        SchedulerResponse::NewJob(file_id, file) => WorkerStepView::Lex(file_id, file),
        SchedulerResponse::Respond(_) => WorkerStepView::Failed(
            SchedulerErrorView::Lex(LexErrorView::BadResponse),
        ),
        SchedulerResponse::ShutDown => WorkerStepView::Done,
    }
}

/// What a worker does with the first message of all, or with the error in its place.
pub open spec fn first_step<F>(message: Result<SchedulerResponse<F>, RecvError>) -> WorkerStepView<
    F,
> {
    match message {
        Ok(message) => job_step(message),
        Err(err) => WorkerStepView::Failed(SchedulerErrorView::Recv(err)),
    }
}

/// What a worker does once its result was sent, and reached the scheduler if it was `delivered`.
pub open spec fn reported_step<F>(id: int, delivered: bool) -> WorkerStepView<F> {
    if delivered {
        WorkerStepView::Listen
    } else {
        WorkerStepView::Failed(
            SchedulerErrorView::Lex(
                LexErrorView::FailedRequest(MessageView { worker_id: id, msg_type: "New Job"@ }),
            ),
        )
    }
}

/// What a worker does once the first `accepted` requests of `file` were sent and the next one, if
/// there is one, was not. There is nothing to do after a file with a line that cannot be lexed.
pub open spec fn requested_step<F>(id: int, file: FileLexView, accepted: int) -> Option<
    WorkerStepView<F>,
> {
    match requests_sent(file, id, accepted) {
        None => None,
        Some((outstanding, Ok(result))) => Some(pending_step(result, outstanding)),
        Some((_, Err(err))) => Some(WorkerStepView::Failed(SchedulerErrorView::Lex(err))),
    }
}

/// What a worker does once `result` still lacks `outstanding` answers.
pub open spec fn pending_step<F>(result: LexResultView, outstanding: int) -> WorkerStepView<F> {
    if outstanding > 0 {
        WorkerStepView::Collect(result, outstanding)
    } else {
        WorkerStepView::Report(result)
    }
}

/// `result` with the answer to a request: the number of a module, or the error that there is no
/// such module.
pub open spec fn with_answer(
    result: LexResultView,
    answer: Result<usize, BadIncludeError>,
) -> LexResultView {
    match answer {
        Ok(id) => LexResultView { modules: result.modules.push(id), ..result },
        Err(err) => LexResultView {
            errors: result.errors.push(LexErrorView::BadInclude(err@)),
            ..result
        },
    }
}

/// What a worker that waits for answers does with a message.
pub open spec fn answer_step<F>(
    result: LexResultView,
    outstanding: int,
    message: SchedulerResponse<F>,
) -> WorkerStepView<F> {
    match message {
        SchedulerResponse::NewJob(_, _) => WorkerStepView::Failed(
            SchedulerErrorView::Lex(LexErrorView::BadResponse),
        ),
        SchedulerResponse::Respond(answer) => pending_step(
            with_answer(result, answer),
            outstanding - 1,
        ),
        SchedulerResponse::ShutDown => WorkerStepView::Done,
    }
}

impl Lexer {
    /// Takes the first message of all, if there is one.
    pub fn first_message<F>(message: Result<SchedulerResponse<F>, RecvError>) -> (r: WorkerStep<F>)
        ensures
            r@ == first_step(message),
    {
        match message {
            Ok(message) => Lexer::next_message(message),
            Err(err) => WorkerStep::Stop(Err(SchedulerError::Recv(err))),
        }
    }

    /// Takes a message that should be the next job.
    pub fn next_message<F>(message: SchedulerResponse<F>) -> (r: WorkerStep<F>)
        ensures
            r@ == job_step(message),
    {
        match message {
            SchedulerResponse::NewJob(file_id, file) => WorkerStep::Lex(file_id, file),
            SchedulerResponse::Respond(_) => WorkerStep::Stop(
                Err(SchedulerError::Lex(LexError::BadResponse(BadResponseError))),
            ),
            SchedulerResponse::ShutDown => WorkerStep::Stop(Ok(())),
        }
    }

    /// Goes on from a file that was lexed, where the first `accepted` of its requests were sent
    /// and the next one, if there is one, was not. There is no way on from a file with a line
    /// that cannot be lexed.
    pub fn requested<F>(id: usize, file: FileLex, accepted: usize) -> (r: Option<WorkerStep<F>>)
        ensures
            match requested_step::<F>(id as int, file@, accepted as int) {
                None => r is None,
                Some(step) => r matches Some(next) && next@ == step,
            },
    {
        match file.sent(id, accepted) {
            None => None,
            Some((outstanding, Ok(result))) => Some(
                Lexer::collect(Pending { result, outstanding }),
            ),
            Some((_, Err(err))) => Some(WorkerStep::Stop(Err(SchedulerError::Lex(err)))),
        }
    }

    /// Waits for the answers that are outstanding, or reports the result where none is.
    fn collect<F>(pending: Pending) -> (r: WorkerStep<F>)
        ensures
            r@ == pending_step::<F>(pending.result@, pending.outstanding as int),
    {
        if pending.outstanding > 0 {
            WorkerStep::Collect(pending)
        } else {
            WorkerStep::Report(pending.result)
        }
    }

    /// Takes a message that should be the answer to a request.
    pub fn answer<F>(pending: Pending, message: SchedulerResponse<F>) -> (r: WorkerStep<F>)
        requires
            pending.outstanding > 0,
        ensures
            r@ == answer_step(pending.result@, pending.outstanding as int, message),
    {
        match message {
            SchedulerResponse::NewJob(_, _) => WorkerStep::Stop(
                Err(SchedulerError::Lex(LexError::BadResponse(BadResponseError))),
            ),
            SchedulerResponse::Respond(answer) => {
                let mut result = pending.result;
                match answer {
                    Ok(id) => result.modules.push(id),
                    Err(err) => {
                        let ghost before = error_views(result.errors@);
                        result.errors.push(LexError::BadInclude(err));
                        assert(error_views(result.errors@) =~= before.push(
                            LexErrorView::BadInclude(err@),
                        ));
                    },
                }
                assert(result@ == with_answer(pending.result@, answer));
                Lexer::collect(Pending { result, outstanding: pending.outstanding - 1 })
            },
            SchedulerResponse::ShutDown => WorkerStep::Stop(Ok(())),
        }
    }

    /// Goes on from a result that was sent, and reached the scheduler if it was `delivered`.
    pub fn reported<F>(id: usize, delivered: bool) -> (r: WorkerStep<F>)
        ensures
            r@ == reported_step::<F>(id as int, delivered),
    {
        if delivered {
            WorkerStep::Listen
        } else {
            let err = FailedRequestError::new(id, "New Job");
            WorkerStep::Stop(Err(SchedulerError::Lex(LexError::FailedRequest(err))))
        }
    }
}

/// `result` with the answers to its requests, in the order in which they come.
pub open spec fn with_answers(
    result: LexResultView,
    answers: Seq<Result<usize, BadIncludeError>>,
) -> LexResultView
    decreases answers.len(),
{
    if answers.len() == 0 {
        result
    } else {
        with_answers(with_answer(result, answers[0]), answers.skip(1))
    }
}

/// What a worker that would do `step` does once it has got `answers`, as far as it waits for them.
pub open spec fn answered_step<F>(
    step: WorkerStepView<F>,
    answers: Seq<Result<usize, BadIncludeError>>,
) -> WorkerStepView<F>
    decreases answers.len(),
{
    if answers.len() == 0 {
        step
    } else {
        match step {
            WorkerStepView::Collect(result, outstanding) => answered_step(
                answer_step(result, outstanding, SchedulerResponse::Respond(answers[0])),
                answers.skip(1),
            ),
            _ => step,
        }
    }
}

/// The numbers of the modules among `answers`, in their order.
pub open spec fn found(answers: Seq<Result<usize, BadIncludeError>>) -> Seq<usize>
    decreases answers.len(),
{
    if answers.len() == 0 {
        Seq::empty()
    } else {
        match answers[0] {
            Ok(id) => seq![id] + found(answers.skip(1)),
            Err(_) => found(answers.skip(1)),
        }
    }
}

/// The errors among `answers`, in their order.
pub open spec fn not_found(answers: Seq<Result<usize, BadIncludeError>>) -> Seq<LexErrorView>
    decreases answers.len(),
{
    if answers.len() == 0 {
        Seq::empty()
    } else {
        match answers[0] {
            Ok(_) => not_found(answers.skip(1)),
            Err(err) => seq![LexErrorView::BadInclude(err@)] + not_found(answers.skip(1)),
        }
    }
}

/// The answers to the requests of a file add the modules that were found to its result, and an
/// error for each one that was not, in the order in which they come, and change nothing else.
pub proof fn answers_are_gathered(
    result: LexResultView,
    answers: Seq<Result<usize, BadIncludeError>>,
)
    ensures
        with_answers(result, answers) == (LexResultView {
            modules: result.modules + found(answers),
            errors: result.errors + not_found(answers),
            ..result
        }),
    decreases answers.len(),
{
    if answers.len() == 0 {
        assert(result.modules + found(answers) =~= result.modules);
        assert(result.errors + not_found(answers) =~= result.errors);
    } else {
        let first = with_answer(result, answers[0]);
        answers_are_gathered(first, answers.skip(1));
        assert(first.modules + found(answers.skip(1)) =~= result.modules + found(answers));
        assert(first.errors + not_found(answers.skip(1)) =~= result.errors + not_found(answers));
    }
}

/// A worker waits for as many answers as there are requests, and reports the result with all of
/// them once there are no more to wait for.
pub proof fn all_answers_are_awaited<F>(
    result: LexResultView,
    outstanding: int,
    answers: Seq<Result<usize, BadIncludeError>>,
)
    requires
        answers.len() <= outstanding,
    ensures
        answered_step(pending_step::<F>(result, outstanding), answers) == pending_step::<F>(
            with_answers(result, answers),
            outstanding - answers.len(),
        ),
    decreases answers.len(),
{
    if answers.len() > 0 {
        let first = with_answer(result, answers[0]);
        all_answers_are_awaited::<F>(first, outstanding - 1, answers.skip(1));
    }
}

} // verus!
