use cfuq::compiler::CompilerError;
use cfuq::context::LexContext;
use cfuq::lex_error::{BadIncludeError, LexError};
use cfuq::common::{Provenance, assert_send_sync, unwrap_panic};
use cfuq::lexer::{FileLex, LexResult, Lexer};
use cfuq::part::{Part, PartState};
use cfuq::path::ModulePath;
use cfuq::pool::{Ending, Scheduler, Visit, WorkerState};
use cfuq::reader::LineReader;
use cfuq::scheduler::SchedulerError;
use cfuq::worker::{Pending, SchedulerResponse, WorkerStep};
use std::sync::mpsc::{RecvError, channel};

fn lexed(file_id: usize) -> LexResult {
    LexResult {
        file_id,
        tokens: Vec::new(),
        const_macros: Vec::new(),
        macro_funcs: Vec::new(),
        modules: Vec::new(),
        errors: Vec::new(),
    }
}

fn not_found(name: &str) -> BadIncludeError {
    BadIncludeError::new(name.to_string(), Provenance::new(0, 1, 1, 1))
}

/// A scheduler with two workers and as many modules as asked for, all of them queued.
fn scheduler(modules: usize) -> Scheduler<usize> {
    let parts = (0..modules)
        .map(|i| {
            let path = ModulePath::from_bytes(&format!("m{}", i).into_bytes());
            (path, Part::new(100 + i, format!("m{}", i)))
        })
        .collect();
    Scheduler::new(Vec::new(), 2, 8, LexContext::new(parts, (0..modules).collect()))
}

fn message(error: &CompilerError) -> String {
    match error {
        CompilerError::Scheduler(err) => err.message(),
        other => panic!("{:?}", other),
    }
}

#[test]
fn the_number_of_workers() {
    assert_eq!(scheduler(0).workers, [WorkerState::Idle, WorkerState::Idle]);
    let inferred: Scheduler<u8> =
        Scheduler::new(Vec::new(), 0, 3, LexContext::new(Vec::new(), Vec::new()));
    assert_eq!((inferred.threads, inferred.workers.len()), (3, 3));
}

#[test]
fn idle_workers_get_jobs() {
    let mut s = scheduler(1);
    s.begin_round();
    assert!(matches!(s.visit(0, false), Visit::Offer(0, 100)));
    s.job_sent(0, true);
    assert!(matches!(s.visit(1, false), Visit::Pass));
    assert!(!s.all_workers_idle);
    assert_eq!(s.workers, [WorkerState::Running, WorkerState::Idle]);
    assert!(s.ctx.job_queue.is_empty() && s.errors.is_empty());
}

#[test]
fn a_round_without_work_finds_all_workers_idle() {
    let mut s = scheduler(0);
    s.begin_round();
    assert!(matches!(s.visit(0, false), Visit::Pass));
    assert!(matches!(s.visit(1, false), Visit::Pass));
    assert!(s.all_workers_idle);
    s.workers[1] = WorkerState::Running;
    s.begin_round();
    s.visit(0, false);
    s.visit(1, false);
    assert!(!s.all_workers_idle);
    s.workers[1] = WorkerState::Retired;
    s.begin_round();
    s.visit(0, false);
    s.visit(1, false);
    assert!(s.all_workers_idle);
}

#[test]
fn a_job_that_is_not_delivered_is_reported() {
    let mut s = scheduler(1);
    s.begin_round();
    assert!(matches!(s.visit(1, false), Visit::Offer(0, 100)));
    s.job_sent(1, false);
    assert!(s.all_workers_idle);
    assert_eq!(s.workers[1], WorkerState::Idle);
    assert_eq!(message(&s.errors[0]), "Failed to send \"New Job\" response to worker 1!");
}

#[test]
fn a_job_that_cannot_start_is_reported() {
    let mut s = scheduler(1);
    s.ctx.modules[0].1.start_processing().unwrap();
    s.begin_round();
    assert!(matches!(s.visit(0, false), Visit::Pass));
    assert!(s.all_workers_idle);
    assert_eq!(
        message(&s.errors[0]),
        "Cannot start processing a module if it's already being processed!"
    );
}

#[test]
fn workers_that_ended_are_replaced() {
    let mut s = scheduler(0);
    s.workers[0] = WorkerState::Running;
    s.begin_round();
    assert!(matches!(s.visit(0, true), Visit::Replace));
    s.worker_replaced(0, Ending::Panicked("oh".to_string()));
    assert!(matches!(s.visit(1, true), Visit::Replace));
    s.worker_replaced(1, Ending::Finished);
    assert!(!s.all_workers_idle);
    assert_eq!(s.workers, [WorkerState::Idle, WorkerState::Retired]);
    assert_eq!(message(&s.errors[0]), "Worker 0 panicked with message \"oh\"!");
    assert!(matches!(s.visit(1, true), Visit::Replace));
    s.worker_replaced(1, Ending::Failed(SchedulerError::Recv(RecvError)));
    assert_eq!(s.workers[1], WorkerState::Idle);
    assert_eq!(message(&s.errors[1]), RecvError.to_string());
}

#[test]
fn finished_work_is_taken() {
    let mut s = scheduler(1);
    s.begin_round();
    assert!(matches!(s.visit(0, false), Visit::Offer(0, 100)));
    s.job_sent(0, true);
    s.receive_work(0, lexed(0));
    assert_eq!(s.workers[0], WorkerState::Idle);
    assert!(matches!(s.ctx.modules[0].1.state, PartState::Tokens(_)));
    assert!(s.errors.is_empty());
    s.receive_work(0, lexed(0));
    assert_eq!(message(&s.errors[0]), "Cannot finish processing if we never started!");
}

#[test]
fn answers_that_are_not_delivered_are_reported() {
    let mut s = scheduler(0);
    s.response_sent(1, true);
    assert!(s.errors.is_empty());
    s.response_sent(1, false);
    assert_eq!(
        message(&s.errors[0]),
        "Failed to send \"Response to Request\" response to worker 1!"
    );
}

#[test]
fn a_worker_takes_its_first_message() {
    assert!(matches!(
        Lexer::first_message(Ok(SchedulerResponse::NewJob(3, 'f'))),
        WorkerStep::Lex(3, 'f')
    ));
    assert!(matches!(
        Lexer::first_message::<char>(Ok(SchedulerResponse::Respond(Ok(1)))),
        WorkerStep::Stop(Err(SchedulerError::Lex(LexError::BadResponse(_))))
    ));
    assert!(matches!(
        Lexer::first_message::<char>(Ok(SchedulerResponse::ShutDown)),
        WorkerStep::Stop(Ok(()))
    ));
    let (tx, rx) = channel::<SchedulerResponse<char>>();
    drop(tx);
    assert!(matches!(
        Lexer::first_message(rx.recv()),
        WorkerStep::Stop(Err(SchedulerError::Recv(_)))
    ));
}

#[test]
fn a_worker_takes_the_next_job() {
    assert!(matches!(
        Lexer::next_message(SchedulerResponse::NewJob(4, 'g')),
        WorkerStep::Lex(4, 'g')
    ));
    assert!(matches!(
        Lexer::next_message::<char>(SchedulerResponse::Respond(Err(not_found("x")))),
        WorkerStep::Stop(Err(SchedulerError::Lex(LexError::BadResponse(_))))
    ));
    assert!(matches!(
        Lexer::next_message::<char>(SchedulerResponse::ShutDown),
        WorkerStep::Stop(Ok(()))
    ));
}

fn file(text: &str) -> FileLex {
    let lines = text.split_inclusive('\n').map(str::to_string).collect();
    Lexer::lex_file(0, LineReader::new(lines, None))
}

#[test]
fn a_worker_waits_for_its_answers() {
    let f = file("#!also a\n#!also b\n#!also c\n");
    let step: WorkerStep<char> = Lexer::requested(5, f, 3).unwrap();
    let WorkerStep::Collect(pending) = step else { panic!() };
    assert_eq!(pending.outstanding, 3);
    let WorkerStep::Collect(pending) =
        Lexer::answer(pending, SchedulerResponse::<char>::Respond(Ok(8)))
    else {
        panic!()
    };
    let WorkerStep::Collect(pending) =
        Lexer::answer(pending, SchedulerResponse::<char>::Respond(Err(not_found("b"))))
    else {
        panic!()
    };
    let WorkerStep::Report(result) =
        Lexer::answer(pending, SchedulerResponse::<char>::Respond(Ok(9)))
    else {
        panic!()
    };
    assert_eq!(result.modules, [8, 9]);
    assert_eq!(result.errors.len(), 1);
    assert_eq!(result.errors[0].message(), "Could not find \"b\" module!");
}

#[test]
fn a_worker_without_requests_reports_at_once() {
    let step: Option<WorkerStep<char>> = Lexer::requested(5, file("5\n"), 0);
    assert!(matches!(step, Some(WorkerStep::Report(_))));
    let step: Option<WorkerStep<char>> = Lexer::requested(5, file("#!also a\n"), 0);
    assert!(matches!(
        step,
        Some(WorkerStep::Stop(Err(SchedulerError::Lex(LexError::FailedRequest(_)))))
    ));
    assert!(Lexer::requested::<char>(5, file("$+"), 0).is_none());
}

#[test]
fn other_messages_end_the_wait() {
    let pending = || Pending { result: lexed(0), outstanding: 1 };
    assert!(matches!(
        Lexer::answer(pending(), SchedulerResponse::NewJob(1, 'f')),
        WorkerStep::Stop(Err(SchedulerError::Lex(LexError::BadResponse(_))))
    ));
    assert!(matches!(
        Lexer::answer(pending(), SchedulerResponse::<char>::ShutDown),
        WorkerStep::Stop(Ok(()))
    ));
}

#[test]
fn a_report_has_to_arrive() {
    assert!(matches!(Lexer::reported::<char>(2, true), WorkerStep::Listen));
    let WorkerStep::Stop(Err(err)) = Lexer::reported::<char>(2, false) else { panic!() };
    assert_eq!(err.message(), "Worker 2 failed to send \"New Job\" request!");
}

#[test]
fn panics_have_messages() {
    assert_eq!(unwrap_panic(Some("a"), Some("b")), "a");
    assert_eq!(unwrap_panic(None, Some("b")), "b");
    assert_eq!(unwrap_panic(None, None), "Found a non-string panic payload!");
    assert_send_sync::<LexResult>();
}
