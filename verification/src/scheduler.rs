//! What can go wrong between the scheduler and its workers.
use crate::lex_error::{LexError, LexErrorView, enclose, enclosed};
use crate::numbers::{decimal, decimal_text};
use crate::part::{AlreadyProcessingError, NotProcessingError, PartStage, stage_name};
use std::sync::mpsc::RecvError;
use vstd::prelude::*;
use vstd::string::*;

verus! {

/// `std::sync::mpsc::RecvError`, carried through as it is.
#[verifier::external_type_specification]
#[verifier::external_body]
pub struct ExRecvError(RecvError);

/// A message between a worker and the scheduler that could not be sent.
pub struct MessageView {
    pub worker_id: int,
    pub msg_type: Seq<char>,
}

impl MessageView {
    pub open spec fn request_message(self) -> Seq<char> {
        "Worker "@ + decimal(self.worker_id as nat) + " failed to send \""@ + self.msg_type
            + "\" request!"@
    }

    pub open spec fn response_message(self) -> Seq<char> {
        "Failed to send \""@ + self.msg_type + "\" response to worker "@ + decimal(
            self.worker_id as nat,
        ) + "!"@
    }
}

/// A worker's message that did not reach the scheduler.
#[derive(Debug)]
pub struct FailedRequestError {
    pub worker_id: usize,
    pub msg_type: &'static str,
}

impl View for FailedRequestError {
    type V = MessageView;

    open spec fn view(&self) -> MessageView {
        MessageView { worker_id: self.worker_id as int, msg_type: self.msg_type@ }
    }
}

impl FailedRequestError {
    pub fn new(worker_id: usize, msg_type: &'static str) -> (r: Self)
        ensures
            r@ == (MessageView { worker_id: worker_id as int, msg_type: msg_type@ }),
    {
        Self { worker_id, msg_type }
    }

    /// The message for the user.
    pub fn message(&self) -> (r: String)
        ensures
            r@ == self@.request_message(),
    {
        let mut r = "Worker ".to_owned();
        r.append(decimal_text(self.worker_id).as_str());
        r.append(" failed to send \"");
        r.append(self.msg_type);
        r.append("\" request!");
        r
    }
}

/// The scheduler's message that did not reach a worker.
#[derive(Debug)]
pub struct FailedResponseError {
    pub worker_id: usize,
    pub msg_type: &'static str,
}

impl View for FailedResponseError {
    type V = MessageView;

    open spec fn view(&self) -> MessageView {
        MessageView { worker_id: self.worker_id as int, msg_type: self.msg_type@ }
    }
}

impl FailedResponseError {
    pub fn new(worker_id: usize, msg_type: &'static str) -> (r: Self)
        ensures
            r@ == (MessageView { worker_id: worker_id as int, msg_type: msg_type@ }),
    {
        Self { worker_id, msg_type }
    }

    /// The message for the user.
    pub fn message(&self) -> (r: String)
        ensures
            r@ == self@.response_message(),
    {
        let mut r = "Failed to send \"".to_owned();
        r.append(self.msg_type);
        r.append("\" response to worker ");
        r.append(decimal_text(self.worker_id).as_str());
        r.append("!");
        r
    }
}

/// A worker that panicked.
#[derive(Debug)]
pub struct ThreadPanicError {
    pub thread_id: usize,
    pub message: String,
}

pub struct PanicView {
    pub thread_id: int,
    pub message: Seq<char>,
}

impl PanicView {
    pub open spec fn report(self) -> Seq<char> {
        "Worker "@ + decimal(self.thread_id as nat) + " panicked with message \""@ + self.message
            + "\"!"@
    }
}

impl View for ThreadPanicError {
    type V = PanicView;

    open spec fn view(&self) -> PanicView {
        PanicView { thread_id: self.thread_id as int, message: self.message@ }
    }
}

impl ThreadPanicError {
    /// The message for the user.
    pub fn message(&self) -> (r: String)
        ensures
            r@ == self@.report(),
    {
        let mut r = "Worker ".to_owned();
        r.append(decimal_text(self.thread_id).as_str());
        r.append(" panicked with message \"");
        r.append(self.message.as_str());
        r.append("\"!");
        r
    }
}

/// A module that is not in the stage that it should be in.
#[derive(Debug)]
pub struct WrongStageError {
    pub stage: PartStage,
    pub expected: PartStage,
}

impl WrongStageError {
    pub fn new(stage: PartStage, expected: PartStage) -> (r: Self)
        ensures
            r == (WrongStageError { stage, expected }),
    {
        Self { stage, expected }
    }

    pub open spec fn report(self) -> Seq<char> {
        "Expected stage \""@ + stage_name(self.expected) + "\", but module was in stage \""@
            + stage_name(self.stage) + "\"!"@
    }

    /// The message for the user.
    pub fn message(&self) -> (r: String)
        ensures
            r@ == self.report(),
    {
        let mut r = "Expected stage \"".to_owned();
        r.append(self.expected.message().as_str());
        r.append("\", but module was in stage \"");
        r.append(self.stage.message().as_str());
        r.append("\"!");
        r
    }
}

/// Something that another thread left behind in the middle of a change.
#[derive(Debug)]
pub struct PoisonedError {
    pub who: &'static str,
}

impl PoisonedError {
    /// The queue of jobs.
    pub fn job_queue() -> (r: Self)
        ensures
            r.who@ == "Job Queue"@,
    {
        Self { who: "Job Queue" }
    }

    /// The modules.
    pub fn modules() -> (r: Self)
        ensures
            r.who@ == "Modules"@,
    {
        Self { who: "Modules" }
    }

    /// The message for the user.
    pub fn message(&self) -> (r: String)
        ensures
            r@ == enclosed("\""@, self.who@, "\" was poisoned!"@),
    {
        enclose("\"", self.who, "\" was poisoned!")
    }
}

#[derive(Debug)]
pub enum SchedulerError {
    Lex(LexError),
    ThreadPanic(ThreadPanicError),
    FailedResponse(FailedResponseError),
    FailedRequest(FailedRequestError),
    WrongStage(WrongStageError),
    AlreadyProcessing(AlreadyProcessingError),
    NotProcessing(NotProcessingError),
    Poisoned(PoisonedError),
    Recv(RecvError),
}

pub enum SchedulerErrorView {
    Lex(LexErrorView),
    ThreadPanic(PanicView),
    FailedResponse(MessageView),
    FailedRequest(MessageView),
    WrongStage(WrongStageError),
    AlreadyProcessing,
    NotProcessing,
    Poisoned(Seq<char>),
    Recv(RecvError),
}

impl View for SchedulerError {
    type V = SchedulerErrorView;

    open spec fn view(&self) -> SchedulerErrorView {
        match self {
            SchedulerError::Lex(err) => SchedulerErrorView::Lex(err@),
            SchedulerError::ThreadPanic(err) => SchedulerErrorView::ThreadPanic(err@),
            SchedulerError::FailedResponse(err) => SchedulerErrorView::FailedResponse(err@),
            SchedulerError::FailedRequest(err) => SchedulerErrorView::FailedRequest(err@),
            SchedulerError::WrongStage(err) => SchedulerErrorView::WrongStage(*err),
            SchedulerError::AlreadyProcessing(_) => SchedulerErrorView::AlreadyProcessing,
            SchedulerError::NotProcessing(_) => SchedulerErrorView::NotProcessing,
            SchedulerError::Poisoned(err) => SchedulerErrorView::Poisoned(err.who@),
            SchedulerError::Recv(err) => SchedulerErrorView::Recv(*err),
        }
    }
}

impl SchedulerErrorView {
    /// `text` is the message for the user. That of a failed receive is whatever the error
    /// displays.
    pub open spec fn has_message(self, text: String) -> bool {
        match self {
            SchedulerErrorView::Lex(err) => err.has_message(text),
            SchedulerErrorView::ThreadPanic(err) => text@ == err.report(),
            SchedulerErrorView::FailedResponse(err) => text@ == err.response_message(),
            SchedulerErrorView::FailedRequest(err) => text@ == err.request_message(),
            SchedulerErrorView::WrongStage(err) => text@ == err.report(),
            SchedulerErrorView::AlreadyProcessing => text@
                == "Cannot start processing a module if it's already being processed!"@,
            SchedulerErrorView::NotProcessing => text@
                == "Cannot finish processing if we never started!"@,
            SchedulerErrorView::Poisoned(who) => text@ == enclosed(
                "\""@,
                who,
                "\" was poisoned!"@,
            ),
            SchedulerErrorView::Recv(err) => to_string_from_display_ensures(&err, text),
        }
    }
}

impl SchedulerError {
    /// The message for the user.
    pub fn message(&self) -> (r: String)
        ensures
            self@.has_message(r),
    {
        match self {
            Self::Lex(err) => err.message(),
            Self::ThreadPanic(err) => err.message(),
            Self::FailedResponse(err) => err.message(),
            Self::FailedRequest(err) => err.message(),
            Self::Recv(err) => err.to_string(),
            Self::WrongStage(err) => err.message(),
            Self::Poisoned(err) => err.message(),
            Self::AlreadyProcessing(err) => err.message(),
            Self::NotProcessing(err) => err.message(),
        }
    }
}

impl From<LexError> for SchedulerError {
    fn from(err: LexError) -> (r: Self) {
        SchedulerError::Lex(err)
    }
}

impl vstd::std_specs::convert::FromSpecImpl<LexError> for SchedulerError {
    open spec fn obeys_from_spec() -> bool {
        true
    }

    open spec fn from_spec(err: LexError) -> Self {
        SchedulerError::Lex(err)
    }
}

impl From<AlreadyProcessingError> for SchedulerError {
    fn from(err: AlreadyProcessingError) -> (r: Self) {
        SchedulerError::AlreadyProcessing(err)
    }
}

impl vstd::std_specs::convert::FromSpecImpl<AlreadyProcessingError> for SchedulerError {
    open spec fn obeys_from_spec() -> bool {
        true
    }

    open spec fn from_spec(err: AlreadyProcessingError) -> Self {
        SchedulerError::AlreadyProcessing(err)
    }
}

impl From<NotProcessingError> for SchedulerError {
    fn from(err: NotProcessingError) -> (r: Self) {
        SchedulerError::NotProcessing(err)
    }
}

impl vstd::std_specs::convert::FromSpecImpl<NotProcessingError> for SchedulerError {
    open spec fn obeys_from_spec() -> bool {
        true
    }

    open spec fn from_spec(err: NotProcessingError) -> Self {
        SchedulerError::NotProcessing(err)
    }
}

impl From<PoisonedError> for SchedulerError {
    fn from(err: PoisonedError) -> (r: Self) {
        SchedulerError::Poisoned(err)
    }
}

impl vstd::std_specs::convert::FromSpecImpl<PoisonedError> for SchedulerError {
    open spec fn obeys_from_spec() -> bool {
        true
    }

    open spec fn from_spec(err: PoisonedError) -> Self {
        SchedulerError::Poisoned(err)
    }
}

impl From<ThreadPanicError> for SchedulerError {
    fn from(err: ThreadPanicError) -> (r: Self) {
        SchedulerError::ThreadPanic(err)
    }
}

impl vstd::std_specs::convert::FromSpecImpl<ThreadPanicError> for SchedulerError {
    open spec fn obeys_from_spec() -> bool {
        true
    }

    open spec fn from_spec(err: ThreadPanicError) -> Self {
        SchedulerError::ThreadPanic(err)
    }
}

impl From<RecvError> for SchedulerError {
    fn from(err: RecvError) -> (r: Self) {
        SchedulerError::Recv(err)
    }
}

impl vstd::std_specs::convert::FromSpecImpl<RecvError> for SchedulerError {
    open spec fn obeys_from_spec() -> bool {
        true
    }

    open spec fn from_spec(err: RecvError) -> Self {
        SchedulerError::Recv(err)
    }
}

impl From<FailedResponseError> for SchedulerError {
    fn from(err: FailedResponseError) -> (r: Self) {
        SchedulerError::FailedResponse(err)
    }
}

impl vstd::std_specs::convert::FromSpecImpl<FailedResponseError> for SchedulerError {
    open spec fn obeys_from_spec() -> bool {
        true
    }

    open spec fn from_spec(err: FailedResponseError) -> Self {
        SchedulerError::FailedResponse(err)
    }
}

impl From<FailedRequestError> for SchedulerError {
    fn from(err: FailedRequestError) -> (r: Self) {
        SchedulerError::FailedRequest(err)
    }
}

impl vstd::std_specs::convert::FromSpecImpl<FailedRequestError> for SchedulerError {
    open spec fn obeys_from_spec() -> bool {
        true
    }

    open spec fn from_spec(err: FailedRequestError) -> Self {
        SchedulerError::FailedRequest(err)
    }
}

impl From<WrongStageError> for SchedulerError {
    fn from(err: WrongStageError) -> (r: Self) {
        SchedulerError::WrongStage(err)
    }
}

impl vstd::std_specs::convert::FromSpecImpl<WrongStageError> for SchedulerError {
    open spec fn obeys_from_spec() -> bool {
        true
    }

    open spec fn from_spec(err: WrongStageError) -> Self {
        SchedulerError::WrongStage(err)
    }
}

} // verus!
