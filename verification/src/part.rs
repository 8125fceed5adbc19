//! A module of the program, and the stage that it has reached.
use crate::lexer::LexResult;
use vstd::prelude::*;
use vstd::string::*;

verus! {

/// What there is of a module. `F` is its open source file.
#[derive(Debug)]
pub enum PartState<F> {
    Processing,
    Source(F),
    Tokens(LexResult),
}

#[derive(Debug, Clone, Copy, PartialEq, Eq, Structural)]
pub enum PartStage {
    Processing,
    Source,
    Tokens,
}

/// A module under the name that it was asked for by.
#[derive(Debug)]
pub struct Part<F> {
    pub name: String,
    pub state: PartState<F>,
}

#[derive(Debug)]
pub struct AlreadyProcessingError;

#[derive(Debug)]
pub struct NotProcessingError;

/// The name of a stage.
pub open spec fn stage_name(stage: PartStage) -> Seq<char> {
    match stage {
        PartStage::Processing => "Processing"@,
        PartStage::Source => "Source"@,
        PartStage::Tokens => "Tokens"@,
    }
}

impl PartStage {
    /// The name of the stage.
    pub fn message(&self) -> (r: String)
        ensures
            r@ == stage_name(*self),
    {
        match self {
            PartStage::Processing => "Processing".to_owned(),
            PartStage::Source => "Source".to_owned(),
            PartStage::Tokens => "Tokens".to_owned(),
        }
    }
}

/// The stage of a module in the state `state`.
pub open spec fn stage_of<F>(state: PartState<F>) -> PartStage {
    match state {
        PartState::Processing => PartStage::Processing,
        PartState::Source(_) => PartStage::Source,
        PartState::Tokens(_) => PartStage::Tokens,
    }
}

impl<F> From<&PartState<F>> for PartStage {
    fn from(value: &PartState<F>) -> (r: Self) {
        match value {
            PartState::Processing => PartStage::Processing,
            PartState::Source(_) => PartStage::Source,
            PartState::Tokens(_) => PartStage::Tokens,
        }
    }
}

impl<F> vstd::std_specs::convert::FromSpecImpl<&PartState<F>> for PartStage {
    open spec fn obeys_from_spec() -> bool {
        true
    }

    open spec fn from_spec(value: &PartState<F>) -> Self {
        stage_of(*value)
    }
}

pub struct PartView<F> {
    pub name: Seq<char>,
    pub state: PartState<F>,
}

impl<F> View for Part<F> {
    type V = PartView<F>;

    open spec fn view(&self) -> PartView<F> {
        PartView { name: self.name@, state: self.state }
    }
}

/// `part` once what there is of it has been handed out.
pub open spec fn started<F>(part: PartView<F>) -> PartView<F> {
    PartView { name: part.name, state: PartState::Processing }
}

/// `part` once `state` has been brought back, if something had been handed out.
pub open spec fn finished<F>(part: PartView<F>, state: PartState<F>) -> PartView<F> {
    if part.state is Processing {
        PartView { name: part.name, state }
    } else {
        part
    }
}

impl<F> Part<F> {
    /// A module of which there is nothing but its source.
    pub fn new(source: F, name: String) -> (r: Self)
        ensures
            r@ == (PartView { name: name@, state: PartState::Source(source) }),
    {
        Self { state: PartState::Source(source), name }
    }

    /// Hands out what there is of the module. Until it is brought back the module is being
    /// processed, and there is nothing to hand out.
    pub fn start_processing(&mut self) -> (r: Result<PartState<F>, AlreadyProcessingError>)
        ensures
            r is Err <==> old(self).state is Processing,
            r matches Ok(state) ==> state == old(self).state,
            final(self)@ == started(old(self)@),
    {
        if matches!(self.state, PartState::Processing) {
            return Err(AlreadyProcessingError);
        }
        let mut state = PartState::Processing;
        std::mem::swap(&mut self.state, &mut state);
        Ok(state)
    }

    /// Brings back what there is of the module now.
    pub fn finish_processing(&mut self, state: PartState<F>) -> (r: Result<(), NotProcessingError>)
        ensures
            r is Ok <==> old(self).state is Processing,
            final(self)@ == finished(old(self)@, state),
    {
        if matches!(self.state, PartState::Processing) {
            self.state = state;
            Ok(())
        } else {
            Err(NotProcessingError)
        }
    }

    pub fn name(&self) -> (r: &str)
        ensures
            r@ == self.name@,
    {
        self.name.as_str()
    }
}

/// What was handed out cannot be handed out again before it is brought back, and bringing it back
/// as it was leaves the module as it was.
pub proof fn processing_round_trip<F>(part: PartView<F>)
    requires
        !(part.state is Processing),
    ensures
        started(part).state is Processing,
        finished(started(part), part.state) == part,
{
}

/// Once something has been brought back, nothing more can be until it is handed out.
pub proof fn finished_once<F>(part: PartView<F>, state: PartState<F>, late: PartState<F>)
    requires
        !(state is Processing),
    ensures
        finished(finished(part, state), late) == finished(part, state),
        !(finished(part, state).state is Processing),
{
}

impl AlreadyProcessingError {
    /// The message for the user.
    pub fn message(&self) -> (r: String)
        ensures
            r@ == "Cannot start processing a module if it's already being processed!"@,
    {
        "Cannot start processing a module if it's already being processed!".to_owned()
    }
}

impl NotProcessingError {
    /// The message for the user.
    pub fn message(&self) -> (r: String)
        ensures
            r@ == "Cannot finish processing if we never started!"@,
    {
        "Cannot finish processing if we never started!".to_owned()
    }
}

} // verus!
