//! What can go wrong while a source file is lexed.
use crate::common::{Provenance, ProvenanceView};
use crate::scheduler::{FailedRequestError, MessageView};
use vstd::prelude::*;
use vstd::string::*;

verus! {

/// `std::io::Error`, carried through as it is.
#[verifier::external_type_specification]
#[verifier::external_body]
pub struct ExIoError(std::io::Error);

/// A piece of text that is at fault and where it stands.
pub struct SpannedView {
    pub bad: Seq<char>,
    pub prov: ProvenanceView,
}

/// `before`, `bad` and `after`, one behind the other.
pub open spec fn enclosed(before: Seq<char>, bad: Seq<char>, after: Seq<char>) -> Seq<char> {
    before + bad + after
}

/// `before`, `bad` and `after`, one behind the other.
pub fn enclose(before: &str, bad: &str, after: &str) -> (r: String)
    ensures
        r@ == enclosed(before@, bad@, after@),
{
    let mut r = before.to_owned();
    r.append(bad);
    r.append(after);
    r
}

/// A module that could not be found.
#[derive(Debug)]
pub struct BadIncludeError {
    pub bad: String,
    pub prov: Provenance,
}

impl View for BadIncludeError {
    type V = SpannedView;

    open spec fn view(&self) -> SpannedView {
        SpannedView { bad: self.bad@, prov: self.prov@ }
    }
}

impl BadIncludeError {
    pub fn new(bad: String, prov: Provenance) -> (r: Self)
        ensures
            r.bad == bad,
            r.prov == prov,
    {
        Self { bad, prov }
    }

    /// The message for the user.
    pub fn message(&self) -> (r: String)
        ensures
            r@ == enclosed("Could not find \""@, self@.bad, "\" module!"@),
    {
        enclose("Could not find \"", self.bad.as_str(), "\" module!")
    }
}

/// A macro without a definition.
#[derive(Debug)]
pub struct NoMacroDefError {
    pub bad: String,
    pub prov: Provenance,
}

impl View for NoMacroDefError {
    type V = SpannedView;

    open spec fn view(&self) -> SpannedView {
        SpannedView { bad: self.bad@, prov: self.prov@ }
    }
}

impl NoMacroDefError {
    /// The message for the user.
    pub fn message(&self) -> (r: String)
        ensures
            r@ == enclosed("Macro \""@, self@.bad, "\" is missing a definition!"@),
    {
        enclose("Macro \"", self.bad.as_str(), "\" is missing a definition!")
    }
}

/// A directive that does not exist.
#[derive(Debug)]
pub struct BadDirectiveError {
    pub bad: String,
    pub prov: Provenance,
}

impl View for BadDirectiveError {
    type V = SpannedView;

    open spec fn view(&self) -> SpannedView {
        SpannedView { bad: self.bad@, prov: self.prov@ }
    }
}

impl BadDirectiveError {
    /// The message for the user.
    pub fn message(&self) -> (r: String)
        ensures
            r@ == enclosed("\""@, self@.bad, "\" is not a recognized directive!"@),
    {
        enclose("\"", self.bad.as_str(), "\" is not a recognized directive!")
    }
}

/// Text that is no token.
#[derive(Debug)]
pub struct BadTokenError {
    pub bad: String,
    pub prov: Provenance,
}

impl View for BadTokenError {
    type V = SpannedView;

    open spec fn view(&self) -> SpannedView {
        SpannedView { bad: self.bad@, prov: self.prov@ }
    }
}

impl BadTokenError {
    /// The message for the user.
    pub fn message(&self) -> (r: String)
        ensures
            r@ == enclosed("\""@, self@.bad, "\" could not be parsed as a token!"@),
    {
        enclose("\"", self.bad.as_str(), "\" could not be parsed as a token!")
    }
}

/// A literal that is not spelled right.
#[derive(Debug)]
pub struct BadLiteralError {
    pub bad: String,
    pub prov: Provenance,
}

impl View for BadLiteralError {
    type V = SpannedView;

    open spec fn view(&self) -> SpannedView {
        SpannedView { bad: self.bad@, prov: self.prov@ }
    }
}

impl BadLiteralError {
    /// The message for the user.
    pub fn message(&self) -> (r: String)
        ensures
            r@ == enclosed("\""@, self@.bad, "\" is a malformed literal!"@),
    {
        enclose("\"", self.bad.as_str(), "\" is a malformed literal!")
    }
}

/// An operator that does not exist.
#[derive(Debug)]
pub struct BadOperatorError {
    pub bad: String,
    pub prov: Provenance,
}

impl View for BadOperatorError {
    type V = SpannedView;

    open spec fn view(&self) -> SpannedView {
        SpannedView { bad: self.bad@, prov: self.prov@ }
    }
}

impl BadOperatorError {
    /// The message for the user.
    pub fn message(&self) -> (r: String)
        ensures
            r@ == enclosed("\""@, self@.bad, "\" is an unrecognized operator!"@),
    {
        enclose("\"", self.bad.as_str(), "\" is an unrecognized operator!")
    }
}

/// A word that cannot be a name.
#[derive(Debug)]
pub struct BadIdentifierError {
    pub bad: String,
    pub prov: Provenance,
}

impl View for BadIdentifierError {
    type V = SpannedView;

    open spec fn view(&self) -> SpannedView {
        SpannedView { bad: self.bad@, prov: self.prov@ }
    }
}

impl BadIdentifierError {
    /// The message for the user.
    pub fn message(&self) -> (r: String)
        ensures
            r@ == enclosed("\""@, self@.bad, "\" is an invalid identifier!"@),
    {
        enclose("\"", self.bad.as_str(), "\" is an invalid identifier!")
    }
}

/// The body of a macro whose closing brace is missing.
#[derive(Debug)]
pub struct UnclosedMacroError {
    pub prov: Provenance,
}

impl UnclosedMacroError {
    /// The message for the user.
    pub fn message(&self) -> (r: String)
        ensures
            r@ == "Could not find closing brace of macro function block!"@,
    {
        "Could not find closing brace of macro function block!".to_owned()
    }
}

/// A message from the scheduler that was not expected at that point.
#[derive(Debug)]
pub struct BadResponseError;

impl BadResponseError {
    /// The message for the user.
    pub fn message(&self) -> (r: String)
        ensures
            r@ == "Scheduler sent unexpected response type!"@,
    {
        "Scheduler sent unexpected response type!".to_owned()
    }
}

#[derive(Debug)]
pub enum LexError {
    Io(std::io::Error),
    BadInclude(BadIncludeError),
    BadToken(BadTokenError),
    BadDirective(BadDirectiveError),
    BadLiteral(BadLiteralError),
    BadOperator(BadOperatorError),
    BadIdentifier(BadIdentifierError),
    NoMacroDef(NoMacroDefError),
    UnclosedMacro(UnclosedMacroError),
    BadResponse(BadResponseError),
    FailedRequest(FailedRequestError),
}

pub enum LexErrorView {
    Io(std::io::Error),
    BadInclude(SpannedView),
    BadToken(SpannedView),
    BadDirective(SpannedView),
    BadLiteral(SpannedView),
    BadOperator(SpannedView),
    BadIdentifier(SpannedView),
    NoMacroDef(SpannedView),
    UnclosedMacro(ProvenanceView),
    BadResponse,
    FailedRequest(MessageView),
}

impl View for LexError {
    type V = LexErrorView;

    open spec fn view(&self) -> LexErrorView {
        match self {
            LexError::Io(err) => LexErrorView::Io(*err),
            LexError::BadInclude(err) => LexErrorView::BadInclude(err@),
            LexError::BadToken(err) => LexErrorView::BadToken(err@),
            LexError::BadDirective(err) => LexErrorView::BadDirective(err@),
            LexError::BadLiteral(err) => LexErrorView::BadLiteral(err@),
            LexError::BadOperator(err) => LexErrorView::BadOperator(err@),
            LexError::BadIdentifier(err) => LexErrorView::BadIdentifier(err@),
            LexError::NoMacroDef(err) => LexErrorView::NoMacroDef(err@),
            LexError::UnclosedMacro(err) => LexErrorView::UnclosedMacro(err.prov@),
            LexError::BadResponse(_) => LexErrorView::BadResponse,
            LexError::FailedRequest(err) => LexErrorView::FailedRequest(err@),
        }
    }
}

/// What each error in `errors` stands for.
pub open spec fn error_views(errors: Seq<LexError>) -> Seq<LexErrorView> {
    errors.map_values(|e: LexError| e@)
}

impl LexErrorView {
    /// Where in the sources the error arose, where it arose there.
    pub open spec fn provenance(self) -> Option<ProvenanceView> {
        match self {
            LexErrorView::BadInclude(at) => Some(at.prov),
            LexErrorView::BadToken(at) => Some(at.prov),
            LexErrorView::BadDirective(at) => Some(at.prov),
            LexErrorView::BadLiteral(at) => Some(at.prov),
            LexErrorView::BadOperator(at) => Some(at.prov),
            LexErrorView::BadIdentifier(at) => Some(at.prov),
            LexErrorView::NoMacroDef(at) => Some(at.prov),
            LexErrorView::UnclosedMacro(prov) => Some(prov),
            LexErrorView::Io(_) | LexErrorView::BadResponse | LexErrorView::FailedRequest(
                _,
            ) => None,
        }
    }

    /// `text` is the message for the user. That of an I/O error is whatever the error displays.
    pub open spec fn has_message(self, text: String) -> bool {
        match self {
            LexErrorView::Io(err) => to_string_from_display_ensures(&err, text),
            LexErrorView::BadInclude(at) => text@ == enclosed(
                "Could not find \""@,
                at.bad,
                "\" module!"@,
            ),
            LexErrorView::NoMacroDef(at) => text@ == enclosed(
                "Macro \""@,
                at.bad,
                "\" is missing a definition!"@,
            ),
            LexErrorView::BadDirective(at) => text@ == enclosed(
                "\""@,
                at.bad,
                "\" is not a recognized directive!"@,
            ),
            LexErrorView::BadToken(at) => text@ == enclosed(
                "\""@,
                at.bad,
                "\" could not be parsed as a token!"@,
            ),
            LexErrorView::BadLiteral(at) => text@ == enclosed(
                "\""@,
                at.bad,
                "\" is a malformed literal!"@,
            ),
            LexErrorView::BadOperator(at) => text@ == enclosed(
                "\""@,
                at.bad,
                "\" is an unrecognized operator!"@,
            ),
            LexErrorView::BadIdentifier(at) => text@ == enclosed(
                "\""@,
                at.bad,
                "\" is an invalid identifier!"@,
            ),
            LexErrorView::UnclosedMacro(_) => text@
                == "Could not find closing brace of macro function block!"@,
            LexErrorView::BadResponse => text@ == "Scheduler sent unexpected response type!"@,
            LexErrorView::FailedRequest(failed) => text@ == failed.request_message(),
        }
    }
}

impl LexError {
    /// Where in the sources the error arose, where it arose there.
    pub fn provenance(&self) -> (r: Option<&Provenance>)
        ensures
            r is Some <==> self@.provenance() is Some,
            r matches Some(prov) ==> self@.provenance() == Some(prov@),
    {
        match self {
            Self::Io(_) | Self::BadResponse(_) | Self::FailedRequest(_) => None,
            Self::BadInclude(val) => Some(&val.prov),
            Self::NoMacroDef(val) => Some(&val.prov),
            Self::BadToken(val) => Some(&val.prov),
            Self::BadDirective(val) => Some(&val.prov),
            Self::BadOperator(val) => Some(&val.prov),
            Self::BadLiteral(val) => Some(&val.prov),
            Self::BadIdentifier(val) => Some(&val.prov),
            Self::UnclosedMacro(val) => Some(&val.prov),
        }
    }

    /// The message for the user.
    pub fn message(&self) -> (r: String)
        ensures
            self@.has_message(r),
    {
        match self {
            Self::Io(err) => err.to_string(),
            Self::BadInclude(err) => err.message(),
            Self::NoMacroDef(err) => err.message(),
            Self::BadToken(err) => err.message(),
            Self::BadDirective(err) => err.message(),
            Self::BadLiteral(err) => err.message(),
            Self::BadOperator(err) => err.message(),
            Self::BadIdentifier(err) => err.message(),
            Self::UnclosedMacro(err) => err.message(),
            Self::BadResponse(err) => err.message(),
            Self::FailedRequest(err) => err.message(),
        }
    }
}

impl From<std::io::Error> for LexError {
    fn from(err: std::io::Error) -> (r: Self) {
        LexError::Io(err)
    }
}

impl vstd::std_specs::convert::FromSpecImpl<std::io::Error> for LexError {
    open spec fn obeys_from_spec() -> bool {
        true
    }

    open spec fn from_spec(err: std::io::Error) -> Self {
        LexError::Io(err)
    }
}

impl From<BadIncludeError> for LexError {
    fn from(err: BadIncludeError) -> (r: Self) {
        LexError::BadInclude(err)
    }
}

impl vstd::std_specs::convert::FromSpecImpl<BadIncludeError> for LexError {
    open spec fn obeys_from_spec() -> bool {
        true
    }

    open spec fn from_spec(err: BadIncludeError) -> Self {
        LexError::BadInclude(err)
    }
}

impl From<NoMacroDefError> for LexError {
    fn from(err: NoMacroDefError) -> (r: Self) {
        LexError::NoMacroDef(err)
    }
}

impl vstd::std_specs::convert::FromSpecImpl<NoMacroDefError> for LexError {
    open spec fn obeys_from_spec() -> bool {
        true
    }

    open spec fn from_spec(err: NoMacroDefError) -> Self {
        LexError::NoMacroDef(err)
    }
}

impl From<BadDirectiveError> for LexError {
    fn from(err: BadDirectiveError) -> (r: Self) {
        LexError::BadDirective(err)
    }
}

impl vstd::std_specs::convert::FromSpecImpl<BadDirectiveError> for LexError {
    open spec fn obeys_from_spec() -> bool {
        true
    }

    open spec fn from_spec(err: BadDirectiveError) -> Self {
        LexError::BadDirective(err)
    }
}

impl From<BadTokenError> for LexError {
    fn from(err: BadTokenError) -> (r: Self) {
        LexError::BadToken(err)
    }
}

impl vstd::std_specs::convert::FromSpecImpl<BadTokenError> for LexError {
    open spec fn obeys_from_spec() -> bool {
        true
    }

    open spec fn from_spec(err: BadTokenError) -> Self {
        LexError::BadToken(err)
    }
}

impl From<BadLiteralError> for LexError {
    fn from(err: BadLiteralError) -> (r: Self) {
        LexError::BadLiteral(err)
    }
}

impl vstd::std_specs::convert::FromSpecImpl<BadLiteralError> for LexError {
    open spec fn obeys_from_spec() -> bool {
        true
    }

    open spec fn from_spec(err: BadLiteralError) -> Self {
        LexError::BadLiteral(err)
    }
}

impl From<BadOperatorError> for LexError {
    fn from(err: BadOperatorError) -> (r: Self) {
        LexError::BadOperator(err)
    }
}

impl vstd::std_specs::convert::FromSpecImpl<BadOperatorError> for LexError {
    open spec fn obeys_from_spec() -> bool {
        true
    }

    open spec fn from_spec(err: BadOperatorError) -> Self {
        LexError::BadOperator(err)
    }
}

impl From<BadIdentifierError> for LexError {
    fn from(err: BadIdentifierError) -> (r: Self) {
        LexError::BadIdentifier(err)
    }
}

impl vstd::std_specs::convert::FromSpecImpl<BadIdentifierError> for LexError {
    open spec fn obeys_from_spec() -> bool {
        true
    }

    open spec fn from_spec(err: BadIdentifierError) -> Self {
        LexError::BadIdentifier(err)
    }
}

impl From<UnclosedMacroError> for LexError {
    fn from(err: UnclosedMacroError) -> (r: Self) {
        LexError::UnclosedMacro(err)
    }
}

impl vstd::std_specs::convert::FromSpecImpl<UnclosedMacroError> for LexError {
    open spec fn obeys_from_spec() -> bool {
        true
    }

    open spec fn from_spec(err: UnclosedMacroError) -> Self {
        LexError::UnclosedMacro(err)
    }
}

impl From<BadResponseError> for LexError {
    fn from(err: BadResponseError) -> (r: Self) {
        LexError::BadResponse(err)
    }
}

impl vstd::std_specs::convert::FromSpecImpl<BadResponseError> for LexError {
    open spec fn obeys_from_spec() -> bool {
        true
    }

    open spec fn from_spec(err: BadResponseError) -> Self {
        LexError::BadResponse(err)
    }
}

impl From<FailedRequestError> for LexError {
    fn from(err: FailedRequestError) -> (r: Self) {
        LexError::FailedRequest(err)
    }
}

impl vstd::std_specs::convert::FromSpecImpl<FailedRequestError> for LexError {
    open spec fn obeys_from_spec() -> bool {
        true
    }

    open spec fn from_spec(err: FailedRequestError) -> Self {
        LexError::FailedRequest(err)
    }
}

} // verus!
