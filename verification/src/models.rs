//! What values stand for: nothing of them is left out, and nothing is added.
use crate::common::{
    ConstMacro, ConstMacroView, MacroFunc, MacroFuncView, ModuleScopedId, ModuleScopedIdView,
};
use crate::compiler::{CompilerError, PartCorruptedError};
use crate::lex_error::{
    BadDirectiveError, BadIdentifierError, BadIncludeError, BadLiteralError, BadOperatorError,
    BadResponseError, BadTokenError, LexError, NoMacroDefError, UnclosedMacroError,
};
use crate::lexer::{LexResult, ModIdRequest};
use crate::part::{AlreadyProcessingError, NotProcessingError, Part};
use crate::path::ModulePath;
use crate::position::Position;
use crate::reader::LineReader;
use crate::scheduler::{
    FailedRequestError, FailedResponseError, PoisonedError, SchedulerError, ThreadPanicError,
    WrongStageError,
};
use crate::tokens::{LiteralKind, LiteralKindView, Token, TokenKind, TokenKindView};
use std::sync::mpsc::RecvError;
use vstd::prelude::*;
use vstd::std_specs::convert::FromSpec;

verus! {

/// `views` are those of `values`, one for each and in the same order.
pub open spec fn stand_for<T: View>(values: Seq<T>, views: Seq<T::V>) -> bool {
    &&& views.len() == values.len()
    &&& forall|i: int| 0 <= i < values.len() ==> #[trigger] views[i] == values[i]@
}

/// A token stands for its kind, with the same operator, delimiter, name, number or text, and for
/// its place.
pub proof fn tokens_stand_for_themselves(token: Token)
    ensures
        token@.prov == token.prov@,
        token@.kind == match token.kind {
            TokenKind::Operator(op) => TokenKindView::Operator(op),
            TokenKind::Delim(delim) => TokenKindView::Delim(delim),
            TokenKind::Directive(directive) => TokenKindView::Directive(directive),
            TokenKind::Keyword(keyword) => TokenKindView::Keyword(keyword),
            TokenKind::Identifier(id) => TokenKindView::Identifier(id@),
            TokenKind::MacroInv(id) => TokenKindView::MacroInv(id@),
            TokenKind::Literal(LiteralKind::Int(value)) => TokenKindView::Literal(
                LiteralKindView::Int(value as int),
            ),
            TokenKind::Literal(LiteralKind::Float(text)) => TokenKindView::Literal(
                LiteralKindView::Float(text@),
            ),
            TokenKind::Literal(LiteralKind::String(text)) => TokenKindView::Literal(
                LiteralKindView::String(text@),
            ),
            TokenKind::Literal(LiteralKind::Char(value)) => TokenKindView::Literal(
                LiteralKindView::Char(value as int),
            ),
            TokenKind::Literal(LiteralKind::Byte(value)) => TokenKindView::Literal(
                LiteralKindView::Byte(value as int),
            ),
        },
{
}

/// A name stands for its text, or for the numbers that it has been resolved to.
pub proof fn names_stand_for_themselves(id: ModuleScopedId)
    ensures
        id@ == match id {
            ModuleScopedId::Unresolved(name) => ModuleScopedIdView::Unresolved(name@),
            ModuleScopedId::Resolved(module, number) => ModuleScopedIdView::Resolved(
                module as int,
                number as int,
            ),
        },
{
}

/// A macro stands for its name or signature, and for all its tokens in their order.
pub proof fn macros_stand_for_themselves(plain: ConstMacro, with_parameters: MacroFunc)
    ensures
        match (plain, plain@) {
            (ConstMacro::Tokens(name, tokens), ConstMacroView::Tokens(text, views)) => text == name@
                && stand_for(tokens@, views),
        },
        match (with_parameters, with_parameters@) {
            (
                MacroFunc::Tokens(signature, tokens),
                MacroFuncView::Tokens(signature_views, views),
            ) => stand_for(signature@, signature_views) && stand_for(tokens@, views),
        },
{
}

/// What was lexed of a file stands for its number and for all its tokens, macros, modules and
/// errors in their order.
pub proof fn results_stand_for_themselves(result: LexResult)
    ensures
        result@.file_id == result.file_id,
        result@.modules == result.modules@,
        stand_for(result.tokens@, result@.tokens),
        stand_for(result.const_macros@, result@.const_macros),
        stand_for(result.macro_funcs@, result@.macro_funcs),
        stand_for(result.errors@, result@.errors),
{
}

/// Positions and requests stand for their numbers and names.
pub proof fn requests_stand_for_themselves(pos: Position, rq: ModIdRequest)
    ensures
        pos@.file_id == pos.file_id,
        pos@.line == pos.line,
        pos@.column_bytes == pos.column_bytes,
        pos@.column_graphemes == pos.column_graphemes,
        rq@.parent_id == rq.parent_id,
        rq@.name == rq.name@,
        rq@.pos == rq.pos@,
{
}

/// Modules and paths stand for their names, states and components.
pub proof fn modules_stand_for_themselves<F>(part: Part<F>, path: ModulePath)
    ensures
        part@.name == part.name@,
        part@.state == part.state,
        path@.absolute == path.absolute,
        stand_for(path.components@, path@.components),
{
}

/// What is left of a file stands for its lines in their order, for how many of them were handed
/// out, and for the error behind them.
pub proof fn files_stand_for_themselves(rd: LineReader)
    ensures
        stand_for(rd.lines@, rd@.lines),
        rd@.next == rd.next,
        rd@.failure == rd.failure,
{
}

/// Every error of the lexer is one of its kind, and stays as it is.
pub proof fn lexing_errors_are_of_their_kind(
    io: std::io::Error,
    bad_module: BadIncludeError,
    no_definition: NoMacroDefError,
    bad_directive: BadDirectiveError,
    bad_token: BadTokenError,
    bad_literal: BadLiteralError,
    bad_operator: BadOperatorError,
    bad_name: BadIdentifierError,
    unclosed: UnclosedMacroError,
    bad_response: BadResponseError,
    not_sent: FailedRequestError,
)
    ensures
        <LexError as FromSpec<std::io::Error>>::from_spec(io) == LexError::Io(io),
        <LexError as FromSpec<BadIncludeError>>::from_spec(bad_module) == LexError::BadInclude(
            bad_module,
        ),
        <LexError as FromSpec<NoMacroDefError>>::from_spec(no_definition) == LexError::NoMacroDef(
            no_definition,
        ),
        <LexError as FromSpec<BadDirectiveError>>::from_spec(bad_directive)
            == LexError::BadDirective(bad_directive),
        <LexError as FromSpec<BadTokenError>>::from_spec(bad_token) == LexError::BadToken(
            bad_token,
        ),
        <LexError as FromSpec<BadLiteralError>>::from_spec(bad_literal) == LexError::BadLiteral(
            bad_literal,
        ),
        <LexError as FromSpec<BadOperatorError>>::from_spec(bad_operator) == LexError::BadOperator(
            bad_operator,
        ),
        <LexError as FromSpec<BadIdentifierError>>::from_spec(bad_name) == LexError::BadIdentifier(
            bad_name,
        ),
        <LexError as FromSpec<UnclosedMacroError>>::from_spec(unclosed) == LexError::UnclosedMacro(
            unclosed,
        ),
        <LexError as FromSpec<BadResponseError>>::from_spec(bad_response) == LexError::BadResponse(
            bad_response,
        ),
        <LexError as FromSpec<FailedRequestError>>::from_spec(not_sent) == LexError::FailedRequest(
            not_sent,
        ),
{
}

/// Every error of the scheduler is one of its kind, and stays as it is.
pub proof fn scheduling_errors_are_of_their_kind(
    lexing: LexError,
    panicked: ThreadPanicError,
    not_answered: FailedResponseError,
    not_sent: FailedRequestError,
    wrong_stage: WrongStageError,
    started: AlreadyProcessingError,
    not_started: NotProcessingError,
    poisoned: PoisonedError,
    not_received: RecvError,
)
    ensures
        <SchedulerError as FromSpec<LexError>>::from_spec(lexing) == SchedulerError::Lex(lexing),
        <SchedulerError as FromSpec<ThreadPanicError>>::from_spec(panicked)
            == SchedulerError::ThreadPanic(panicked),
        <SchedulerError as FromSpec<FailedResponseError>>::from_spec(not_answered)
            == SchedulerError::FailedResponse(not_answered),
        <SchedulerError as FromSpec<FailedRequestError>>::from_spec(not_sent)
            == SchedulerError::FailedRequest(not_sent),
        <SchedulerError as FromSpec<WrongStageError>>::from_spec(wrong_stage)
            == SchedulerError::WrongStage(wrong_stage),
        <SchedulerError as FromSpec<AlreadyProcessingError>>::from_spec(started)
            == SchedulerError::AlreadyProcessing(started),
        <SchedulerError as FromSpec<NotProcessingError>>::from_spec(not_started)
            == SchedulerError::NotProcessing(not_started),
        <SchedulerError as FromSpec<PoisonedError>>::from_spec(poisoned)
            == SchedulerError::Poisoned(poisoned),
        <SchedulerError as FromSpec<RecvError>>::from_spec(not_received) == SchedulerError::Recv(
            not_received,
        ),
{
}

/// Every error of the compiler is one of its kind, and stays as it is.
pub proof fn compiling_errors_are_of_their_kind(
    io: std::io::Error,
    lexing: LexError,
    corrupted: PartCorruptedError,
    scheduling: SchedulerError,
)
    ensures
        <CompilerError as FromSpec<std::io::Error>>::from_spec(io) == CompilerError::Io(io),
        <CompilerError as FromSpec<LexError>>::from_spec(lexing) == CompilerError::Lex(lexing),
        <CompilerError as FromSpec<PartCorruptedError>>::from_spec(corrupted)
            == CompilerError::PartCorrupted(corrupted),
        <CompilerError as FromSpec<SchedulerError>>::from_spec(scheduling)
            == CompilerError::Scheduler(scheduling),
{
}

} // verus!
