//! The lexer: from the lines of a file to its tokens, macros and includes.
use crate::common::{ConstMacro, ConstMacroView, MacroFunc, MacroFuncView};
use crate::lex_error::{LexError, LexErrorView, error_views};
use crate::line::{error_in, lexed, record, token_in};
use crate::macros::{
    const_macro, const_macro_views, macro_func, macro_func_has_no_definition, macro_func_views,
};
use crate::position::{Position, PositionView};
use crate::reader::{LineReader, ReaderView};
use crate::scheduler::{FailedRequestError, MessageView};
use crate::text::{
    byte_len, chars_of, contains_char, leading_white_space, lemma_byte_len_split,
    lemma_prefix_while, starts_with, trailing_white_space, trim_end, trim_start, trimmed_end,
    trimmed_start, white_space_class,
};
use crate::tokens::{DelimKind, Token, TokenKind, TokenKindView, TokenView, token_views};
use crate::word::{past_white_space, tokenized};
use vstd::prelude::*;
use vstd::string::*;

verus! {

pub struct Lexer;

/// What became of a source file.
#[derive(Debug)]
pub struct LexResult {
    pub file_id: usize,
    pub tokens: Vec<Token>,
    pub const_macros: Vec<ConstMacro>,
    pub macro_funcs: Vec<MacroFunc>,
    pub modules: Vec<usize>,
    pub errors: Vec<LexError>,
}

pub struct LexResultView {
    pub file_id: int,
    pub tokens: Seq<TokenView>,
    pub const_macros: Seq<ConstMacroView>,
    pub macro_funcs: Seq<MacroFuncView>,
    pub modules: Seq<usize>,
    pub errors: Seq<LexErrorView>,
}

impl View for LexResult {
    type V = LexResultView;

    open spec fn view(&self) -> LexResultView {
        LexResultView {
            file_id: self.file_id as int,
            tokens: token_views(self.tokens@),
            const_macros: const_macro_views(self.const_macros@),
            macro_funcs: macro_func_views(self.macro_funcs@),
            modules: self.modules@,
            errors: error_views(self.errors@),
        }
    }
}

/// Asks for the module that `name` stands for in the file `parent_id`.
#[derive(Clone)]
pub struct ModIdRequest {
    pub parent_id: usize,
    pub name: String,
    pub pos: Position,
}

pub struct ModIdRequestView {
    pub parent_id: int,
    pub name: Seq<char>,
    pub pos: PositionView,
}

impl View for ModIdRequest {
    type V = ModIdRequestView;

    open spec fn view(&self) -> ModIdRequestView {
        ModIdRequestView { parent_id: self.parent_id as int, name: self.name@, pos: self.pos@ }
    }
}

/// What each request stands for.
pub open spec fn request_views(requests: Seq<ModIdRequest>) -> Seq<ModIdRequestView> {
    requests.map_values(|r: ModIdRequest| r@)
}

/// What has been lexed of a file, and what is left of it.
pub struct LexState {
    pub pos: Position,
    pub tokens: Vec<Token>,
    pub const_macros: Vec<ConstMacro>,
    pub macro_funcs: Vec<MacroFunc>,
    pub errors: Vec<LexError>,
    pub requests: Vec<ModIdRequest>,
    pub rd: LineReader,
}

pub struct LexStateView {
    pub pos: PositionView,
    pub tokens: Seq<TokenView>,
    pub const_macros: Seq<ConstMacroView>,
    pub macro_funcs: Seq<MacroFuncView>,
    pub errors: Seq<LexErrorView>,
    pub requests: Seq<ModIdRequestView>,
    pub rd: ReaderView,
}

impl View for LexState {
    type V = LexStateView;

    open spec fn view(&self) -> LexStateView {
        LexStateView {
            pos: self.pos@,
            tokens: token_views(self.tokens@),
            const_macros: const_macro_views(self.const_macros@),
            macro_funcs: macro_func_views(self.macro_funcs@),
            errors: error_views(self.errors@),
            requests: request_views(self.requests@),
            rd: self.rd@,
        }
    }
}

impl LexStateView {
    /// At the start of a file.
    pub open spec fn start(file_id: int, rd: ReaderView) -> LexStateView {
        LexStateView {
            pos: PositionView::start(file_id),
            tokens: Seq::empty(),
            const_macros: Seq::empty(),
            macro_funcs: Seq::empty(),
            errors: Seq::empty(),
            requests: Seq::empty(),
            rd,
        }
    }

    /// The position is at the start of the line that is read next.
    pub open spec fn at_line_start(self) -> bool {
        &&& self.rd.valid()
        &&& self.rd.countable()
        &&& self.pos.line == 1 + self.rd.next
        &&& self.pos.column_bytes == 1
        &&& self.pos.column_graphemes == 1
    }
}

/// The token for the end of a line.
pub open spec fn end_of_line(p: PositionView) -> TokenView {
    TokenView { kind: TokenKindView::Delim(DelimKind::EndL), prov: p.provenance(1) }
}

/// `failure` as the only error, if there is one.
pub open spec fn failure_in(failure: Option<std::io::Error>) -> Seq<LexErrorView> {
    match failure {
        Some(err) => seq![LexErrorView::Io(err)],
        None => Seq::empty(),
    }
}

/// After a line with code, `t` without the white space around it.
pub open spec fn code_lexed(st: LexStateView, t: Seq<char>) -> Option<LexStateView> {
    match lexed(t, st.pos) {
        None => None,
        Some(code) => Some(
            LexStateView {
                pos: code.pos.next_line(),
                tokens: st.tokens + code.tokens + seq![end_of_line(code.pos)],
                errors: st.errors + code.errors,
                ..st
            },
        ),
    }
}

/// After a line that defines a macro with parameters, `def` behind `#!def `.
pub open spec fn macro_func_lexed(st: LexStateView, def: Seq<char>) -> Option<LexStateView> {
    match macro_func(def, st.rd, st.pos) {
        None => None,
        Some(step) => Some(
            LexStateView {
                pos: step.pos.next_line(),
                macro_funcs: st.macro_funcs + step.macros,
                errors: st.errors + step.errors + failure_in(step.failure),
                rd: step.rd,
                ..st
            },
        ),
    }
}

/// After the line `line`, which defines a macro without parameters.
pub open spec fn const_macro_lexed(st: LexStateView, line: Seq<char>) -> Option<LexStateView> {
    match const_macro(line, st.pos) {
        None => None,
        Some(step) => Some(
            LexStateView {
                pos: step.pos.next_line(),
                const_macros: st.const_macros + step.macros,
                errors: st.errors + step.errors,
                ..st
            },
        ),
    }
}

/// After a line that asks for the module `name`.
pub open spec fn include_lexed(st: LexStateView, name: Seq<char>) -> LexStateView {
    LexStateView {
        pos: st.pos.next_line(),
        requests: st.requests.push(
            ModIdRequestView { parent_id: st.pos.file_id, name, pos: st.pos },
        ),
        ..st
    }
}

/// After a line with a directive.
pub open spec fn directive_lexed(st: LexStateView, t: Seq<char>) -> LexStateView {
    let directive = tokenized(t, st.pos);
    LexStateView {
        pos: directive.pos.next_line(),
        tokens: st.tokens + token_in(directive.outcome),
        errors: st.errors + error_in(directive.outcome),
        ..st
    }
}

/// After the line `line`, `t` without the white space around it. A line with code adds its tokens
/// and the end of the line. Of the lines that start with `#`, `#!def ` defines a macro, one with
/// parameters where there is a parenthesis on the line, `#!also ` asks for a module, and any other
/// `#!` is a directive; the rest are comments, and they add no more than a blank line does.
pub open spec fn stripped_lexed(st: LexStateView, t: Seq<char>, line: Seq<char>) -> Option<
    LexStateView,
> {
    if t.len() > 0 && t[0] != '#' {
        code_lexed(st, t)
    } else if "#!def "@.is_prefix_of(t) {
        if line.contains('(') {
            macro_func_lexed(st, t.skip(6))
        } else {
            const_macro_lexed(st, line)
        }
    } else if "#!also "@.is_prefix_of(t) {
        Some(include_lexed(st, trim_end(trim_start(t.skip(7)))))
    } else if "#!"@.is_prefix_of(t) {
        Some(directive_lexed(st, t))
    } else {
        Some(LexStateView { pos: st.pos.next_line(), ..st })
    }
}

/// After the line `line`, which has just been read.
pub open spec fn line_lexed(st: LexStateView, line: Seq<char>) -> Option<LexStateView> {
    stripped_lexed(
        LexStateView { pos: past_white_space(line, st.pos), ..st },
        trim_end(trim_start(line)),
        line,
    )
}

proof fn lemma_trims_shrink(line: Seq<char>)
    ensures
        byte_len(trim_start(line)) <= byte_len(line),
        byte_len(trim_end(line)) <= byte_len(line),
{
    lemma_prefix_while(line, white_space_class());
    lemma_byte_len_split(line, leading_white_space(line) as int);
    lemma_prefix_while(line.reverse(), white_space_class());
    lemma_byte_len_split(line, line.len() - trailing_white_space(line));
}

/// The state before a line and the position on it allow for the line to be lexed.
pub open spec fn on_line(st: LexStateView, room: nat) -> bool {
    &&& st.rd.valid()
    &&& st.rd.countable()
    &&& st.pos.line == st.rd.next
    &&& st.pos.has_room(room)
}

/// The state `after` a line is at the start of a later line of the same file.
pub open spec fn past_line(before: LexStateView, after: LexStateView) -> bool {
    &&& after.at_line_start()
    &&& after.pos.file_id == before.pos.file_id
    &&& after.rd.lines == before.rd.lines
    &&& after.rd.next >= before.rd.next
}

impl Lexer {
    /// Lexes a line with code.
    fn lex_code(state: &mut LexState, text: &str) -> (r: bool)
        requires
            on_line(old(state)@, 2 * byte_len(text@)),
        ensures
            r == (code_lexed(old(state)@, text@) is Some),
            r ==> final(state)@ == code_lexed(old(state)@, text@)->0,
            r ==> past_line(old(state)@, final(state)@),
            !r ==> text@.contains('$'),
            !r ==> final(state)@.requests == old(state)@.requests,
    {
        let ghost st = state@;
        if !Lexer::peel_tokens(text, &mut state.tokens, &mut state.errors, &mut state.pos) {
            return false;
        }
        let end = Token::new(TokenKind::Delim(DelimKind::EndL), state.pos.as_provenance(1));
        let ghost tokens = token_views(state.tokens@);
        state.tokens.push(end);
        proof {
            assert(token_views(state.tokens@) =~= tokens + seq![end_of_line(state.pos@)]);
        }
        state.pos.advance_line();
        true
    }

    /// Lexes a line that defines a macro with parameters.
    fn lex_macro_func(state: &mut LexState, def: &str) -> (r: bool)
        requires
            on_line(old(state)@, 2 * byte_len(def@)),
        ensures
            r == (macro_func_lexed(old(state)@, def@) is Some),
            r ==> final(state)@ == macro_func_lexed(old(state)@, def@)->0,
            r ==> past_line(old(state)@, final(state)@),
            !r ==> final(state)@.requests == old(state)@.requests,
    {
        let ghost st = state@;
        match Lexer::handle_macro_funcs(
            &mut state.macro_funcs,
            &mut state.errors,
            &mut state.rd,
            def,
            &mut state.pos,
        ) {
            None => return false,
            Some(Ok(())) => {
                proof {
                    let step = macro_func(def@, st.rd, st.pos)->0;
                    assert(st.errors + step.errors + failure_in(step.failure) =~= st.errors
                        + step.errors);
                }
            },
            Some(Err(err)) => {
                let ghost errors = error_views(state.errors@);
                state.errors.push(LexError::Io(err));
                proof {
                    assert(error_views(state.errors@) =~= errors + seq![LexErrorView::Io(err)]);
                }
            },
        }
        state.pos.advance_line();
        true
    }

    /// Lexes a line that defines a macro without parameters.
    fn lex_const_macro(state: &mut LexState, line: &str) -> (r: bool)
        requires
            on_line(old(state)@, 2 * byte_len(line@)),
        ensures
            r == (const_macro_lexed(old(state)@, line@) is Some),
            r ==> final(state)@ == const_macro_lexed(old(state)@, line@)->0,
            r ==> past_line(old(state)@, final(state)@),
            !r ==> final(state)@.requests == old(state)@.requests,
    {
        if !Lexer::handle_const_macros(
            &mut state.const_macros,
            &mut state.errors,
            line,
            &mut state.pos,
        ) {
            return false;
        }
        state.pos.advance_line();
        true
    }

    /// Lexes a line that asks for a module, `rest` behind `#!also `.
    fn lex_include(state: &mut LexState, rest: &str)
        requires
            on_line(old(state)@, 0),
        ensures
            final(state)@ == include_lexed(old(state)@, trim_end(trim_start(rest@))),
            past_line(old(state)@, final(state)@),
    {
        let ghost st = state@;
        let name = trimmed_end(trimmed_start(rest));
        let request = ModIdRequest {
            parent_id: state.pos.file_id,
            name: name.to_owned(),
            pos: state.pos,
        };
        let ghost added = request@;
        state.requests.push(request);
        proof {
            assert(request_views(state.requests@) =~= st.requests.push(added));
        }
        state.pos.advance_line();
    }

    /// Lexes a line with a directive.
    fn lex_directive(state: &mut LexState, text: &str)
        requires
            on_line(old(state)@, byte_len(text@)),
        ensures
            final(state)@ == directive_lexed(old(state)@, text@),
            past_line(old(state)@, final(state)@),
    {
        let (outcome, _) = Lexer::tokenize(text, &mut state.pos);
        record(outcome, &mut state.tokens, &mut state.errors);
        state.pos.advance_line();
    }

    /// Lexes `line`, `text` without the white space around it.
    fn lex_stripped(state: &mut LexState, text: &str, line: &str) -> (r: bool)
        requires
            on_line(old(state)@, 2 * byte_len(line@)),
            byte_len(text@) <= byte_len(line@),
        ensures
            r == (stripped_lexed(old(state)@, text@, line@) is Some),
            r ==> final(state)@ == stripped_lexed(old(state)@, text@, line@)->0,
            r ==> past_line(old(state)@, final(state)@),
            !r ==> final(state)@.requests == old(state)@.requests,
    {
        proof {
            reveal_strlit("#!def ");
            reveal_strlit("#!also ");
            reveal_strlit("#!");
        }
        let cs = chars_of(text);
        if cs.len() > 0 && cs[0] != '#' {
            Lexer::lex_code(state, text)
        } else if starts_with(text, "#!def ") {
            if contains_char(line, '(') {
                let def = text.substring_char(6, cs.len());
                proof {
                    assert(def@ =~= text@.skip(6));
                    lemma_byte_len_split(text@, 6);
                }
                Lexer::lex_macro_func(state, def)
            } else {
                Lexer::lex_const_macro(state, line)
            }
        } else if starts_with(text, "#!also ") {
            let rest = text.substring_char(7, cs.len());
            assert(rest@ =~= text@.skip(7));
            Lexer::lex_include(state, rest);
            true
        } else if starts_with(text, "#!") {
            Lexer::lex_directive(state, text);
            true
        } else {
            state.pos.advance_line();
            true
        }
    }

    /// Lexes `line`, the last one that was read. Returns whether it could be lexed.
    pub fn lex_line(state: &mut LexState, line: &str) -> (r: bool)
        requires
            old(state)@.rd.valid(),
            old(state)@.rd.countable(),
            old(state)@.pos.line == old(state)@.rd.next,
            old(state)@.pos.column_bytes == 1,
            old(state)@.pos.column_graphemes == 1,
            3 * byte_len(line@) + 3 <= usize::MAX,
        ensures
            r == (line_lexed(old(state)@, line@) is Some),
            r ==> final(state)@ == line_lexed(old(state)@, line@)->0,
            r ==> past_line(old(state)@, final(state)@),
            !r ==> final(state)@.requests == old(state)@.requests,
    {
        let mut text: &str = line;
        let (bytes, graphemes) = Lexer::strip_start(&mut text);
        state.pos.advance(bytes, graphemes);
        let text = trimmed_end(text);
        proof {
            lemma_trims_shrink(line@);
            lemma_trims_shrink(trim_start(line@));
        }
        Lexer::lex_stripped(state, text, line)
    }
}

/// A line that has been read leaves the lines behind it to be read.
pub proof fn line_keeps_reader(st: LexStateView, line: Seq<char>)
    requires
        line_lexed(st, line) is Some,
    ensures
        line_lexed(st, line)->0.rd == st.rd,
{
    let at = LexStateView { pos: past_white_space(line, st.pos), ..st };
    let t = trim_end(trim_start(line));
    let def = t.skip(6);
    if "#!def "@.is_prefix_of(t) && line.contains('(') && macro_func(def, at.rd, at.pos) is Some {
        macro_func_has_no_definition(def, at.rd, at.pos);
    }
}

/// What has been lexed of a file, and whether that is all of it.
pub struct LinesView {
    pub state: LexStateView,
    pub complete: bool,
}

/// The lines that are left, lexed one after the other, up to one that cannot be lexed.
pub open spec fn lines_lexed(st: LexStateView) -> LinesView
    decreases st.rd.lines.len() - st.rd.next,
{
    if !st.rd.has_line() {
        LinesView { state: st, complete: true }
    } else {
        let line = st.rd.lines[st.rd.next];
        let read = LexStateView { rd: st.rd.after_line(), ..st };
        match line_lexed(read, line) {
            None => LinesView { state: read, complete: false },
            Some(next) => {
                proof {
                    line_keeps_reader(read, line);
                }
                lines_lexed(next)
            },
        }
    }
}

/// The requests that a file makes, and what became of the file: no result where a line of it
/// cannot be lexed.
pub struct FileLex {
    pub requests: Vec<ModIdRequest>,
    pub result: Option<Result<LexResult, LexError>>,
}

pub struct FileLexView {
    pub requests: Seq<ModIdRequestView>,
    pub result: Option<Result<LexResultView, LexErrorView>>,
}

/// What a result of the lexer stands for.
pub open spec fn result_view(result: Result<LexResult, LexError>) -> Result<
    LexResultView,
    LexErrorView,
> {
    match result {
        Ok(lexed) => Ok(lexed@),
        Err(err) => Err(err@),
    }
}

impl View for FileLex {
    type V = FileLexView;

    open spec fn view(&self) -> FileLexView {
        FileLexView {
            requests: request_views(self.requests@),
            result: match self.result {
                Some(result) => Some(result_view(result)),
                None => None,
            },
        }
    }
}

/// The file `file_id` with the lines of `rd`. The error that ended the reading, if one did, is
/// the result.
pub open spec fn file_lexed(file_id: int, rd: ReaderView) -> FileLexView {
    let all = lines_lexed(LexStateView::start(file_id, rd));
    FileLexView {
        requests: all.state.requests,
        result: if all.complete {
            match rd.failure {
                Some(err) => Some(Err(LexErrorView::Io(err))),
                None => Some(
                    Ok(
                        LexResultView {
                            file_id,
                            tokens: all.state.tokens,
                            const_macros: all.state.const_macros,
                            macro_funcs: all.state.macro_funcs,
                            modules: Seq::empty(),
                            errors: all.state.errors,
                        },
                    ),
                ),
            }
        } else {
            None
        },
    }
}

/// How many requests are outstanding, and the result, where `accepted` of the requests of a file
/// were sent before one could not be.
pub open spec fn requests_sent(file: FileLexView, worker_id: int, accepted: int) -> Option<
    (int, Result<LexResultView, LexErrorView>),
> {
    if accepted < file.requests.len() {
        Some(
            (
                accepted,
                Err(
                    LexErrorView::FailedRequest(
                        MessageView { worker_id, msg_type: "ModID Request"@ },
                    ),
                ),
            ),
        )
    } else {
        match file.result {
            Some(result) => Some((file.requests.len() as int, result)),
            None => None,
        }
    }
}

impl FileLex {
    /// The number of outstanding requests and the result, where the first `accepted` requests
    /// were sent and the next one, if there is one, was not.
    pub fn sent(self, worker_id: usize, accepted: usize) -> (r: Option<
        (usize, Result<LexResult, LexError>),
    >)
        ensures
            r is Some <==> requests_sent(self@, worker_id as int, accepted as int) is Some,
            r matches Some((outstanding, result)) ==> requests_sent(
                self@,
                worker_id as int,
                accepted as int,
            ) == Some((outstanding as int, result_view(result))),
    {
        if accepted < self.requests.len() {
            let err = FailedRequestError::new(worker_id, "ModID Request");
            Some((accepted, Err(LexError::FailedRequest(err))))
        } else {
            let outstanding: usize = self.requests.len();
            match self.result {
                Some(result) => Some((outstanding, result)),
                None => None,
            }
        }
    }
}

impl Lexer {
    /// Lexes the file `file_id` with the lines of `rd`.
    pub fn lex_file(file_id: usize, rd: LineReader) -> (r: FileLex)
        requires
            rd@.next == 0,
            rd@.countable(),
        ensures
            r@ == file_lexed(file_id as int, rd@),
    {
        let ghost start = LexStateView::start(file_id as int, rd@);
        let mut state = LexState {
            pos: Position::new(file_id),
            tokens: Vec::new(),
            const_macros: Vec::new(),
            macro_funcs: Vec::new(),
            errors: Vec::new(),
            requests: Vec::new(),
            rd,
        };
        proof {
            assert(state@.tokens =~= start.tokens);
            assert(state@.const_macros =~= start.const_macros);
            assert(state@.macro_funcs =~= start.macro_funcs);
            assert(state@.errors =~= start.errors);
            assert(state@.requests =~= start.requests);
            assert(state@ == start);
        }
        loop
            invariant
                state@.at_line_start(),
                state@.rd.failure == start.rd.failure,
                start == LexStateView::start(file_id as int, rd@),
                lines_lexed(state@) == lines_lexed(start),
            decreases state@.rd.lines.len() - state@.rd.next,
        {
            let ghost st = state@;
            match state.rd.read_line() {
                Err(err) => {
                    return FileLex {
                        requests: state.requests,
                        result: Some(Err(LexError::Io(err))),
                    };
                },
                Ok(None) => {
                    let lexed = LexResult {
                        file_id,
                        tokens: state.tokens,
                        const_macros: state.const_macros,
                        macro_funcs: state.macro_funcs,
                        modules: Vec::new(),
                        errors: state.errors,
                    };
                    return FileLex { requests: state.requests, result: Some(Ok(lexed)) };
                },
                Ok(Some(line)) => {
                    let ghost read = LexStateView { rd: st.rd.after_line(), ..st };
                    assert(state@ == read);
                    if !Lexer::lex_line(&mut state, line.as_str()) {
                        return FileLex { requests: state.requests, result: None };
                    }
                    proof {
                        line_keeps_reader(read, line@);
                    }
                },
            }
        }
    }
}

} // verus!
