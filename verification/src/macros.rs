//! Macro definitions.
use crate::common::{ConstMacro, ConstMacroView, MacroFunc, MacroFuncView};
use crate::graphemes::{count_graphemes, grapheme_count};
use crate::lex_error::{
    LexError, LexErrorView, NoMacroDefError, SpannedView, UnclosedMacroError, error_views,
};
use crate::lexer::Lexer;
use crate::line::{error_in, lexed, record, token_in};
use crate::literal::{any_literal, is_no_literal};
use crate::position::{Position, PositionView};
use crate::reader::{LineReader, ReaderView};
use crate::text::{
    byte_len, chars_of, drop_bytes, dropped_bytes, is_white_space, leading_white_space,
    lemma_byte_len_split, lemma_drop_bytes_suffix, lemma_prefix_while, lemma_prefix_while_is,
    prefix_while, trim_start, trimmed_start, white_space, white_space_class,
};
use crate::tokens::{
    DelimKind, OperatorKind, Token, TokenKind, TokenKindView, TokenView, ops, reveal_spellings,
    token_views,
};
use crate::word::{
    PeeledView, past_white_space, peeled, row_prefixing, symbol, token_view, word_class,
};
use vstd::prelude::*;
use vstd::string::*;

verus! {

pub open spec fn visible_class() -> spec_fn(char) -> bool {
    |c: char| !is_white_space(c)
}

/// That the macro `bad` has no definition.
pub open spec fn no_definition(bad: Seq<char>, p: PositionView) -> LexErrorView {
    LexErrorView::NoMacroDef(SpannedView { bad, prov: p.provenance(grapheme_count(bad) as int) })
}

/// What a definition of a macro without parameters adds, and the position behind it.
pub struct ConstMacroStep {
    pub macros: Seq<ConstMacroView>,
    pub errors: Seq<LexErrorView>,
    pub pos: PositionView,
}

/// A macro without parameters, defined on `line`: behind its first six bytes a name, white space
/// and the tokens that the name stands for, up to the end of the line.
pub open spec fn const_macro(line: Seq<char>, p: PositionView) -> Option<ConstMacroStep> {
    match drop_bytes(line, 6) {
        None => None,
        Some(rest) => {
            let def = trim_start(rest);
            let end = prefix_while(def, visible_class()) as int;
            if end < def.len() {
                match lexed(def.skip(end), p) {
                    None => None,
                    Some(body) => Some(
                        ConstMacroStep {
                            macros: seq![ConstMacroView::Tokens(def.take(end), body.tokens)],
                            errors: body.errors,
                            pos: body.pos,
                        },
                    ),
                }
            } else {
                Some(
                    ConstMacroStep {
                        macros: Seq::empty(),
                        errors: seq![no_definition(def, p)],
                        pos: p,
                    },
                )
            }
        },
    }
}

/// The tokens before the `=` of a macro with parameters, the errors among them, the text that the
/// search for it has come to, whether that text starts with it, and the position behind the last
/// token.
pub struct SignatureView {
    pub tokens: Seq<TokenView>,
    pub errors: Seq<LexErrorView>,
    pub rest: Seq<char>,
    pub assigned: bool,
    pub pos: PositionView,
}

/// `outcome` is the token `=`.
pub open spec fn is_assign(outcome: Result<TokenView, LexErrorView>) -> bool {
    match outcome {
        Ok(token) => token.kind == TokenKindView::Operator(OperatorKind::Assign),
        Err(_) => false,
    }
}

/// The signature that `s` starts with.
pub open spec fn signature(s: Seq<char>, p: PositionView) -> Option<SignatureView>
    decreases s.len(),
{
    match peeled(s, p) {
        None => None,
        Some(first) => if is_assign(first.outcome) {
            Some(
                SignatureView {
                    tokens: Seq::empty(),
                    errors: Seq::empty(),
                    rest: s,
                    assigned: true,
                    pos: first.pos,
                },
            )
        } else {
            match first.tail {
                None => Some(
                    SignatureView {
                        tokens: token_in(first.outcome),
                        errors: error_in(first.outcome),
                        rest: s,
                        assigned: false,
                        pos: first.pos,
                    },
                ),
                Some(tail) => if tail.len() < s.len() {
                    match signature(tail, first.pos) {
                        None => None,
                        Some(more) => Some(
                            SignatureView {
                                tokens: token_in(first.outcome) + more.tokens,
                                errors: error_in(first.outcome) + more.errors,
                                ..more
                            },
                        ),
                    }
                } else {
                    None
                },
            }
        },
    }
}

/// How the body of a macro ended.
pub enum BodyEnd {
    /// With its closing brace.
    Closed,
    /// With the file.
    Unclosed,
    /// With an error while the file was read.
    Failed(std::io::Error),
}

/// The body of a macro: its tokens with the closing brace, the errors in it, what is left of the
/// file, the position behind it, and how it ended.
pub struct BodyView {
    pub tokens: Seq<TokenView>,
    pub errors: Seq<LexErrorView>,
    pub rd: ReaderView,
    pub pos: PositionView,
    pub end: BodyEnd,
}

/// The number of open braces behind `outcome`, where there were `depth` before it.
pub open spec fn depth_after(outcome: Result<TokenView, LexErrorView>, depth: int) -> int {
    match outcome {
        Ok(token) => if token.kind == TokenKindView::Delim(DelimKind::BlockO) {
            depth + 1
        } else if token.kind == TokenKindView::Delim(DelimKind::BlockC) {
            depth - 1
        } else {
            depth
        },
        Err(_) => depth,
    }
}

/// What is left of a text behind its first token, empty where there is nothing.
pub open spec fn tail_text(first: PeeledView) -> Seq<char> {
    match first.tail {
        Some(tail) => tail,
        None => Seq::empty(),
    }
}

/// The first token of `s`, where the text gets shorter by it and its braces can be counted.
pub open spec fn body_token(s: Seq<char>, depth: int, p: PositionView) -> Option<PeeledView> {
    match peeled(s, p) {
        None => None,
        Some(first) => if tail_text(first).len() < s.len() && depth_after(first.outcome, depth)
            <= i32::MAX {
            Some(first)
        } else {
            None
        },
    }
}

/// The body of a macro, from `s` on through the lines of `rd`, with `depth` open braces. There is
/// none where the text cannot be lexed, or where more braces are open than `i32` can count.
pub open spec fn macro_body(s: Seq<char>, rd: ReaderView, depth: int, p: PositionView) -> Option<
    BodyView,
>
    decreases rd.lines.len() - rd.next, s.len(),
{
    if depth <= 0 {
        Some(
            BodyView {
                tokens: Seq::empty(),
                errors: Seq::empty(),
                rd,
                pos: p,
                end: BodyEnd::Closed,
            },
        )
    } else if s.len() == 0 {
        if rd.has_line() {
            macro_body(rd.lines[rd.next], rd.after_line(), depth, p.next_line())
        } else {
            match rd.failure {
                Some(err) => Some(
                    BodyView {
                        tokens: Seq::empty(),
                        errors: Seq::empty(),
                        rd: rd.after_failure(),
                        pos: p,
                        end: BodyEnd::Failed(err),
                    },
                ),
                None => Some(
                    BodyView {
                        tokens: Seq::empty(),
                        errors: Seq::empty(),
                        rd,
                        pos: p,
                        end: BodyEnd::Unclosed,
                    },
                ),
            }
        }
    } else {
        match body_token(s, depth, p) {
            None => None,
            Some(first) => match macro_body(
                tail_text(first),
                rd,
                depth_after(first.outcome, depth),
                first.pos,
            ) {
                None => None,
                Some(more) => Some(
                    BodyView {
                        tokens: token_in(first.outcome) + more.tokens,
                        errors: error_in(first.outcome) + more.errors,
                        ..more
                    },
                ),
            },
        }
    }
}

/// What a definition of a macro with parameters adds, what is left of the file, and the position
/// behind it. `failure` is the error while the file was read that ended the definition.
pub struct MacroFuncStep {
    pub macros: Seq<MacroFuncView>,
    pub errors: Seq<LexErrorView>,
    pub rd: ReaderView,
    pub pos: PositionView,
    pub failure: Option<std::io::Error>,
}

/// What a body adds behind a signature with the tokens `signature`: the macro, if the body is
/// closed, and the error that it is not, if the file ends first.
pub open spec fn definition(signature: Seq<TokenView>, body: BodyView) -> MacroFuncStep {
    MacroFuncStep {
        macros: match body.end {
            BodyEnd::Closed => seq![MacroFuncView::Tokens(signature, body.tokens)],
            _ => Seq::empty(),
        },
        errors: match body.end {
            BodyEnd::Unclosed => body.errors.push(
                LexErrorView::UnclosedMacro(body.pos.provenance(1)),
            ),
            _ => body.errors,
        },
        rd: body.rd,
        pos: body.pos,
        failure: match body.end {
            BodyEnd::Failed(err) => Some(err),
            _ => None,
        },
    }
}

/// A macro with parameters, defined in `def` behind its first six bytes: its signature, `=`, and
/// its body between braces, which may reach over the following lines. The body is looked for
/// where the `=` stands.
pub open spec fn macro_func(def: Seq<char>, rd: ReaderView, p: PositionView) -> Option<
    MacroFuncStep,
> {
    match drop_bytes(def, 6) {
        None => None,
        Some(rest) => match signature(trim_start(rest), p) {
            None => None,
            Some(sig) => {
                let block = trim_start(sig.rest);
                if sig.assigned && block.len() > 0 && block[0] == '{' {
                    match macro_body(block.skip(1), rd, 1, sig.pos) {
                        None => None,
                        Some(body) => {
                            let step = definition(sig.tokens, body);
                            Some(MacroFuncStep { errors: sig.errors + step.errors, ..step })
                        },
                    }
                } else {
                    Some(
                        MacroFuncStep {
                            macros: Seq::empty(),
                            errors: sig.errors + seq![no_definition(sig.rest, sig.pos)],
                            rd,
                            pos: sig.pos,
                            failure: None,
                        },
                    )
                }
            },
        },
    }
}

pub proof fn lemma_trim_start_shrinks(s: Seq<char>)
    ensures
        trim_start(s).len() <= s.len(),
        byte_len(trim_start(s)) <= byte_len(s),
{
    lemma_prefix_while(s, white_space_class());
    lemma_byte_len_split(s, leading_white_space(s) as int);
}

impl Lexer {
    /// Adds the macro without parameters that is defined on the line `buff`, or reports that it
    /// has no definition. Returns whether the line could be lexed.
    pub fn handle_const_macros(
        const_macros: &mut Vec<ConstMacro>,
        errors: &mut Vec<LexError>,
        buff: &str,
        pos: &mut Position,
    ) -> (r: bool)
        requires
            old(pos)@.has_room(2 * byte_len(buff@)),
        ensures
            r == (const_macro(buff@, old(pos)@) is Some),
            r ==> {
                let step = const_macro(buff@, old(pos)@)->0;
                &&& const_macro_views(final(const_macros)@) == const_macro_views(
                    old(const_macros)@,
                ) + step.macros
                &&& error_views(final(errors)@) == error_views(old(errors)@) + step.errors
                &&& final(pos)@ == step.pos
                &&& final(pos)@.within(old(pos)@, 2 * byte_len(buff@) as int)
            },
    {
        let rest = match dropped_bytes(buff, 6) {
            None => return false,
            Some(rest) => rest,
        };
        let def = trimmed_start(rest);
        proof {
            let _ = lemma_drop_bytes_suffix(buff@, 6);
            lemma_trim_start_shrinks(rest@);
        }
        let cs = chars_of(def);
        let mut end: usize = 0;
        while end < cs.len() && !white_space(cs[end])
            invariant
                end <= cs.len(),
                forall|j: int| 0 <= j < end ==> visible_class()(#[trigger] cs@[j]),
            decreases cs.len() - end,
        {
            end += 1;
        }
        proof {
            lemma_prefix_while_is(def@, visible_class(), end as int);
        }
        if end < cs.len() {
            let name = def.substring_char(0, end);
            let body = def.substring_char(end, cs.len());
            proof {
                assert(name@ =~= def@.take(end as int));
                assert(body@ =~= def@.skip(end as int));
                lemma_byte_len_split(def@, end as int);
            }
            let mut tokens: Vec<Token> = Vec::new();
            assert(token_views(tokens@) =~= Seq::empty());
            if !Lexer::peel_tokens(body, &mut tokens, errors, pos) {
                return false;
            }
            proof {
                assert(token_views(tokens@) =~= lexed(body@, old(pos)@)->0.tokens);
            }
            const_macros.push(ConstMacro::Tokens(name.to_owned(), tokens));
            proof {
                assert(const_macro_views(const_macros@) =~= const_macro_views(old(const_macros)@)
                    + const_macro(buff@, old(pos)@)->0.macros);
            }
        } else {
            let graphemes = count_graphemes(def);
            errors.push(
                LexError::NoMacroDef(
                    NoMacroDefError { bad: def.to_owned(), prov: pos.as_provenance(graphemes) },
                ),
            );
            proof {
                assert(error_views(errors@) =~= error_views(old(errors)@) + seq![
                    no_definition(def@, old(pos)@),
                ]);
                assert(const_macro_views(const_macros@) =~= const_macro_views(old(const_macros)@)
                    + Seq::empty());
            }
        }
        true
    }

    /// Takes the first token off the text of a macro body, adds what comes up to `tokens` and
    /// `errors`, and returns the number of open braces behind it and what is left of the text.
    fn peel_body_token(
        text: &str,
        depth: i32,
        tokens: &mut Vec<Token>,
        errors: &mut Vec<LexError>,
        pos: &mut Position,
    ) -> (r: Option<(i32, String)>)
        requires
            depth > 0,
            text@.len() > 0,
            old(pos)@.has_room(2 * byte_len(text@)),
        ensures
            r is Some <==> body_token(text@, depth as int, old(pos)@) is Some,
            r matches Some((inner, tail)) ==> {
                let first = body_token(text@, depth as int, old(pos)@)->0;
                &&& inner == depth_after(first.outcome, depth as int)
                &&& tail@ == tail_text(first)
                &&& tail@.len() < text@.len()
                &&& final(pos)@ == first.pos
                &&& final(pos)@.has_room(2 * byte_len(tail@))
                &&& final(pos)@.line == old(pos)@.line
                &&& final(pos)@.file_id == old(pos)@.file_id
                &&& token_views(final(tokens)@) == token_views(old(tokens)@) + token_in(
                    first.outcome,
                )
                &&& error_views(final(errors)@) == error_views(old(errors)@) + error_in(
                    first.outcome,
                )
            },
    {
        match Lexer::peel_token(text, pos) {
            None => None,
            Some((outcome, tail)) => {
                let mut inner: i32 = depth;
                if let Ok(token) = &outcome {
                    if let TokenKind::Delim(DelimKind::BlockO) = token.kind {
                        if depth == i32::MAX {
                            return None;
                        }
                        inner = depth + 1;
                    } else if let TokenKind::Delim(DelimKind::BlockC) = token.kind {
                        inner = depth - 1;
                    }
                }
                record(outcome, tokens, errors);
                match tail {
                    Some(tail) => if tail.unicode_len() < text.unicode_len() {
                        Some((inner, tail.to_owned()))
                    } else {
                        None
                    },
                    None => Some((inner, String::new())),
                }
            },
        }
    }

    /// Goes on with the body of a macro on the next line, where nothing is left of the text.
    fn next_body_line(depth: i32, rd: &mut LineReader, pos: &mut Position) -> (r: BodyStep)
        requires
            depth > 0,
            body_fits(Seq::empty(), old(rd)@, old(pos)@),
        ensures
            same_place(old(rd)@, old(pos)@, final(rd)@, final(pos)@),
            match r {
                BodyStep::Stuck => false,
                BodyStep::Ended(end) => macro_body(
                    Seq::empty(),
                    old(rd)@,
                    depth as int,
                    old(pos)@,
                ) == Some(
                    BodyView {
                        tokens: Seq::empty(),
                        errors: Seq::empty(),
                        rd: final(rd)@,
                        pos: final(pos)@,
                        end,
                    },
                ),
                BodyStep::More(inner, rest) => {
                    &&& inner == depth
                    &&& body_fits(rest@, final(rd)@, final(pos)@)
                    &&& final(rd)@.next > old(rd)@.next
                    &&& macro_body(Seq::empty(), old(rd)@, depth as int, old(pos)@) == macro_body(
                        rest@,
                        final(rd)@,
                        depth as int,
                        final(pos)@,
                    )
                },
            },
    {
        match rd.read_line() {
            Err(err) => BodyStep::Ended(BodyEnd::Failed(err)),
            Ok(None) => BodyStep::Ended(BodyEnd::Unclosed),
            Ok(Some(line)) => {
                pos.advance_line();
                BodyStep::More(depth, line)
            },
        }
    }

    /// Goes on with the body of a macro: reads the next line where nothing is left of the text, and
    /// takes a token off it otherwise.
    fn step_body(
        text: &str,
        depth: i32,
        rd: &mut LineReader,
        tokens: &mut Vec<Token>,
        errors: &mut Vec<LexError>,
        pos: &mut Position,
    ) -> (r: BodyStep)
        requires
            depth > 0,
            body_fits(text@, old(rd)@, old(pos)@),
        ensures
            !(r is Stuck) ==> same_place(old(rd)@, old(pos)@, final(rd)@, final(pos)@),
            match r {
                BodyStep::Stuck => macro_body(text@, old(rd)@, depth as int, old(pos)@) is None,
                BodyStep::Ended(end) => {
                    &&& macro_body(text@, old(rd)@, depth as int, old(pos)@) == Some(
                        BodyView {
                            tokens: Seq::empty(),
                            errors: Seq::empty(),
                            rd: final(rd)@,
                            pos: final(pos)@,
                            end,
                        },
                    )
                    &&& final(tokens)@ == old(tokens)@
                    &&& final(errors)@ == old(errors)@
                },
                BodyStep::More(inner, rest) => {
                    &&& body_fits(rest@, final(rd)@, final(pos)@)
                    &&& final(rd)@.next > old(rd)@.next || final(rd)@.next == old(rd)@.next
                        && rest@.len() < text@.len()
                    &&& continues(
                        token_views(old(tokens)@),
                        error_views(old(errors)@),
                        macro_body(text@, old(rd)@, depth as int, old(pos)@),
                        token_views(final(tokens)@),
                        error_views(final(errors)@),
                        macro_body(rest@, final(rd)@, inner as int, final(pos)@),
                    )
                },
            },
    {
        if text.is_empty() {
            assert(text@ =~= Seq::empty());
            return Lexer::next_body_line(depth, rd, pos);
        }
        match Lexer::peel_body_token(text, depth, tokens, errors, pos) {
            None => BodyStep::Stuck,
            Some((inner, tail)) => {
                proof {
                    lemma_body_continues(
                        text@,
                        rd@,
                        depth as int,
                        old(pos)@,
                        token_views(old(tokens)@),
                        error_views(old(errors)@),
                    );
                }
                BodyStep::More(inner, tail)
            },
        }
    }

    /// Lexes the body of a macro from `first` on, with one brace open, and adds what comes up to
    /// `tokens` and `errors`.
    pub fn read_macro_body(
        first: &str,
        rd: &mut LineReader,
        tokens: &mut Vec<Token>,
        errors: &mut Vec<LexError>,
        pos: &mut Position,
    ) -> (r: Option<BodyEnd>)
        requires
            body_fits(first@, old(rd)@, old(pos)@),
        ensures
            r is Some <==> macro_body(first@, old(rd)@, 1, old(pos)@) is Some,
            r matches Some(end) ==> {
                let view = macro_body(first@, old(rd)@, 1, old(pos)@)->0;
                &&& token_views(final(tokens)@) == token_views(old(tokens)@) + view.tokens
                &&& error_views(final(errors)@) == error_views(old(errors)@) + view.errors
                &&& final(rd)@ == view.rd
                &&& final(pos)@ == view.pos
                &&& end == view.end
            },
            r is Some ==> same_place(old(rd)@, old(pos)@, final(rd)@, final(pos)@),
    {
        let ghost all = macro_body(first@, rd@, 1, pos@);
        let mut text: String = first.to_owned();
        let mut depth: i32 = 1;
        while depth > 0
            invariant
                body_fits(text@, rd@, pos@),
                same_place(old(rd)@, old(pos)@, rd@, pos@),
                all == macro_body(first@, old(rd)@, 1, old(pos)@),
                continues(
                    token_views(old(tokens)@),
                    error_views(old(errors)@),
                    all,
                    token_views(tokens@),
                    error_views(errors@),
                    macro_body(text@, rd@, depth as int, pos@),
                ),
            decreases rd@.lines.len() - rd@.next, text@.len(),
        {
            match Lexer::step_body(text.as_str(), depth, rd, tokens, errors, pos) {
                BodyStep::Stuck => return None,
                BodyStep::Ended(end) => return Some(end),
                BodyStep::More(inner, rest) => {
                    depth = inner;
                    text = rest;
                },
            }
        }
        Some(BodyEnd::Closed)
    }

    /// Adds the macro with the signature `sig_tokens` and the body from `first` on, or reports what
    /// is wrong with the body.
    fn define_macro(
        sig_tokens: Vec<Token>,
        first: &str,
        macro_funcs: &mut Vec<MacroFunc>,
        errors: &mut Vec<LexError>,
        rd: &mut LineReader,
        pos: &mut Position,
    ) -> (r: Option<Result<(), std::io::Error>>)
        requires
            body_fits(first@, old(rd)@, old(pos)@),
        ensures
            r is Some <==> macro_body(first@, old(rd)@, 1, old(pos)@) is Some,
            r matches Some(done) ==> {
                let step = definition(
                    token_views(sig_tokens@),
                    macro_body(first@, old(rd)@, 1, old(pos)@)->0,
                );
                &&& macro_func_views(final(macro_funcs)@) == macro_func_views(old(macro_funcs)@)
                    + step.macros
                &&& error_views(final(errors)@) == error_views(old(errors)@) + step.errors
                &&& final(rd)@ == step.rd
                &&& final(pos)@ == step.pos
                &&& is_failure(done, step.failure)
            },
            r is Some ==> same_place(old(rd)@, old(pos)@, final(rd)@, final(pos)@),
    {
        let ghost body = macro_body(first@, rd@, 1, pos@)->0;
        let ghost macros = macro_func_views(macro_funcs@);
        let ghost before = error_views(errors@);
        let ghost signature = token_views(sig_tokens@);
        let mut def_tokens: Vec<Token> = Vec::new();
        assert(token_views(def_tokens@) =~= Seq::empty());
        match Lexer::read_macro_body(first, rd, &mut def_tokens, errors, pos) {
            None => None,
            Some(BodyEnd::Closed) => {
                assert(token_views(def_tokens@) =~= body.tokens);
                macro_funcs.push(MacroFunc::Tokens(sig_tokens, def_tokens));
                assert(macro_func_views(macro_funcs@) =~= macros + definition(
                    signature,
                    body,
                ).macros);
                Some(Ok(()))
            },
            Some(BodyEnd::Unclosed) => {
                let ghost read = error_views(errors@);
                errors.push(
                    LexError::UnclosedMacro(UnclosedMacroError { prov: pos.as_provenance(1) }),
                );
                assert(error_views(errors@) =~= read.push(
                    LexErrorView::UnclosedMacro(body.pos.provenance(1)),
                ));
                assert(error_views(errors@) =~= before + definition(signature, body).errors);
                assert(macro_func_views(macro_funcs@) =~= macros + Seq::empty());
                Some(Ok(()))
            },
            Some(BodyEnd::Failed(err)) => {
                assert(macro_func_views(macro_funcs@) =~= macros + Seq::empty());
                Some(Err(err))
            },
        }
    }
}

/// What comes of going on with the body of a macro.
enum BodyStep {
    /// The text cannot be lexed.
    Stuck,
    /// The body ends here.
    Ended(BodyEnd),
    /// The number of open braces, and what is left of the text.
    More(i32, String),
}

/// The lines and columns of a body that goes on with `s` and the lines of `rd` can be represented.
pub open spec fn body_fits(s: Seq<char>, rd: ReaderView, p: PositionView) -> bool {
    &&& rd.valid()
    &&& rd.countable()
    &&& p.has_room(2 * byte_len(s))
    &&& p.line + rd.lines.len() - rd.next <= usize::MAX
}

/// As many lines were read as the position has moved down, in the same file.
pub open spec fn same_place(
    rd: ReaderView,
    p: PositionView,
    later_rd: ReaderView,
    later: PositionView,
) -> bool {
    &&& later_rd.valid()
    &&& later_rd.lines == rd.lines
    &&& rd.next <= later_rd.next
    &&& later.line - p.line == later_rd.next - rd.next
    &&& later.file_id == p.file_id
}

/// What was and is still to be found, `before`, is the same as later, when some of it is among
/// `later_tokens` and `later_errors`.
spec fn continues(
    tokens: Seq<TokenView>,
    errors: Seq<LexErrorView>,
    before: Option<BodyView>,
    later_tokens: Seq<TokenView>,
    later_errors: Seq<LexErrorView>,
    after: Option<BodyView>,
) -> bool {
    &&& before is Some <==> after is Some
    &&& before is Some ==> {
        &&& tokens + before->0.tokens == later_tokens + after->0.tokens
        &&& errors + before->0.errors == later_errors + after->0.errors
        &&& before->0.rd == after->0.rd
        &&& before->0.pos == after->0.pos
        &&& before->0.end == after->0.end
    }
}

proof fn lemma_body_continues(
    s: Seq<char>,
    rd: ReaderView,
    depth: int,
    p: PositionView,
    tokens: Seq<TokenView>,
    errors: Seq<LexErrorView>,
)
    requires
        depth > 0,
        s.len() > 0,
        body_token(s, depth, p) is Some,
    ensures
        ({
            let first = body_token(s, depth, p)->0;
            continues(
                tokens,
                errors,
                macro_body(s, rd, depth, p),
                tokens + token_in(first.outcome),
                errors + error_in(first.outcome),
                macro_body(tail_text(first), rd, depth_after(first.outcome, depth), first.pos),
            )
        }),
{
    let first = body_token(s, depth, p)->0;
    let all = macro_body(s, rd, depth, p);
    let left = macro_body(tail_text(first), rd, depth_after(first.outcome, depth), first.pos);
    if all is Some {
        assert(tokens + token_in(first.outcome) + left->0.tokens =~= tokens + all->0.tokens);
        assert(errors + error_in(first.outcome) + left->0.errors =~= errors + all->0.errors);
    }
}

/// `done` tells of the error `failure`, if there is one.
pub open spec fn is_failure(
    done: Result<(), std::io::Error>,
    failure: Option<std::io::Error>,
) -> bool {
    match done {
        Ok(()) => failure is None,
        Err(err) => failure == Some(err),
    }
}

/// The row that [`row_prefixing`] finds is one of the rows, and the text starts with it.
pub proof fn lemma_row_prefixing<K>(rows: Seq<(Seq<char>, K)>, s: Seq<char>, i: int) -> (j: int)
    requires
        row_prefixing(rows, s, i) is Some,
    ensures
        i <= j < rows.len(),
        0 <= j,
        row_prefixing(rows, s, i) == Some(rows[j]),
        rows[j].0.is_prefix_of(s),
    decreases rows.len() - i,
{
    if rows[i].0.is_prefix_of(s) {
        i
    } else {
        lemma_row_prefixing(rows, s, i + 1)
    }
}

/// A text whose first token is `=` starts with it, but for white space.
pub proof fn lemma_assign_initial(s: Seq<char>, p: PositionView)
    requires
        peeled(s, p) is Some,
        is_assign(peeled(s, p)->0.outcome),
    ensures
        trim_start(s).len() > 0,
        trim_start(s)[0] == '=',
{
    let t = trim_start(s);
    let start = past_white_space(s, p);
    assert(is_no_literal(any_literal(t, start)));
    lemma_prefix_while(t, word_class());
    let end = prefix_while(t, word_class()) as int;
    assert(end == 0 && t.len() > 0);
    assert(peeled(s, p)->0 == symbol(t, start));
    let j = lemma_row_prefixing(ops(), t, 0);
    reveal_spellings();
    assert(ops()[j].1 == OperatorKind::Assign ==> ops()[j].0 == "="@);
    assert("="@[0] == '=');
    assert(t.take(1)[0] == t[0]);
}

/// Where the signature of a macro ends with `=`, the text that follows it starts with that `=`.
pub proof fn lemma_signature_assigned(s: Seq<char>, p: PositionView)
    requires
        signature(s, p) is Some,
        signature(s, p)->0.assigned,
    ensures
        trim_start(signature(s, p)->0.rest).len() > 0,
        trim_start(signature(s, p)->0.rest)[0] == '=',
    decreases s.len(),
{
    let first = peeled(s, p)->0;
    if is_assign(first.outcome) {
        lemma_assign_initial(s, p);
    } else {
        lemma_signature_assigned(first.tail->0, first.pos);
    }
}

/// The body of a macro with parameters is looked for where its `=` stands, and so it is never
/// found: each such definition ends with the error that it has no definition, adds no macro, and
/// reads no further line.
pub proof fn macro_func_has_no_definition(def: Seq<char>, rd: ReaderView, p: PositionView)
    requires
        macro_func(def, rd, p) is Some,
    ensures
        ({
            let step = macro_func(def, rd, p)->0;
            &&& step.macros == Seq::<MacroFuncView>::empty()
            &&& step.rd == rd
            &&& step.failure is None
            &&& step.errors.len() > 0
            &&& step.errors.last() is NoMacroDef
        }),
{
    let sig = signature(trim_start(drop_bytes(def, 6)->0), p)->0;
    if sig.assigned {
        lemma_signature_assigned(trim_start(drop_bytes(def, 6)->0), p);
    }
}

impl Lexer {
    /// Lexes the signature of a macro and adds what comes up to `tokens` and `errors`. Returns
    /// whether it ended with `=`, and the text whose first token was the last one read.
    fn read_signature<'a>(
        buff: &'a str,
        tokens: &mut Vec<Token>,
        errors: &mut Vec<LexError>,
        pos: &mut Position,
    ) -> (r: Option<(bool, &'a str)>)
        requires
            old(pos)@.has_room(2 * byte_len(buff@)),
        ensures
            r is Some <==> signature(buff@, old(pos)@) is Some,
            r matches Some((assigned, rest)) ==> {
                let view = signature(buff@, old(pos)@)->0;
                &&& token_views(final(tokens)@) == token_views(old(tokens)@) + view.tokens
                &&& error_views(final(errors)@) == error_views(old(errors)@) + view.errors
                &&& final(pos)@ == view.pos
                &&& final(pos)@.within(old(pos)@, 2 * byte_len(buff@) as int)
                &&& assigned == view.assigned
                &&& rest@ == view.rest
                &&& assigned ==> trim_start(rest@).len() > 0 && trim_start(rest@)[0] == '='
            },
    {
        let ghost all = signature(buff@, pos@);
        let mut rest: &str = buff;
        loop
            invariant
                pos@.has_room(2 * byte_len(rest@)),
                byte_len(rest@) <= byte_len(buff@),
                pos@.within(old(pos)@, byte_len(buff@) - byte_len(rest@)),
                all == signature(buff@, old(pos)@),
                all is Some <==> signature(rest@, pos@) is Some,
                all is Some ==> {
                    let left = signature(rest@, pos@)->0;
                    &&& token_views(old(tokens)@) + all->0.tokens == token_views(tokens@)
                        + left.tokens
                    &&& error_views(old(errors)@) + all->0.errors == error_views(errors@)
                        + left.errors
                    &&& all->0.rest == left.rest
                    &&& all->0.assigned == left.assigned
                    &&& all->0.pos == left.pos
                },
            decreases rest@.len(),
        {
            let ghost here = pos@;
            match Lexer::peel_token(rest, pos) {
                None => return None,
                Some((outcome, tail)) => {
                    let ghost view = token_view(outcome);
                    if let Ok(token) = &outcome {
                        if let TokenKind::Operator(OperatorKind::Assign) = token.kind {
                            proof {
                                assert(is_assign(view));
                                lemma_assign_initial(rest@, here);
                            }
                            return Some((true, rest));
                        }
                    }
                    assert(!is_assign(view));
                    record(outcome, tokens, errors);
                    match tail {
                        None => return Some((false, rest)),
                        Some(tail) => {
                            if tail.unicode_len() >= rest.unicode_len() {
                                return None;
                            }
                            proof {
                                if all is Some {
                                    let left = signature(tail@, pos@)->0;
                                    assert(token_views(tokens@) + left.tokens =~= token_views(
                                        old(tokens)@,
                                    ) + all->0.tokens);
                                    assert(error_views(errors@) + left.errors =~= error_views(
                                        old(errors)@,
                                    ) + all->0.errors);
                                }
                            }
                            rest = tail;
                        },
                    }
                },
            }
        }
    }

    /// Adds the macro with parameters that is defined in `buff` and the lines behind it, or
    /// reports what is wrong with it. There is no result where the text cannot be lexed.
    pub fn handle_macro_funcs(
        macro_funcs: &mut Vec<MacroFunc>,
        errors: &mut Vec<LexError>,
        rd: &mut LineReader,
        buff: &str,
        pos: &mut Position,
    ) -> (r: Option<Result<(), std::io::Error>>)
        requires
            body_fits(buff@, old(rd)@, old(pos)@),
        ensures
            r is Some <==> macro_func(buff@, old(rd)@, old(pos)@) is Some,
            r matches Some(done) ==> {
                let step = macro_func(buff@, old(rd)@, old(pos)@)->0;
                &&& macro_func_views(final(macro_funcs)@) == macro_func_views(old(macro_funcs)@)
                    + step.macros
                &&& error_views(final(errors)@) == error_views(old(errors)@) + step.errors
                &&& final(rd)@ == step.rd
                &&& final(pos)@ == step.pos
                &&& is_failure(done, step.failure)
                &&& same_place(old(rd)@, old(pos)@, final(rd)@, final(pos)@)
            },
    {
        let rest = match dropped_bytes(buff, 6) {
            None => return None,
            Some(rest) => rest,
        };
        let def = trimmed_start(rest);
        proof {
            let _ = lemma_drop_bytes_suffix(buff@, 6);
            lemma_trim_start_shrinks(rest@);
        }
        let mut sig_tokens: Vec<Token> = Vec::new();
        assert(token_views(sig_tokens@) =~= Seq::empty());
        let (assigned, rest) = match Lexer::read_signature(def, &mut sig_tokens, errors, pos) {
            None => return None,
            Some(found) => found,
        };
        let ghost sig = signature(def@, old(pos)@)->0;
        assert(token_views(sig_tokens@) =~= sig.tokens);
        let block = trimmed_start(rest);
        let cs = chars_of(block);
        if assigned && cs.len() > 0 && cs[0] == '{' {
            let first = block.substring_char(1, cs.len());
            return Lexer::define_macro(sig_tokens, first, macro_funcs, errors, rd, pos);
        }
        let graphemes = count_graphemes(rest);
        let ghost read = error_views(errors@);
        errors.push(
            LexError::NoMacroDef(
                NoMacroDefError { bad: rest.to_owned(), prov: pos.as_provenance(graphemes) },
            ),
        );
        proof {
            let step = macro_func(buff@, old(rd)@, old(pos)@)->0;
            let sig = signature(def@, old(pos)@)->0;
            assert(error_views(errors@) =~= read + seq![no_definition(rest@, pos@)]);
            assert(step.errors == sig.errors + seq![no_definition(sig.rest, sig.pos)]);
            assert(error_views(errors@) =~= error_views(old(errors)@) + step.errors);
            assert(macro_func_views(macro_funcs@) =~= macro_func_views(old(macro_funcs)@)
                + step.macros);
        }
        Some(Ok(()))
    }
}

/// What each macro stands for.
pub open spec fn const_macro_views(macros: Seq<ConstMacro>) -> Seq<ConstMacroView> {
    macros.map_values(|m: ConstMacro| m@)
}

/// What each macro stands for.
pub open spec fn macro_func_views(macros: Seq<MacroFunc>) -> Seq<MacroFuncView> {
    macros.map_values(|m: MacroFunc| m@)
}

} // verus!
