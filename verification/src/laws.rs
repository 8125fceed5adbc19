//! What holds of every file that is lexed.
use crate::common::ProvenanceView;
use crate::lex_error::LexErrorView;
use crate::lexer::{
    LexStateView, code_lexed, const_macro_lexed, directive_lexed, end_of_line, file_lexed,
    include_lexed, line_lexed, lines_lexed, macro_func_lexed, stripped_lexed,
};
use crate::line::{error_in, lexed, token_in};
use crate::literal::{any_literal, is_no_literal};
use crate::macros::{
    const_macro, is_assign, lemma_signature_assigned, macro_func, macro_func_has_no_definition,
    no_definition, signature, visible_class,
};
use crate::position::PositionView;
use crate::reader::ReaderView;
use crate::text::{drop_bytes, prefix_while, trim_end, trim_start};
use crate::tokens::{DelimKind, TokenKindView, TokenView};
use crate::word::{past_white_space, peeled, tokenized, word, word_class};
use vstd::prelude::*;

verus! {

/// `q` is on the line of `p`.
pub open spec fn same_line(q: PositionView, p: PositionView) -> bool {
    q.file_id == p.file_id && q.line == p.line
}

/// `prov` is on the line of `p`.
pub open spec fn on_line_of(prov: ProvenanceView, p: PositionView) -> bool {
    prov.file_id == p.file_id && prov.line == p.line
}

/// `error` arose on the line of `p`.
pub open spec fn error_on_line_of(error: LexErrorView, p: PositionView) -> bool {
    error.provenance() matches Some(prov) && on_line_of(prov, p)
}

/// A token, or an error, on the line of `p`.
pub open spec fn outcome_on_line_of(
    outcome: Result<TokenView, LexErrorView>,
    p: PositionView,
) -> bool {
    match outcome {
        Ok(token) => on_line_of(token.prov, p),
        Err(error) => error_on_line_of(error, p),
    }
}

/// All of `tokens` are on the line of `p`.
pub open spec fn tokens_on_line_of(tokens: Seq<TokenView>, p: PositionView) -> bool {
    forall|i: int| 0 <= i < tokens.len() ==> on_line_of((#[trigger] tokens[i]).prov, p)
}

/// All of `errors` arose on the line of `p`.
pub open spec fn errors_on_line_of(errors: Seq<LexErrorView>, p: PositionView) -> bool {
    forall|i: int| 0 <= i < errors.len() ==> error_on_line_of(#[trigger] errors[i], p)
}

/// A literal is on the line that it was read on.
proof fn lemma_literal_on_line(s: Seq<char>, p: PositionView)
    ensures
        same_line(any_literal(s, p).pos, p),
        match any_literal(s, p).outcome {
            Ok(Some(token)) => on_line_of(token.prov, p),
            Ok(None) => true,
            Err(bad) => on_line_of(bad.prov, p),
        },
{
}

pub proof fn lemma_tokenized_on_line(s: Seq<char>, p: PositionView)
    ensures
        same_line(tokenized(s, p).pos, p),
        outcome_on_line_of(tokenized(s, p).outcome, p),
{
}

proof fn lemma_word_on_line(s: Seq<char>, p: PositionView)
    requires
        word(s, p) is Some,
    ensures
        same_line(word(s, p)->0.pos, p),
        outcome_on_line_of(word(s, p)->0.outcome, p),
{
    let end = prefix_while(s, word_class()) as int;
    lemma_tokenized_on_line(s, p);
    lemma_tokenized_on_line(s.take(end), p);
}

/// A token, or the error in its place, is on the line that it was read on.
pub proof fn peeled_on_line(s: Seq<char>, p: PositionView)
    requires
        peeled(s, p) is Some,
    ensures
        same_line(peeled(s, p)->0.pos, p),
        outcome_on_line_of(peeled(s, p)->0.outcome, p),
{
    let t = trim_start(s);
    let start = past_white_space(s, p);
    lemma_literal_on_line(t, start);
    if is_no_literal(any_literal(t, start)) {
        lemma_word_on_line(t, start);
    }
}

proof fn lemma_outcome_in(outcome: Result<TokenView, LexErrorView>, p: PositionView)
    requires
        outcome_on_line_of(outcome, p),
    ensures
        tokens_on_line_of(token_in(outcome), p),
        errors_on_line_of(error_in(outcome), p),
{
}

/// The tokens and errors of a text are on the line that it was read on.
pub proof fn lexed_on_line(s: Seq<char>, p: PositionView)
    requires
        lexed(s, p) is Some,
    ensures
        same_line(lexed(s, p)->0.pos, p),
        tokens_on_line_of(lexed(s, p)->0.tokens, p),
        errors_on_line_of(lexed(s, p)->0.errors, p),
    decreases s.len(),
{
    let first = peeled(s, p)->0;
    peeled_on_line(s, p);
    lemma_outcome_in(first.outcome, p);
    if let Some(tail) = first.tail {
        lexed_on_line(tail, first.pos);
    }
}

proof fn lemma_signature_on_line(s: Seq<char>, p: PositionView)
    requires
        signature(s, p) is Some,
    ensures
        same_line(signature(s, p)->0.pos, p),
        errors_on_line_of(signature(s, p)->0.errors, p),
    decreases s.len(),
{
    let first = peeled(s, p)->0;
    peeled_on_line(s, p);
    lemma_outcome_in(first.outcome, p);
    if !is_assign(first.outcome) {
        if let Some(tail) = first.tail {
            lemma_signature_on_line(tail, first.pos);
        }
    }
}

/// `after` is `before` with something added at its end.
pub open spec fn grown<T>(before: Seq<T>, after: Seq<T>) -> bool {
    before.is_prefix_of(after)
}

/// What a line adds to `st`, for `next`, comes behind what was there before, on the line of `st`,
/// and the position is at the start of the next line. No macro with parameters is added.
pub open spec fn added_at_the_end(st: LexStateView, next: LexStateView) -> bool {
    &&& next.pos == st.pos.next_line()
    &&& next.rd == st.rd
    &&& grown(st.tokens, next.tokens)
    &&& tokens_on_line_of(next.tokens.skip(st.tokens.len() as int), st.pos)
    &&& grown(st.errors, next.errors)
    &&& errors_on_line_of(next.errors.skip(st.errors.len() as int), st.pos)
    &&& grown(st.const_macros, next.const_macros)
    &&& next.macro_funcs == st.macro_funcs
    &&& grown(st.requests, next.requests)
    &&& forall|i: int|
        st.requests.len() <= i < next.requests.len() ==> {
            let rq = #[trigger] next.requests[i];
            rq.parent_id == st.pos.file_id && same_line(rq.pos, st.pos)
        }
}

proof fn lemma_nothing_added(st: LexStateView)
    ensures
        added_at_the_end(st, LexStateView { pos: st.pos.next_line(), ..st }),
{
    assert(st.tokens.skip(st.tokens.len() as int) =~= Seq::empty());
    assert(st.errors.skip(st.errors.len() as int) =~= Seq::empty());
}

proof fn lemma_include_added(st: LexStateView, name: Seq<char>)
    ensures
        added_at_the_end(st, include_lexed(st, name)),
{
    assert(st.tokens.skip(st.tokens.len() as int) =~= Seq::empty());
    assert(st.errors.skip(st.errors.len() as int) =~= Seq::empty());
}

proof fn lemma_stripped_added(st: LexStateView, t: Seq<char>, line: Seq<char>)
    requires
        stripped_lexed(st, t, line) is Some,
    ensures
        added_at_the_end(st, stripped_lexed(st, t, line)->0),
{
    if t.len() > 0 && t[0] != '#' {
        lemma_code_added(st, t);
    } else if "#!def "@.is_prefix_of(t) {
        if line.contains('(') {
            lemma_macro_func_added(st, t.skip(6));
        } else {
            lemma_const_macro_added(st, line);
        }
    } else if "#!also "@.is_prefix_of(t) {
        lemma_include_added(st, trim_end(trim_start(t.skip(7))));
    } else if "#!"@.is_prefix_of(t) {
        lemma_directive_added(st, t);
    } else {
        lemma_nothing_added(st);
    }
}

/// What a line adds comes behind what was there before, on that line, and the position is then at
/// the start of the next line. No line adds a macro with parameters.
pub proof fn line_adds_at_the_end(st: LexStateView, line: Seq<char>)
    requires
        line_lexed(st, line) is Some,
    ensures
        added_at_the_end(st, line_lexed(st, line)->0),
{
    let at = LexStateView { pos: past_white_space(line, st.pos), ..st };
    lemma_stripped_added(at, trim_end(trim_start(line)), line);
}

proof fn lemma_code_added(st: LexStateView, t: Seq<char>)
    requires
        code_lexed(st, t) is Some,
    ensures
        added_at_the_end(st, code_lexed(st, t)->0),
{
    lexed_on_line(t, st.pos);
    let code = lexed(t, st.pos)->0;
    let next = code_lexed(st, t)->0;
    let end = end_of_line(code.pos);
    assert(next.tokens.skip(st.tokens.len() as int) =~= code.tokens + seq![end]);
    assert(next.errors.skip(st.errors.len() as int) =~= code.errors);
}

proof fn lemma_directive_added(st: LexStateView, t: Seq<char>)
    ensures
        added_at_the_end(st, directive_lexed(st, t)),
{
    lemma_tokenized_on_line(t, st.pos);
    let outcome = tokenized(t, st.pos).outcome;
    lemma_outcome_in(outcome, st.pos);
    let next = directive_lexed(st, t);
    assert(next.tokens.skip(st.tokens.len() as int) =~= token_in(outcome));
    assert(next.errors.skip(st.errors.len() as int) =~= error_in(outcome));
}

proof fn lemma_const_macro_added(st: LexStateView, line: Seq<char>)
    requires
        const_macro_lexed(st, line) is Some,
    ensures
        added_at_the_end(st, const_macro_lexed(st, line)->0),
{
    let step = const_macro(line, st.pos)->0;
    let next = const_macro_lexed(st, line)->0;
    let def = trim_start(drop_bytes(line, 6)->0);
    let end = prefix_while(def, visible_class()) as int;
    if end < def.len() {
        lexed_on_line(def.skip(end), st.pos);
    }
    assert(next.errors.skip(st.errors.len() as int) =~= step.errors);
    assert(next.tokens.skip(st.tokens.len() as int) =~= Seq::empty());
}

proof fn lemma_macro_func_added(st: LexStateView, def: Seq<char>)
    requires
        macro_func_lexed(st, def) is Some,
    ensures
        added_at_the_end(st, macro_func_lexed(st, def)->0),
{
    let step = macro_func(def, st.rd, st.pos)->0;
    let next = macro_func_lexed(st, def)->0;
    macro_func_has_no_definition(def, st.rd, st.pos);
    let text = trim_start(drop_bytes(def, 6)->0);
    lemma_signature_on_line(text, st.pos);
    let sig = signature(text, st.pos)->0;
    assert(step.errors == sig.errors + seq![no_definition(sig.rest, sig.pos)]) by {
        if sig.assigned {
            lemma_signature_assigned(text, st.pos);
        }
    }
    assert(next.errors.skip(st.errors.len() as int) =~= step.errors);
    assert(next.tokens.skip(st.tokens.len() as int) =~= Seq::empty());
    assert(next.macro_funcs =~= st.macro_funcs);
}

/// `prov` is in the file of `p`, on a line before that of `p`.
pub open spec fn before_line_of(prov: ProvenanceView, p: PositionView) -> bool {
    prov.file_id == p.file_id && 1 <= prov.line < p.line
}

/// Everything that was lexed is in the file, on a line that was read, and the tokens come in the
/// order of their lines.
pub open spec fn in_order(st: LexStateView) -> bool {
    &&& forall|i: int|
        0 <= i < st.tokens.len() ==> before_line_of((#[trigger] st.tokens[i]).prov, st.pos)
    &&& forall|i: int, j: int|
        0 <= i <= j < st.tokens.len() ==> (#[trigger] st.tokens[i]).prov.line <= (
        #[trigger] st.tokens[j]).prov.line
    &&& forall|i: int|
        0 <= i < st.errors.len() ==> {
            &&& (#[trigger] st.errors[i]).provenance() is Some
            &&& before_line_of(st.errors[i].provenance()->0, st.pos)
        }
    &&& forall|i: int|
        0 <= i < st.requests.len() ==> {
            let rq = #[trigger] st.requests[i];
            &&& rq.parent_id == st.pos.file_id
            &&& rq.pos.file_id == st.pos.file_id
            &&& 1 <= rq.pos.line < st.pos.line
        }
}

proof fn lemma_line_in_order(st: LexStateView, line: Seq<char>)
    requires
        in_order(st),
        st.pos.line >= 1,
        line_lexed(st, line) is Some,
    ensures
        in_order(line_lexed(st, line)->0),
{
    let next = line_lexed(st, line)->0;
    line_adds_at_the_end(st, line);
    let tokens = next.tokens.skip(st.tokens.len() as int);
    let errors = next.errors.skip(st.errors.len() as int);
    assert forall|i: int| 0 <= i < next.tokens.len() implies if i < st.tokens.len() {
        (#[trigger] next.tokens[i]) == st.tokens[i]
    } else {
        on_line_of(next.tokens[i].prov, st.pos)
    } by {
        if i < st.tokens.len() {
            assert(next.tokens.take(st.tokens.len() as int)[i] == st.tokens[i]);
        } else {
            assert(next.tokens[i] == tokens[i - st.tokens.len()]);
        }
    }
    assert forall|i: int| 0 <= i < next.errors.len() implies {
        &&& (#[trigger] next.errors[i]).provenance() is Some
        &&& before_line_of(next.errors[i].provenance()->0, next.pos)
    } by {
        if i < st.errors.len() {
            assert(next.errors.take(st.errors.len() as int)[i] == st.errors[i]);
        } else {
            assert(next.errors[i] == errors[i - st.errors.len()]);
        }
    }
    assert forall|i: int| 0 <= i < next.requests.len() implies {
        let rq = #[trigger] next.requests[i];
        &&& rq.parent_id == next.pos.file_id
        &&& rq.pos.file_id == next.pos.file_id
        &&& 1 <= rq.pos.line < next.pos.line
    } by {
        if i < st.requests.len() {
            assert(next.requests.take(st.requests.len() as int)[i] == st.requests[i]);
        }
    }
}

proof fn lemma_lines_in_order(st: LexStateView)
    requires
        in_order(st),
        st.rd.valid(),
        st.pos.line == 1 + st.rd.next,
    ensures
        in_order(lines_lexed(st).state),
        lines_lexed(st).state.pos.file_id == st.pos.file_id,
        lines_lexed(st).state.pos.line <= 1 + st.rd.lines.len(),
        lines_lexed(st).complete ==> lines_lexed(st).state.pos.line == 1 + st.rd.lines.len(),
    decreases st.rd.lines.len() - st.rd.next,
{
    if st.rd.has_line() {
        let line = st.rd.lines[st.rd.next];
        let read = LexStateView { rd: st.rd.after_line(), ..st };
        if line_lexed(read, line) is Some {
            lemma_line_in_order(read, line);
            line_adds_at_the_end(read, line);
            lemma_lines_in_order(line_lexed(read, line)->0);
        }
    }
}

/// Every token, error and request of a file is in that file and on one of its lines, and the
/// tokens come in the order of their lines.
pub proof fn file_in_order(file_id: int, rd: ReaderView)
    requires
        rd.next == 0,
    ensures
        ({
            let file = file_lexed(file_id, rd);
            &&& file.result matches Some(Ok(result)) ==> {
                &&& result.file_id == file_id
                &&& result.macro_funcs.len() == 0
                &&& forall|i: int|
                    0 <= i < result.tokens.len() ==> {
                        let prov = (#[trigger] result.tokens[i]).prov;
                        prov.file_id == file_id && 1 <= prov.line <= rd.lines.len()
                    }
                &&& forall|i: int, j: int|
                    0 <= i <= j < result.tokens.len() ==> (#[trigger] result.tokens[i]).prov.line
                        <= (#[trigger] result.tokens[j]).prov.line
                &&& forall|i: int|
                    0 <= i < result.errors.len() ==> {
                        &&& (#[trigger] result.errors[i]).provenance() matches Some(prov)
                        &&& prov.file_id == file_id
                        &&& 1 <= prov.line <= rd.lines.len()
                    }
            }
            &&& forall|i: int|
                0 <= i < file.requests.len() ==> {
                    let rq = #[trigger] file.requests[i];
                    &&& rq.parent_id == file_id
                    &&& rq.pos.file_id == file_id
                    &&& 1 <= rq.pos.line <= rd.lines.len()
                }
        }),
{
    let start = LexStateView::start(file_id, rd);
    lemma_lines_in_order(start);
    lemma_no_macro_funcs(start);
}

proof fn lemma_no_macro_funcs(st: LexStateView)
    requires
        st.rd.valid(),
    ensures
        lines_lexed(st).state.macro_funcs == st.macro_funcs,
    decreases st.rd.lines.len() - st.rd.next,
{
    if st.rd.has_line() {
        let line = st.rd.lines[st.rd.next];
        let read = LexStateView { rd: st.rd.after_line(), ..st };
        if line_lexed(read, line) is Some {
            line_adds_at_the_end(read, line);
            lemma_no_macro_funcs(line_lexed(read, line)->0);
        }
    }
}

/// A blank line, and a line that starts with `#` but not with `#!`, add nothing: the position is
/// at the start of the next line, and that is all.
pub proof fn comments_add_nothing(st: LexStateView, line: Seq<char>)
    requires
        ({
            let t = trim_end(trim_start(line));
            t.len() == 0 || t[0] == '#' && !(t.len() > 1 && t[1] == '!')
        }),
    ensures
        line_lexed(st, line) == Some(LexStateView { pos: st.pos.next_line(), ..st }),
{
    reveal_strlit("#!def ");
    reveal_strlit("#!also ");
    reveal_strlit("#!");
    let t = trim_end(trim_start(line));
    if "#!def "@.is_prefix_of(t) {
        assert(t.take(6)[1] == t[1]);
    }
    if "#!also "@.is_prefix_of(t) {
        assert(t.take(7)[1] == t[1]);
    }
    if "#!"@.is_prefix_of(t) {
        assert(t.take(2)[1] == t[1]);
    }
}

/// The tokens of a line with code end with the end of the line.
pub proof fn code_ends_with_end_of_line(st: LexStateView, line: Seq<char>)
    requires
        ({
            let t = trim_end(trim_start(line));
            t.len() > 0 && t[0] != '#'
        }),
        line_lexed(st, line) is Some,
    ensures
        ({
            let next = line_lexed(st, line)->0;
            &&& next.tokens.len() > st.tokens.len()
            &&& next.tokens.last().kind == TokenKindView::Delim(DelimKind::EndL)
            &&& next.requests == st.requests
            &&& next.const_macros == st.const_macros
        }),
{
}

} // verus!
