//! How the lines of a file add up.
use crate::definitions::lemma_refused_step;
use crate::laws::line_adds_at_the_end;
use crate::lex_error::LexErrorView;
use crate::lexer::{
    FileLexView, LexResultView, LexStateView, LinesView, code_lexed, const_macro_lexed,
    directive_lexed, file_lexed, include_lexed, line_keeps_reader, line_lexed, lines_lexed,
    macro_func_lexed,
};
use crate::macros::{lemma_signature_assigned, macro_func, signature};
use crate::position::PositionView;
use crate::reader::ReaderView;
use crate::text::{drop_bytes, trim_end, trim_start};
use crate::word::past_white_space;
use vstd::prelude::*;

verus! {

/// A file with the lines `lines` and no error while it was read.
pub open spec fn reader_of(lines: Seq<Seq<char>>) -> ReaderView {
    ReaderView { lines, next: 0, failure: None }
}

/// At the start of line `line` of the file `file_id`, with nothing lexed yet.
pub open spec fn fresh_line(file_id: int, line: int) -> LexStateView {
    LexStateView {
        pos: PositionView { file_id, line, column_bytes: 1, column_graphemes: 1 },
        tokens: Seq::empty(),
        const_macros: Seq::empty(),
        macro_funcs: Seq::empty(),
        errors: Seq::empty(),
        requests: Seq::empty(),
        rd: reader_of(Seq::empty()),
    }
}

/// `st`, with what was lexed in `more` behind what was lexed in it, and at the position of `more`.
pub open spec fn with_more(st: LexStateView, more: LexStateView) -> LexStateView {
    LexStateView {
        pos: more.pos,
        tokens: st.tokens + more.tokens,
        const_macros: st.const_macros + more.const_macros,
        macro_funcs: st.macro_funcs + more.macro_funcs,
        errors: st.errors + more.errors,
        requests: st.requests + more.requests,
        rd: st.rd,
    }
}

/// `st` without what was lexed in it and what is left to be read.
pub open spec fn emptied(st: LexStateView) -> LexStateView {
    LexStateView { pos: st.pos, ..fresh_line(0, 0) }
}

proof fn lemma_macro_func_alone(def: Seq<char>, rd: ReaderView, other: ReaderView, p: PositionView)
    ensures
        macro_func(def, rd, p) is Some <==> macro_func(def, other, p) is Some,
{
    if drop_bytes(def, 6) is Some {
        let t = trim_start(drop_bytes(def, 6)->0);
        if signature(t, p) is Some && signature(t, p)->0.assigned {
            lemma_signature_assigned(t, p);
        }
    }
}

proof fn lemma_macro_func_adds(st: LexStateView, def: Seq<char>)
    ensures
        match macro_func_lexed(emptied(st), def) {
            None => macro_func_lexed(st, def) is None,
            Some(more) => macro_func_lexed(st, def) == Some(with_more(st, more)),
        },
{
    let none = emptied(st);
    lemma_macro_func_alone(def, st.rd, none.rd, st.pos);
    if macro_func(def, st.rd, st.pos) is Some {
        lemma_refused_step(def, st.rd, st.pos);
        lemma_refused_step(def, none.rd, st.pos);
        let more = macro_func_lexed(none, def)->0;
        let next = macro_func_lexed(st, def)->0;
        assert(next.errors =~= with_more(st, more).errors);
        assert(next.tokens =~= with_more(st, more).tokens);
        assert(next.const_macros =~= with_more(st, more).const_macros);
        assert(next.macro_funcs =~= with_more(st, more).macro_funcs);
        assert(next.requests =~= with_more(st, more).requests);
    }
}

proof fn lemma_code_adds(st: LexStateView, t: Seq<char>)
    ensures
        match code_lexed(emptied(st), t) {
            None => code_lexed(st, t) is None,
            Some(more) => code_lexed(st, t) == Some(with_more(st, more)),
        },
{
    if code_lexed(st, t) is Some {
        let more = code_lexed(emptied(st), t)->0;
        let next = code_lexed(st, t)->0;
        assert(next.errors =~= with_more(st, more).errors);
        assert(next.tokens =~= with_more(st, more).tokens);
        assert(next.const_macros =~= with_more(st, more).const_macros);
        assert(next.macro_funcs =~= with_more(st, more).macro_funcs);
        assert(next.requests =~= with_more(st, more).requests);
    }
}

proof fn lemma_const_macro_adds(st: LexStateView, line: Seq<char>)
    ensures
        match const_macro_lexed(emptied(st), line) {
            None => const_macro_lexed(st, line) is None,
            Some(more) => const_macro_lexed(st, line) == Some(with_more(st, more)),
        },
{
    if const_macro_lexed(st, line) is Some {
        let more = const_macro_lexed(emptied(st), line)->0;
        let next = const_macro_lexed(st, line)->0;
        assert(next.errors =~= with_more(st, more).errors);
        assert(next.tokens =~= with_more(st, more).tokens);
        assert(next.const_macros =~= with_more(st, more).const_macros);
        assert(next.macro_funcs =~= with_more(st, more).macro_funcs);
        assert(next.requests =~= with_more(st, more).requests);
    }
}

proof fn lemma_simple_adds(st: LexStateView, next: LexStateView, more: LexStateView)
    requires
        next.pos == more.pos,
        next.rd == st.rd,
        next.tokens =~= st.tokens + more.tokens,
        next.errors =~= st.errors + more.errors,
        next.requests =~= st.requests + more.requests,
        next.const_macros == st.const_macros && more.const_macros.len() == 0,
        next.macro_funcs == st.macro_funcs && more.macro_funcs.len() == 0,
    ensures
        next == with_more(st, more),
{
    assert(next.const_macros =~= with_more(st, more).const_macros);
    assert(next.macro_funcs =~= with_more(st, more).macro_funcs);
}

/// What a line adds does not depend on what was lexed before it, and comes behind it. What is left
/// to be read is neither looked at nor touched.
pub proof fn lines_add_on_their_own(st: LexStateView, line: Seq<char>)
    ensures
        match line_lexed(emptied(st), line) {
            None => line_lexed(st, line) is None,
            Some(more) => line_lexed(st, line) == Some(with_more(st, more)),
        },
{
    let at = LexStateView { pos: past_white_space(line, st.pos), ..st };
    let none = emptied(at);
    let t = trim_end(trim_start(line));
    assert(none == LexStateView { pos: past_white_space(line, st.pos), ..emptied(st) });
    if t.len() > 0 && t[0] != '#' {
        lemma_code_adds(at, t);
    } else if "#!def "@.is_prefix_of(t) {
        if line.contains('(') {
            lemma_macro_func_adds(at, t.skip(6));
        } else {
            lemma_const_macro_adds(at, line);
        }
    } else if "#!also "@.is_prefix_of(t) {
        let name = trim_end(trim_start(t.skip(7)));
        lemma_simple_adds(at, include_lexed(at, name), include_lexed(none, name));
    } else if "#!"@.is_prefix_of(t) {
        lemma_simple_adds(at, directive_lexed(at, t), directive_lexed(none, t));
    } else {
        lemma_simple_adds(
            at,
            LexStateView { pos: at.pos.next_line(), ..at },
            LexStateView { pos: none.pos.next_line(), ..none },
        );
    }
}

/// `st`, but with the lines and the error of `rd` to be read.
spec fn reading_from(st: LexStateView, lines: Seq<Seq<char>>, failure: Option<
    std::io::Error,
>) -> LexStateView {
    LexStateView { rd: ReaderView { lines, next: st.rd.next, failure }, ..st }
}

proof fn lemma_line_reading_from(
    st: LexStateView,
    line: Seq<char>,
    lines: Seq<Seq<char>>,
    failure: Option<std::io::Error>,
)
    ensures
        match line_lexed(st, line) {
            None => line_lexed(reading_from(st, lines, failure), line) is None,
            Some(next) => line_lexed(reading_from(st, lines, failure), line) == Some(
                reading_from(next, lines, failure),
            ),
        },
{
    lines_add_on_their_own(st, line);
    lines_add_on_their_own(reading_from(st, lines, failure), line);
    assert(emptied(st) == emptied(reading_from(st, lines, failure)));
}

/// Lines behind those of `st`, and an error behind all of them, change nothing of what comes
/// before.
proof fn lemma_lines_reading_from(
    st: LexStateView,
    extra: Seq<Seq<char>>,
    failure: Option<std::io::Error>,
)
    requires
        st.rd.valid(),
        extra.len() <= 1,
    ensures
        ({
            let all = lines_lexed(st);
            let longer = reading_from(all.state, st.rd.lines + extra, failure);
            lines_lexed(reading_from(st, st.rd.lines + extra, failure)) == if all.complete {
                lines_lexed(longer)
            } else {
                LinesView { state: longer, complete: false }
            }
        }),
    decreases st.rd.lines.len() - st.rd.next,
{
    let lines = st.rd.lines + extra;
    let more = reading_from(st, lines, failure);
    if st.rd.has_line() {
        let line = st.rd.lines[st.rd.next];
        let read = LexStateView { rd: st.rd.after_line(), ..st };
        let more_read = LexStateView { rd: more.rd.after_line(), ..more };
        assert(lines[st.rd.next] == line);
        assert(more_read == reading_from(read, lines, failure));
        lemma_line_reading_from(read, line, lines, failure);
        if line_lexed(read, line) is Some {
            line_keeps_reader(read, line);
            let next = line_lexed(read, line)->0;
            lemma_lines_reading_from(next, extra, failure);
            line_keeps_reader(more_read, line);
        }
    }
}

proof fn lemma_all_read(st: LexStateView)
    requires
        st.rd.valid(),
        lines_lexed(st).complete,
    ensures
        lines_lexed(st).state.rd.next == st.rd.lines.len(),
        lines_lexed(st).state.rd.lines == st.rd.lines,
        lines_lexed(st).state.rd.failure == st.rd.failure,
        st.pos.line == 1 + st.rd.next ==> {
            let end = lines_lexed(st).state.pos;
            st.rd.has_line() ==> end == (PositionView {
                file_id: st.pos.file_id,
                line: 1 + st.rd.lines.len() as int,
                column_bytes: 1,
                column_graphemes: 1,
            })
        },
    decreases st.rd.lines.len() - st.rd.next,
{
    if st.rd.has_line() {
        let line = st.rd.lines[st.rd.next];
        let read = LexStateView { rd: st.rd.after_line(), ..st };
        line_keeps_reader(read, line);
        line_adds_at_the_end(read, line);
        lemma_all_read(line_lexed(read, line)->0);
    }
}

/// A file without lines has nothing in it.
pub proof fn empty_files_are_empty(file_id: int)
    ensures
        file_lexed(file_id, reader_of(Seq::empty())) == (FileLexView {
            requests: Seq::empty(),
            result: Some(
                Ok(
                    LexResultView {
                        file_id,
                        tokens: Seq::empty(),
                        const_macros: Seq::empty(),
                        macro_funcs: Seq::empty(),
                        modules: Seq::empty(),
                        errors: Seq::empty(),
                    },
                ),
            ),
        }),
{
}

/// With one more line at its end, a file has everything that it had without that line, in the same
/// order, and behind it everything that the line has when it is lexed on its own, on the line
/// below; and nothing else. A line that cannot be lexed takes the result away, and so does one
/// before it, but none of the requests made before.
pub proof fn files_grow_line_by_line(file_id: int, lines: Seq<Seq<char>>, line: Seq<char>)
    ensures
        ({
            let shorter = file_lexed(file_id, reader_of(lines));
            let longer = file_lexed(file_id, reader_of(lines.push(line)));
            match shorter.result {
                Some(Ok(r)) => match line_lexed(fresh_line(file_id, lines.len() + 1int), line) {
                    Some(more) => {
                        &&& longer.requests == shorter.requests + more.requests
                        &&& longer.result == Some(
                            Ok::<LexResultView, LexErrorView>(
                                LexResultView {
                                    file_id,
                                    tokens: r.tokens + more.tokens,
                                    const_macros: r.const_macros + more.const_macros,
                                    macro_funcs: r.macro_funcs + more.macro_funcs,
                                    modules: Seq::empty(),
                                    errors: r.errors + more.errors,
                                },
                            ),
                        )
                    },
                    None => longer.result is None && longer.requests == shorter.requests,
                },
                Some(Err(_)) => false,
                None => longer.result is None && longer.requests == shorter.requests,
            }
        }),
{
    let start = LexStateView::start(file_id, reader_of(lines));
    let all = lines_lexed(start);
    let extra = seq![line];
    let none: Option<std::io::Error> = None;
    assert(lines + extra =~= lines.push(line));
    assert(reading_from(start, lines + extra, none) == LexStateView::start(
        file_id,
        reader_of(lines.push(line)),
    ));
    lemma_lines_reading_from(start, extra, none);
    if all.complete {
        lemma_all_read(start);
        let end = reading_from(all.state, lines + extra, none);
        let read = LexStateView { rd: end.rd.after_line(), ..end };
        assert(end.rd.lines[end.rd.next] == line);
        assert(end.pos == fresh_line(file_id, lines.len() + 1int).pos) by {
            if lines.len() == 0 {
                assert(all.state == start);
            }
        }
        lines_add_on_their_own(read, line);
        assert(emptied(read) == fresh_line(file_id, lines.len() + 1int));
        if line_lexed(read, line) is Some {
            line_keeps_reader(read, line);
            let next = line_lexed(read, line)->0;
            assert(lines_lexed(next) == LinesView { state: next, complete: true });
        }
    }
}

/// An error behind the last line that could be read takes the place of the result, where there
/// would have been one, and takes away none of the requests.
pub proof fn read_errors_are_the_result(
    file_id: int,
    lines: Seq<Seq<char>>,
    err: std::io::Error,
)
    ensures
        ({
            let whole = file_lexed(file_id, reader_of(lines));
            let broken = file_lexed(
                file_id,
                ReaderView { lines, next: 0, failure: Some(err) },
            );
            &&& broken.requests == whole.requests
            &&& broken.result is None <==> whole.result is None
            &&& broken.result is Some ==> broken.result == Some(
                Err::<LexResultView, LexErrorView>(LexErrorView::Io(err)),
            )
        }),
{
    let start = LexStateView::start(file_id, reader_of(lines));
    let none = Seq::<Seq<char>>::empty();
    assert(lines + none =~= lines);
    lemma_lines_reading_from(start, none, Some(err));
    if lines_lexed(start).complete {
        lemma_all_read(start);
    }
}

} // verus!
