//! What lines and files add up to: nothing of them is lost, and nothing comes up twice.
use crate::graphemes::grapheme_count;
use crate::laws::lemma_tokenized_on_line;
use crate::lex_error::LexErrorView;
use crate::lexer::{LexStateView, ModIdRequestView, directive_lexed, line_lexed};
use crate::line::{error_in, lexed, token_in};
use crate::position::PositionView;
use crate::spelling::{moved, stretch};
use crate::text::{
    byte_len, is_white_space, lemma_byte_len_add, lemma_prefix_while_is, trim_end, trim_start,
    white_space_class,
};
use crate::tokens::{DelimKind, TokenKindView, TokenView};
use crate::word::{past_white_space, peeled, tokenized};
use vstd::prelude::*;

verus! {

/// What comes up when a text is peeled again and again until nothing is left.
pub open spec fn steps(s: Seq<char>, p: PositionView) -> Seq<Result<TokenView, LexErrorView>>
    decreases s.len(),
{
    match peeled(s, p) {
        None => Seq::empty(),
        Some(first) => match first.tail {
            None => seq![first.outcome],
            Some(tail) => if tail.len() < s.len() {
                seq![first.outcome] + steps(tail, first.pos)
            } else {
                seq![first.outcome]
            },
        },
    }
}

/// The position once nothing is left of a text.
pub open spec fn end_place(s: Seq<char>, p: PositionView) -> PositionView
    decreases s.len(),
{
    match peeled(s, p) {
        None => p,
        Some(first) => match first.tail {
            None => first.pos,
            Some(tail) => if tail.len() < s.len() {
                end_place(tail, first.pos)
            } else {
                first.pos
            },
        },
    }
}

/// How many of the first `n` outcomes are tokens.
pub open spec fn tokens_before(outcomes: Seq<Result<TokenView, LexErrorView>>, n: int) -> int
    decreases n,
{
    if n <= 0 {
        0
    } else {
        tokens_before(outcomes, n - 1) + if outcomes[n - 1] is Ok {
            1int
        } else {
            0
        }
    }
}

/// `tokens` and `errors` are those among `outcomes`, each of them once and in their order.
pub open spec fn sorted_out(
    outcomes: Seq<Result<TokenView, LexErrorView>>,
    tokens: Seq<TokenView>,
    errors: Seq<LexErrorView>,
) -> bool {
    &&& tokens.len() + errors.len() == outcomes.len()
    &&& forall|i: int|
        0 <= i < outcomes.len() ==> {
            let t = tokens_before(outcomes, i);
            match #[trigger] outcomes[i] {
                Ok(token) => 0 <= t < tokens.len() && tokens[t] == token,
                Err(error) => 0 <= i - t < errors.len() && errors[i - t] == error,
            }
        }
}

proof fn lemma_tokens_before(
    first: Result<TokenView, LexErrorView>,
    more: Seq<Result<TokenView, LexErrorView>>,
    n: int,
)
    requires
        0 <= n <= more.len(),
    ensures
        tokens_before(seq![first] + more, n + 1) == tokens_before(more, n) + if first is Ok {
            1int
        } else {
            0
        },
    decreases n,
{
    let all = seq![first] + more;
    if n > 0 {
        lemma_tokens_before(first, more, n - 1);
        assert(all[n] == more[n - 1]);
    } else {
        assert(all[0] == first);
        assert(tokens_before(all, 0) == 0);
    }
}

pub proof fn lemma_sorted_out(
    first: Result<TokenView, LexErrorView>,
    more: Seq<Result<TokenView, LexErrorView>>,
    tokens: Seq<TokenView>,
    errors: Seq<LexErrorView>,
)
    requires
        sorted_out(more, tokens, errors),
    ensures
        sorted_out(seq![first] + more, token_in(first) + tokens, error_in(first) + errors),
{
    let all = seq![first] + more;
    let all_tokens = token_in(first) + tokens;
    let all_errors = error_in(first) + errors;
    assert forall|i: int| 0 <= i < all.len() implies {
        let t = tokens_before(all, i);
        match #[trigger] all[i] {
            Ok(token) => 0 <= t < all_tokens.len() && all_tokens[t] == token,
            Err(error) => 0 <= i - t < all_errors.len() && all_errors[i - t] == error,
        }
    } by {
        if i > 0 {
            lemma_tokens_before(first, more, i - 1);
            assert(all[i] == more[i - 1]);
        }
    }
}

/// Nothing of a text that is lexed is lost: its tokens and errors are what comes up when it is
/// peeled again and again, each of them once and in their order, whatever their kinds are.
pub proof fn lexing_loses_nothing(s: Seq<char>, p: PositionView)
    requires
        lexed(s, p) is Some,
    ensures
        sorted_out(steps(s, p), lexed(s, p)->0.tokens, lexed(s, p)->0.errors),
        lexed(s, p)->0.pos == end_place(s, p),
    decreases s.len(),
{
    let first = peeled(s, p)->0;
    match first.tail {
        None => {
            let none = Seq::<Result<TokenView, LexErrorView>>::empty();
            assert(sorted_out(none, Seq::empty(), Seq::empty()));
            lemma_sorted_out(first.outcome, none, Seq::empty(), Seq::empty());
            assert(seq![first.outcome] + none =~= seq![first.outcome]);
            assert(token_in(first.outcome) + Seq::empty() =~= token_in(first.outcome));
            assert(error_in(first.outcome) + Seq::empty() =~= error_in(first.outcome));
        },
        Some(tail) => {
            lexing_loses_nothing(tail, first.pos);
            let rest = lexed(tail, first.pos)->0;
            lemma_sorted_out(first.outcome, steps(tail, first.pos), rest.tokens, rest.errors);
        },
    }
}

/// A text that is peeled again and again gets shorter each time, until nothing is left.
pub open spec fn runs_out(s: Seq<char>, p: PositionView) -> bool
    decreases s.len(),
{
    match peeled(s, p) {
        None => false,
        Some(first) => match first.tail {
            None => true,
            Some(tail) => tail.len() < s.len() && runs_out(tail, first.pos),
        },
    }
}

/// A text can be lexed where peeling comes to its end, and nowhere else.
pub proof fn texts_are_lexed_where_they_run_out(s: Seq<char>, p: PositionView)
    ensures
        lexed(s, p) is Some <==> runs_out(s, p),
    decreases s.len(),
{
    if let Some(first) = peeled(s, p) {
        if let Some(tail) = first.tail {
            if tail.len() < s.len() {
                texts_are_lexed_where_they_run_out(tail, first.pos);
            }
        }
    }
}

/// All characters of `w` are white space.
pub open spec fn is_blank(w: Seq<char>) -> bool {
    forall|i: int| 0 <= i < w.len() ==> is_white_space(#[trigger] w[i])
}

/// `t` neither starts nor ends with white space, and is not empty.
pub open spec fn is_tight(t: Seq<char>) -> bool {
    t.len() > 0 && !is_white_space(t[0]) && !is_white_space(t.last())
}

/// Nothing but the white space around a text is stripped off.
pub proof fn stripping(before: Seq<char>, t: Seq<char>, after: Seq<char>)
    requires
        is_blank(before),
        is_blank(after),
        t.len() == 0 || is_tight(t),
    ensures
        trim_end(trim_start(before + t + after)) == t,
        t.len() > 0 ==> trim_start(before + t + after) == t + after,
        t.len() == 0 ==> trim_start(before + t + after) == Seq::<char>::empty(),
        trim_start(t + after) == if t.len() > 0 {
            t + after
        } else {
            Seq::<char>::empty()
        },
{
    let s = before + t + after;
    let n: int = if t.len() > 0 {
        before.len() as int
    } else {
        s.len() as int
    };
    assert forall|i: int| 0 <= i < n implies white_space_class()(#[trigger] s[i]) by {
        if i < before.len() {
            assert(s[i] == before[i]);
        } else {
            assert(s[i] == after[i - before.len()]);
        }
    }
    if t.len() > 0 {
        assert(s[n] == t[0]);
    }
    lemma_prefix_while_is(s, white_space_class(), n);
    let u = trim_start(s);
    if t.len() > 0 {
        assert(u =~= t + after);
    } else {
        assert(u =~= Seq::empty());
    }
    let r = u.reverse();
    let m: int = if t.len() > 0 {
        after.len() as int
    } else {
        0
    };
    assert forall|i: int| 0 <= i < m implies white_space_class()(#[trigger] r[i]) by {
        assert(r[i] == u[u.len() - 1 - i]);
        assert(r[i] == after[after.len() - 1 - i]);
    }
    if t.len() > 0 {
        assert(r[m] == t.last());
    }
    lemma_prefix_while_is(r, white_space_class(), m);
    assert(trim_end(u) =~= t);
    let v = t + after;
    let k: int = if t.len() > 0 {
        0
    } else {
        v.len() as int
    };
    assert forall|i: int| 0 <= i < k implies white_space_class()(#[trigger] v[i]) by {
        assert(v[i] == after[i]);
    }
    if t.len() > 0 {
        assert(v[0] == t[0]);
    }
    lemma_prefix_while_is(v, white_space_class(), k);
    assert(v.skip(0) =~= v);
    assert(v.skip(v.len() as int) =~= Seq::empty());
}

/// Where the text of a line starts, behind the white space before it.
pub open spec fn text_place(
    p: PositionView,
    before: Seq<char>,
    t: Seq<char>,
    after: Seq<char>,
) -> PositionView {
    moved(
        p,
        byte_len(before) as int,
        grapheme_count(before + t + after) - grapheme_count(t + after),
    )
}

/// The start of the line below `p`.
pub open spec fn below(p: PositionView) -> PositionView {
    PositionView { file_id: p.file_id, line: p.line + 1, column_bytes: 1, column_graphemes: 1 }
}

proof fn lemma_text_place(p: PositionView, before: Seq<char>, t: Seq<char>, after: Seq<char>)
    requires
        is_blank(before),
        is_blank(after),
        is_tight(t),
    ensures
        past_white_space(before + t + after, p) == text_place(p, before, t, after),
{
    stripping(before, t, after);
    assert(before + t + after =~= before + (t + after));
    lemma_byte_len_add(before, t + after);
}

/// A line with code adds everything that comes up in it, each token and each error once and in
/// order, and then the end of the line. It adds nothing else.
pub proof fn code_lines_lose_nothing(
    st: LexStateView,
    before: Seq<char>,
    t: Seq<char>,
    after: Seq<char>,
)
    requires
        is_blank(before),
        is_blank(after),
        is_tight(t),
        t[0] != '#',
        line_lexed(st, before + t + after) is Some,
    ensures
        ({
            let p = text_place(st.pos, before, t, after);
            let next = line_lexed(st, before + t + after)->0;
            let n = st.tokens.len() as int;
            let m = st.errors.len() as int;
            &&& next.tokens.len() > n
            &&& next.tokens.take(n) == st.tokens
            &&& next.errors.len() >= m
            &&& next.errors.take(m) == st.errors
            &&& sorted_out(steps(t, p), next.tokens.skip(n).drop_last(), next.errors.skip(m))
            &&& next.tokens.last() == (TokenView {
                kind: TokenKindView::Delim(DelimKind::EndL),
                prov: stretch(end_place(t, p), 1),
            })
            &&& next.const_macros == st.const_macros
            &&& next.macro_funcs == st.macro_funcs
            &&& next.requests == st.requests
            &&& next.rd == st.rd
            &&& next.pos == below(end_place(t, p))
        }),
{
    let line = before + t + after;
    let p = text_place(st.pos, before, t, after);
    stripping(before, t, after);
    lemma_text_place(st.pos, before, t, after);
    lexing_loses_nothing(t, p);
    let next = line_lexed(st, line)->0;
    let n = st.tokens.len() as int;
    let m = st.errors.len() as int;
    let code = lexed(t, p)->0;
    assert(next.tokens.take(n) =~= st.tokens);
    assert(next.errors.take(m) =~= st.errors);
    assert(next.tokens.skip(n).drop_last() =~= code.tokens);
    assert(next.errors.skip(m) =~= code.errors);
}

/// A line with code can be lexed where peeling comes to its end, and nowhere else.
pub proof fn code_lines_are_lexed_where_they_run_out(
    st: LexStateView,
    before: Seq<char>,
    t: Seq<char>,
    after: Seq<char>,
)
    requires
        is_blank(before),
        is_blank(after),
        is_tight(t),
        t[0] != '#',
    ensures
        line_lexed(st, before + t + after) is Some <==> runs_out(
            t,
            text_place(st.pos, before, t, after),
        ),
{
    stripping(before, t, after);
    lemma_text_place(st.pos, before, t, after);
    texts_are_lexed_where_they_run_out(t, text_place(st.pos, before, t, after));
}

/// A line with `#!also ` and a name asks for the module of that name, where the `#` stands, and
/// does nothing else.
pub proof fn modules_are_asked_for(
    st: LexStateView,
    before: Seq<char>,
    blank: Seq<char>,
    name: Seq<char>,
    after: Seq<char>,
)
    requires
        is_blank(before),
        is_blank(blank),
        is_blank(after),
        is_tight(name),
    ensures
        ({
            let t = seq!['#', '!', 'a', 'l', 's', 'o', ' '] + blank + name;
            let p = text_place(st.pos, before, t, after);
            line_lexed(st, before + t + after) == Some(
                LexStateView {
                    pos: below(p),
                    tokens: st.tokens,
                    const_macros: st.const_macros,
                    macro_funcs: st.macro_funcs,
                    errors: st.errors,
                    requests: st.requests.push(
                        ModIdRequestView { parent_id: st.pos.file_id, name, pos: p },
                    ),
                    rd: st.rd,
                },
            )
        }),
{
    let mark = seq!['#', '!', 'a', 'l', 's', 'o', ' '];
    let t = mark + blank + name;
    assert(t.last() == name.last());
    assert(is_tight(t));
    stripping(before, t, after);
    lemma_text_place(st.pos, before, t, after);
    reveal_strlit("#!def ");
    reveal_strlit("#!also ");
    assert(t.take(7) =~= "#!also "@);
    assert(!"#!def "@.is_prefix_of(t)) by {
        assert(t.take(6)[2] == 'a');
        assert("#!def "@[2] == 'd');
    }
    let none = Seq::<char>::empty();
    assert(t.skip(7) =~= blank + name + none);
    stripping(blank, name, none);
}

/// A line with any other `#!` adds the directive that it is, or the error that there is no such
/// directive, and nothing else, not even the end of the line.
pub proof fn directive_lines_are_read(
    st: LexStateView,
    before: Seq<char>,
    d: Seq<char>,
    after: Seq<char>,
)
    requires
        is_blank(before),
        is_blank(after),
        d.len() > 0 ==> !is_white_space(d.last()),
        !(seq!['d', 'e', 'f', ' '].is_prefix_of(d)),
        !(seq!['a', 'l', 's', 'o', ' '].is_prefix_of(d)),
    ensures
        ({
            let t = seq!['#', '!'] + d;
            let p = text_place(st.pos, before, t, after);
            let read = tokenized(t, p);
            line_lexed(st, before + t + after) == Some(
                LexStateView {
                    pos: below(p),
                    tokens: match read.outcome {
                        Ok(token) => st.tokens.push(token),
                        Err(_) => st.tokens,
                    },
                    const_macros: st.const_macros,
                    macro_funcs: st.macro_funcs,
                    errors: match read.outcome {
                        Ok(_) => st.errors,
                        Err(error) => st.errors.push(error),
                    },
                    requests: st.requests,
                    rd: st.rd,
                },
            )
        }),
{
    let t = seq!['#', '!'] + d;
    let p = text_place(st.pos, before, t, after);
    if d.len() > 0 {
        assert(t.last() == d.last());
    }
    assert(is_tight(t));
    stripping(before, t, after);
    lemma_text_place(st.pos, before, t, after);
    lemma_other_mark(d);
    lemma_directive_adds(LexStateView { pos: p, ..st }, t);
}

/// What starts with `#!` is no definition and no request where it does not go on like one.
proof fn lemma_other_mark(d: Seq<char>)
    requires
        !(seq!['d', 'e', 'f', ' '].is_prefix_of(d)),
        !(seq!['a', 'l', 's', 'o', ' '].is_prefix_of(d)),
    ensures
        ({
            let t = seq!['#', '!'] + d;
            &&& "#!"@.is_prefix_of(t)
            &&& !"#!def "@.is_prefix_of(t)
            &&& !"#!also "@.is_prefix_of(t)
        }),
{
    let t = seq!['#', '!'] + d;
    reveal_strlit("#!def ");
    reveal_strlit("#!also ");
    reveal_strlit("#!");
    assert(t.take(2) =~= "#!"@);
    if "#!def "@.is_prefix_of(t) {
        let u = t.take(6);
        assert(u =~= "#!def "@);
        assert(d[0] == u[2] && d[1] == u[3] && d[2] == u[4] && d[3] == u[5]);
        assert(d.take(4) =~= seq!['d', 'e', 'f', ' ']);
    }
    if "#!also "@.is_prefix_of(t) {
        let u = t.take(7);
        assert(u =~= "#!also "@);
        assert(d[0] == u[2] && d[1] == u[3] && d[2] == u[4] && d[3] == u[5] && d[4] == u[6]);
        assert(d.take(5) =~= seq!['a', 'l', 's', 'o', ' ']);
    }
}

proof fn lemma_directive_adds(st: LexStateView, t: Seq<char>)
    ensures
        ({
            let read = tokenized(t, st.pos);
            directive_lexed(st, t) == (LexStateView {
                pos: below(st.pos),
                tokens: match read.outcome {
                    Ok(token) => st.tokens.push(token),
                    Err(_) => st.tokens,
                },
                errors: match read.outcome {
                    Ok(_) => st.errors,
                    Err(error) => st.errors.push(error),
                },
                ..st
            })
        }),
{
    let outcome = tokenized(t, st.pos).outcome;
    lemma_tokenized_on_line(t, st.pos);
    match outcome {
        Ok(token) => {
            assert(st.tokens + seq![token] =~= st.tokens.push(token));
            assert(st.errors + Seq::empty() =~= st.errors);
        },
        Err(error) => {
            assert(st.errors + seq![error] =~= st.errors.push(error));
            assert(st.tokens + Seq::empty() =~= st.tokens);
        },
    }
}

} // verus!
