//! What lines with a macro definition add.
use crate::common::ConstMacroView;
use crate::graphemes::grapheme_count;
use crate::lex_error::{LexErrorView, SpannedView};
use crate::lexer::{LexStateView, line_lexed};
use crate::line::{error_in, lexed, token_in};
use crate::macros::{
    MacroFuncStep, is_assign, lemma_signature_assigned, macro_func, no_definition, signature,
    visible_class,
};
use crate::position::PositionView;
use crate::reader::ReaderView;
use crate::spelling::{moved, stretch};
use crate::streams::{
    below, end_place, is_blank, is_tight, lemma_sorted_out, lexing_loses_nothing, runs_out,
    sorted_out, steps, stripping, texts_are_lexed_where_they_run_out,
};
use crate::text::{
    byte_len, drop_bytes, is_white_space, lemma_byte_len_add, lemma_drop_bytes_at,
    lemma_prefix_while, lemma_prefix_while_is, prefix_while, trim_end, trim_start,
    white_space_class,
};
use crate::tokens::{OperatorKind, TokenKindView, TokenView};
use crate::word::{past_white_space, peeled};
use vstd::prelude::*;

verus! {

/// `line` defines a macro: `#!def ` stands behind the white space `before`, and `def`, which is not
/// all white space, behind that.
pub open spec fn is_definition(line: Seq<char>, before: Seq<char>, def: Seq<char>) -> bool {
    &&& line == before + seq!['#', '!', 'd', 'e', 'f', ' '] + def
    &&& is_blank(before)
    &&& !is_blank(def)
}

/// Where the `#` of a definition stands.
pub open spec fn mark_place(p: PositionView, line: Seq<char>, before: Seq<char>) -> PositionView {
    moved(
        p,
        byte_len(before) as int,
        grapheme_count(line) - grapheme_count(line.skip(before.len() as int)),
    )
}

/// A definition as the line of code that it is stripped to.
proof fn lemma_definition(line: Seq<char>, before: Seq<char>, def: Seq<char>, p: PositionView) -> (
    kept: Seq<char>)
    requires
        is_definition(line, before, def),
    ensures
        kept.is_prefix_of(def),
        kept.len() > 0,
        !is_white_space(kept.last()),
        is_blank(def.skip(kept.len() as int)),
        trim_end(trim_start(line)) == seq!['#', '!', 'd', 'e', 'f', ' '] + kept,
        "#!def "@.is_prefix_of(trim_end(trim_start(line))),
        trim_end(trim_start(line)).skip(6) == kept,
        trim_end(trim_start(line))[0] == '#',
        past_white_space(line, p) == mark_place(p, line, before),
{
    let mark = seq!['#', '!', 'd', 'e', 'f', ' '];
    reveal_strlit("#!def ");
    let r = def.reverse();
    let m = prefix_while(r, white_space_class()) as int;
    lemma_prefix_while(r, white_space_class());
    assert(m < def.len()) by {
        if m >= def.len() {
            assert forall|i: int| 0 <= i < def.len() implies is_white_space(#[trigger] def[i]) by {
                assert(white_space_class()(r[def.len() - 1 - i]));
            }
        }
    }
    let k = def.len() - m;
    let kept = def.take(k);
    let after = def.skip(k);
    assert(is_blank(after)) by {
        assert forall|i: int| 0 <= i < after.len() implies is_white_space(#[trigger] after[i]) by {
            assert(white_space_class()(r[m - 1 - i]));
        }
    }
    assert(r[m] == kept.last());
    let t = mark + kept;
    assert(t.last() == kept.last());
    assert(is_tight(t));
    assert(before + t + after =~= line);
    stripping(before, t, after);
    assert(t.take(6) =~= "#!def "@);
    assert(t.skip(6) =~= kept);
    assert(line.skip(before.len() as int) =~= t + after);
    assert(line =~= before + (t + after));
    lemma_byte_len_add(before, t + after);
    kept
}

/// A name without white space.
pub open spec fn is_visible(name: Seq<char>) -> bool {
    forall|i: int| 0 <= i < name.len() ==> !is_white_space(#[trigger] name[i])
}

/// Behind six bytes of a line and the white space that follows them, the name of a macro reaches
/// to the next white space or to the end.
proof fn lemma_macro_name(
    line: Seq<char>,
    head: Seq<char>,
    blank: Seq<char>,
    name: Seq<char>,
    rest: Seq<char>,
)
    requires
        line == head + blank + name + rest,
        byte_len(head) == 6,
        is_blank(blank),
        is_visible(name),
        name.len() == 0 ==> rest.len() == 0,
        rest.len() > 0 ==> is_white_space(rest[0]),
    ensures
        drop_bytes(line, 6) is Some,
        ({
            let def = trim_start(drop_bytes(line, 6)->0);
            &&& def == name + rest
            &&& prefix_while(def, visible_class()) == name.len()
            &&& def.take(name.len() as int) == name
            &&& def.skip(name.len() as int) == rest
        }),
{
    let h = head.len() as int;
    assert(line.take(h) =~= head);
    lemma_drop_bytes_at(line, h);
    let cut = line.skip(h);
    assert(cut =~= blank + name + rest);
    let b = blank.len() as int;
    assert forall|i: int| 0 <= i < b implies white_space_class()(#[trigger] cut[i]) by {
        assert(cut[i] == blank[i]);
    }
    if name.len() > 0 {
        assert(cut[b] == name[0]);
    }
    lemma_prefix_while_is(cut, white_space_class(), b);
    let def = trim_start(cut);
    assert(def =~= name + rest);
    let n = name.len() as int;
    assert forall|i: int| 0 <= i < n implies visible_class()(#[trigger] def[i]) by {
        assert(def[i] == name[i]);
    }
    if rest.len() > 0 {
        assert(def[n] == rest[0]);
    }
    lemma_prefix_while_is(def, visible_class(), n);
    assert(def.take(n) =~= name);
    assert(def.skip(n) =~= rest);
}

/// A definition without a parenthesis adds one macro. Its name is what stands behind the first six
/// bytes of the line and the white space there, up to the next white space, all of it; and its
/// tokens are what comes up in all that follows, each token once and in order. The errors among
/// that are added too, and nothing else is.
pub proof fn macros_are_defined(
    st: LexStateView,
    line: Seq<char>,
    before: Seq<char>,
    def: Seq<char>,
    head: Seq<char>,
    blank: Seq<char>,
    name: Seq<char>,
    body: Seq<char>,
)
    requires
        is_definition(line, before, def),
        !line.contains('('),
        line == head + blank + name + body,
        byte_len(head) == 6,
        is_blank(blank),
        is_visible(name),
        name.len() > 0,
        body.len() > 0 && is_white_space(body[0]),
        line_lexed(st, line) is Some,
    ensures
        ({
            let p = mark_place(st.pos, line, before);
            let next = line_lexed(st, line)->0;
            let n = st.const_macros.len() as int;
            let m = st.errors.len() as int;
            &&& next.const_macros.len() == n + 1
            &&& next.const_macros.take(n) == st.const_macros
            &&& next.const_macros[n] matches ConstMacroView::Tokens(its_name, tokens)
                && its_name == name && next.errors.len() >= m && next.errors.take(m) == st.errors
                && sorted_out(steps(body, p), tokens, next.errors.skip(m))
            &&& next.tokens == st.tokens
            &&& next.macro_funcs == st.macro_funcs
            &&& next.requests == st.requests
            &&& next.rd == st.rd
            &&& next.pos == below(end_place(body, p))
        }),
{
    let p = mark_place(st.pos, line, before);
    let kept = lemma_definition(line, before, def, st.pos);
    lemma_macro_name(line, head, blank, name, body);
    let next = line_lexed(st, line)->0;
    lexing_loses_nothing(body, p);
    let n = st.const_macros.len() as int;
    let m = st.errors.len() as int;
    assert(next.const_macros.take(n) =~= st.const_macros);
    assert(next.errors.take(m) =~= st.errors);
    assert(next.errors.skip(m) =~= lexed(body, p)->0.errors);
}

/// A definition without a parenthesis, with a name and something behind it, can be lexed where
/// peeling comes to the end of that, and nowhere else.
pub proof fn macros_are_defined_where_bodies_run_out(
    st: LexStateView,
    line: Seq<char>,
    before: Seq<char>,
    def: Seq<char>,
    head: Seq<char>,
    blank: Seq<char>,
    name: Seq<char>,
    body: Seq<char>,
)
    requires
        is_definition(line, before, def),
        !line.contains('('),
        line == head + blank + name + body,
        byte_len(head) == 6,
        is_blank(blank),
        is_visible(name),
        name.len() > 0,
        body.len() > 0 && is_white_space(body[0]),
    ensures
        line_lexed(st, line) is Some <==> runs_out(body, mark_place(st.pos, line, before)),
{
    let _ = lemma_definition(line, before, def, st.pos);
    lemma_macro_name(line, head, blank, name, body);
    texts_are_lexed_where_they_run_out(body, mark_place(st.pos, line, before));
}

/// A definition without a parenthesis, with a name and nothing behind it, adds the error that the
/// macro of that name has no definition, and nothing else.
pub proof fn names_alone_define_nothing(
    st: LexStateView,
    line: Seq<char>,
    before: Seq<char>,
    def: Seq<char>,
    head: Seq<char>,
    blank: Seq<char>,
    name: Seq<char>,
)
    requires
        is_definition(line, before, def),
        !line.contains('('),
        line == head + blank + name,
        byte_len(head) == 6,
        is_blank(blank),
        is_visible(name),
    ensures
        ({
            let p = mark_place(st.pos, line, before);
            line_lexed(st, line) == Some(
                LexStateView {
                    pos: below(p),
                    tokens: st.tokens,
                    const_macros: st.const_macros,
                    macro_funcs: st.macro_funcs,
                    errors: st.errors.push(
                        LexErrorView::NoMacroDef(
                            SpannedView {
                                bad: name,
                                prov: stretch(p, grapheme_count(name) as int),
                            },
                        ),
                    ),
                    requests: st.requests,
                    rd: st.rd,
                },
            )
        }),
{
    let p = mark_place(st.pos, line, before);
    let kept = lemma_definition(line, before, def, st.pos);
    let none = Seq::<char>::empty();
    assert(line =~= head + blank + name + none);
    lemma_macro_name(line, head, blank, name, none);
    assert(name + none =~= name);
    let next = line_lexed(st, line)->0;
    assert(next.const_macros =~= st.const_macros);
    assert(next.errors =~= st.errors.push(no_definition(name, p)));
}

/// What is left of `s` after `n` steps.
pub open spec fn text_after(s: Seq<char>, p: PositionView, n: int) -> Seq<char>
    decreases n,
{
    if n <= 0 {
        s
    } else {
        match peeled(s, p) {
            Some(first) => match first.tail {
                Some(tail) => text_after(tail, first.pos, n - 1),
                None => Seq::empty(),
            },
            None => s,
        }
    }
}

/// The position after `n` steps.
pub open spec fn place_after(s: Seq<char>, p: PositionView, n: int) -> PositionView
    decreases n,
{
    if n <= 0 {
        p
    } else {
        match peeled(s, p) {
            Some(first) => match first.tail {
                Some(tail) => place_after(tail, first.pos, n - 1),
                None => first.pos,
            },
            None => p,
        }
    }
}

/// `outcome` is the operator `=`.
pub open spec fn is_equals_sign(outcome: Result<TokenView, LexErrorView>) -> bool {
    outcome matches Ok(token) && token.kind == TokenKindView::Operator(OperatorKind::Assign)
}

/// Step `n` is the first that yields `=`, or the last one where none does. `outcomes` are those of
/// the steps before, and of that step too where it does not yield `=`.
pub open spec fn ends_signature(
    s: Seq<char>,
    p: PositionView,
    n: int,
    outcomes: Seq<Result<TokenView, LexErrorView>>,
) -> bool {
    let all = steps(s, p);
    &&& 0 <= n < all.len()
    &&& forall|i: int| 0 <= i < n ==> !is_equals_sign(#[trigger] all[i])
    &&& is_equals_sign(all[n]) && outcomes == all.take(n) || n == all.len() - 1
        && !is_equals_sign(all[n]) && outcomes == all
}

/// The signature of a macro with parameters is all that comes up before its `=`.
proof fn lemma_signature(s: Seq<char>, p: PositionView) -> (r: (
    int,
    Seq<Result<TokenView, LexErrorView>>,
))
    requires
        signature(s, p) is Some,
    ensures
        ({
            let (n, outcomes) = r;
            let sig = signature(s, p)->0;
            &&& ends_signature(s, p, n, outcomes)
            &&& sorted_out(outcomes, sig.tokens, sig.errors)
            &&& sig.assigned == is_equals_sign(steps(s, p)[n])
            &&& sig.rest == text_after(s, p, n)
            &&& sig.pos == place_after(s, p, n + 1)
        }),
    decreases s.len(),
{
    let first = peeled(s, p)->0;
    let sig = signature(s, p)->0;
    let all = steps(s, p);
    let none = Seq::<Result<TokenView, LexErrorView>>::empty();
    if is_assign(first.outcome) {
        assert(all[0] == first.outcome);
        assert(all.take(0) =~= none);
        assert(place_after(s, p, 1) == first.pos) by {
            if first.tail is Some {
                assert(place_after(first.tail->0, first.pos, 0) == first.pos);
            }
        }
        assert(sorted_out(none, sig.tokens, sig.errors));
        (0, none)
    } else {
        match first.tail {
            None => {
                assert(all =~= seq![first.outcome]);
                lemma_sorted_out(first.outcome, none, Seq::empty(), Seq::empty());
                assert(seq![first.outcome] + none =~= all);
                assert(token_in(first.outcome) + Seq::empty() =~= token_in(first.outcome));
                assert(error_in(first.outcome) + Seq::empty() =~= error_in(first.outcome));
                (0, all)
            },
            Some(tail) => {
                let (n, outcomes) = lemma_signature(tail, first.pos);
                let more = signature(tail, first.pos)->0;
                let rest = steps(tail, first.pos);
                let mine = seq![first.outcome] + outcomes;
                lemma_sorted_out(
                    first.outcome,
                    outcomes,
                    more.tokens,
                    more.errors,
                );
                assert(all == seq![first.outcome] + rest);
                assert(all[n + 1] == rest[n]);
                assert forall|i: int| 0 <= i < n + 1 implies !is_equals_sign(#[trigger] all[i]) by {
                    if i > 0 {
                        assert(all[i] == rest[i - 1]);
                    }
                }
                if outcomes == rest.take(n) {
                    assert(mine =~= all.take(n + 1));
                }
                (n + 1, mine)
            },
        }
    }
}

/// A definition with a parenthesis adds no macro. It adds the errors that come up before its `=`,
/// each of them once and in order, and then that what starts with that `=`, or with its last token
/// where there is no `=`, has no definition; and nothing else. What is looked at starts six bytes
/// and any white space behind `#!def `.
pub proof fn macros_with_parameters_are_refused(
    st: LexStateView,
    line: Seq<char>,
    before: Seq<char>,
    def: Seq<char>,
    kept: Seq<char>,
    head: Seq<char>,
    blank: Seq<char>,
    sig: Seq<char>,
) -> (r: (int, Seq<Result<TokenView, LexErrorView>>, Seq<TokenView>))
    requires
        is_definition(line, before, def),
        line.contains('('),
        kept.is_prefix_of(def) && kept.len() > 0 && !is_white_space(kept.last()),
        is_blank(def.skip(kept.len() as int)),
        kept == head + blank + sig,
        byte_len(head) == 6,
        is_blank(blank),
        sig.len() > 0 ==> !is_white_space(sig[0]),
        line_lexed(st, line) is Some,
    ensures
        ({
            let p = mark_place(st.pos, line, before);
            let (n, outcomes, tokens) = r;
            let bad = text_after(sig, p, n);
            let end = place_after(sig, p, n + 1);
            let next = line_lexed(st, line)->0;
            let m = st.errors.len() as int;
            &&& ends_signature(sig, p, n, outcomes)
            &&& next.errors.len() > m
            &&& next.errors.take(m) == st.errors
            &&& sorted_out(outcomes, tokens, next.errors.skip(m).drop_last())
            &&& next.errors.last() == LexErrorView::NoMacroDef(
                SpannedView { bad, prov: stretch(end, grapheme_count(bad) as int) },
            )
            &&& next.pos == below(end)
            &&& next.tokens == st.tokens
            &&& next.const_macros == st.const_macros
            &&& next.macro_funcs == st.macro_funcs
            &&& next.requests == st.requests
            &&& next.rd == st.rd
        }),
{
    let p = mark_place(st.pos, line, before);
    let found = lemma_definition(line, before, def, st.pos);
    assert(found == kept) by {
        lemma_same_kept(def, found, kept);
    }
    lemma_signature_text(kept, head, blank, sig);
    let (n, outcomes) = lemma_signature(sig, p);
    let view = signature(sig, p)->0;
    lemma_refused_step(kept, st.rd, p);
    let next = line_lexed(st, line)->0;
    let m = st.errors.len() as int;
    let bad = no_definition(view.rest, view.pos);
    assert(next.errors =~= st.errors + view.errors + seq![bad]);
    assert(next.errors.take(m) =~= st.errors);
    assert(next.errors.skip(m).drop_last() =~= view.errors);
    assert(next.macro_funcs =~= st.macro_funcs);
    (n, outcomes, view.tokens)
}

/// A text that is peeled again and again gets shorter each time, until `=` comes up or nothing is
/// left.
pub open spec fn runs_to_equals_sign(s: Seq<char>, p: PositionView) -> bool
    decreases s.len(),
{
    match peeled(s, p) {
        None => false,
        Some(first) => is_equals_sign(first.outcome) || match first.tail {
            None => true,
            Some(tail) => tail.len() < s.len() && runs_to_equals_sign(tail, first.pos),
        },
    }
}

proof fn lemma_signature_reached(s: Seq<char>, p: PositionView)
    ensures
        signature(s, p) is Some <==> runs_to_equals_sign(s, p),
    decreases s.len(),
{
    if let Some(first) = peeled(s, p) {
        if let Some(tail) = first.tail {
            if tail.len() < s.len() {
                lemma_signature_reached(tail, first.pos);
            }
        }
    }
}

/// A definition with a parenthesis can be lexed where peeling comes to its `=` or to its end, and
/// nowhere else.
pub proof fn macros_with_parameters_are_read(
    st: LexStateView,
    line: Seq<char>,
    before: Seq<char>,
    def: Seq<char>,
    kept: Seq<char>,
    head: Seq<char>,
    blank: Seq<char>,
    sig: Seq<char>,
)
    requires
        is_definition(line, before, def),
        line.contains('('),
        kept.is_prefix_of(def) && kept.len() > 0 && !is_white_space(kept.last()),
        is_blank(def.skip(kept.len() as int)),
        kept == head + blank + sig,
        byte_len(head) == 6,
        is_blank(blank),
        sig.len() > 0 ==> !is_white_space(sig[0]),
    ensures
        line_lexed(st, line) is Some <==> runs_to_equals_sign(
            sig,
            mark_place(st.pos, line, before),
        ),
{
    let p = mark_place(st.pos, line, before);
    let found = lemma_definition(line, before, def, st.pos);
    lemma_same_kept(def, found, kept);
    lemma_signature_text(kept, head, blank, sig);
    lemma_signature_reached(sig, p);
    if signature(sig, p) is Some && signature(sig, p)->0.assigned {
        lemma_signature_assigned(sig, p);
    }
}

/// Behind six bytes of a definition and the white space that follows them is its signature.
proof fn lemma_signature_text(
    kept: Seq<char>,
    head: Seq<char>,
    blank: Seq<char>,
    sig: Seq<char>,
)
    requires
        kept == head + blank + sig,
        byte_len(head) == 6,
        is_blank(blank),
        sig.len() > 0 ==> !is_white_space(sig[0]),
    ensures
        drop_bytes(kept, 6) is Some,
        trim_start(drop_bytes(kept, 6)->0) == sig,
{
    let h = head.len() as int;
    assert(kept.take(h) =~= head);
    lemma_drop_bytes_at(kept, h);
    let cut = kept.skip(h);
    assert(cut =~= blank + sig);
    let b = blank.len() as int;
    assert forall|i: int| 0 <= i < b implies white_space_class()(#[trigger] cut[i]) by {
        assert(cut[i] == blank[i]);
    }
    if sig.len() > 0 {
        assert(cut[b] == sig[0]);
    }
    lemma_prefix_while_is(cut, white_space_class(), b);
    assert(trim_start(cut) =~= sig);
}

proof fn lemma_same_kept(def: Seq<char>, a: Seq<char>, b: Seq<char>)
    requires
        a.is_prefix_of(def) && a.len() > 0 && !is_white_space(a.last()),
        b.is_prefix_of(def) && b.len() > 0 && !is_white_space(b.last()),
        is_blank(def.skip(a.len() as int)),
        is_blank(def.skip(b.len() as int)),
    ensures
        a == b,
{
    assert(a =~= def.take(a.len() as int));
    assert(b =~= def.take(b.len() as int));
    if a.len() < b.len() {
        assert(b.last() == def.skip(a.len() as int)[b.len() - 1 - a.len()]);
    } else if b.len() < a.len() {
        assert(a.last() == def.skip(b.len() as int)[a.len() - 1 - b.len()]);
    }
}

pub proof fn lemma_refused_step(def: Seq<char>, rd: ReaderView, p: PositionView)
    requires
        macro_func(def, rd, p) is Some,
    ensures
        ({
            let sig = signature(trim_start(drop_bytes(def, 6)->0), p)->0;
            macro_func(def, rd, p)->0 == (MacroFuncStep {
                macros: Seq::empty(),
                errors: sig.errors + seq![no_definition(sig.rest, sig.pos)],
                rd,
                pos: sig.pos,
                failure: None,
            })
        }),
{
    let sig = signature(trim_start(drop_bytes(def, 6)->0), p)->0;
    if sig.assigned {
        lemma_signature_assigned(trim_start(drop_bytes(def, 6)->0), p);
    }
}

} // verus!
