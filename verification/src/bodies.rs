//! Where the bodies of macros end, and what is in them.
use crate::common::MacroFuncView;
use crate::lex_error::LexErrorView;
use crate::macros::{BodyEnd, BodyView, body_token, definition, depth_after, macro_body, tail_text};
use crate::position::PositionView;
use crate::reader::ReaderView;
use crate::spelling::stretch;
use crate::streams::{below, lemma_sorted_out, sorted_out};
use crate::tokens::{DelimKind, TokenKindView, TokenView};
use crate::word::peeled;
use vstd::prelude::*;

verus! {

/// What came up when a text was peeled, the position behind it, and how many lines of the file had
/// been handed out by then.
pub struct Peeling {
    pub outcome: Result<TokenView, LexErrorView>,
    pub pos: PositionView,
    pub next: int,
}

/// What comes up when `s` is peeled until nothing is left of it.
pub open spec fn peelings(s: Seq<char>, p: PositionView, next: int) -> Seq<Peeling>
    decreases s.len(),
{
    match peeled(s, p) {
        Some(first) => if s.len() == 0 {
            Seq::empty()
        } else {
            let peeling = Peeling { outcome: first.outcome, pos: first.pos, next };
            match first.tail {
                Some(tail) => if tail.len() < s.len() {
                    seq![peeling] + peelings(tail, first.pos, next)
                } else {
                    seq![peeling]
                },
                None => seq![peeling],
            }
        },
        None => Seq::empty(),
    }
}

/// The position once nothing is left of `s`.
pub open spec fn last_place(s: Seq<char>, p: PositionView) -> PositionView
    decreases s.len(),
{
    match peeled(s, p) {
        Some(first) => if s.len() == 0 {
            p
        } else {
            match first.tail {
                Some(tail) => if tail.len() < s.len() {
                    last_place(tail, first.pos)
                } else {
                    first.pos
                },
                None => first.pos,
            }
        },
        None => p,
    }
}

/// What comes up when `s` and then one after the other of `lines`, from the one with the number
/// `next` on, is peeled until nothing is left.
pub open spec fn all_peelings(
    s: Seq<char>,
    p: PositionView,
    lines: Seq<Seq<char>>,
    next: int,
) -> Seq<Peeling>
    decreases lines.len() - next,
{
    peelings(s, p, next) + if next < lines.len() {
        all_peelings(lines[next], below(last_place(s, p)), lines, next + 1)
    } else {
        Seq::empty()
    }
}

/// The position once nothing is left of `s` and of the lines behind it.
pub open spec fn end_of_lines(
    s: Seq<char>,
    p: PositionView,
    lines: Seq<Seq<char>>,
    next: int,
) -> PositionView
    decreases lines.len() - next,
{
    if next < lines.len() {
        end_of_lines(lines[next], below(last_place(s, p)), lines, next + 1)
    } else {
        last_place(s, p)
    }
}

/// What came up, without the places.
pub open spec fn outcomes_of(peelings: Seq<Peeling>) -> Seq<Result<TokenView, LexErrorView>> {
    peelings.map_values(|peeling: Peeling| peeling.outcome)
}

/// How many more closing than opening braces there are among the first `n` of `outcomes`.
pub open spec fn closed_by(outcomes: Seq<Result<TokenView, LexErrorView>>, n: int) -> int
    decreases n,
{
    if n <= 0 {
        0
    } else {
        closed_by(outcomes, n - 1) + match outcomes[n - 1] {
            Ok(token) => if token.kind == TokenKindView::Delim(DelimKind::BlockC) {
                1int
            } else if token.kind == TokenKindView::Delim(DelimKind::BlockO) {
                -1
            } else {
                0
            },
            Err(_) => 0,
        }
    }
}

proof fn lemma_closed_by(
    first: Result<TokenView, LexErrorView>,
    more: Seq<Result<TokenView, LexErrorView>>,
    n: int,
    depth: int,
)
    requires
        0 <= n <= more.len(),
    ensures
        depth - closed_by(seq![first] + more, n + 1) == depth_after(first, depth) - closed_by(
            more,
            n,
        ),
    decreases n,
{
    let all = seq![first] + more;
    if n > 0 {
        lemma_closed_by(first, more, n - 1, depth);
        assert(all[n] == more[n - 1]);
    } else {
        assert(all[0] == first);
        assert(closed_by(all, 0) == 0);
    }
}

/// The tokens and errors of `body` are those of the first `n` of `all`: behind them, and not
/// earlier, the `depth` open braces are closed, or nothing is left of the file.
pub open spec fn is_body(all: Seq<Peeling>, n: int, depth: int, body: BodyView) -> bool {
    let outcomes = outcomes_of(all);
    &&& 0 <= n <= all.len()
    &&& sorted_out(outcomes.take(n), body.tokens, body.errors)
    &&& forall|m: int| 0 <= m < n ==> #[trigger] closed_by(outcomes, m) < depth
    &&& body.end is Closed <==> closed_by(outcomes, n) == depth
    &&& !(body.end is Closed) ==> n == all.len() && closed_by(outcomes, n) < depth
}

proof fn lemma_peelings(s: Seq<char>, p: PositionView, lines: Seq<Seq<char>>, next: int, depth: int)
    requires
        s.len() > 0,
        body_token(s, depth, p) is Some,
    ensures
        ({
            let first = body_token(s, depth, p)->0;
            let peeling = Peeling { outcome: first.outcome, pos: first.pos, next };
            let rest = all_peelings(tail_text(first), first.pos, lines, next);
            &&& all_peelings(s, p, lines, next) == seq![peeling] + rest
            &&& end_of_lines(s, p, lines, next) == end_of_lines(
                tail_text(first),
                first.pos,
                lines,
                next,
            )
        }),
{
    let first = body_token(s, depth, p)->0;
    let tail = tail_text(first);
    let peeling = Peeling { outcome: first.outcome, pos: first.pos, next };
    let below_it = if next < lines.len() {
        all_peelings(lines[next], below(last_place(s, p)), lines, next + 1)
    } else {
        Seq::empty()
    };
    assert(last_place(s, p) == last_place(tail, first.pos));
    assert(peelings(s, p, next) =~= seq![peeling] + peelings(tail, first.pos, next));
    assert(peelings(s, p, next) + below_it =~= seq![peeling] + (peelings(tail, first.pos, next)
        + below_it));
}

/// The body of a macro ends with the brace that closes it, wherever that is, and has everything in
/// it that comes up until then, in the same order; the lines of the file are read as far as
/// needed, and no further. Where no brace closes it everything is in it, and it ends with the file
/// or with the error behind the last line.
pub proof fn bodies_end_with_their_brace(
    s: Seq<char>,
    rd: ReaderView,
    depth: int,
    p: PositionView,
) -> (n: int)
    requires
        depth >= 0,
        rd.valid(),
        macro_body(s, rd, depth, p) is Some,
    ensures
        ({
            let body = macro_body(s, rd, depth, p)->0;
            let all = all_peelings(s, p, rd.lines, rd.next);
            &&& is_body(all, n, depth, body)
            &&& body.rd.lines == rd.lines
            &&& match body.end {
                BodyEnd::Closed => {
                    &&& depth > 0 ==> n > 0
                    &&& n > 0 ==> body.pos == all[n - 1].pos && body.rd.next == all[n - 1].next
                    &&& n == 0 ==> body.pos == p && body.rd.next == rd.next
                    &&& body.rd.failure == rd.failure
                },
                BodyEnd::Unclosed => {
                    &&& body.pos == end_of_lines(s, p, rd.lines, rd.next)
                    &&& body.rd.next == rd.lines.len()
                    &&& rd.failure is None
                    &&& body.rd.failure is None
                },
                BodyEnd::Failed(err) => {
                    &&& body.pos == end_of_lines(s, p, rd.lines, rd.next)
                    &&& body.rd.next == rd.lines.len()
                    &&& rd.failure == Some(err)
                    &&& body.rd.failure is None
                },
            }
        }),
    decreases rd.lines.len() - rd.next, s.len(),
{
    let body = macro_body(s, rd, depth, p)->0;
    let all = all_peelings(s, p, rd.lines, rd.next);
    let outcomes = outcomes_of(all);
    if depth == 0 {
        assert(closed_by(outcomes, 0) == 0);
        assert(outcomes.take(0) =~= Seq::empty());
        0
    } else if s.len() == 0 {
        if rd.has_line() {
            assert(all =~= all_peelings(
                rd.lines[rd.next],
                below(p),
                rd.lines,
                rd.next + 1,
            ));
            bodies_end_with_their_brace(
                rd.lines[rd.next],
                rd.after_line(),
                depth,
                p.next_line(),
            )
        } else {
            assert(all =~= Seq::empty());
            assert(closed_by(outcomes, 0) == 0);
            assert(outcomes.take(0) =~= Seq::empty());
            0
        }
    } else {
        let first = body_token(s, depth, p)->0;
        let tail = tail_text(first);
        let inner = depth_after(first.outcome, depth);
        lemma_peelings(s, p, rd.lines, rd.next, depth);
        let k = bodies_end_with_their_brace(tail, rd, inner, first.pos);
        let rest = all_peelings(tail, first.pos, rd.lines, rd.next);
        let more = macro_body(tail, rd, inner, first.pos)->0;
        let others = outcomes_of(rest);
        assert(outcomes =~= seq![first.outcome] + others);
        assert(outcomes.take(k + 1) =~= seq![first.outcome] + others.take(k));
        lemma_sorted_out(first.outcome, others.take(k), more.tokens, more.errors);
        assert forall|m: int| 0 <= m < k + 1 implies #[trigger] closed_by(outcomes, m) < depth by {
            if m > 0 {
                lemma_closed_by(first.outcome, others, m - 1, depth);
                assert(closed_by(others, m - 1) < inner);
            }
        }
        lemma_closed_by(first.outcome, others, k, depth);
        if k > 0 {
            assert(all[k] == rest[k - 1]);
        }
        k + 1
    }
}

/// A body that is closed defines one macro, with the signature and all the tokens of the body. One
/// that the file ends in is reported where the file ends, behind the errors in it, and one that
/// cannot be read to its end is given up; neither of them defines anything.
pub proof fn closed_bodies_define_macros(signature: Seq<TokenView>, body: BodyView)
    ensures
        ({
            let step = definition(signature, body);
            &&& step.rd == body.rd
            &&& step.pos == body.pos
            &&& match body.end {
                BodyEnd::Closed => {
                    &&& step.macros.len() == 1
                    &&& step.macros[0] == MacroFuncView::Tokens(signature, body.tokens)
                    &&& step.errors == body.errors
                    &&& step.failure is None
                },
                BodyEnd::Unclosed => {
                    &&& step.macros.len() == 0
                    &&& step.errors.len() == body.errors.len() + 1
                    &&& step.errors.drop_last() == body.errors
                    &&& step.errors.last() == LexErrorView::UnclosedMacro(stretch(body.pos, 1))
                    &&& step.failure is None
                },
                BodyEnd::Failed(err) => {
                    &&& step.macros.len() == 0
                    &&& step.errors == body.errors
                    &&& step.failure == Some(err)
                },
            }
        }),
{
}

} // verus!
