//! The tokens of a line, one after the other.
use crate::lex_error::{LexError, LexErrorView, error_views};
use crate::lexer::Lexer;
use crate::position::{Position, PositionView};
use crate::reading::peeling_shortens;
use crate::text::{byte_len, lemma_byte_len_split};
use crate::tokens::{Token, TokenView, token_views};
use crate::word::{behind, peeled, token_view};
use vstd::prelude::*;
use vstd::string::*;

verus! {

/// Tokens and errors in the order in which they come up, and the position behind them.
pub struct LexedView {
    pub tokens: Seq<TokenView>,
    pub errors: Seq<LexErrorView>,
    pub pos: PositionView,
}

/// `outcome` as the only token, if it is one.
pub open spec fn token_in(outcome: Result<TokenView, LexErrorView>) -> Seq<TokenView> {
    match outcome {
        Ok(token) => seq![token],
        Err(_) => Seq::empty(),
    }
}

/// `outcome` as the only error, if it is one.
pub open spec fn error_in(outcome: Result<TokenView, LexErrorView>) -> Seq<LexErrorView> {
    match outcome {
        Ok(_) => Seq::empty(),
        Err(error) => seq![error],
    }
}

/// The tokens and errors of `s`, peeled off one by one. There are none where one of them cannot
/// be peeled off, or where the text would not get shorter.
pub open spec fn lexed(s: Seq<char>, p: PositionView) -> Option<LexedView>
    decreases s.len(),
{
    match peeled(s, p) {
        None => None,
        Some(first) => match first.tail {
            None => Some(
                LexedView {
                    tokens: token_in(first.outcome),
                    errors: error_in(first.outcome),
                    pos: first.pos,
                },
            ),
            Some(tail) => if tail.len() < s.len() {
                match lexed(tail, first.pos) {
                    None => None,
                    Some(rest) => Some(
                        LexedView {
                            tokens: token_in(first.outcome) + rest.tokens,
                            errors: error_in(first.outcome) + rest.errors,
                            pos: rest.pos,
                        },
                    ),
                }
            } else {
                None
            },
        },
    }
}

/// What was and is still to be found, `before`, is the same as later, when some of it is among
/// `later_tokens` and `later_errors`.
spec fn continues(
    tokens: Seq<TokenView>,
    errors: Seq<LexErrorView>,
    before: Option<LexedView>,
    later_tokens: Seq<TokenView>,
    later_errors: Seq<LexErrorView>,
    after: Option<LexedView>,
) -> bool {
    &&& before is Some <==> after is Some
    &&& before is Some ==> {
        &&& tokens + before->0.tokens == later_tokens + after->0.tokens
        &&& errors + before->0.errors == later_errors + after->0.errors
        &&& before->0.pos == after->0.pos
    }
}

proof fn lemma_lexed_continues(
    s: Seq<char>,
    p: PositionView,
    tokens: Seq<TokenView>,
    errors: Seq<LexErrorView>,
)
    requires
        peeled(s, p) is Some,
        peeled(s, p)->0.tail is Some,
        (peeled(s, p)->0.tail->0).len() < s.len(),
    ensures
        ({
            let first = peeled(s, p)->0;
            continues(
                tokens,
                errors,
                lexed(s, p),
                tokens + token_in(first.outcome),
                errors + error_in(first.outcome),
                lexed(first.tail->0, first.pos),
            )
        }),
{
    let first = peeled(s, p)->0;
    if lexed(s, p) is Some {
        let all = lexed(s, p)->0;
        let left = lexed(first.tail->0, first.pos)->0;
        assert(tokens + token_in(first.outcome) + left.tokens =~= tokens + all.tokens);
        assert(errors + error_in(first.outcome) + left.errors =~= errors + all.errors);
    }
}

/// Puts a token or an error where it belongs.
pub fn record(outcome: Result<Token, LexError>, tokens: &mut Vec<Token>, errors: &mut Vec<LexError>)
    ensures
        token_views(final(tokens)@) == token_views(old(tokens)@) + token_in(token_view(outcome)),
        error_views(final(errors)@) == error_views(old(errors)@) + error_in(token_view(outcome)),
{
    match outcome {
        Ok(token) => tokens.push(token),
        Err(err) => errors.push(err),
    }
    assert(token_views(tokens@) =~= token_views(old(tokens)@) + token_in(token_view(outcome)));
    assert(error_views(errors@) =~= error_views(old(errors)@) + error_in(token_view(outcome)));
}

/// What comes of taking a token off a text.
enum LineStep<'a> {
    /// The text cannot be lexed.
    Stuck,
    /// Nothing is left of the text.
    Done,
    /// What is left of the text.
    More(&'a str),
}

/// `rest` is the end of `s`.
spec fn is_end(rest: Seq<char>, s: Seq<char>) -> bool {
    exists|k: int| 0 <= k <= s.len() && rest == #[trigger] s.skip(k)
}

proof fn lemma_end_of_end(rest: Seq<char>, mid: Seq<char>, s: Seq<char>)
    requires
        is_end(rest, mid),
        is_end(mid, s),
    ensures
        is_end(rest, s),
        mid.contains('$') ==> s.contains('$'),
{
    let j = choose|k: int| 0 <= k <= mid.len() && rest == #[trigger] mid.skip(k);
    let i = choose|k: int| 0 <= k <= s.len() && mid == #[trigger] s.skip(k);
    assert(rest =~= s.skip(i + j));
    if mid.contains('$') {
        let at = choose|k: int| 0 <= k < mid.len() && mid[k] == '$';
        assert(s[i + at] == '$');
    }
}

impl Lexer {
    /// Takes a token off `text` and adds what comes up to `tokens` and `errors`.
    fn step_line<'a>(
        text: &'a str,
        tokens: &mut Vec<Token>,
        errors: &mut Vec<LexError>,
        pos: &mut Position,
    ) -> (r: LineStep<'a>)
        requires
            old(pos)@.has_room(2 * byte_len(text@)),
        ensures
            match r {
                LineStep::Stuck => lexed(text@, old(pos)@) is None && text@.contains('$'),
                LineStep::Done => {
                    let view = lexed(text@, old(pos)@);
                    &&& view is Some
                    &&& token_views(final(tokens)@) == token_views(old(tokens)@) + view->0.tokens
                    &&& error_views(final(errors)@) == error_views(old(errors)@) + view->0.errors
                    &&& final(pos)@ == view->0.pos
                    &&& final(pos)@.within(old(pos)@, 2 * byte_len(text@) as int)
                },
                LineStep::More(rest) => {
                    &&& rest@.len() < text@.len()
                    &&& is_end(rest@, text@)
                    &&& byte_len(rest@) <= byte_len(text@)
                    &&& final(pos)@.within(old(pos)@, byte_len(text@) - byte_len(rest@))
                    &&& continues(
                        token_views(old(tokens)@),
                        error_views(old(errors)@),
                        lexed(text@, old(pos)@),
                        token_views(final(tokens)@),
                        error_views(final(errors)@),
                        lexed(rest@, final(pos)@),
                    )
                },
            },
    {
        match Lexer::peel_token(text, pos) {
            None => LineStep::Stuck,
            Some((outcome, tail)) => {
                record(outcome, tokens, errors);
                match tail {
                    None => LineStep::Done,
                    Some(rest) => {
                        let ghost k = peeling_shortens(text@, old(pos)@);
                        if rest.unicode_len() < text.unicode_len() {
                            proof {
                                lemma_byte_len_split(text@, k);
                                lemma_lexed_continues(
                                    text@,
                                    old(pos)@,
                                    token_views(old(tokens)@),
                                    error_views(old(errors)@),
                                );
                            }
                            LineStep::More(rest)
                        } else {
                            assert(text@.contains(text@[0]));
                            LineStep::Stuck
                        }
                    },
                }
            },
        }
    }

    /// Lexes `string` to its end and adds what comes up to `tokens` and `errors`. Returns whether
    /// that was possible: it always is without a `$`.
    pub fn peel_tokens(
        string: &str,
        tokens: &mut Vec<Token>,
        errors: &mut Vec<LexError>,
        pos: &mut Position,
    ) -> (r: bool)
        requires
            old(pos)@.has_room(2 * byte_len(string@)),
        ensures
            r == (lexed(string@, old(pos)@) is Some),
            !r ==> string@.contains('$'),
            r ==> {
                let view = lexed(string@, old(pos)@)->0;
                &&& token_views(final(tokens)@) == token_views(old(tokens)@) + view.tokens
                &&& error_views(final(errors)@) == error_views(old(errors)@) + view.errors
                &&& final(pos)@ == view.pos
                &&& final(pos)@.within(old(pos)@, 2 * byte_len(string@) as int)
            },
    {
        let ghost all = lexed(string@, pos@);
        let mut rest: &str = string;
        assert(string@.skip(0) =~= string@);
        loop
            invariant
                is_end(rest@, string@),
                byte_len(rest@) <= byte_len(string@),
                old(pos)@.has_room(2 * byte_len(string@)),
                pos@.within(old(pos)@, byte_len(string@) - byte_len(rest@)),
                all == lexed(string@, old(pos)@),
                continues(
                    token_views(old(tokens)@),
                    error_views(old(errors)@),
                    all,
                    token_views(tokens@),
                    error_views(errors@),
                    lexed(rest@, pos@),
                ),
            decreases rest@.len(),
        {
            match Lexer::step_line(rest, tokens, errors, pos) {
                LineStep::Stuck => {
                    proof {
                        assert(rest@.skip(0) =~= rest@);
                        lemma_end_of_end(rest@, rest@, string@);
                    }
                    return false;
                },
                LineStep::Done => return true,
                LineStep::More(tail) => {
                    proof {
                        lemma_end_of_end(tail@, rest@, string@);
                    }
                    rest = tail;
                },
            }
        }
    }
}

} // verus!
