//! Plain text can always be lexed.
use crate::graphemes::ascii_text;
use crate::lexer::{LexStateView, file_lexed, line_keeps_reader, line_lexed, lines_lexed};
use crate::line::lexed;
use crate::macros::{depth_after, macro_body, tail_text, visible_class};
use crate::position::PositionView;
use crate::reader::ReaderView;
use crate::reading::{ascii_text_is_tiled, lemma_ascii_parts, peeling_shortens};
use crate::text::{
    leading_white_space, lemma_prefix_while, prefix_while, trailing_white_space, trim_end,
    trim_start, white_space_class,
};
use crate::word::{past_white_space, peeled};
use vstd::prelude::*;

verus! {

/// Text of ASCII characters without carriage returns, `DEL` and `$`.
pub open spec fn is_plain(s: Seq<char>) -> bool {
    forall|i: int|
        0 <= i < s.len() ==> (#[trigger] s[i] as u32) < 0x7f && s[i] != '\r' && s[i] != '$'
}

proof fn lemma_plain_part(s: Seq<char>, from: int, to: int)
    requires
        is_plain(s),
        0 <= from <= to <= s.len(),
    ensures
        is_plain(s.subrange(from, to)),
        is_plain(s.skip(from)),
        is_plain(s.take(to)),
{
    let part = s.subrange(from, to);
    assert forall|i: int| 0 <= i < part.len() implies (#[trigger] part[i] as u32) < 0x7f && part[i]
        != '\r' && part[i] != '$' by {
        assert(part[i] == s[from + i]);
    }
    let end = s.skip(from);
    assert forall|i: int| 0 <= i < end.len() implies (#[trigger] end[i] as u32) < 0x7f && end[i]
        != '\r' && end[i] != '$' by {
        assert(end[i] == s[from + i]);
    }
    let start = s.take(to);
    assert forall|i: int| 0 <= i < start.len() implies (#[trigger] start[i] as u32) < 0x7f
        && start[i] != '\r' && start[i] != '$' by {
        assert(start[i] == s[i]);
    }
}

proof fn lemma_plain_trims(s: Seq<char>)
    requires
        is_plain(s),
    ensures
        is_plain(trim_start(s)),
        is_plain(trim_end(s)),
        trim_start(s).len() <= s.len(),
        trim_end(s).len() <= s.len(),
{
    lemma_prefix_while(s, white_space_class());
    lemma_prefix_while(s.reverse(), white_space_class());
    lemma_plain_part(s, leading_white_space(s) as int, s.len() as int);
    lemma_plain_part(s, 0, s.len() - trailing_white_space(s));
}

proof fn lemma_plain_peeled(s: Seq<char>, p: PositionView)
    requires
        is_plain(s),
    ensures
        peeled(s, p) is Some,
        peeled(s, p)->0.tail matches Some(tail) ==> tail.len() < s.len() && is_plain(tail),
{
    lemma_plain_trims(s);
    let t = trim_start(s);
    assert(ascii_text(s));
    assert(t.len() > 0 ==> t[0] != '$');
    ascii_text_is_tiled(s, p);
    if peeled(s, p)->0.tail is Some {
        let k = peeling_shortens(s, p);
        assert(k > 0) by {
            if k == 0 {
                assert(s[0] != '$');
            }
        }
        lemma_plain_part(s, k, s.len() as int);
    }
}

/// Plain text can be lexed to its end.
pub proof fn plain_texts_are_lexed(s: Seq<char>, p: PositionView)
    requires
        is_plain(s),
    ensures
        lexed(s, p) is Some,
    decreases s.len(),
{
    lemma_plain_peeled(s, p);
    if let Some(tail) = peeled(s, p)->0.tail {
        plain_texts_are_lexed(tail, peeled(s, p)->0.pos);
    }
}

/// A line that does not define a macro with parameters.
pub open spec fn has_no_parameters(line: Seq<char>) -> bool {
    line.contains('(') ==> !seq!['#', '!', 'd', 'e', 'f', ' '].is_prefix_of(
        trim_end(trim_start(line)),
    )
}

/// A plain line can be lexed, unless it defines a macro with parameters.
pub proof fn plain_lines_are_lexed(st: LexStateView, line: Seq<char>)
    requires
        is_plain(line),
        has_no_parameters(line),
    ensures
        line_lexed(st, line) is Some,
{
    reveal_strlit("#!def ");
    assert("#!def "@ =~= seq!['#', '!', 'd', 'e', 'f', ' ']);
    let t = trim_end(trim_start(line));
    let at = past_white_space(line, st.pos);
    lemma_plain_trims(line);
    lemma_plain_trims(trim_start(line));
    plain_texts_are_lexed(t, at);
    if "#!def "@.is_prefix_of(t) {
        assert(line.len() >= 6);
        assert(ascii_text(line));
        lemma_ascii_parts(line, 6);
        let rest = line.skip(6);
        lemma_plain_part(line, 6, line.len() as int);
        lemma_plain_trims(rest);
        let def = trim_start(rest);
        let end = prefix_while(def, visible_class()) as int;
        lemma_prefix_while(def, visible_class());
        lemma_plain_part(def, end, def.len() as int);
        plain_texts_are_lexed(def.skip(end), at);
    }
}

proof fn lemma_plain_lines(st: LexStateView)
    requires
        st.rd.valid(),
        forall|i: int|
            0 <= i < st.rd.lines.len() ==> is_plain(#[trigger] st.rd.lines[i])
                && has_no_parameters(st.rd.lines[i]),
    ensures
        lines_lexed(st).complete,
    decreases st.rd.lines.len() - st.rd.next,
{
    if st.rd.has_line() {
        let line = st.rd.lines[st.rd.next];
        let read = LexStateView { rd: st.rd.after_line(), ..st };
        plain_lines_are_lexed(read, line);
        line_keeps_reader(read, line);
        lemma_plain_lines(line_lexed(read, line)->0);
    }
}

/// A file of plain lines has a result, unless one of them defines a macro with parameters.
pub proof fn plain_files_have_results(
    file_id: int,
    lines: Seq<Seq<char>>,
    failure: Option<std::io::Error>,
)
    requires
        forall|i: int|
            0 <= i < lines.len() ==> is_plain(#[trigger] lines[i]) && has_no_parameters(lines[i]),
    ensures
        file_lexed(file_id, (ReaderView { lines, next: 0, failure })).result is Some,
{
    lemma_plain_lines(LexStateView::start(file_id, ReaderView { lines, next: 0, failure }));
}

/// The number of characters in `lines`, from the line with the number `next` on.
pub open spec fn characters_from(lines: Seq<Seq<char>>, next: int) -> int
    decreases lines.len() - next,
{
    if 0 <= next < lines.len() {
        lines[next].len() + characters_from(lines, next + 1)
    } else {
        0
    }
}

proof fn lemma_characters_from(lines: Seq<Seq<char>>, next: int)
    ensures
        characters_from(lines, next) >= 0,
    decreases lines.len() - next,
{
    if 0 <= next < lines.len() {
        lemma_characters_from(lines, next + 1);
    }
}

/// The body of a macro can be read where the text and the lines behind it are plain, and there are
/// no more characters in them than braces can be counted.
pub proof fn plain_bodies_are_read(s: Seq<char>, rd: ReaderView, depth: int, p: PositionView)
    requires
        rd.valid(),
        is_plain(s),
        forall|i: int| rd.next <= i < rd.lines.len() ==> is_plain(#[trigger] rd.lines[i]),
        depth + s.len() + characters_from(rd.lines, rd.next) <= i32::MAX,
    ensures
        macro_body(s, rd, depth, p) is Some,
    decreases rd.lines.len() - rd.next, s.len(),
{
    if depth > 0 {
        lemma_characters_from(rd.lines, rd.next);
        if s.len() > 0 {
            lemma_plain_peeled(s, p);
            let first = peeled(s, p)->0;
            let inner = depth_after(first.outcome, depth);
            assert(is_plain(tail_text(first)));
            plain_bodies_are_read(tail_text(first), rd, inner, first.pos);
        } else if rd.has_line() {
            plain_bodies_are_read(rd.lines[rd.next], rd.after_line(), depth, p.next_line());
        }
    }
}

} // verus!
