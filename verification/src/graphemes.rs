//! Extended grapheme clusters, the units in which columns and sizes are counted.
use crate::text::{byte_len, is_white_space, lemma_byte_len_bounds, lemma_byte_len_first};
use unicode_segmentation::UnicodeSegmentation;
use vstd::prelude::*;

verus! {

/// The extended grapheme clusters of `s`, as `UnicodeSegmentation::graphemes` gives them.
pub uninterp spec fn graphemes(s: Seq<char>) -> Seq<Seq<char>>;

/// `s` is made of ASCII characters below U+007F, and no carriage return is among them.
pub open spec fn ascii_text(s: Seq<char>) -> bool {
    forall|i: int| 0 <= i < s.len() ==> (#[trigger] s[i] as u32) < 0x7f && s[i] != '\r'
}

/// Each character of `s` by itself.
pub open spec fn singletons(s: Seq<char>) -> Seq<Seq<char>> {
    s.map_values(|c: char| seq![c])
}

/// The extended grapheme clusters of `s`. In plain ASCII text each character is one, and so is a
/// character that stands alone.
pub open spec fn clusters(s: Seq<char>) -> Seq<Seq<char>> {
    if ascii_text(s) || s.len() == 1 {
        singletons(s)
    } else {
        graphemes(s)
    }
}

/// The number of extended grapheme clusters in `s`.
pub open spec fn grapheme_count(s: Seq<char>) -> nat {
    clusters(s).len()
}

/// A plain ASCII text has as many clusters as characters and bytes.
pub proof fn lemma_ascii_count(s: Seq<char>)
    requires
        ascii_text(s),
    ensures
        grapheme_count(s) == s.len(),
        byte_len(s) == s.len(),
    decreases s.len(),
{
    if s.len() > 0 {
        assert(ascii_text(s.skip(1))) by {
            assert forall|i: int| 0 <= i < s.skip(1).len() implies (
            #[trigger] s.skip(1)[i] as u32) < 0x7f && s.skip(1)[i] != '\r' by {
                assert(s.skip(1)[i] == s[i + 1]);
            }
        }
        lemma_ascii_count(s.skip(1));
        lemma_byte_len_first(s);
        assert((s[0] as u32) < 0x7f);
    }
}

/// The characters of each text in `v`.
pub open spec fn text_views(v: Seq<&str>) -> Seq<Seq<char>> {
    v.map_values(|t: &str| t@)
}

/// The first `k` characters of `s` are white space.
pub open spec fn white_space_before(s: Seq<char>, k: int) -> bool {
    0 <= k <= s.len() && forall|i: int| 0 <= i < k ==> is_white_space(#[trigger] s[i])
}

/// Calls `UnicodeSegmentation::graphemes` with extended clusters and collects what it yields.
///
/// Believed of it: the clusters depend on the text alone; none of them is empty, and side by side
/// they make up the text, since each one reaches from the end of the one before it to a later
/// boundary; in ASCII text below U+007F each character is a cluster, since the only boundary that
/// is missing there is the one between a carriage return and a line feed; and white space in front
/// of a text adds at most one cluster for each of its characters and takes none away. The last
/// holds because a boundary is decided by the two characters around it and, before a regional
/// indicator, a pictograph or a conjunct consonant, by a run of characters to its left that no
/// white-space character can belong to. So the boundaries behind the white space stay where they
/// are, and only the one at its end may go.
#[verifier::external_body]
fn grapheme_clusters<'a>(s: &'a str) -> (r: Vec<&'a str>)
    ensures
        text_views(r@) == graphemes(s@),
        ascii_text(s@) ==> text_views(r@) == singletons(s@),
        text_views(r@).flatten() == s@,
        forall|i: int| 0 <= i < r.len() ==> (#[trigger] r@[i])@.len() > 0,
        forall|k: int| #[trigger]
            white_space_before(s@, k) ==> grapheme_count(s@.skip(k)) <= r.len() <= k
                + grapheme_count(s@.skip(k)),
{
    UnicodeSegmentation::graphemes(s, true).collect()
}

proof fn lemma_flatten_bound(v: Seq<Seq<char>>)
    requires
        forall|i: int| 0 <= i < v.len() ==> (#[trigger] v[i]).len() > 0,
    ensures
        v.len() <= v.flatten().len(),
    decreases v.len(),
{
    if v.len() > 0 {
        assert forall|i: int| 0 <= i < v.drop_first().len() implies (
        #[trigger] v.drop_first()[i]).len() > 0 by {
            assert(v.drop_first()[i] == v[i + 1]);
        }
        lemma_flatten_bound(v.drop_first());
        assert(v[0].len() > 0);
    }
}

/// Texts that are not empty and make up `s` side by side, which holds one character, are that
/// character.
proof fn lemma_alone(v: Seq<Seq<char>>, s: Seq<char>)
    requires
        s.len() == 1,
        v.flatten() == s,
        forall|i: int| 0 <= i < v.len() ==> (#[trigger] v[i]).len() > 0,
    ensures
        v == singletons(s),
{
    lemma_flatten_bound(v);
    if v.len() == 1 {
        assert(v.drop_first() =~= Seq::empty());
        assert(v.flatten() =~= v[0] + v.drop_first().flatten());
        assert(v[0] =~= seq![s[0]]);
        assert(v =~= singletons(s));
    }
}

/// The grapheme clusters of `s`.
fn clusters_of<'a>(s: &'a str) -> (r: Vec<&'a str>)
    ensures
        text_views(r@) == clusters(s@),
        text_views(r@).flatten() == s@,
        forall|i: int| 0 <= i < r.len() ==> (#[trigger] r@[i])@.len() > 0,
        forall|k: int| #[trigger]
            white_space_before(s@, k) ==> grapheme_count(s@.skip(k)) <= r.len() <= k
                + grapheme_count(s@.skip(k)),
{
    let r = grapheme_clusters(s);
    proof {
        let v = text_views(r@);
        assert forall|i: int| 0 <= i < v.len() implies (#[trigger] v[i]).len() > 0 by {
            assert(v[i] == r@[i]@);
        }
        if s@.len() == 1 {
            lemma_alone(v, s@);
        }
    }
    r
}

/// The number of grapheme clusters in `s`.
pub fn count_graphemes(s: &str) -> (n: usize)
    ensures
        n == grapheme_count(s@),
        n <= s@.len() <= byte_len(s@),
        forall|k: int| #[trigger]
            white_space_before(s@, k) ==> grapheme_count(s@.skip(k)) <= n <= k + grapheme_count(
                s@.skip(k),
            ),
{
    let clusters = clusters_of(s);
    proof {
        let v = text_views(clusters@);
        assert forall|i: int| 0 <= i < v.len() implies (#[trigger] v[i]).len() > 0 by {
            assert(v[i] == clusters@[i]@);
        }
        lemma_flatten_bound(v);
        lemma_byte_len_bounds(s@);
    }
    clusters.len()
}

/// The grapheme cluster of `s` at `index`, empty where there are not so many.
pub open spec fn grapheme_at(s: Seq<char>, index: int) -> Seq<char> {
    if 0 <= index < grapheme_count(s) {
        clusters(s)[index]
    } else {
        Seq::empty()
    }
}

/// The first two grapheme clusters of `s`, empty where there are not so many.
pub fn leading_graphemes<'a>(s: &'a str) -> (r: (&'a str, &'a str))
    ensures
        r.0@ == grapheme_at(s@, 0),
        r.1@ == grapheme_at(s@, 1),
        s@.len() > 0 ==> r.0@.len() > 0,
        (r.0@ + r.1@).is_prefix_of(s@),
{
    let clusters = clusters_of(s);
    proof {
        let v = text_views(clusters@);
        reveal_strlit("");
        if v.len() > 0 {
            assert(v[0] == clusters@[0]@);
            assert(v.flatten() == v[0] + v.drop_first().flatten());
        }
        if v.len() > 1 {
            let w = v.drop_first();
            assert(w[0] == clusters@[1]@);
            assert(w.flatten() == w[0] + w.drop_first().flatten());
            assert((v[0] + v[1]) =~= s@.take((v[0] + v[1]).len() as int));
        }
        assert(""@ =~= Seq::empty());
        assert(grapheme_at(s@, 0) + ""@ =~= grapheme_at(s@, 0));
    }
    let first = if clusters.len() > 0 {
        clusters[0]
    } else {
        ""
    };
    let second = if clusters.len() > 1 {
        clusters[1]
    } else {
        ""
    };
    (first, second)
}

} // verus!
