//! Which files the names of modules lead to, and how paths are spelled.
use crate::context::{
    ContextView, from_base, include_path, joined_all, lemma_separator, lemma_separator_found,
    segments, separates, separator,
};
use crate::lexer::ModIdRequestView;
use crate::path::{
    PathView, components_in, counts, last_dot, lemma_component_len, lemma_spelled_components,
    spelled_components, stem,
};
use vstd::prelude::*;
use vstd::utf8::*;

verus! {

/// No two colons follow each other before the first `end` characters of `s` have ended.
pub open spec fn no_colons_before(s: Seq<char>, end: int) -> bool {
    forall|i: int| 0 <= i < end && i + 1 < s.len() ==> !(#[trigger] s[i] == ':' && s[i + 1] == ':')
}

/// A name is split at the first two colons that follow each other, and what is behind them is
/// split in the same way. A name without such colons is its only part.
pub proof fn names_split_at_colons(first: Seq<char>, rest: Seq<char>)
    ensures
        no_colons_before(first + seq![':', ':'] + rest, first.len() as int) ==> segments(
            first + seq![':', ':'] + rest,
        ) == seq![first] + segments(rest),
        no_colons_before(first, first.len() as int) ==> segments(first) == seq![first],
{
    let s = first + seq![':', ':'] + rest;
    let n = first.len() as int;
    if no_colons_before(s, n) {
        assert forall|j: int| 0 <= j < n implies !separates(s, j) by {
            assert(s[j] == first[j]);
        }
        lemma_separator(s, 0, n);
        assert(s[n] == ':' && s[n + 1] == ':');
        assert(separates(s, n));
        assert(s.take(n) =~= first);
        assert(s.skip(n + 2) =~= rest);
    }
    if no_colons_before(first, n) {
        assert forall|j: int| 0 <= j < n implies !separates(first, j) by {
            assert(first[j] == first[j]);
        }
        lemma_separator(first, 0, n);
    }
}

proof fn lemma_first_segment(name: Seq<char>)
    ensures
        segments(name).len() > 0,
        ({
            let first = segments(name)[0];
            ||| first == name
            ||| first.len() + 2 <= name.len() && first == name.take(first.len() as int)
                && name[first.len() as int] == ':' && name[first.len() + 1int] == ':'
        }),
{
    if separator(name, 0) is Some {
        lemma_separator_found(name, 0);
    }
}

/// A name starts at the base of the program where it is `base` or starts with `base::`, and
/// nowhere else.
pub proof fn names_from_the_base(name: Seq<char>)
    ensures
        from_base(name) <==> {
            ||| name == seq!['b', 'a', 's', 'e']
            ||| seq!['b', 'a', 's', 'e', ':', ':'].is_prefix_of(name)
        },
{
    reveal_strlit("base");
    let base = seq!['b', 'a', 's', 'e'];
    let prefix = seq!['b', 'a', 's', 'e', ':', ':'];
    assert("base"@ =~= base);
    lemma_first_segment(name);
    if from_base(name) {
        if segments(name)[0] != name {
            assert(name.take(4) == base);
            assert forall|i: int| 0 <= i < 4 implies name[i] == base[i] by {
                assert(name.take(4)[i] == name[i]);
            }
            assert(name.take(6) =~= prefix);
        }
    }
    if name == base {
        names_split_at_colons(base, Seq::empty());
    }
    if prefix.is_prefix_of(name) {
        let rest = name.skip(6);
        assert(name =~= base + seq![':', ':'] + rest) by {
            assert(name =~= prefix + rest);
        }
        names_split_at_colons(base, rest);
    }
}

/// A part of a name that is the name of one file or directory.
pub open spec fn is_ordinary(part: Seq<char>) -> bool {
    &&& part.len() > 0
    &&& part != seq!['.']
    &&& !part.contains('/')
}

/// `parts` with two colons between each two of them.
pub open spec fn in_one(parts: Seq<Seq<char>>) -> Seq<char>
    decreases parts.len(),
{
    if parts.len() <= 1 {
        parts[0]
    } else {
        parts[0] + seq![':', ':'] + in_one(parts.skip(1))
    }
}

proof fn lemma_segments_in_one(parts: Seq<Seq<char>>)
    requires
        parts.len() > 0,
        forall|i: int| 0 <= i < parts.len() ==> !(#[trigger] parts[i]).contains(':'),
    ensures
        segments(in_one(parts)) == parts,
    decreases parts.len(),
{
    let first = parts[0];
    assert forall|i: int| 0 <= i < first.len() implies #[trigger] first[i] != ':' by {
        assert(first.contains(first[i]));
    }
    if parts.len() == 1 {
        names_split_at_colons(first, Seq::empty());
        assert(parts =~= seq![first]);
    } else {
        let rest = parts.skip(1);
        assert forall|i: int| 0 <= i < rest.len() implies !(#[trigger] rest[i]).contains(':') by {
            assert(rest[i] == parts[i + 1]);
        }
        lemma_segments_in_one(rest);
        let s = first + seq![':', ':'] + in_one(rest);
        assert forall|i: int| 0 <= i < first.len() && i + 1 < s.len() implies !(#[trigger] s[i]
            == ':' && s[i + 1] == ':') by {
            assert(s[i] == first[i]);
        }
        names_split_at_colons(first, in_one(rest));
        assert(parts =~= seq![first] + rest);
    }
}

proof fn lemma_scalar_bytes(c: char)
    ensures
        encode_scalar(c as u32).len() > 0,
        c != '/' ==> !encode_scalar(c as u32).contains(47u8),
        c != '.' ==> !encode_scalar(c as u32).contains(46u8),
{
    let v = c as u32;
    char_is_scalar(c);
    char_u32_cast(c, v);
    assert(v < 0x80 ==> (v & 0x7F) as u8 == v) by (bit_vector);
    assert forall|x: u8| #[trigger] (0xC0u8 | x) >= 0x80 by {
        assert((0xC0u8 | x) >= 0x80) by (bit_vector);
    }
    assert forall|x: u8| #[trigger] (0xE0u8 | x) >= 0x80 by {
        assert((0xE0u8 | x) >= 0x80) by (bit_vector);
    }
    assert forall|x: u8| #[trigger] (0xF0u8 | x) >= 0x80 by {
        assert((0xF0u8 | x) >= 0x80) by (bit_vector);
    }
    assert forall|x: u8| #[trigger] (0x80u8 | x) >= 0x80 by {
        assert((0x80u8 | x) >= 0x80) by (bit_vector);
    }
}

proof fn lemma_bytes_without_slash(part: Seq<char>)
    requires
        !part.contains('/'),
    ensures
        !encode_utf8(part).contains(47u8),
    decreases part.len(),
{
    if part.len() > 0 {
        let rest = part.drop_first();
        assert(part.contains(part[0]));
        assert(!rest.contains('/')) by {
            if rest.contains('/') {
                let i = choose|i: int| 0 <= i < rest.len() && rest[i] == '/';
                assert(part[i + 1] == '/');
            }
        }
        lemma_bytes_without_slash(rest);
        lemma_scalar_bytes(part[0]);
        let head = encode_scalar(part[0] as u32);
        let tail = encode_utf8(rest);
        assert forall|i: int| 0 <= i < (head + tail).len() implies (head + tail)[i] != 47u8 by {
            if i >= head.len() {
                assert((head + tail)[i] == tail[i - head.len()]);
                assert(tail.contains(tail[i - head.len()]));
            } else {
                assert((head + tail)[i] == head[i]);
                assert(head.contains(head[i]));
            }
        }
    }
}

proof fn lemma_ordinary_bytes(part: Seq<char>)
    requires
        is_ordinary(part),
    ensures
        encode_utf8(part).len() > 0,
        encode_utf8(part) != seq![46u8],
        !encode_utf8(part).contains(47u8),
{
    lemma_bytes_without_slash(part);
    lemma_scalar_bytes(part[0]);
    let head = encode_scalar(part[0] as u32);
    let tail = encode_utf8(part.drop_first());
    if encode_utf8(part) == seq![46u8] {
        assert((head + tail)[0] == head[0]);
        assert(part.len() > 1 ==> tail.len() > 0) by {
            if part.len() > 1 {
                lemma_scalar_bytes(part.drop_first()[0]);
            }
        }
        assert((head + tail).len() == head.len() + tail.len());
        assert(part.len() == 1);
        assert(head.contains(head[0]));
        assert(part =~= seq!['.']);
    }
}

/// The bytes of each part.
pub open spec fn bytes_of(parts: Seq<Seq<char>>) -> Seq<Seq<u8>> {
    parts.map_values(|part: Seq<char>| encode_utf8(part))
}

proof fn lemma_joined_ordinary(path: PathView, part: Seq<char>)
    requires
        is_ordinary(part),
    ensures
        path.joined(encode_utf8(part)) == (PathView {
            absolute: path.absolute,
            components: path.components.push(encode_utf8(part)),
        }),
{
    let s = encode_utf8(part);
    lemma_ordinary_bytes(part);
    lemma_component_len(s, Seq::empty());
    assert(s.contains(s[0]));
    assert(components_in(s) =~= seq![s]);
    assert(path.components + seq![s] =~= path.components.push(s));
    if path == PathView::empty() {
        assert(seq![s] =~= path.components.push(s));
    }
}

proof fn lemma_joined_all_ordinary(path: PathView, parts: Seq<Seq<char>>)
    requires
        forall|i: int| 0 <= i < parts.len() ==> is_ordinary(#[trigger] parts[i]),
    ensures
        joined_all(path, parts) == (PathView {
            absolute: path.absolute,
            components: path.components + bytes_of(parts),
        }),
    decreases parts.len(),
{
    if parts.len() == 0 {
        assert(path.components + bytes_of(parts) =~= path.components);
    } else {
        let rest = parts.skip(1);
        let next = path.joined(encode_utf8(parts[0]));
        lemma_joined_ordinary(path, parts[0]);
        assert forall|i: int| 0 <= i < rest.len() implies is_ordinary(#[trigger] rest[i]) by {
            assert(rest[i] == parts[i + 1]);
        }
        lemma_joined_all_ordinary(next, rest);
        assert(next.components + bytes_of(rest) =~= path.components + bytes_of(parts));
    }
}

/// The path that a name stands for has a component for every part of the name, in the order of the
/// parts, below those of the directory that the name is looked up from: that of the module which
/// uses it, or where the program runs if the name starts with `base`, which is no component itself.
/// The parts have to be names of files or directories.
pub proof fn names_lead_to_all_their_parts(name: Seq<char>, parent: PathView)
    requires
        forall|i: int| 0 <= i < segments(name).len() ==> is_ordinary(#[trigger] segments(name)[i]),
    ensures
        ({
            let parts = segments(name);
            let path = include_path(name, parent);
            if parts[0] == seq!['b', 'a', 's', 'e'] {
                &&& !path.absolute
                &&& path.components.len() == parts.len() - 1
                &&& forall|i: int|
                    0 < i < parts.len() ==> path.components[i - 1] == encode_utf8(
                        #[trigger] parts[i],
                    )
            } else {
                let above = if parent.components.len() == 0 {
                    0
                } else {
                    parent.components.len() - 1
                };
                &&& path.absolute == (parent.absolute && parent.components.len() > 0)
                &&& path.components.len() == above + parts.len()
                &&& path.components.take(above) == parent.components.take(above)
                &&& forall|i: int|
                    0 <= i < parts.len() ==> path.components[above + i] == encode_utf8(
                        #[trigger] parts[i],
                    )
            }
        }),
{
    reveal_strlit("base");
    assert("base"@ =~= seq!['b', 'a', 's', 'e']);
    lemma_first_segment(name);
    let parts = segments(name);
    let rest = parts.skip(1);
    assert forall|i: int| 0 <= i < rest.len() implies is_ordinary(#[trigger] rest[i]) by {
        assert(rest[i] == parts[i + 1]);
    }
    lemma_joined_all_ordinary(PathView::empty(), rest);
    lemma_joined_all_ordinary(parent.parent(), parts);
    let path = include_path(name, parent);
    if from_base(name) {
        assert(path.components =~= bytes_of(rest));
        assert forall|i: int| 0 < i < parts.len() implies path.components[i - 1] == encode_utf8(
            #[trigger] parts[i],
        ) by {
            assert(rest[i - 1] == parts[i]);
        }
    } else {
        let above = parent.parent().components;
        assert(path.components =~= above + bytes_of(parts));
        assert(path.components.take(above.len() as int) =~= above);
        assert(parent.components.take(above.len() as int) =~= above);
        assert forall|i: int| 0 <= i < parts.len() implies path.components[above.len() + i]
            == encode_utf8(#[trigger] parts[i]) by {
            assert(bytes_of(parts)[i] == encode_utf8(parts[i]));
        }
    }
}

/// A name that is written as `parts`, each of them the name of a file or directory without a colon,
/// with `::` between each two of them, leads from the directory of the module which uses it through
/// all of them.
pub proof fn written_names_lead_to_all_their_parts(parts: Seq<Seq<char>>, parent: PathView)
    requires
        parts.len() > 0,
        forall|i: int|
            0 <= i < parts.len() ==> is_ordinary(#[trigger] parts[i]) && !parts[i].contains(':'),
        parent.components.len() > 0,
    ensures
        parts[0] != seq!['b', 'a', 's', 'e'] ==> include_path(in_one(parts), parent) == (PathView {
            absolute: parent.absolute,
            components: parent.components.drop_last() + bytes_of(parts),
        }),
        parts[0] == seq!['b', 'a', 's', 'e'] ==> include_path(in_one(parts), parent) == (PathView {
            absolute: false,
            components: bytes_of(parts.skip(1)),
        }),
{
    lemma_segments_in_one(parts);
    let name = in_one(parts);
    names_lead_to_all_their_parts(name, parent);
    let path = include_path(name, parent);
    if parts[0] == seq!['b', 'a', 's', 'e'] {
        let below = bytes_of(parts.skip(1));
        assert forall|i: int| 0 <= i < below.len() implies path.components[i] == below[i] by {
            assert(parts[i + 1] == parts.skip(1)[i]);
        }
        assert(path.components =~= below);
    } else {
        let above = parent.components.drop_last();
        let all = above + bytes_of(parts);
        let n = above.len() as int;
        assert forall|i: int| 0 <= i < all.len() implies path.components[i] == all[i] by {
            if i < n {
                assert(path.components.take(n)[i] == parent.components.take(n)[i]);
            } else {
                assert(all[i] == encode_utf8(parts[i - n]));
            }
        }
        assert(path.components =~= all);
    }
}

/// Whatever its parts are, one more part at the end of a name is joined to where the name led
/// before.
pub proof fn names_lead_on(name: Seq<char>, longer: Seq<char>, part: Seq<char>, parent: PathView)
    requires
        segments(longer) == segments(name).push(part),
    ensures
        include_path(longer, parent) == include_path(name, parent).joined(encode_utf8(part)),
        from_base(longer) == from_base(name),
{
    lemma_first_segment(name);
    let parts = segments(name);
    assert(parts.push(part)[0] == parts[0]);
    lemma_joined_all_push(PathView::empty(), parts.skip(1), part);
    lemma_joined_all_push(parent.parent(), parts, part);
    assert(parts.push(part).skip(1) =~= parts.skip(1).push(part));
}

proof fn lemma_joined_all_push(path: PathView, parts: Seq<Seq<char>>, part: Seq<char>)
    ensures
        joined_all(path, parts.push(part)) == joined_all(path, parts).joined(encode_utf8(part)),
    decreases parts.len(),
{
    let all = parts.push(part);
    let next = path.joined(encode_utf8(all[0]));
    if parts.len() == 0 {
        assert(joined_all(next, all.skip(1)) == next);
    } else {
        assert(all.skip(1) =~= parts.skip(1).push(part));
        lemma_joined_all_push(next, parts.skip(1), part);
    }
}

/// A slash ends the components before it and starts those behind it.
pub proof fn slashes_separate_components(before: Seq<u8>, behind: Seq<u8>)
    ensures
        components_in(before + seq![47u8] + behind) == components_in(before) + components_in(
            behind,
        ),
    decreases before.len(),
{
    let s = before + seq![47u8] + behind;
    if before.contains(47u8) {
        let n = before.index_of_first(47u8)->0;
        before.index_of_first_ensures(47u8);
        let first = before.take(n);
        let rest = before.skip(n + 1);
        assert(!first.contains(47u8));
        assert(before =~= first + seq![47u8] + rest);
        lemma_component_len(first, rest);
        lemma_component_len(first, rest + seq![47u8] + behind);
        assert(s =~= first + seq![47u8] + (rest + seq![47u8] + behind));
        slashes_separate_components(rest, behind);
        assert(components_in(s) =~= components_in(before) + components_in(behind));
    } else {
        lemma_component_len(before, behind);
    }
}

/// A text without a slash is one component, unless there is nothing in it or nothing but a dot.
pub proof fn texts_without_slash_are_components(s: Seq<u8>)
    requires
        !s.contains(47u8),
    ensures
        components_in(s) == if s.len() == 0 || s == seq![46u8] {
            Seq::empty()
        } else {
            seq![s]
        },
        PathView::parsed(s) == (PathView {
            absolute: false,
            components: if s.len() == 0 {
                Seq::empty()
            } else {
                seq![s]
            },
        }),
{
    lemma_component_len(s, Seq::empty());
    if s.len() > 0 {
        assert(s.contains(s[0]));
    }
}

/// A slash at the start makes a path absolute; otherwise what is before its first slash is its
/// first component, whatever that is.
pub proof fn first_slash_of_a_path(first: Seq<u8>, rest: Seq<u8>)
    requires
        !first.contains(47u8),
    ensures
        PathView::parsed(first + seq![47u8] + rest) == if first.len() == 0 {
            PathView { absolute: true, components: components_in(rest) }
        } else {
            PathView { absolute: false, components: seq![first] + components_in(rest) }
        },
{
    let s = first + seq![47u8] + rest;
    lemma_component_len(first, rest);
    if first.len() > 0 {
        assert(first.contains(first[0]));
        assert(s[0] == first[0]);
    } else {
        assert(components_in(s) =~= components_in(rest));
    }
}

/// To join a text to a path is to write it behind what spells the path and a slash. A text that
/// starts with a slash stands for itself, and so does any text joined to the empty path.
pub proof fn joined_texts_are_written_behind(path: PathView, s: Seq<u8>)
    requires
        path.valid(),
    ensures
        ({
            let alone = s.len() > 0 && s[0] == 47u8 || !path.absolute && path.components.len() == 0;
            path.joined(s) == PathView::parsed(
                if alone {
                    s
                } else {
                    path.spelled() + seq![47u8] + s
                },
            )
        }),
{
    let alone = s.len() > 0 && s[0] == 47u8 || !path.absolute && path.components.len() == 0;
    if !path.absolute && path.components.len() == 0 {
        assert(path =~= PathView::empty());
    }
    if !alone {
        let all = path.components;
        let none = Seq::<u8>::empty();
        if path.absolute {
            assert forall|i: int| 0 <= i < all.len() implies {
                let component = #[trigger] all[i];
                !component.contains(47u8) && counts(component)
            } by {}
            lemma_spelled_components(all);
            let below = spelled_components(all);
            first_slash_of_a_path(none, below + seq![47u8] + s);
            assert(none + seq![47u8] + (below + seq![47u8] + s) =~= path.spelled() + seq![47u8]
                + s);
            slashes_separate_components(below, s);
        } else {
            let rest = all.skip(1);
            assert forall|i: int| 0 <= i < rest.len() implies {
                let component = #[trigger] rest[i];
                !component.contains(47u8) && counts(component)
            } by {
                assert(rest[i] == all[i + 1]);
            }
            assert(!all[0].contains(47u8) && all[0].len() > 0);
            if all.len() == 1 {
                first_slash_of_a_path(all[0], s);
                assert(seq![all[0]] =~= all);
            } else {
                let below = spelled_components(rest);
                lemma_spelled_components(rest);
                first_slash_of_a_path(all[0], below + seq![47u8] + s);
                slashes_separate_components(below, s);
                assert(all[0] + seq![47u8] + (below + seq![47u8] + s) =~= path.spelled()
                    + seq![47u8] + s);
                assert(seq![all[0]] + (rest + components_in(s)) =~= all + components_in(s));
            }
        }
    }
}

/// A path is spelled with a slash before each component but the first of a path that is not
/// absolute, and with no other slash but the one of the root alone.
pub proof fn paths_are_spelled(absolute: bool, above: Seq<Seq<u8>>, component: Seq<u8>)
    ensures
        ({
            let path = (PathView { absolute, components: above });
            (PathView { absolute, components: above.push(component) }).spelled()
                == if above.len() == 0 {
                path.spelled() + component
            } else {
                path.spelled() + seq![47u8] + component
            }
        }),
        (PathView { absolute, components: Seq::empty() }).spelled() == if absolute {
            seq![47u8]
        } else {
            Seq::empty()
        },
{
    lemma_spelled_push(above, component);
    let path = PathView { absolute, components: above };
    let longer = PathView { absolute, components: above.push(component) };
    let none = PathView { absolute, components: Seq::empty() };
    if above.len() == 0 {
        assert(longer.spelled() =~= path.spelled() + component);
    } else {
        assert(longer.spelled() =~= path.spelled() + seq![47u8] + component);
    }
    if absolute {
        assert(none.spelled() =~= seq![47u8]);
    }
}

proof fn lemma_spelled_push(above: Seq<Seq<u8>>, component: Seq<u8>)
    ensures
        spelled_components(above.push(component)) == if above.len() == 0 {
            component
        } else {
            spelled_components(above) + seq![47u8] + component
        },
    decreases above.len(),
{
    let all = above.push(component);
    if above.len() > 0 {
        assert(all.skip(1) =~= above.skip(1).push(component));
        lemma_spelled_push(above.skip(1), component);
        let joined = spelled_components(above) + seq![47u8] + component;
        if above.len() == 1 {
            assert(spelled_components(all) =~= joined);
        } else {
            assert(spelled_components(all) =~= joined);
        }
    }
}

/// What is in front of the last dot of a name is its stem, unless there is nothing in front of it.
/// A name without a dot is its own stem.
pub proof fn stems_end_at_the_last_dot(front: Seq<u8>, ext: Seq<u8>)
    requires
        !ext.contains(46u8),
    ensures
        stem(front + seq![46u8] + ext) == if front.len() == 0 {
            seq![46u8] + ext
        } else {
            front
        },
        stem(ext) == ext,
{
    lemma_last_dot(front + seq![46u8], ext);
    lemma_last_dot(Seq::empty(), ext);
    assert((front + seq![46u8]).drop_last() =~= front);
    assert(Seq::<u8>::empty() + ext =~= ext);
    let s = front + seq![46u8] + ext;
    if front.len() == 0 {
        assert(s =~= seq![46u8] + ext);
    } else {
        assert(s.take(front.len() as int) =~= front);
    }
}

proof fn lemma_last_dot(front: Seq<u8>, ext: Seq<u8>)
    requires
        !ext.contains(46u8),
    ensures
        last_dot(front + ext) == last_dot(front),
    decreases ext.len(),
{
    let s = front + ext;
    if ext.len() == 0 {
        assert(s =~= front);
    } else {
        let less = ext.drop_last();
        assert(ext.contains(ext.last()));
        assert(!less.contains(46u8)) by {
            if less.contains(46u8) {
                let i = choose|i: int| 0 <= i < less.len() && less[i] == 46u8;
                assert(ext[i] == 46u8);
            }
        }
        assert(s.last() == ext.last());
        assert(s.drop_last() =~= front + less);
        lemma_last_dot(front, less);
    }
}

/// Where the last component of a path is a name, and not `.` or `..`, only that component changes
/// with the extension: it is the name up to its last dot, then a dot and the extension. Without an
/// extension it is the name up to its last dot, unless that is a single dot, which is no component.
pub proof fn extensions_replace_extensions(path: PathView, ext: Seq<u8>)
    requires
        path.valid(),
        !ext.contains(47u8),
        path.components.len() == 0 || ext.len() > 0 || stem(path.components.last()) != seq![46u8],
    ensures
        ({
            let name = path.components.last();
            let end = if ext.len() == 0 {
                Seq::empty()
            } else {
                seq![46u8] + ext
            };
            path.with_extension(ext) == if path.components.len() == 0 || name == seq![46u8] || name
                == seq![46u8, 46u8] {
                path
            } else {
                PathView {
                    absolute: path.absolute,
                    components: path.components.drop_last().push(stem(name) + end),
                }
            }
        }),
{
    let name = path.components.last();
    if path.components.len() > 0 && name != seq![46u8] && name != seq![46u8, 46u8] {
        let end = if ext.len() == 0 {
            Seq::empty()
        } else {
            seq![46u8] + ext
        };
        assert(path.components[path.components.len() - 1] == name);
        lemma_stem(name);
        let renamed = stem(name) + end;
        assert(!renamed.contains(47u8)) by {
            if renamed.contains(47u8) {
                let i = choose|i: int| 0 <= i < renamed.len() && renamed[i] == 47u8;
                if i < stem(name).len() {
                    assert(stem(name)[i] == 47u8);
                } else if i > stem(name).len() {
                    assert(ext[i - stem(name).len() - 1] == 47u8);
                }
            }
        }
        if ext.len() == 0 {
            assert(stem(name) + end =~= stem(name));
        } else {
            assert(stem(name) + end =~= stem(name) + seq![46u8] + ext);
            assert(renamed.len() > 1);
        }
        lemma_renamed(path, renamed);
    }
}

/// Where the last component of a path is a name, and not `.` or `..`, an extension that is added
/// comes behind all of it, after a dot. To add nothing changes nothing.
pub proof fn extensions_are_added(path: PathView, ext: Seq<u8>)
    requires
        path.valid(),
        !ext.contains(47u8),
    ensures
        ({
            let name = path.components.last();
            path.with_added_extension(ext) == if path.components.len() == 0 || ext.len() == 0
                || name == seq![46u8] || name == seq![46u8, 46u8] {
                path
            } else {
                PathView {
                    absolute: path.absolute,
                    components: path.components.drop_last().push(name + seq![46u8] + ext),
                }
            }
        }),
{
    let name = path.components.last();
    if path.components.len() > 0 && name != seq![46u8] && name != seq![46u8, 46u8] && ext.len()
        > 0 {
        let end = seq![46u8] + ext;
        assert(path.components[path.components.len() - 1] == name);
        assert(name + end =~= name + seq![46u8] + ext);
        let renamed = name + end;
        assert(renamed.len() > 1);
        assert(!renamed.contains(47u8)) by {
            if renamed.contains(47u8) {
                let i = choose|i: int| 0 <= i < renamed.len() && renamed[i] == 47u8;
                if i < name.len() {
                    assert(name[i] == 47u8);
                } else if i > name.len() {
                    assert(ext[i - name.len() - 1] == 47u8);
                }
            }
        }
        lemma_renamed(path, renamed);
    }
}

proof fn lemma_last_dot_within(name: Seq<u8>)
    ensures
        -1 <= last_dot(name) < name.len(),
    decreases name.len(),
{
    if name.len() > 0 {
        lemma_last_dot_within(name.drop_last());
    }
}

proof fn lemma_stem(name: Seq<u8>)
    requires
        name.len() > 0,
        !name.contains(47u8),
    ensures
        stem(name).len() > 0,
        !stem(name).contains(47u8),
{
    lemma_last_dot_within(name);
    let stem = stem(name);
    assert forall|i: int| 0 <= i < stem.len() implies stem[i] != 47u8 by {
        assert(stem[i] == name[i]);
        assert(name.contains(name[i]));
    }
}

proof fn lemma_renamed(path: PathView, name: Seq<u8>)
    requires
        path.components.len() > 0,
        name.len() > 0,
        name != seq![46u8],
        !name.contains(47u8),
    ensures
        path.with_file_name(name) == (PathView {
            absolute: path.absolute,
            components: path.components.drop_last().push(name),
        }),
{
    let above = PathView { components: path.components.drop_last(), ..path };
    texts_without_slash_are_components(name);
    assert(name.contains(name[0]));
    assert(above.components + seq![name] =~= above.components.push(name));
    if above == PathView::empty() {
        assert(seq![name] =~= above.components.push(name));
    }
}

/// The directory of a path has all its components but the last, and is absolute where the path is.
pub proof fn directories_are_one_up(above: PathView, component: Seq<u8>)
    ensures
        (PathView {
            absolute: above.absolute,
            components: above.components.push(component),
        }).parent() == above,
        (PathView { absolute: above.absolute, components: Seq::empty() }).parent() == (PathView {
            absolute: false,
            components: Seq::empty(),
        }),
{
    assert(above.components.push(component).drop_last() =~= above.components);
}

/// Where the last component of a path is a name, to change its extension is to join the new name,
/// whatever it is, to the directory of the path.
pub proof fn renamed_files_stay_in_their_directory(path: PathView, ext: Seq<u8>)
    requires
        path.components.len() > 0,
        path.components.last() != seq![46u8],
        path.components.last() != seq![46u8, 46u8],
    ensures
        ({
            let above = path.parent();
            let name = path.components.last();
            &&& path.with_extension(ext) == above.joined(
                if ext.len() == 0 {
                    stem(name)
                } else {
                    stem(name) + seq![46u8] + ext
                },
            )
            &&& ext.len() > 0 ==> path.with_added_extension(ext) == above.joined(
                name + seq![46u8] + ext,
            )
        }),
{
}

/// A module that is asked for lies where its name leads from the module that asks for it, and from
/// no other.
pub proof fn requests_start_from_their_modules<F>(ctx: ContextView<F>, rq: ModIdRequestView)
    requires
        0 <= rq.parent_id < ctx.modules.len(),
        ctx.modules[rq.parent_id].0.components.len() > 0,
        !from_base(rq.name),
        forall|i: int|
            0 <= i < segments(rq.name).len() ==> is_ordinary(#[trigger] segments(rq.name)[i]),
    ensures
        ({
            let parent = ctx.modules[rq.parent_id].0;
            ctx.requested(rq) == (PathView {
                absolute: parent.absolute,
                components: parent.components.drop_last() + bytes_of(segments(rq.name)),
            })
        }),
{
    let parent = ctx.modules[rq.parent_id].0;
    lemma_joined_all_ordinary(parent.parent(), segments(rq.name));
}

} // verus!
