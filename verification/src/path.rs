//! The paths of modules, as on Unix.
use crate::text::{lemma_prefix_while, lemma_prefix_while_is, prefix_while};
use vstd::prelude::*;
use vstd::string::*;
use vstd::utf8::*;

verus! {

pub const SLASH: u8 = 47;

pub const DOT: u8 = 46;

/// The components of a path, one below the other, from the root or from wherever the program
/// runs. Two paths are the same where their components are.
#[derive(Debug)]
pub struct ModulePath {
    pub absolute: bool,
    pub components: Vec<Vec<u8>>,
}

#[verifier::ext_equal]
pub struct PathView {
    pub absolute: bool,
    pub components: Seq<Seq<u8>>,
}

/// The bytes of each component.
pub open spec fn component_views(components: Seq<Vec<u8>>) -> Seq<Seq<u8>> {
    components.map_values(|c: Vec<u8>| c@)
}

impl View for ModulePath {
    type V = PathView;

    open spec fn view(&self) -> PathView {
        PathView { absolute: self.absolute, components: component_views(self.components@) }
    }
}

pub open spec fn within_component() -> spec_fn(u8) -> bool {
    |b: u8| b != SLASH
}

/// The length of the first component of `s`.
pub open spec fn component_len(s: Seq<u8>) -> nat {
    prefix_while(s, within_component())
}

/// A component that leads further down: neither empty nor `.`.
pub open spec fn counts(component: Seq<u8>) -> bool {
    component.len() > 0 && component != seq![DOT]
}

/// `component` as the only component, if it counts.
pub open spec fn counted(component: Seq<u8>) -> Seq<Seq<u8>> {
    if counts(component) {
        seq![component]
    } else {
        Seq::empty()
    }
}

/// The components of `s` that count.
pub open spec fn components_in(s: Seq<u8>) -> Seq<Seq<u8>>
    decreases s.len(),
{
    let n = component_len(s) as int;
    if 0 <= n < s.len() {
        counted(s.take(n)) + components_in(s.skip(n + 1))
    } else {
        counted(s)
    }
}

impl PathView {
    /// The path without components, from wherever the program runs.
    pub open spec fn empty() -> PathView {
        PathView { absolute: false, components: Seq::empty() }
    }

    /// The path that `s` spells: slashes separate its components, and one at the start makes it
    /// absolute. A `.` counts nowhere but at the start.
    pub open spec fn parsed(s: Seq<u8>) -> PathView {
        let n = component_len(s) as int;
        if s.len() == 0 {
            PathView::empty()
        } else if s[0] == SLASH {
            PathView { absolute: true, components: components_in(s) }
        } else if n < s.len() {
            PathView {
                absolute: false,
                components: seq![s.take(n)] + components_in(s.skip(n + 1)),
            }
        } else {
            PathView { absolute: false, components: seq![s] }
        }
    }

    /// The path one up from here; that of a path without components is the empty path.
    pub open spec fn parent(self) -> PathView {
        if self.components.len() == 0 {
            PathView::empty()
        } else {
            PathView { components: self.components.drop_last(), ..self }
        }
    }

    /// The path that `s` spells from here. An absolute one starts anew.
    pub open spec fn joined(self, s: Seq<u8>) -> PathView {
        if s.len() > 0 && s[0] == SLASH || self == PathView::empty() {
            PathView::parsed(s)
        } else {
            PathView { components: self.components + components_in(s), ..self }
        }
    }

    /// The last component, unless it leads nowhere or back up.
    pub open spec fn file_name(self) -> Option<Seq<u8>> {
        if self.components.len() == 0 || self.components.last() == seq![DOT]
            || self.components.last() == seq![DOT, DOT] {
            None
        } else {
            Some(self.components.last())
        }
    }

    /// With `name` in place of the last component.
    pub open spec fn with_file_name(self, name: Seq<u8>) -> PathView {
        PathView { components: self.components.drop_last(), ..self }.joined(name)
    }

    /// With the extension `ext`, or without one where `ext` is empty.
    pub open spec fn with_extension(self, ext: Seq<u8>) -> PathView {
        match self.file_name() {
            None => self,
            Some(name) => if ext.len() == 0 {
                self.with_file_name(stem(name))
            } else {
                self.with_file_name(stem(name) + seq![DOT] + ext)
            },
        }
    }

    /// With `ext` behind whatever extension there is.
    pub open spec fn with_added_extension(self, ext: Seq<u8>) -> PathView {
        match self.file_name() {
            None => self,
            Some(name) => if ext.len() == 0 {
                self
            } else {
                self.with_file_name(name + seq![DOT] + ext)
            },
        }
    }

    /// What spells this path.
    pub open spec fn spelled(self) -> Seq<u8> {
        if self.absolute {
            seq![SLASH] + spelled_components(self.components)
        } else {
            spelled_components(self.components)
        }
    }

    /// There is no slash in a component, and each of them counts, but for a `.` at the start of a
    /// path that is not absolute.
    pub open spec fn valid(self) -> bool {
        forall|i: int|
            0 <= i < self.components.len() ==> {
                let component = #[trigger] self.components[i];
                &&& !component.contains(SLASH)
                &&& counts(component) || i == 0 && !self.absolute && component == seq![DOT]
            }
    }
}

/// The place of the last dot in `name`, or -1.
pub open spec fn last_dot(name: Seq<u8>) -> int
    decreases name.len(),
{
    if name.len() == 0 {
        -1
    } else if name.last() == DOT {
        name.len() - 1
    } else {
        last_dot(name.drop_last())
    }
}

/// `name` without its extension, the part from its last dot on. A dot at the start does not begin
/// an extension.
pub open spec fn stem(name: Seq<u8>) -> Seq<u8> {
    if last_dot(name) > 0 {
        name.take(last_dot(name))
    } else {
        name
    }
}

/// The components with a slash between each two of them.
pub open spec fn spelled_components(components: Seq<Seq<u8>>) -> Seq<u8>
    decreases components.len(),
{
    if components.len() == 0 {
        Seq::empty()
    } else if components.len() == 1 {
        components[0]
    } else {
        components[0] + seq![SLASH] + spelled_components(components.skip(1))
    }
}

/// Tells whether two strings of bytes are equal.
fn same_bytes(a: &Vec<u8>, b: &Vec<u8>) -> (r: bool)
    ensures
        r == (a@ == b@),
{
    if a.len() != b.len() {
        return false;
    }
    let mut i: usize = 0;
    while i < a.len()
        invariant
            i <= a@.len(),
            a@.len() == b@.len(),
            forall|k: int| 0 <= k < i ==> #[trigger] a@[k] == b@[k],
        decreases a@.len() - i,
    {
        if a[i] != b[i] {
            return false;
        }
        i += 1;
    }
    assert(a@ =~= b@);
    true
}

fn copy_bytes(a: &Vec<u8>) -> (r: Vec<u8>)
    ensures
        r@ == a@,
{
    let mut r: Vec<u8> = Vec::new();
    add_bytes(&mut r, a);
    assert(r@ =~= a@);
    r
}

fn add_bytes(to: &mut Vec<u8>, a: &Vec<u8>)
    ensures
        final(to)@ == old(to)@ + a@,
{
    let mut i: usize = 0;
    while i < a.len()
        invariant
            i <= a@.len(),
            to@ == old(to)@ + a@.take(i as int),
        decreases a@.len() - i,
    {
        to.push(a[i]);
        i += 1;
        assert(to@ =~= old(to)@ + a@.take(i as int));
    }
    assert(a@.take(i as int) =~= a@);
}

/// The part of a file name before its extension.
fn stem_of(name: &Vec<u8>) -> (r: Vec<u8>)
    ensures
        r@ == stem(name@),
{
    let mut end: usize = name.len();
    assert(name@.take(end as int) =~= name@);
    while end > 0 && name[end - 1] != DOT
        invariant
            end <= name@.len(),
            last_dot(name@) == last_dot(name@.take(end as int)),
        decreases end,
    {
        end -= 1;
        assert(name@.take(end + 1).drop_last() =~= name@.take(end as int));
    }
    if end <= 1 {
        return copy_bytes(name);
    }
    let mut r: Vec<u8> = Vec::new();
    let mut i: usize = 0;
    while i < end - 1
        invariant
            i <= end - 1,
            1 < end <= name@.len(),
            r@ == name@.take(i as int),
        decreases end - i,
    {
        r.push(name[i]);
        i += 1;
        assert(r@ =~= name@.take(i as int));
    }
    r
}

impl ModulePath {
    /// Adds the components of `s` behind its first `from` bytes that count.
    fn add_components(s: &Vec<u8>, from: usize, components: &mut Vec<Vec<u8>>)
        requires
            from <= s@.len(),
        ensures
            component_views(final(components)@) == component_views(old(components)@)
                + components_in(s@.skip(from as int)),
    {
        let mut i: usize = from;
        loop
            invariant
                from <= i <= s@.len(),
                component_views(components@) + components_in(s@.skip(i as int))
                    == component_views(old(components)@) + components_in(s@.skip(from as int)),
            decreases s@.len() - i,
        {
            let ghost before = component_views(components@);
            let ghost rest = s@.skip(i as int);
            let mut component: Vec<u8> = Vec::new();
            let mut j: usize = i;
            while j < s.len() && s[j] != SLASH
                invariant
                    i <= j <= s@.len(),
                    component@ == s@.subrange(i as int, j as int),
                    forall|k: int| i <= k < j ==> #[trigger] s@[k] != SLASH,
                decreases s@.len() - j,
            {
                component.push(s[j]);
                j += 1;
            }
            proof {
                assert forall|k: int| 0 <= k < j - i implies within_component()(
                    #[trigger] rest[k],
                ) by {
                    assert(rest[k] == s@[i + k]);
                }
                lemma_prefix_while_is(rest, within_component(), j - i);
                assert(component@ =~= rest.take(j - i));
                assert(j == s@.len() ==> component@ =~= rest);
                assert(j < s@.len() ==> rest.skip(j - i + 1) =~= s@.skip(j + 1));
            }
            let only_dot = component.len() == 1 && component[0] == DOT;
            assert(only_dot <==> component@ =~= seq![DOT]);
            let ghost bytes = component@;
            if component.len() > 0 && !only_dot {
                components.push(component);
            }
            proof {
                assert(component_views(components@) =~= before + counted(bytes));
            }
            if j == s.len() {
                return;
            }
            proof {
                assert(component_views(components@) + components_in(s@.skip(j + 1)) =~= before
                    + components_in(rest));
            }
            i = j + 1;
        }
    }

    /// The path that `s` spells.
    pub fn from_bytes(s: &Vec<u8>) -> (r: Self)
        ensures
            r@ == PathView::parsed(s@),
    {
        let mut components: Vec<Vec<u8>> = Vec::new();
        assert(component_views(components@) =~= Seq::empty());
        if s.len() == 0 {
            return ModulePath { absolute: false, components };
        }
        if s[0] == SLASH {
            ModulePath::add_components(s, 0, &mut components);
            assert(s@.skip(0) =~= s@);
            assert(component_views(components@) =~= components_in(s@));
            return ModulePath { absolute: true, components };
        }
        let mut first: Vec<u8> = Vec::new();
        let mut n: usize = 0;
        while n < s.len() && s[n] != SLASH
            invariant
                n <= s@.len(),
                first@ == s@.take(n as int),
                forall|k: int| 0 <= k < n ==> #[trigger] s@[k] != SLASH,
            decreases s@.len() - n,
        {
            first.push(s[n]);
            n += 1;
            assert(first@ =~= s@.take(n as int));
        }
        proof {
            assert forall|k: int| 0 <= k < n implies within_component()(#[trigger] s@[k]) by {}
            lemma_prefix_while_is(s@, within_component(), n as int);
        }
        let ghost bytes = first@;
        components.push(first);
        assert(component_views(components@) =~= seq![bytes]);
        if n < s.len() {
            ModulePath::add_components(s, n + 1, &mut components);
        } else {
            assert(bytes =~= s@);
        }
        ModulePath { absolute: false, components }
    }

    fn copy(&self) -> (r: Self)
        ensures
            r@ == self@,
    {
        let components = ModulePath::copy_components(&self.components, self.components.len());
        assert(self@.components.take(self@.components.len() as int) =~= self@.components);
        ModulePath { absolute: self.absolute, components }
    }

    /// The first `n` of `components`.
    fn copy_components(components: &Vec<Vec<u8>>, n: usize) -> (r: Vec<Vec<u8>>)
        requires
            n <= components@.len(),
        ensures
            component_views(r@) == component_views(components@).take(n as int),
    {
        let mut r: Vec<Vec<u8>> = Vec::new();
        let mut i: usize = 0;
        while i < n
            invariant
                i <= n <= components@.len(),
                component_views(r@) == component_views(components@).take(i as int),
            decreases n - i,
        {
            let ghost before = component_views(r@);
            r.push(copy_bytes(&components[i]));
            assert(component_views(r@) =~= before.push(components@[i as int]@));
            i += 1;
            assert(component_views(r@) =~= component_views(components@).take(i as int));
        }
        r
    }

    /// Tells whether two paths are the same.
    pub fn same(&self, other: &Self) -> (r: bool)
        ensures
            r == (self@ == other@),
    {
        if self.absolute != other.absolute || self.components.len() != other.components.len() {
            assert(self.components@.len() == self@.components.len());
            assert(other.components@.len() == other@.components.len());
            return false;
        }
        let mut i: usize = 0;
        while i < self.components.len()
            invariant
                i <= self.components@.len(),
                self.components@.len() == other.components@.len(),
                forall|k: int|
                    0 <= k < i ==> #[trigger] self@.components[k] == other@.components[k],
            decreases self.components@.len() - i,
        {
            if !same_bytes(&self.components[i], &other.components[i]) {
                assert(self@.components[i as int] != other@.components[i as int]);
                return false;
            }
            i += 1;
        }
        assert(self@.components =~= other@.components);
        true
    }

    /// The path one up from here; that of a path without components is the empty path.
    pub fn parent(&self) -> (r: Self)
        ensures
            r@ == self@.parent(),
    {
        let n: usize = self.components.len();
        assert(n == self@.components.len());
        if n == 0 {
            let components: Vec<Vec<u8>> = Vec::new();
            assert(component_views(components@) =~= Seq::empty());
            ModulePath { absolute: false, components }
        } else {
            let components = ModulePath::copy_components(&self.components, n - 1);
            assert(component_views(components@) =~= self@.components.drop_last());
            ModulePath { absolute: self.absolute, components }
        }
    }

    /// The path that `s` spells from here.
    pub fn join_bytes(&self, s: &Vec<u8>) -> (r: Self)
        ensures
            r@ == self@.joined(s@),
    {
        if s.len() > 0 && s[0] == SLASH {
            return ModulePath::from_bytes(s);
        }
        if !self.absolute && self.components.len() == 0 {
            assert(self@ =~= PathView::empty());
            return ModulePath::from_bytes(s);
        }
        assert(self@.components.len() == self.components@.len());
        let mut path = self.copy();
        ModulePath::add_components(s, 0, &mut path.components);
        assert(s@.skip(0) =~= s@);
        path
    }

    /// The path that `s` spells from here.
    pub fn join(&self, s: &str) -> (r: Self)
        ensures
            r@ == self@.joined(encode_utf8(s@)),
    {
        self.join_bytes(&s.as_bytes_vec())
    }

    /// The last component, unless it leads nowhere or back up.
    fn file_name(&self) -> (r: Option<&Vec<u8>>)
        ensures
            r is Some <==> self@.file_name() is Some,
            r matches Some(name) ==> self@.file_name() == Some(name@),
    {
        let n: usize = self.components.len();
        if n == 0 {
            return None;
        }
        let name = &self.components[n - 1];
        assert(self@.components.last() == name@);
        if name.len() == 1 && name[0] == DOT {
            assert(name@ =~= seq![DOT]);
            return None;
        }
        if name.len() == 2 && name[0] == DOT && name[1] == DOT {
            assert(name@ =~= seq![DOT, DOT]);
            return None;
        }
        Some(name)
    }

    /// With `name` in place of the last component.
    fn with_file_name(&self, name: &Vec<u8>) -> (r: Self)
        requires
            self@.components.len() > 0,
        ensures
            r@ == self@.with_file_name(name@),
    {
        self.parent().join_bytes(name)
    }

    /// With the extension `ext`, or without one where `ext` is empty.
    pub fn with_extension(&self, ext: &str) -> (r: Self)
        ensures
            r@ == self@.with_extension(encode_utf8(ext@)),
    {
        match self.file_name() {
            None => self.copy(),
            Some(name) => {
                let ext = ext.as_bytes_vec();
                let mut renamed = stem_of(name);
                if ext.len() > 0 {
                    renamed.push(DOT);
                    let ghost dotted = renamed@;
                    add_bytes(&mut renamed, &ext);
                    assert(renamed@ =~= stem(name@) + seq![DOT] + ext@);
                }
                self.with_file_name(&renamed)
            },
        }
    }

    /// With `ext` behind whatever extension there is.
    pub fn with_added_extension(&self, ext: &str) -> (r: Self)
        ensures
            r@ == self@.with_added_extension(encode_utf8(ext@)),
    {
        match self.file_name() {
            None => self.copy(),
            Some(name) => {
                let ext = ext.as_bytes_vec();
                if ext.len() == 0 {
                    return self.copy();
                }
                let mut renamed = copy_bytes(name);
                renamed.push(DOT);
                add_bytes(&mut renamed, &ext);
                assert(renamed@ =~= name@ + seq![DOT] + ext@);
                self.with_file_name(&renamed)
            },
        }
    }

    /// What spells this path.
    pub fn to_bytes(&self) -> (r: Vec<u8>)
        ensures
            r@ == self@.spelled(),
    {
        let mut r: Vec<u8> = Vec::new();
        if self.absolute {
            r.push(SLASH);
        }
        let ghost start = r@;
        let ghost all = self@.components;
        let mut i: usize = 0;
        assert(all.skip(0) =~= all);
        assert(start + spelled_components(all) =~= self@.spelled());
        while i < self.components.len()
            invariant
                i <= self.components@.len(),
                all == self@.components,
                r@ + spelled_components(all.skip(i as int)) == self@.spelled(),
            decreases self.components@.len() - i,
        {
            let ghost before = r@;
            let ghost left = all.skip(i as int);
            assert(left[0] == self.components@[i as int]@);
            add_bytes(&mut r, &self.components[i]);
            i += 1;
            assert(left.skip(1) =~= all.skip(i as int));
            if i < self.components.len() {
                r.push(SLASH);
                assert(r@ + spelled_components(all.skip(i as int)) =~= before
                    + spelled_components(left));
            } else {
                assert(spelled_components(all.skip(i as int)) =~= Seq::empty());
                assert(r@ + spelled_components(all.skip(i as int)) =~= before
                    + spelled_components(left));
            }
        }
        assert(r@ =~= r@ + spelled_components(all.skip(i as int)));
        r
    }
}

proof fn lemma_first_component(s: Seq<u8>)
    ensures
        component_len(s) <= s.len(),
        !s.take(component_len(s) as int).contains(SLASH),
{
    lemma_prefix_while(s, within_component());
    let n = component_len(s) as int;
    let first = s.take(n);
    assert forall|i: int| 0 <= i < n implies first[i] != SLASH by {
        assert(within_component()(s[i]));
    }
}

proof fn lemma_components_in(s: Seq<u8>)
    ensures
        forall|i: int|
            0 <= i < components_in(s).len() ==> {
                let component = #[trigger] components_in(s)[i];
                !component.contains(SLASH) && counts(component)
            },
    decreases s.len(),
{
    let n = component_len(s) as int;
    lemma_first_component(s);
    if n < s.len() {
        lemma_components_in(s.skip(n + 1));
        let first = counted(s.take(n));
        let rest = components_in(s.skip(n + 1));
        assert forall|i: int| 0 <= i < (first + rest).len() implies {
            let component = #[trigger] (first + rest)[i];
            !component.contains(SLASH) && counts(component)
        } by {
            if i >= first.len() {
                assert((first + rest)[i] == rest[i - first.len()]);
            }
        }
    } else {
        assert(s.take(n) =~= s);
    }
}

/// Every path that a text spells is valid.
pub proof fn parsed_is_valid(s: Seq<u8>)
    ensures
        PathView::parsed(s).valid(),
{
    let n = component_len(s) as int;
    lemma_first_component(s);
    lemma_components_in(s);
    if s.len() > 0 && s[0] != SLASH {
        assert(n > 0) by {
            if n == 0 {
                lemma_prefix_while(s, within_component());
                assert(!within_component()(s[0]));
            }
        }
        let first = s.take(n);
        assert(counts(first) || first == seq![DOT]);
        if n < s.len() {
            lemma_components_in(s.skip(n + 1));
            let rest = components_in(s.skip(n + 1));
            let all = PathView::parsed(s).components;
            assert forall|i: int| 0 < i < all.len() implies !(#[trigger] all[i]).contains(SLASH)
                && counts(all[i]) by {
                assert(all[i] == rest[i - 1]);
            }
        } else {
            assert(first =~= s);
        }
    }
}

/// The path one up from a valid path is valid.
pub proof fn parent_is_valid(path: PathView)
    requires
        path.valid(),
    ensures
        path.parent().valid(),
{
    if path.components.len() > 0 {
        assert forall|i: int| 0 <= i < path.parent().components.len() implies {
            let component = #[trigger] path.parent().components[i];
            &&& !component.contains(SLASH)
            &&& counts(component) || i == 0 && !path.absolute && component == seq![DOT]
        } by {
            assert(path.parent().components[i] == path.components[i]);
        }
    }
}

/// Whatever is joined to a valid path, the path stays valid.
pub proof fn joined_is_valid(path: PathView, s: Seq<u8>)
    requires
        path.valid(),
    ensures
        path.joined(s).valid(),
{
    parsed_is_valid(s);
    lemma_components_in(s);
    let added = components_in(s);
    let all = path.components + added;
    assert forall|i: int| 0 <= i < all.len() implies {
        let component = #[trigger] all[i];
        &&& !component.contains(SLASH)
        &&& counts(component) || i == 0 && !path.absolute && component == seq![DOT]
    } by {
        if i < path.components.len() {
            assert(all[i] == path.components[i]);
        } else {
            assert(all[i] == added[i - path.components.len()]);
        }
    }
}

pub proof fn lemma_component_len(first: Seq<u8>, rest: Seq<u8>)
    requires
        !first.contains(SLASH),
    ensures
        component_len(first) == first.len(),
        component_len(first + seq![SLASH] + rest) == first.len(),
        (first + seq![SLASH] + rest).take(first.len() as int) == first,
        (first + seq![SLASH] + rest).skip(first.len() as int + 1) == rest,
{
    let s = first + seq![SLASH] + rest;
    let n = first.len() as int;
    assert forall|i: int| 0 <= i < n implies within_component()(#[trigger] s[i]) by {
        assert(s[i] == first[i]);
        assert(first.contains(first[i]));
    }
    assert forall|i: int| 0 <= i < n implies within_component()(#[trigger] first[i]) by {
        assert(first.contains(first[i]));
    }
    lemma_prefix_while_is(s, within_component(), n);
    lemma_prefix_while_is(first, within_component(), n);
    assert(s.take(n) =~= first);
    assert(s.skip(n + 1) =~= rest);
}

pub proof fn lemma_spelled_components(components: Seq<Seq<u8>>)
    requires
        forall|i: int|
            0 <= i < components.len() ==> {
                let component = #[trigger] components[i];
                !component.contains(SLASH) && counts(component)
            },
    ensures
        components_in(spelled_components(components)) == components,
    decreases components.len(),
{
    if components.len() == 0 {
        lemma_first_component(Seq::empty());
    } else {
        let rest = components.skip(1);
        assert forall|i: int| 0 <= i < rest.len() implies {
            let component = #[trigger] rest[i];
            !component.contains(SLASH) && counts(component)
        } by {
            assert(rest[i] == components[i + 1]);
        }
        lemma_component_len(components[0], spelled_components(rest));
        if components.len() > 1 {
            lemma_spelled_components(rest);
            assert(components_in(spelled_components(components)) =~= components);
        } else {
            assert(components_in(spelled_components(components)) =~= components);
        }
    }
}

/// What spells a valid path spells that path and no other.
pub proof fn spelling_round_trip(path: PathView)
    requires
        path.valid(),
    ensures
        PathView::parsed(path.spelled()) == path,
{
    let all = path.components;
    if path.absolute {
        assert forall|i: int| 0 <= i < all.len() implies {
            let component = #[trigger] all[i];
            !component.contains(SLASH) && counts(component)
        } by {}
        lemma_spelled_components(all);
        let s = path.spelled();
        lemma_component_len(Seq::empty(), spelled_components(all));
        assert(s =~= Seq::<u8>::empty() + seq![SLASH] + spelled_components(all));
        assert(components_in(s) =~= all);
    } else if all.len() > 0 {
        let rest = all.skip(1);
        assert forall|i: int| 0 <= i < rest.len() implies {
            let component = #[trigger] rest[i];
            !component.contains(SLASH) && counts(component)
        } by {
            assert(rest[i] == all[i + 1]);
        }
        lemma_spelled_components(rest);
        lemma_component_len(all[0], spelled_components(rest));
        assert(all[0].len() > 0 && all[0].contains(all[0][0]));
        assert(path.spelled()[0] == all[0][0]);
        assert(PathView::parsed(path.spelled()).components =~= all);
    } else {
        assert(path =~= PathView::empty());
    }
}

} // verus!
