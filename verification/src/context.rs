//! The modules of a program and the queue of those that are still to be lexed.
use crate::graphemes::{count_graphemes, grapheme_count};
use crate::lex_error::{BadIncludeError, SpannedView};
use crate::lexer::{LexResult, Lexer, ModIdRequest, ModIdRequestView};
use crate::part::{AlreadyProcessingError, Part, PartStage, PartState, PartView, finished, started};
use crate::path::{ModulePath, PathView, joined_is_valid, parent_is_valid};
use crate::scheduler::{SchedulerError, SchedulerErrorView, WrongStageError};
use crate::text::{chars_of, same_text};
use vstd::prelude::*;
use vstd::string::*;
use vstd::utf8::*;

verus! {

/// A colon followed by another one.
pub open spec fn separates(s: Seq<char>, i: int) -> bool {
    0 <= i && i + 1 < s.len() && s[i] == ':' && s[i + 1] == ':'
}

/// The place of the first `::` at or behind `i`.
pub open spec fn separator(s: Seq<char>, i: int) -> Option<int>
    decreases s.len() - i,
{
    if i < 0 || i >= s.len() {
        None
    } else if separates(s, i) {
        Some(i)
    } else {
        separator(s, i + 1)
    }
}

/// The parts of a module's name, which `::` separates.
pub open spec fn segments(name: Seq<char>) -> Seq<Seq<char>>
    decreases name.len(),
{
    match separator(name, 0) {
        Some(i) => if 0 <= i && i + 2 <= name.len() {
            seq![name.take(i)] + segments(name.skip(i + 2))
        } else {
            seq![name]
        },
        None => seq![name],
    }
}

/// `path` with each of `segments` joined to it in turn.
pub open spec fn joined_all(path: PathView, segments: Seq<Seq<char>>) -> PathView
    decreases segments.len(),
{
    if segments.len() == 0 {
        path
    } else {
        joined_all(path.joined(encode_utf8(segments[0])), segments.skip(1))
    }
}

/// The name starts at the base of the program, not at the module that it is used in.
pub open spec fn from_base(name: Seq<char>) -> bool {
    segments(name)[0] == "base"@
}

/// The path of the module that `name` stands for in a module at `parent`.
pub open spec fn include_path(name: Seq<char>, parent: PathView) -> PathView {
    if from_base(name) {
        joined_all(PathView::empty(), segments(name).skip(1))
    } else {
        joined_all(parent.parent(), segments(name))
    }
}

pub proof fn lemma_separator(s: Seq<char>, i: int, k: int)
    requires
        0 <= i <= k <= s.len(),
        forall|j: int| i <= j < k ==> !separates(s, j),
    ensures
        separator(s, i) == separator(s, k),
    decreases k - i,
{
    if i < k {
        assert(!separates(s, i));
        lemma_separator(s, i + 1, k);
    }
}

/// The parts of a module's name.
fn split_name(name: &str) -> (r: Vec<String>)
    ensures
        r@.len() == segments(name@).len(),
        r@.len() > 0,
        forall|i: int| 0 <= i < r@.len() ==> (#[trigger] r@[i])@ == segments(name@)[i],
{
    let mut r: Vec<String> = Vec::new();
    let cs = chars_of(name);
    let mut start: usize = 0;
    let mut i: usize = 0;
    proof {
        assert(name@.skip(0) =~= name@);
    }
    while i < cs.len()
        invariant
            start <= i <= cs@.len(),
            cs@ == name@,
            r@.len() + segments(name@.skip(start as int)).len() == segments(name@).len(),
            forall|k: int| 0 <= k < r@.len() ==> (#[trigger] r@[k])@ == segments(name@)[k],
            segments(name@.skip(start as int)) == segments(name@).skip(r@.len() as int),
            forall|j: int|
                0 <= j < i - start ==> !#[trigger] separates(name@.skip(start as int), j),
        decreases cs@.len() - i,
    {
        let ghost left = name@.skip(start as int);
        let ghost here = i - start;
        if cs[i] == ':' && i + 1 < cs.len() && cs[i + 1] == ':' {
            let part = name.substring_char(start, i);
            proof {
                assert(left[here] == name@[i as int]);
                assert(left[here + 1] == name@[i + 1]);
                assert(separates(left, here));
                lemma_separator(left, 0, here);
                assert(separator(left, 0) == Some(here));
                assert(part@ =~= left.take(here));
                assert(left.skip(here + 2) =~= name@.skip(i + 2));
                assert(segments(left)[0] == part@);
                assert(segments(left).skip(1) =~= segments(name@.skip(i + 2)));
                let n = r@.len() as int;
                assert(segments(name@).skip(n)[0] == segments(name@)[n]);
                assert(segments(name@).skip(n).skip(1) =~= segments(name@).skip(n + 1));
            }
            r.push(part.to_owned());
            i += 2;
            start = i;
        } else {
            proof {
                assert(left[here] == name@[i as int]);
                assert(here + 1 < left.len() ==> left[here + 1] == name@[i + 1]);
                assert(!separates(left, here));
            }
            i += 1;
        }
    }
    let part = name.substring_char(start, cs.len());
    proof {
        let left = name@.skip(start as int);
        lemma_separator(left, 0, left.len() as int);
        assert(part@ =~= left);
        assert(segments(left) =~= seq![left]);
        assert(segments(name@).skip(r@.len() as int)[0] == segments(name@)[r@.len() as int]);
    }
    r.push(part.to_owned());
    r
}

/// `parts` with `::` between each two of them.
pub open spec fn with_separators(parts: Seq<Seq<char>>) -> Seq<char>
    decreases parts.len(),
{
    if parts.len() == 0 {
        Seq::empty()
    } else if parts.len() == 1 {
        parts[0]
    } else {
        parts[0] + "::"@ + with_separators(parts.skip(1))
    }
}

pub proof fn lemma_separator_found(s: Seq<char>, i: int)
    requires
        0 <= i,
        separator(s, i) is Some,
    ensures
        i <= separator(s, i)->0,
        separates(s, separator(s, i)->0),
        forall|j: int| i <= j < separator(s, i)->0 ==> !separates(s, j),
    decreases s.len() - i,
{
    if !separates(s, i) {
        lemma_separator_found(s, i + 1);
    }
}

/// The parts of a name make up that name, and there is at least one.
pub proof fn segments_make_up_name(name: Seq<char>)
    ensures
        segments(name).len() > 0,
        with_separators(segments(name)) == name,
    decreases name.len(),
{
    reveal_strlit("::");
    if let Some(i) = separator(name, 0) {
        lemma_separator_found(name, 0);
        let rest = name.skip(i + 2);
        segments_make_up_name(rest);
        assert(segments(name).skip(1) =~= segments(rest));
        assert(name =~= name.take(i) + "::"@ + rest);
    }
}

/// A name that starts at the base of the program stands for the same module wherever it is used.
pub proof fn base_names_agree(name: Seq<char>, here: PathView, there: PathView)
    requires
        from_base(name),
    ensures
        include_path(name, here) == include_path(name, there),
{
}

proof fn lemma_joined_all_is_valid(path: PathView, parts: Seq<Seq<char>>)
    requires
        path.valid(),
    ensures
        joined_all(path, parts).valid(),
    decreases parts.len(),
{
    if parts.len() > 0 {
        let next = encode_utf8(parts[0]);
        joined_is_valid(path, next);
        lemma_joined_all_is_valid(path.joined(next), parts.skip(1));
    }
}

/// Whatever name is used in a module at a valid path, it stands for a valid path.
pub proof fn include_path_is_valid(name: Seq<char>, parent: PathView)
    requires
        parent.valid(),
    ensures
        include_path(name, parent).valid(),
{
    parent_is_valid(parent);
    lemma_joined_all_is_valid(PathView::empty(), segments(name).skip(1));
    lemma_joined_all_is_valid(parent.parent(), segments(name));
}

/// The modules that have been asked for so far, each under its path, and the numbers of those
/// that wait to be lexed.
pub struct LexContext<F> {
    pub modules: Vec<(ModulePath, Part<F>)>,
    pub job_queue: Vec<usize>,
}

#[verifier::ext_equal]
pub struct ContextView<F> {
    pub modules: Seq<(PathView, PartView<F>)>,
    pub job_queue: Seq<usize>,
}

/// What each module stands for.
pub open spec fn module_views<F>(modules: Seq<(ModulePath, Part<F>)>) -> Seq<
    (PathView, PartView<F>),
> {
    modules.map_values(|m: (ModulePath, Part<F>)| (m.0@, m.1@))
}

impl<F> View for LexContext<F> {
    type V = ContextView<F>;

    open spec fn view(&self) -> ContextView<F> {
        ContextView { modules: module_views(self.modules@), job_queue: self.job_queue@ }
    }
}

impl<F> ContextView<F> {
    /// The first module at or behind `from` that is at `path`.
    pub open spec fn find(self, path: PathView, from: int) -> Option<int>
        decreases self.modules.len() - from,
    {
        if from < 0 || from >= self.modules.len() {
            None
        } else if self.modules[from].0 == path {
            Some(from)
        } else {
            self.find(path, from + 1)
        }
    }

    /// The path that `rq` asks for.
    pub open spec fn requested(self, rq: ModIdRequestView) -> PathView {
        include_path(rq.name, self.modules[rq.parent_id].0)
    }

    /// `rq` can be looked up: the module that it comes from is known, where that matters.
    pub open spec fn knows_parent(self, rq: ModIdRequestView) -> bool {
        from_base(rq.name) || 0 <= rq.parent_id < self.modules.len()
    }

    /// The source of the module at `path`, which `rq` asks for, has been opened, or could not be.
    /// Only the modules behind the first `from` can have that path by now.
    pub open spec fn opened(
        self,
        rq: ModIdRequestView,
        path: PathView,
        from: int,
        file: Option<F>,
    ) -> (ContextView<F>, Result<int, SpannedView>) {
        match file {
            None => (
                self,
                Err(
                    SpannedView {
                        bad: rq.name,
                        prov: rq.pos.provenance(grapheme_count(rq.name) as int),
                    },
                ),
            ),
            Some(file) => match self.find(path, from) {
                Some(i) => (self, Ok(i)),
                None => (
                    ContextView {
                        modules: self.modules.push(
                            (path, PartView { name: rq.name, state: PartState::Source(file) }),
                        ),
                        job_queue: self.job_queue.push(self.modules.len() as usize),
                    },
                    Ok(self.modules.len() as int),
                ),
            },
        }
    }

    /// What becomes of the request `rq`, where `file` is the source of the module that it asks
    /// for, if it can be opened.
    pub open spec fn answered(self, rq: ModIdRequestView, file: Option<F>) -> (
        ContextView<F>,
        Result<int, SpannedView>,
    ) {
        let path = self.requested(rq);
        match self.find(path, 0) {
            Some(i) => (self, Ok(i)),
            None => self.opened(rq, path, self.modules.len() as int, file),
        }
    }

    /// The next job is taken off the queue, and the last one takes its place.
    pub open spec fn job_taken(self) -> (
        ContextView<F>,
        Result<Option<F>, SchedulerErrorView>,
    ) {
        if self.job_queue.len() == 0 {
            (self, Ok(None))
        } else {
            let id = self.job_queue[0] as int;
            let (path, part) = self.modules[id];
            let modules = self.modules.update(id, (path, started(part)));
            match part.state {
                PartState::Source(file) => (
                    ContextView {
                        modules,
                        job_queue: self.job_queue.update(0, self.job_queue.last()).drop_last(),
                    },
                    Ok(Some(file)),
                ),
                PartState::Processing => (self, Err(SchedulerErrorView::AlreadyProcessing)),
                PartState::Tokens(_) => (
                    ContextView { modules, ..self },
                    Err(
                        SchedulerErrorView::WrongStage(
                            WrongStageError {
                                stage: PartStage::Tokens,
                                expected: PartStage::Source,
                            },
                        ),
                    ),
                ),
            }
        }
    }

    /// The module that `result` is about has been lexed.
    pub open spec fn committed(self, result: LexResult) -> ContextView<F> {
        let (path, part) = self.modules[result.file_id as int];
        ContextView {
            modules: self.modules.update(
                result.file_id as int,
                (path, finished(part, PartState::Tokens(result))),
            ),
            ..self
        }
    }
}

impl<F> LexContext<F> {
    pub fn new(modules: Vec<(ModulePath, Part<F>)>, job_queue: Vec<usize>) -> (r: Self)
        ensures
            r@ == (ContextView { modules: module_views(modules@), job_queue: job_queue@ }),
    {
        Self { modules, job_queue }
    }

    /// The first module at or behind `from` that is at `path`.
    fn find(&self, path: &ModulePath, from: usize) -> (r: Option<usize>)
        requires
            from <= self.modules@.len(),
        ensures
            r is Some <==> self@.find(path@, from as int) is Some,
            r matches Some(i) ==> self@.find(path@, from as int) == Some(i as int),
    {
        let mut i: usize = from;
        while i < self.modules.len()
            invariant
                i <= self.modules@.len(),
                self@.find(path@, i as int) == self@.find(path@, from as int),
            decreases self.modules@.len() - i,
        {
            assert(self@.modules[i as int].0 == self.modules@[i as int].0@);
            if self.modules[i].0.same(path) {
                return Some(i);
            }
            i += 1;
        }
        None
    }
}

/// What is known of a module that was asked for: its number, or where its source would have to
/// be.
pub enum Lookup {
    Known(usize),
    Unknown(ModulePath),
}

impl Lexer {
    /// The path of the module that `name` stands for, seen from the directory `path`.
    fn join_segments(path: ModulePath, parts: &Vec<String>, from: usize) -> (r: ModulePath)
        requires
            from <= parts@.len(),
        ensures
            r@ == joined_all(path@, parts@.map_values(|p: String| p@).skip(from as int)),
    {
        let ghost all = parts@.map_values(|p: String| p@);
        let mut path = path;
        let ghost start = path@;
        let mut i: usize = from;
        while i < parts.len()
            invariant
                from <= i <= parts@.len(),
                all == parts@.map_values(|p: String| p@),
                joined_all(path@, all.skip(i as int)) == joined_all(start, all.skip(from as int)),
            decreases parts@.len() - i,
        {
            assert(all.skip(i as int)[0] == parts@[i as int]@);
            assert(all.skip(i as int).skip(1) =~= all.skip(i + 1));
            path = path.join(parts[i].as_str());
            i += 1;
        }
        path
    }

    /// Looks up the module that `rq` asks for.
    pub fn handle_request<F>(rq: &ModIdRequest, ctx: &LexContext<F>) -> (r: Lookup)
        requires
            ctx@.knows_parent(rq@),
        ensures
            match r {
                Lookup::Known(id) => ctx@.find(ctx@.requested(rq@), 0) == Some(id as int),
                Lookup::Unknown(path) => {
                    &&& ctx@.find(ctx@.requested(rq@), 0) is None
                    &&& path@ == ctx@.requested(rq@)
                },
            },
    {
        let parts = split_name(rq.name.as_str());
        let ghost all = parts@.map_values(|p: String| p@);
        assert(all =~= segments(rq.name@));
        assert(all[0] == parts@[0]@);
        let path = if same_text(parts[0].as_str(), "base") {
            let base = ModulePath { absolute: false, components: Vec::new() };
            assert(base@ =~= PathView::empty());
            Lexer::join_segments(base, &parts, 1)
        } else {
            assert(ctx@.modules[rq.parent_id as int].0 == ctx.modules@[rq.parent_id as int].0@);
            assert(all.skip(0) =~= all);
            Lexer::join_segments(ctx.modules[rq.parent_id].0.parent(), &parts, 0)
        };
        match ctx.find(&path, 0) {
            Some(id) => Lookup::Known(id),
            None => Lookup::Unknown(path),
        }
    }

    /// Adds the module at `path` that `rq` asks for, once its source has been opened, and returns
    /// its number. There were `old_len` modules when it was looked up.
    pub fn open_module<F>(
        rq: ModIdRequest,
        ctx: &mut LexContext<F>,
        path: ModulePath,
        old_len: usize,
        file: Option<F>,
    ) -> (r: Result<usize, BadIncludeError>)
        requires
            old_len <= old(ctx)@.modules.len(),
        ensures
            final(ctx)@ == old(ctx)@.opened(rq@, path@, old_len as int, file).0,
            match r {
                Ok(id) => old(ctx)@.opened(rq@, path@, old_len as int, file).1 == Ok::<
                    int,
                    SpannedView,
                >(id as int),
                Err(err) => old(ctx)@.opened(rq@, path@, old_len as int, file).1 == Err::<
                    int,
                    SpannedView,
                >(err@),
            },
    {
        assert(ctx.modules@.len() == ctx@.modules.len());
        match file {
            Some(file) => {
                if let Some(id) = ctx.find(&path, old_len) {
                    return Ok(id);
                }
                let ghost before = ctx@;
                let id: usize = ctx.modules.len();
                ctx.modules.push((path, Part::new(file, rq.name)));
                ctx.job_queue.push(id);
                proof {
                    assert(ctx@ =~= before.opened(rq@, path@, old_len as int, Some(file)).0);
                }
                Ok(id)
            },
            None => {
                let graphemes = count_graphemes(rq.name.as_str());
                Err(BadIncludeError::new(rq.name, rq.pos.as_provenance(graphemes)))
            },
        }
    }

    /// Takes the next job off the queue and hands out the source of its module.
    pub fn new_job<F>(ctx: &mut LexContext<F>) -> (r: Result<Option<F>, SchedulerError>)
        requires
            old(ctx)@.job_queue.len() > 0 ==> old(ctx)@.job_queue[0] < old(ctx)@.modules.len(),
        ensures
            final(ctx)@ == old(ctx)@.job_taken().0,
            match r {
                Ok(job) => old(ctx)@.job_taken().1 == Ok::<Option<F>, SchedulerErrorView>(job),
                Err(err) => old(ctx)@.job_taken().1 == Err::<Option<F>, SchedulerErrorView>(err@),
            },
    {
        let ghost before = ctx@;
        if ctx.job_queue.len() == 0 {
            return Ok(None);
        }
        let id: usize = ctx.job_queue[0];
        let ghost module = ctx.modules@[id as int];
        assert(before.modules[id as int] == (module.0@, module.1@));
        let state = match ctx.modules[id].1.start_processing() {
            Ok(state) => state,
            Err(err) => {
                assert(ctx@ =~= before);
                return Err(SchedulerError::AlreadyProcessing(err));
            },
        };
        assert(ctx@.modules =~= before.modules.update(
            id as int,
            (before.modules[id as int].0, started(before.modules[id as int].1)),
        ));
        match state {
            PartState::Source(file) => {
                ctx.job_queue.swap_remove(0);
                Ok(Some(file))
            },
            PartState::Processing => Err(SchedulerError::AlreadyProcessing(AlreadyProcessingError)),
            PartState::Tokens(_) => Err(
                SchedulerError::WrongStage(
                    WrongStageError::new(PartStage::Tokens, PartStage::Source),
                ),
            ),
        }
    }

    /// Brings back what became of a module.
    pub fn commit_work<F>(result: LexResult, ctx: &mut LexContext<F>) -> (r: Result<
        (),
        SchedulerError,
    >)
        requires
            result.file_id < old(ctx)@.modules.len(),
        ensures
            final(ctx)@ == old(ctx)@.committed(result),
            r is Ok <==> old(ctx)@.modules[result.file_id as int].1.state is Processing,
            r matches Err(err) ==> err@ == SchedulerErrorView::NotProcessing,
    {
        let ghost before = ctx@;
        let id: usize = result.file_id;
        let ghost module = ctx.modules@[id as int];
        assert(before.modules[id as int] == (module.0@, module.1@));
        let r = ctx.modules[id].1.finish_processing(PartState::Tokens(result));
        assert(ctx@ =~= before.committed(result));
        match r {
            Ok(()) => Ok(()),
            Err(err) => Err(SchedulerError::NotProcessing(err)),
        }
    }
}

impl<F> ContextView<F> {
    /// No two modules are at the same path, and the modules that wait in the queue, each of them
    /// once, are those of which there is nothing but their source.
    pub open spec fn consistent(self) -> bool {
        &&& forall|i: int, j: int|
            0 <= i < j < self.modules.len() ==> (#[trigger] self.modules[i]).0 != (
            #[trigger] self.modules[j]).0
        &&& forall|k: int|
            0 <= k < self.job_queue.len() ==> {
                &&& #[trigger] self.job_queue[k] < self.modules.len()
                &&& self.modules[self.job_queue[k] as int].1.state is Source
            }
        &&& self.job_queue.no_duplicates()
        &&& forall|i: usize|
            i < self.modules.len() && (#[trigger] self.modules[i as int]).1.state is Source
                ==> self.job_queue.contains(i)
    }
}

pub proof fn lemma_find<F>(ctx: ContextView<F>, path: PathView, from: int)
    requires
        0 <= from,
    ensures
        match ctx.find(path, from) {
            Some(i) => {
                &&& from <= i < ctx.modules.len()
                &&& ctx.modules[i].0 == path
                &&& forall|j: int| from <= j < i ==> (#[trigger] ctx.modules[j]).0 != path
            },
            None => forall|j: int|
                from <= j < ctx.modules.len() ==> (#[trigger] ctx.modules[j]).0 != path,
        },
    decreases ctx.modules.len() - from,
{
    if from < ctx.modules.len() && ctx.modules[from].0 != path {
        lemma_find(ctx, path, from + 1);
    }
}

/// A request for a module that is known is answered with its number, and nothing changes,
/// whether or not its source could be opened again.
pub proof fn known_module_is_found<F>(
    ctx: ContextView<F>,
    rq: ModIdRequestView,
    file: Option<F>,
    id: int,
)
    requires
        ctx.consistent(),
        0 <= id < ctx.modules.len(),
        ctx.modules[id].0 == ctx.requested(rq),
    ensures
        ctx.answered(rq, file) == (ctx, Ok::<int, SpannedView>(id)),
{
    lemma_find(ctx, ctx.requested(rq), 0);
    if let Some(i) = ctx.find(ctx.requested(rq), 0) {
        if i < id {
            assert(ctx.modules[i].0 != ctx.modules[id].0);
        }
    }
}

/// A request fails where the module is not known and its source cannot be opened, and only there.
/// It changes nothing then.
pub proof fn request_fails<F>(ctx: ContextView<F>, rq: ModIdRequestView, file: Option<F>)
    ensures
        ctx.answered(rq, file).1 is Err <==> file is None && forall|i: int|
            0 <= i < ctx.modules.len() ==> (#[trigger] ctx.modules[i]).0 != ctx.requested(rq),
        ctx.answered(rq, file).1 is Err ==> ctx.answered(rq, file).0 == ctx,
{
    lemma_find(ctx, ctx.requested(rq), 0);
}

/// Whoever asks for the same path later gets the same number.
pub proof fn later_requests_agree<F>(
    ctx: ContextView<F>,
    rq: ModIdRequestView,
    file: Option<F>,
    later: ModIdRequestView,
    later_file: Option<F>,
)
    requires
        ctx.answered(rq, file).1 is Ok,
        ctx.answered(rq, file).0.requested(later) == ctx.requested(rq),
    ensures
        ctx.answered(rq, file).0.answered(later, later_file) == (
            ctx.answered(rq, file).0,
            ctx.answered(rq, file).1,
        ),
{
    let path = ctx.requested(rq);
    lemma_find(ctx, path, 0);
    lemma_find(ctx, path, ctx.modules.len() as int);
    let after = ctx.answered(rq, file).0;
    lemma_find(after, path, 0);
    if ctx.find(path, 0) is None {
        let id = ctx.modules.len() as int;
        assert(after.modules[id].0 == path);
        assert forall|j: int| 0 <= j < id implies (#[trigger] after.modules[j]).0 != path by {
            assert(after.modules[j] == ctx.modules[j]);
        }
    }
}

/// Requests keep the modules and the queue consistent.
pub proof fn requests_keep_consistent<F>(
    ctx: ContextView<F>,
    rq: ModIdRequestView,
    file: Option<F>,
)
    requires
        ctx.consistent(),
        ctx.modules.len() < usize::MAX,
    ensures
        ctx.answered(rq, file).0.consistent(),
{
    let path = ctx.requested(rq);
    lemma_find(ctx, path, 0);
    lemma_find(ctx, path, ctx.modules.len() as int);
    if ctx.find(path, 0) is None && file is Some {
        let after = ctx.answered(rq, file).0;
        let id = ctx.modules.len() as usize;
        assert forall|i: int, j: int| 0 <= i < j < after.modules.len() implies (
        #[trigger] after.modules[i]).0 != (#[trigger] after.modules[j]).0 by {
            assert(after.modules[i] == ctx.modules[i]);
            if j < ctx.modules.len() {
                assert(after.modules[j] == ctx.modules[j]);
            }
        }
        assert forall|k: int| 0 <= k < after.job_queue.len() implies {
            &&& #[trigger] after.job_queue[k] < after.modules.len()
            &&& after.modules[after.job_queue[k] as int].1.state is Source
        } by {
            if k < ctx.job_queue.len() {
                assert(after.job_queue[k] == ctx.job_queue[k]);
                assert(after.modules[ctx.job_queue[k] as int]
                    == ctx.modules[ctx.job_queue[k] as int]);
            }
        }
        assert(after.job_queue.no_duplicates()) by {
            assert forall|k: int| 0 <= k < ctx.job_queue.len() implies #[trigger] ctx.job_queue[k]
                != id by {}
        }
        assert forall|i: usize| i < after.modules.len() && (
        #[trigger] after.modules[i as int]).1.state is Source implies after.job_queue.contains(
            i,
        ) by {
            if i == id {
                assert(after.job_queue[ctx.job_queue.len() as int] == id);
            } else {
                assert(after.modules[i as int] == ctx.modules[i as int]);
                let k = choose|k: int| 0 <= k < ctx.job_queue.len() && ctx.job_queue[k] == i;
                assert(after.job_queue[k] == i);
            }
        }
    }
}

/// Where modules and queue are consistent, there is a job for as long as the queue is not empty:
/// its module is being processed from then on, it leaves the queue, and nothing else does.
pub proof fn queued_jobs_start<F>(ctx: ContextView<F>)
    requires
        ctx.consistent(),
        ctx.job_queue.len() > 0,
    ensures
        ({
            let id = ctx.job_queue[0];
            let (after, job) = ctx.job_taken();
            &&& job matches Ok(Some(file)) && ctx.modules[id as int].1.state == PartState::Source(
                file,
            )
            &&& after.modules == ctx.modules.update(
                id as int,
                (ctx.modules[id as int].0, started(ctx.modules[id as int].1)),
            )
            &&& forall|other: usize| #[trigger]
                after.job_queue.contains(other) <==> ctx.job_queue.contains(other) && other != id
            &&& after.consistent()
        }),
{
    let id = ctx.job_queue[0];
    let (after, job) = ctx.job_taken();
    let n = ctx.job_queue.len() as int;
    let queue = after.job_queue;
    assert(ctx.modules[id as int].1.state is Source);
    assert forall|k: int| 0 <= k < queue.len() implies #[trigger] queue[k] == if k == 0 {
        ctx.job_queue[n - 1]
    } else {
        ctx.job_queue[k]
    } by {}
    assert forall|other: usize| #[trigger] queue.contains(other) <==> ctx.job_queue.contains(other)
        && other != id by {
        if queue.contains(other) {
            let k = choose|k: int| 0 <= k < queue.len() && queue[k] == other;
            if k == 0 {
                assert(ctx.job_queue[n - 1] == other);
            } else {
                assert(ctx.job_queue[k] == other);
            }
        }
        if ctx.job_queue.contains(other) && other != id {
            let k = choose|k: int| 0 <= k < n && ctx.job_queue[k] == other;
            if k == n - 1 {
                assert(queue[0] == other);
            } else {
                assert(queue[k] == other);
            }
        }
    }
    assert forall|k: int| 0 <= k < queue.len() implies {
        &&& #[trigger] queue[k] < after.modules.len()
        &&& after.modules[queue[k] as int].1.state is Source
    } by {
        assert(queue.contains(queue[k]));
        let j = choose|j: int| 0 <= j < n && ctx.job_queue[j] == queue[k];
        assert(ctx.job_queue[j] < ctx.modules.len());
        assert(after.modules[queue[k] as int] == ctx.modules[queue[k] as int]);
    }
    assert forall|i: usize| i < after.modules.len() && (
    #[trigger] after.modules[i as int]).1.state is Source implies queue.contains(i) by {
        assert(i != id);
        assert(after.modules[i as int] == ctx.modules[i as int]);
        assert(ctx.job_queue.contains(i));
    }
    assert forall|i: int, j: int| 0 <= i < j < after.modules.len() implies (
    #[trigger] after.modules[i]).0 != (#[trigger] after.modules[j]).0 by {
        assert(after.modules[i].0 == ctx.modules[i].0);
        assert(after.modules[j].0 == ctx.modules[j].0);
    }
}

/// What was lexed of a module that is being processed is kept, and modules and queue stay
/// consistent.
pub proof fn committed_work_is_kept<F>(ctx: ContextView<F>, result: LexResult)
    requires
        ctx.consistent(),
        result.file_id < ctx.modules.len(),
    ensures
        ctx.modules[result.file_id as int].1.state is Processing ==> ctx.committed(
            result,
        ).modules[result.file_id as int].1.state == PartState::<F>::Tokens(result),
        ctx.committed(result).consistent(),
{
    let after = ctx.committed(result);
    assert forall|i: int, j: int| 0 <= i < j < after.modules.len() implies (
    #[trigger] after.modules[i]).0 != (#[trigger] after.modules[j]).0 by {
        assert(after.modules[i].0 == ctx.modules[i].0);
        assert(after.modules[j].0 == ctx.modules[j].0);
    }
    assert forall|k: int| 0 <= k < after.job_queue.len() implies {
        &&& #[trigger] after.job_queue[k] < after.modules.len()
        &&& after.modules[after.job_queue[k] as int].1.state is Source
    } by {
        assert(ctx.modules[ctx.job_queue[k] as int].1.state is Source);
    }
    assert forall|i: usize| i < after.modules.len() && (
    #[trigger] after.modules[i as int]).1.state is Source implies after.job_queue.contains(i) by {
        assert(ctx.modules[i as int].1.state is Source);
    }
}

} // verus!
