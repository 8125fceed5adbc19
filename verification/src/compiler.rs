//! The compiler: the parts of a program, and what went wrong with it.
use crate::common::{Provenance, ProvenanceView};
use crate::context::{ContextView, LexContext, module_views};
use crate::lex_error::{LexError, LexErrorView};
use crate::numbers::{decimal, decimal_text};
use crate::part::{Part, PartState, PartView};
use crate::path::{ModulePath, PathView};
use crate::pool::{Scheduler, SchedulerView, WorkerState, worker_count};
use crate::scheduler::{SchedulerError, SchedulerErrorView};
use crate::text::{chars_of, same_text};
use vstd::prelude::*;
use vstd::string::*;
use vstd::utf8::*;

verus! {

/// A module that could not be loaded.
#[derive(Debug)]
pub struct PartCorruptedError {
    pub name: String,
    pub id: usize,
}

pub struct CorruptedView {
    pub name: Seq<char>,
    pub id: int,
}

impl CorruptedView {
    pub open spec fn report(self) -> Seq<char> {
        "Module #"@ + decimal(self.id as nat) + " (\""@ + self.name
            + ".cfuq\") could not be loaded! Is the file corrupted?"@
    }
}

impl View for PartCorruptedError {
    type V = CorruptedView;

    open spec fn view(&self) -> CorruptedView {
        CorruptedView { name: self.name@, id: self.id as int }
    }
}

impl PartCorruptedError {
    /// The message for the user.
    pub fn message(&self) -> (r: String)
        ensures
            r@ == self@.report(),
    {
        let mut r = "Module #".to_owned();
        r.append(decimal_text(self.id).as_str());
        r.append(" (\"");
        r.append(self.name.as_str());
        r.append(".cfuq\") could not be loaded! Is the file corrupted?");
        r
    }
}

#[derive(Debug)]
pub enum CompilerError {
    Io(std::io::Error),
    Lex(LexError),
    PartCorrupted(PartCorruptedError),
    Scheduler(SchedulerError),
}

pub enum CompilerErrorView {
    Io(std::io::Error),
    Lex(LexErrorView),
    PartCorrupted(CorruptedView),
    Scheduler(SchedulerErrorView),
}

impl View for CompilerError {
    type V = CompilerErrorView;

    open spec fn view(&self) -> CompilerErrorView {
        match self {
            CompilerError::Io(err) => CompilerErrorView::Io(*err),
            CompilerError::Lex(err) => CompilerErrorView::Lex(err@),
            CompilerError::PartCorrupted(err) => CompilerErrorView::PartCorrupted(err@),
            CompilerError::Scheduler(err) => CompilerErrorView::Scheduler(err@),
        }
    }
}

/// What each error in `errors` stands for.
pub open spec fn compiler_error_views(errors: Seq<CompilerError>) -> Seq<CompilerErrorView> {
    errors.map_values(|e: CompilerError| e@)
}

impl CompilerErrorView {
    /// `text` is the message for the user. That of an I/O error is whatever the error displays.
    pub open spec fn has_message(self, text: String) -> bool {
        match self {
            CompilerErrorView::Io(err) => to_string_from_display_ensures(&err, text),
            CompilerErrorView::Lex(err) => err.has_message(text),
            CompilerErrorView::PartCorrupted(err) => text@ == err.report(),
            CompilerErrorView::Scheduler(err) => err.has_message(text),
        }
    }

    /// Where in the sources the error arose, where it arose there.
    pub open spec fn provenance(self) -> Option<ProvenanceView> {
        match self {
            CompilerErrorView::Lex(err) => err.provenance(),
            _ => None,
        }
    }
}

impl CompilerError {
    /// The message for the user.
    pub fn message(&self) -> (r: String)
        ensures
            self@.has_message(r),
    {
        match self {
            Self::Io(err) => err.to_string(),
            Self::Lex(err) => err.message(),
            Self::PartCorrupted(err) => err.message(),
            Self::Scheduler(err) => err.message(),
        }
    }
}

impl From<std::io::Error> for CompilerError {
    fn from(value: std::io::Error) -> (r: Self) {
        CompilerError::Io(value)
    }
}

impl vstd::std_specs::convert::FromSpecImpl<std::io::Error> for CompilerError {
    open spec fn obeys_from_spec() -> bool {
        true
    }

    open spec fn from_spec(value: std::io::Error) -> Self {
        CompilerError::Io(value)
    }
}

impl From<LexError> for CompilerError {
    fn from(value: LexError) -> (r: Self) {
        CompilerError::Lex(value)
    }
}

impl vstd::std_specs::convert::FromSpecImpl<LexError> for CompilerError {
    open spec fn obeys_from_spec() -> bool {
        true
    }

    open spec fn from_spec(value: LexError) -> Self {
        CompilerError::Lex(value)
    }
}

impl From<PartCorruptedError> for CompilerError {
    fn from(value: PartCorruptedError) -> (r: Self) {
        CompilerError::PartCorrupted(value)
    }
}

impl vstd::std_specs::convert::FromSpecImpl<PartCorruptedError> for CompilerError {
    open spec fn obeys_from_spec() -> bool {
        true
    }

    open spec fn from_spec(value: PartCorruptedError) -> Self {
        CompilerError::PartCorrupted(value)
    }
}

impl From<SchedulerError> for CompilerError {
    fn from(value: SchedulerError) -> (r: Self) {
        CompilerError::Scheduler(value)
    }
}

impl vstd::std_specs::convert::FromSpecImpl<SchedulerError> for CompilerError {
    open spec fn obeys_from_spec() -> bool {
        true
    }

    open spec fn from_spec(value: SchedulerError) -> Self {
        CompilerError::Scheduler(value)
    }
}

/// `s` with `::` in place of each slash and backslash.
pub open spec fn separators_replaced(s: Seq<char>) -> Seq<char>
    decreases s.len(),
{
    if s.len() == 0 {
        Seq::empty()
    } else {
        let rest = separators_replaced(s.skip(1));
        if s[0] == '\\' || s[0] == '/' {
            "::"@ + rest
        } else {
            seq![s[0]] + rest
        }
    }
}

/// `s` without the extension of a source file, if it has it.
pub open spec fn without_extension(s: Seq<char>) -> Seq<char> {
    if ".cfuq"@.is_suffix_of(s) {
        s.take(s.len() - 5)
    } else {
        s
    }
}

/// The name of the module in the file `s`.
pub open spec fn module_name(s: Seq<char>) -> Seq<char> {
    without_extension(separators_replaced(s))
}

/// The name of the module in the file `text`.
fn name_of_module(text: &str) -> (r: String)
    ensures
        r@ == module_name(text@),
{
    let cs = chars_of(text);
    let mut name: String = String::new();
    let mut i: usize = 0;
    proof {
        assert(text@.skip(0) =~= text@);
        assert(name@ + separators_replaced(text@) =~= separators_replaced(text@));
    }
    while i < cs.len()
        invariant
            i <= cs@.len(),
            cs@ == text@,
            name@ + separators_replaced(text@.skip(i as int)) == separators_replaced(text@),
        decreases cs@.len() - i,
    {
        let ghost before = name@;
        let ghost left = text@.skip(i as int);
        assert(left[0] == text@[i as int]);
        assert(left.skip(1) =~= text@.skip(i + 1));
        if cs[i] == '\\' || cs[i] == '/' {
            name.append("::");
        } else {
            let c = text.substring_char(i, i + 1);
            assert(c@ =~= seq![left[0]]);
            name.append(c);
        }
        assert(name@ + separators_replaced(left.skip(1)) =~= before + separators_replaced(left));
        i += 1;
    }
    assert(name@ + separators_replaced(text@.skip(i as int)) =~= name@);
    let n: usize = name.as_str().unicode_len();
    proof {
        reveal_strlit(".cfuq");
    }
    if n >= 5 {
        let end = name.as_str().substring_char(n - 5, n);
        if same_text(end, ".cfuq") {
            assert(name@.subrange(n - 5, n as int) =~= ".cfuq"@);
            let r = name.as_str().substring_char(0, n - 5).to_owned();
            assert(r@ =~= name@.take(n - 5));
            return r;
        }
    }
    name
}

/// The module that a compilation starts with: where it is, where its source is, and its name.
pub struct RootModule {
    pub path: ModulePath,
    pub source: ModulePath,
    pub name: String,
}

/// The path of the file that a compilation starts with: `src/main.cfuq` where `file` is empty.
pub open spec fn root_file(file: Seq<u8>) -> PathView {
    PathView::parsed(
        if file.len() == 0 {
            encode_utf8("src/main.cfuq"@)
        } else {
            file
        },
    )
}

/// The path of the module in the file `file`.
pub open spec fn root_path(file: Seq<u8>) -> PathView {
    root_file(file).with_extension(encode_utf8(""@))
}

/// The path of the source of the module in the file `file`.
pub open spec fn root_source(file: Seq<u8>) -> PathView {
    root_file(file).with_extension(encode_utf8("cfuq"@))
}

/// The name of the module in the file `file`, which is `text` as far as it can be written as such.
pub open spec fn root_name(file: Seq<u8>, text: Seq<char>) -> Seq<char> {
    module_name(
        if file.len() == 0 {
            "src/main.cfuq"@
        } else {
            text
        },
    )
}

/// The root module in the file with the path `file`, which is `text` as far as it can be written
/// as such. Where `file` is empty the module is in `src/main.cfuq`.
pub fn root_module(file: &Vec<u8>, text: &str) -> (r: RootModule)
    ensures
        r.path@ == root_path(file@),
        r.source@ == root_source(file@),
        r.name@ == root_name(file@, text@),
{
    if file.len() == 0 {
        let path = ModulePath::from_bytes(&"src/main.cfuq".as_bytes_vec());
        RootModule {
            path: path.with_extension(""),
            source: path.with_extension("cfuq"),
            name: name_of_module("src/main.cfuq"),
        }
    } else {
        let path = ModulePath::from_bytes(file);
        RootModule {
            path: path.with_extension(""),
            source: path.with_extension("cfuq"),
            name: name_of_module(text),
        }
    }
}

/// The modules of a program, and what went wrong with it. `F` is an open source file.
pub struct Compiler<F> {
    pub parts: Vec<(ModulePath, Part<F>)>,
    pub errors: Vec<CompilerError>,
}

#[verifier::ext_equal]
pub struct CompilerView<F> {
    pub parts: Seq<(PathView, PartView<F>)>,
    pub errors: Seq<CompilerErrorView>,
}

impl<F> View for Compiler<F> {
    type V = CompilerView<F>;

    open spec fn view(&self) -> CompilerView<F> {
        CompilerView {
            parts: module_views(self.parts@),
            errors: compiler_error_views(self.errors@),
        }
    }
}

impl<F> CompilerView<F> {
    /// Without modules or errors.
    pub open spec fn empty() -> CompilerView<F> {
        CompilerView { parts: Seq::empty(), errors: Seq::empty() }
    }

    /// The scheduler that lexes the root module `path`, called `name`, with its source in `file`,
    /// and whatever that module asks for.
    pub open spec fn lexing(
        self,
        path: PathView,
        name: Seq<char>,
        file: F,
        workers: int,
    ) -> SchedulerView<F> {
        SchedulerView {
            errors: self.errors,
            threads: workers,
            workers: Seq::new(workers as nat, |i: int| WorkerState::Idle),
            ctx: ContextView {
                modules: self.parts.push(
                    (path, PartView { name, state: PartState::Source(file) }),
                ),
                job_queue: seq![self.parts.len() as usize],
            },
            all_workers_idle: false,
        }
    }

    /// With the modules and errors of a scheduler that is done.
    pub open spec fn brought_back(scheduler: SchedulerView<F>) -> CompilerView<F> {
        CompilerView { parts: scheduler.ctx.modules, errors: scheduler.errors }
    }

    /// The error `error` as it is shown to the user is `text`: behind the name of the module, the
    /// line and the column, where it arose in the sources.
    pub open spec fn displays(self, error: CompilerErrorView, text: String) -> bool {
        match error.provenance() {
            Some(prov) => exists|message: String| #[trigger]
                error.has_message(message) && text@ == self.parts[prov.file_id].1.name + ":"@
                    + decimal(prov.line as nat) + ":"@ + decimal(prov.column as nat) + ": "@
                    + message@,
            None => error.has_message(text),
        }
    }
}

impl<F> Compiler<F> {
    pub fn new() -> (r: Self)
        ensures
            r@ == CompilerView::<F>::empty(),
    {
        let r = Compiler { parts: Vec::new(), errors: Vec::new() };
        assert(r@ =~= CompilerView::<F>::empty());
        r
    }

    /// Starts to lex the root module, once its source has been opened. The scheduler takes the
    /// modules and errors along; [`Compiler::finish`] brings them back.
    pub fn lex(
        &mut self,
        root: RootModule,
        source: Result<F, std::io::Error>,
        threads: usize,
        available: usize,
    ) -> (r: Result<Scheduler<F>, CompilerError>)
        ensures
            match source {
                Ok(file) => {
                    &&& r matches Ok(scheduler) && scheduler@ == old(self)@.lexing(
                        root.path@,
                        root.name@,
                        file,
                        worker_count(threads as int, available as int),
                    )
                    &&& final(self)@ == CompilerView::<F>::empty()
                },
                Err(err) => {
                    &&& r matches Err(error) && error@ == CompilerErrorView::Io(err)
                    &&& final(self)@ == old(self)@
                },
            },
    {
        let file = match source {
            Ok(file) => file,
            Err(err) => return Err(CompilerError::Io(err)),
        };
        let ghost before = self@;
        let mut modules: Vec<(ModulePath, Part<F>)> = Vec::new();
        let mut errors: Vec<CompilerError> = Vec::new();
        std::mem::swap(&mut self.parts, &mut modules);
        std::mem::swap(&mut self.errors, &mut errors);
        assert(self@ =~= CompilerView::<F>::empty());
        let id: usize = modules.len();
        modules.push((root.path, Part::new(file, root.name)));
        assert(module_views(modules@) =~= before.parts.push(
            (root.path@, PartView { name: root.name@, state: PartState::Source(file) }),
        ));
        let mut job_queue: Vec<usize> = Vec::new();
        job_queue.push(id);
        assert(job_queue@ =~= seq![id]);
        Ok(Scheduler::new(errors, threads, available, LexContext::new(modules, job_queue)))
    }

    /// Takes back the modules and errors of a scheduler that is done.
    pub fn finish(&mut self, scheduler: Scheduler<F>)
        ensures
            final(self)@ == CompilerView::brought_back(scheduler@),
    {
        self.parts = scheduler.ctx.modules;
        self.errors = scheduler.errors;
    }

    pub fn display_error<'a>(&'a self, error: &'a CompilerError) -> (r: CompilerErrorDisplay<'a, F>)
        ensures
            r.compiler == self,
            r.error == error,
    {
        CompilerErrorDisplay { compiler: self, error }
    }
}

/// An error, to be shown to the user.
pub struct CompilerErrorDisplay<'a, F> {
    pub compiler: &'a Compiler<F>,
    pub error: &'a CompilerError,
}

impl<'a, F> CompilerErrorDisplay<'a, F> {
    /// Where in the sources the error arose, where it arose there.
    pub fn provenance(&self) -> (r: Option<&Provenance>)
        ensures
            r is Some <==> self.error@.provenance() is Some,
            r matches Some(prov) ==> self.error@.provenance() == Some(prov@),
    {
        match self.error {
            CompilerError::Lex(err) => err.provenance(),
            _ => None,
        }
    }

    /// The message for the user.
    pub fn message(&self) -> (r: String)
        requires
            self.error@.provenance() matches Some(prov) ==> prov.file_id
                < self.compiler@.parts.len(),
        ensures
            self.compiler@.displays(self.error@, r),
    {
        let message = self.error.message();
        match self.provenance() {
            Some(prov) => {
                let id: usize = prov.file_id();
                assert(self.compiler@.parts[id as int].1 == self.compiler.parts@[id as int].1@);
                let mut r = self.compiler.parts[id].1.name().to_owned();
                r.append(":");
                r.append(decimal_text(prov.line()).as_str());
                r.append(":");
                r.append(decimal_text(prov.column()).as_str());
                r.append(": ");
                r.append(message.as_str());
                proof {
                    assert(self.error@.has_message(message));
                    assert(r@ =~= self.compiler@.parts[id as int].1.name + ":"@ + decimal(
                        prov@.line as nat,
                    ) + ":"@ + decimal(prov@.column as nat) + ": "@ + message@);
                }
                r
            },
            None => message,
        }
    }
}

/// A compilation starts with its root module: that one alone waits to be lexed, and modules and
/// queue are consistent, if all modules from before have been taken off the queue and none of them
/// is at the same path.
pub proof fn lexing_starts_consistent<F>(
    compiler: CompilerView<F>,
    path: PathView,
    name: Seq<char>,
    file: F,
    workers: int,
)
    requires
        (ContextView { modules: compiler.parts, job_queue: Seq::empty() }).consistent(),
        forall|i: int|
            0 <= i < compiler.parts.len() ==> (#[trigger] compiler.parts[i]).0 != path,
        compiler.parts.len() < usize::MAX,
    ensures
        ({
            let ctx = compiler.lexing(path, name, file, workers).ctx;
            &&& ctx.consistent()
            &&& ctx.job_queue.len() == 1
            &&& ctx.modules[ctx.job_queue[0] as int] == (
                path,
                PartView { name, state: PartState::Source(file) },
            )
        }),
{
    let before = ContextView { modules: compiler.parts, job_queue: Seq::empty() };
    let ctx = compiler.lexing(path, name, file, workers).ctx;
    let id = compiler.parts.len() as usize;
    assert(ctx.job_queue[0] == id);
    assert forall|i: int, j: int| 0 <= i < j < ctx.modules.len() implies (
    #[trigger] ctx.modules[i]).0 != (#[trigger] ctx.modules[j]).0 by {
        assert(before.modules[i] == ctx.modules[i]);
        if j < id {
            assert(before.modules[j] == ctx.modules[j]);
        }
    }
    assert forall|i: usize| i < ctx.modules.len() && (
    #[trigger] ctx.modules[i as int]).1.state is Source implies ctx.job_queue.contains(i) by {
        if i < id {
            assert(before.modules[i as int].1.state is Source);
            assert(before.job_queue.contains(i));
        }
    }
}

} // verus!
