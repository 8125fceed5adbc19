//! What the user is told.
use crate::compiler::{
    CompilerError, CompilerErrorView, CompilerView, module_name, root_name, root_path, root_source,
    separators_replaced,
};
use crate::lex_error::LexError;
use crate::naming::extensions_replace_extensions;
use crate::numbers::decimal;
use crate::part::{PartStage, stage_name};
use crate::path::{PathView, parsed_is_valid, stem};
use crate::scheduler::SchedulerError;
use vstd::prelude::*;
use vstd::string::*;
use vstd::utf8::*;

verus! {

/// `bad` in quotation marks, and what is the matter with it.
pub open spec fn quoted(bad: String, what: Seq<char>) -> Seq<char> {
    seq!['"'] + bad@ + seq!['"', ' '] + what
}

/// The message of an error of the lexer quotes the text that is at fault, all of it, and says what
/// is the matter with it.
pub proof fn lexing_errors_tell(error: LexError, text: String)
    requires
        error@.has_message(text),
    ensures
        match error {
            LexError::BadInclude(err) => text@ == "Could not find "@ + quoted(err.bad, "module!"@),
            LexError::NoMacroDef(err) => text@ == "Macro "@ + quoted(
                err.bad,
                "is missing a definition!"@,
            ),
            LexError::BadDirective(err) => text@ == quoted(
                err.bad,
                "is not a recognized directive!"@,
            ),
            LexError::BadToken(err) => text@ == quoted(
                err.bad,
                "could not be parsed as a token!"@,
            ),
            LexError::BadLiteral(err) => text@ == quoted(err.bad, "is a malformed literal!"@),
            LexError::BadOperator(err) => text@ == quoted(
                err.bad,
                "is an unrecognized operator!"@,
            ),
            LexError::BadIdentifier(err) => text@ == quoted(err.bad, "is an invalid identifier!"@),
            LexError::UnclosedMacro(_) => text@
                == "Could not find closing brace of macro function block!"@,
            LexError::BadResponse(_) => text@ == "Scheduler sent unexpected response type!"@,
            LexError::FailedRequest(err) => text@ == "Worker "@ + decimal(err.worker_id as nat)
                + " failed to send "@ + seq!['"'] + err.msg_type@ + seq!['"'] + " request!"@,
            LexError::Io(err) => to_string_from_display_ensures(&err, text),
        },
{
    match error {
        LexError::BadInclude(err) => {
            reveal_strlit("Could not find \"");
            reveal_strlit("Could not find ");
            reveal_strlit("\" module!");
            reveal_strlit("module!");
            assert(text@ =~= "Could not find "@ + quoted(err.bad, "module!"@));
        },
        LexError::NoMacroDef(err) => {
            reveal_strlit("Macro \"");
            reveal_strlit("Macro ");
            reveal_strlit("\" is missing a definition!");
            reveal_strlit("is missing a definition!");
            assert(text@ =~= "Macro "@ + quoted(err.bad, "is missing a definition!"@));
        },
        LexError::BadDirective(err) => {
            reveal_strlit("\"");
            reveal_strlit("\" is not a recognized directive!");
            reveal_strlit("is not a recognized directive!");
            assert(text@ =~= quoted(err.bad, "is not a recognized directive!"@));
        },
        LexError::BadToken(err) => {
            reveal_strlit("\"");
            reveal_strlit("\" could not be parsed as a token!");
            reveal_strlit("could not be parsed as a token!");
            assert(text@ =~= quoted(err.bad, "could not be parsed as a token!"@));
        },
        LexError::BadLiteral(err) => {
            reveal_strlit("\"");
            reveal_strlit("\" is a malformed literal!");
            reveal_strlit("is a malformed literal!");
            assert(text@ =~= quoted(err.bad, "is a malformed literal!"@));
        },
        LexError::BadOperator(err) => {
            reveal_strlit("\"");
            reveal_strlit("\" is an unrecognized operator!");
            reveal_strlit("is an unrecognized operator!");
            assert(text@ =~= quoted(err.bad, "is an unrecognized operator!"@));
        },
        LexError::BadIdentifier(err) => {
            reveal_strlit("\"");
            reveal_strlit("\" is an invalid identifier!");
            reveal_strlit("is an invalid identifier!");
            assert(text@ =~= quoted(err.bad, "is an invalid identifier!"@));
        },
        LexError::FailedRequest(err) => {
            lemma_request_message(err.worker_id as nat, err.msg_type@);
        },
        _ => {},
    }
}

proof fn lemma_request_message(worker_id: nat, msg_type: Seq<char>)
    ensures
        "Worker "@ + decimal(worker_id) + " failed to send \""@ + msg_type + "\" request!"@
            == "Worker "@ + decimal(worker_id) + " failed to send "@ + seq!['"'] + msg_type + seq![
            '"',
        ] + " request!"@,
{
    reveal_strlit(" failed to send \"");
    reveal_strlit(" failed to send ");
    reveal_strlit("\" request!");
    reveal_strlit(" request!");
    assert(" failed to send \""@ =~= " failed to send "@ + seq!['"']);
    assert("\" request!"@ =~= seq!['"'] + " request!"@);
    assert("Worker "@ + decimal(worker_id) + " failed to send \""@ + msg_type + "\" request!"@
        =~= "Worker "@ + decimal(worker_id) + " failed to send "@ + seq!['"'] + msg_type + seq!['"']
        + " request!"@);
}

/// What an error of the lexer is about is where the text at fault stands. Errors that do not stem
/// from the sources are about no place.
pub proof fn lexing_errors_have_places(error: LexError)
    ensures
        error@.provenance() == match error {
            LexError::BadInclude(err) => Some(err.prov@),
            LexError::NoMacroDef(err) => Some(err.prov@),
            LexError::BadDirective(err) => Some(err.prov@),
            LexError::BadToken(err) => Some(err.prov@),
            LexError::BadLiteral(err) => Some(err.prov@),
            LexError::BadOperator(err) => Some(err.prov@),
            LexError::BadIdentifier(err) => Some(err.prov@),
            LexError::UnclosedMacro(err) => Some(err.prov@),
            LexError::Io(_) => None,
            LexError::BadResponse(_) => None,
            LexError::FailedRequest(_) => None,
        },
        CompilerError::Lex(error)@.provenance() == error@.provenance(),
{
}

/// How a stage is called.
pub open spec fn called(stage: PartStage) -> Seq<char> {
    match stage {
        PartStage::Processing => seq!['P', 'r', 'o', 'c', 'e', 's', 's', 'i', 'n', 'g'],
        PartStage::Source => seq!['S', 'o', 'u', 'r', 'c', 'e'],
        PartStage::Tokens => seq!['T', 'o', 'k', 'e', 'n', 's'],
    }
}

/// The message of an error of the scheduler tells which worker, message, stage or data is
/// concerned. That of an error of the lexer is the lexer's own.
pub proof fn scheduling_errors_tell(error: SchedulerError, text: String)
    requires
        error@.has_message(text),
    ensures
        match error {
            SchedulerError::Lex(err) => err@.has_message(text),
            SchedulerError::ThreadPanic(err) => text@ == "Worker "@ + decimal(
                err.thread_id as nat,
            ) + " panicked with message \""@ + err.message@ + "\"!"@,
            SchedulerError::FailedResponse(err) => text@ == "Failed to send \""@ + err.msg_type@
                + "\" response to worker "@ + decimal(err.worker_id as nat) + "!"@,
            SchedulerError::FailedRequest(err) => text@ == "Worker "@ + decimal(
                err.worker_id as nat,
            ) + " failed to send \""@ + err.msg_type@ + "\" request!"@,
            SchedulerError::WrongStage(err) => text@ == "Expected stage \""@ + called(err.expected)
                + "\", but module was in stage \""@ + called(err.stage) + "\"!"@,
            SchedulerError::AlreadyProcessing(_) => text@
                == "Cannot start processing a module if it's already being processed!"@,
            SchedulerError::NotProcessing(_) => text@
                == "Cannot finish processing if we never started!"@,
            SchedulerError::Poisoned(err) => text@ == quoted_name(err.who@) + " was poisoned!"@,
            SchedulerError::Recv(err) => to_string_from_display_ensures(&err, text),
        },
{
    match error {
        SchedulerError::WrongStage(err) => {
            lemma_called(err.expected);
            lemma_called(err.stage);
        },
        SchedulerError::Poisoned(err) => {
            reveal_strlit("\"");
            reveal_strlit("\" was poisoned!");
            reveal_strlit(" was poisoned!");
            assert(text@ =~= quoted_name(err.who@) + " was poisoned!"@);
        },
        _ => {},
    }
}

/// `name` in quotation marks.
pub open spec fn quoted_name(name: Seq<char>) -> Seq<char> {
    seq!['"'] + name + seq!['"']
}

proof fn lemma_called(stage: PartStage)
    ensures
        stage_name(stage) == called(stage),
{
    reveal_strlit("Processing");
    reveal_strlit("Source");
    reveal_strlit("Tokens");
    assert(stage_name(stage) =~= called(stage));
}

/// The message of an error of the compiler is that of the error it is made of. A module that could
/// not be loaded is called by its number and its file.
pub proof fn compiling_errors_tell(error: CompilerError, text: String)
    requires
        error@.has_message(text),
    ensures
        match error {
            CompilerError::Lex(err) => err@.has_message(text),
            CompilerError::Scheduler(err) => err@.has_message(text),
            CompilerError::PartCorrupted(err) => text@ == "Module #"@ + decimal(err.id as nat)
                + " (\""@ + err.name@ + ".cfuq\") could not be loaded! Is the file corrupted?"@,
            CompilerError::Io(err) => to_string_from_display_ensures(&err, text),
        },
        !(error is Lex) ==> error@.provenance() is None,
{
}

/// An error in the sources is shown with the name of its module, its line and its column before
/// the message, each with a colon behind it and a blank behind the last one. Any other error is
/// shown as its message alone.
pub proof fn errors_are_shown_with_their_places<F>(
    compiler: CompilerView<F>,
    error: CompilerErrorView,
    text: String,
) -> (message: String)
    requires
        compiler.displays(error, text),
    ensures
        error.has_message(message),
        match error.provenance() {
            Some(prov) => {
                let name = compiler.parts[prov.file_id].1.name;
                let line = decimal(prov.line as nat);
                let column = decimal(prov.column as nat);
                text@ == name + seq![':'] + line + seq![':'] + column + seq![':', ' '] + message@
            },
            None => text@ == message@,
        },
{
    match error.provenance() {
        Some(prov) => {
            reveal_strlit(":");
            reveal_strlit(": ");
            assert(":"@ =~= seq![':']);
            assert(": "@ =~= seq![':', ' ']);
            let name = compiler.parts[prov.file_id].1.name;
            let place = name + ":"@ + decimal(prov.line as nat) + ":"@ + decimal(
                prov.column as nat,
            ) + ": "@;
            choose|message: String| #[trigger]
                error.has_message(message) && text@ == place + message@
        },
        None => text,
    }
}

/// A separator of directories, whichever it is, becomes two colons, and any other character stays
/// as it is.
pub proof fn separators_become_colons(before: Seq<char>, c: char, behind: Seq<char>)
    ensures
        separators_replaced(before + seq![c] + behind) == separators_replaced(before) + (if c == '/'
            || c == '\\' {
            seq![':', ':']
        } else {
            seq![c]
        }) + separators_replaced(behind),
        separators_replaced(Seq::empty()) == Seq::<char>::empty(),
{
    lemma_replaced_add(before, seq![c] + behind);
    assert(before + seq![c] + behind =~= before + (seq![c] + behind));
    let rest = seq![c] + behind;
    assert(rest.skip(1) =~= behind);
    reveal_strlit("::");
    assert("::"@ =~= seq![':', ':']);
    let replaced = if c == '/' || c == '\\' {
        seq![':', ':']
    } else {
        seq![c]
    };
    assert(separators_replaced(rest) == replaced + separators_replaced(behind));
    assert(separators_replaced(before) + (replaced + separators_replaced(behind))
        =~= separators_replaced(before) + replaced + separators_replaced(behind));
}

proof fn lemma_replaced_add(a: Seq<char>, b: Seq<char>)
    ensures
        separators_replaced(a + b) == separators_replaced(a) + separators_replaced(b),
    decreases a.len(),
{
    let s = a + b;
    if a.len() == 0 {
        assert(s =~= b);
        assert(separators_replaced(a) + separators_replaced(b) =~= separators_replaced(b));
    } else {
        assert(s.skip(1) =~= a.skip(1) + b);
        lemma_replaced_add(a.skip(1), b);
        assert(separators_replaced(s) =~= separators_replaced(a) + separators_replaced(b));
    }
}

/// The extension of source files.
pub open spec fn extension() -> Seq<char> {
    seq!['.', 'c', 'f', 'u', 'q']
}

/// The name of a module is the path of its file, with two colons in place of each separator and
/// without the extension of source files, if it has that.
pub proof fn modules_are_named_after_files(path: Seq<char>)
    ensures
        module_name(path + extension()) == separators_replaced(path),
        !extension().is_suffix_of(path) ==> module_name(path) == separators_replaced(path),
{
    reveal_strlit(".cfuq");
    assert(".cfuq"@ =~= extension());
    let ext = extension();
    lemma_replaced_add(path, ext);
    lemma_replaced_extension();
    let name = separators_replaced(path) + ext;
    assert(name.skip(name.len() - 5) =~= ext);
    assert(name.take(name.len() - 5) =~= separators_replaced(path));
    assert(ext.is_suffix_of(name)) by {
        assert(name.subrange(name.len() - 5, name.len() as int) =~= ext);
    }
    if ext.is_suffix_of(separators_replaced(path)) {
        lemma_replaced_suffix(path, 5);
    }
}

proof fn lemma_replaced_extension()
    ensures
        separators_replaced(extension()) == extension(),
{
    let ext = extension();
    lemma_plain_replaced(ext);
}

proof fn lemma_plain_replaced(s: Seq<char>)
    requires
        forall|i: int| 0 <= i < s.len() ==> #[trigger] s[i] != '/' && s[i] != '\\',
    ensures
        separators_replaced(s) == s,
    decreases s.len(),
{
    if s.len() > 0 {
        let rest = s.skip(1);
        assert forall|i: int| 0 <= i < rest.len() implies #[trigger] rest[i] != '/' && rest[i]
            != '\\' by {
            assert(rest[i] == s[i + 1]);
        }
        lemma_plain_replaced(rest);
        assert(s[0] != '/' && s[0] != '\\');
        assert(seq![s[0]] + rest =~= s);
    }
}

/// The last `n` characters of the name are those of the path, if none of them is a colon.
proof fn lemma_replaced_suffix(s: Seq<char>, n: int)
    requires
        0 <= n <= separators_replaced(s).len(),
        forall|i: int|
            separators_replaced(s).len() - n <= i < separators_replaced(s).len() ==> #[trigger]
                separators_replaced(s)[i] != ':',
    ensures
        n <= s.len(),
        s.skip(s.len() - n) == separators_replaced(s).skip(separators_replaced(s).len() - n),
    decreases n,
{
    let r = separators_replaced(s);
    if n > 0 {
        if s.len() == 0 {
            assert(r.len() == 0);
        }
        let less = s.drop_last();
        let c = s.last();
        assert(s =~= less + seq![c] + Seq::empty());
        separators_become_colons(less, c, Seq::empty());
        let shorter = separators_replaced(less);
        assert(r.last() != ':');
        assert(c != '/' && c != '\\') by {
            if c == '/' || c == '\\' {
                assert(r =~= shorter + seq![':', ':']);
            }
        }
        assert(r =~= shorter + seq![c]);
        assert forall|i: int| shorter.len() - (n - 1) <= i < shorter.len() implies #[trigger]
            shorter[i] != ':' by {
            assert(r[i] == shorter[i]);
        }
        lemma_replaced_suffix(less, n - 1);
        let end = s.skip(s.len() - n);
        let other = r.skip(r.len() - n);
        assert(end =~= less.skip(less.len() - (n - 1)) + seq![c]);
        assert(other =~= shorter.skip(shorter.len() - (n - 1)) + seq![c]);
    } else {
        assert(s.skip(s.len() - n) =~= Seq::empty());
        assert(r.skip(r.len() - n) =~= Seq::empty());
    }
}

/// The root module lies beside its source: its path is that of the file up to the last dot of the
/// file's name, and its source has the extension of source files behind that, whatever extension
/// the file has. It is named after the file.
pub proof fn root_modules_lie_beside_their_sources(file: Seq<u8>, text: Seq<char>)
    requires
        file.len() > 0,
        PathView::parsed(file).components.len() > 0,
        PathView::parsed(file).components.last() != seq![46u8],
        PathView::parsed(file).components.last() != seq![46u8, 46u8],
        stem(PathView::parsed(file).components.last()) != seq![46u8],
    ensures
        ({
            let path = PathView::parsed(file);
            let above = path.components.drop_last();
            let name = stem(path.components.last());
            &&& root_path(file) == (PathView {
                absolute: path.absolute,
                components: above.push(name),
            })
            &&& root_source(file) == (PathView {
                absolute: path.absolute,
                components: above.push(name + seq![46u8, 99u8, 102u8, 117u8, 113u8]),
            })
            &&& root_name(file, text) == module_name(text)
        }),
{
    let path = PathView::parsed(file);
    parsed_is_valid(file);
    lemma_extension_bytes();
    let ext = encode_utf8("cfuq"@);
    extensions_replace_extensions(path, encode_utf8(""@));
    extensions_replace_extensions(path, ext);
    let name = stem(path.components.last());
    assert(name + Seq::<u8>::empty() =~= name);
    assert(seq![46u8] + ext =~= seq![46u8, 99u8, 102u8, 117u8, 113u8]);
}

proof fn lemma_extension_bytes()
    ensures
        encode_utf8(""@) == Seq::<u8>::empty(),
        encode_utf8("cfuq"@) == seq![99u8, 102u8, 117u8, 113u8],
{
    reveal_strlit("");
    reveal_strlit("cfuq");
    let ext = "cfuq"@;
    assert(is_ascii_chars(ext));
    is_ascii_chars_encode_utf8(ext);
    assert(encode_utf8(ext) =~= seq![99u8, 102u8, 117u8, 113u8]);
}

} // verus!
