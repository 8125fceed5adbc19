use cfuq::common::Provenance;
use cfuq::compiler::{Compiler, CompilerError, PartCorruptedError, root_module};
use cfuq::lex_error::{
    BadDirectiveError, BadIdentifierError, BadIncludeError, BadLiteralError, BadOperatorError,
    BadResponseError, BadTokenError, LexError, NoMacroDefError, UnclosedMacroError,
};
use cfuq::part::{AlreadyProcessingError, NotProcessingError, PartStage, PartState};
use cfuq::scheduler::{
    FailedRequestError, FailedResponseError, PoisonedError, SchedulerError, ThreadPanicError,
    WrongStageError,
};
use std::io;
use std::sync::mpsc::RecvError;

fn at(line: usize, column: usize) -> Provenance {
    Provenance::new(0, line, column, 1)
}

fn bytes(s: &str) -> Vec<u8> {
    s.as_bytes().to_vec()
}

fn text(v: Vec<u8>) -> String {
    String::from_utf8(v).unwrap()
}

#[test]
fn the_root_module() {
    let root = root_module(&bytes("src/compfuqs/my.cfuq"), "src/compfuqs/my.cfuq");
    assert_eq!(text(root.path.to_bytes()), "src/compfuqs/my");
    assert_eq!(text(root.source.to_bytes()), "src/compfuqs/my.cfuq");
    assert_eq!(root.name, "src::compfuqs::my");
}

#[test]
fn the_root_module_by_default() {
    let root = root_module(&Vec::new(), "");
    assert_eq!(text(root.path.to_bytes()), "src/main");
    assert_eq!(text(root.source.to_bytes()), "src/main.cfuq");
    assert_eq!(root.name, "src::main");
}

#[test]
fn the_root_module_under_other_names() {
    let root = root_module(&bytes("a\\b.txt"), "a\\b.txt");
    assert_eq!(root.name, "a::b.txt");
    assert_eq!(text(root.path.to_bytes()), "a\\b");
    assert_eq!(text(root.source.to_bytes()), "a\\b.cfuq");
    let root = root_module(&bytes("x"), "x");
    assert_eq!((root.name.as_str(), text(root.source.to_bytes())), ("x", "x.cfuq".to_string()));
    let root = root_module(&bytes("a/b"), ".cfuq");
    assert_eq!(root.name, "");
    let root = root_module(&vec![0xff, b'/', 0xfe], "");
    assert_eq!(root.path.to_bytes(), vec![0xff, b'/', 0xfe]);
    assert_eq!(root.name, "");
}

#[test]
fn a_compilation_starts_with_the_root_module() {
    let mut compiler: Compiler<u32> = Compiler::new();
    assert!(compiler.parts.is_empty() && compiler.errors.is_empty());
    let root = root_module(&bytes("src/my.cfuq"), "src/my.cfuq");
    let mut scheduler = compiler.lex(root, Ok(5), 0, 4).unwrap();
    assert_eq!(scheduler.workers.len(), 4);
    assert_eq!(scheduler.ctx.job_queue, [0]);
    assert!(matches!(scheduler.ctx.modules[0].1.state, PartState::Source(5)));
    scheduler.errors.push(CompilerError::Lex(LexError::BadResponse(BadResponseError)));
    compiler.finish(scheduler);
    assert_eq!((compiler.parts.len(), compiler.errors.len()), (1, 1));
    assert_eq!(compiler.parts[0].1.name(), "src::my");
}

#[test]
fn a_compilation_needs_its_root_file() {
    let mut compiler: Compiler<u32> = Compiler::new();
    let root = root_module(&bytes("nowhere"), "nowhere");
    let missing = io::Error::new(io::ErrorKind::NotFound, "not there");
    match compiler.lex(root, Err(missing), 1, 4) {
        Err(error) => {
            assert!(matches!(error, CompilerError::Io(_)));
            assert_eq!(compiler.display_error(&error).message(), "not there");
        }
        Ok(_) => panic!(),
    }
    assert!(compiler.parts.is_empty());
}

#[test]
fn errors_are_shown_where_they_arose() {
    let mut compiler: Compiler<u32> = Compiler::new();
    let root = root_module(&bytes("src/my.cfuq"), "src/my.cfuq");
    let scheduler = compiler.lex(root, Ok(5), 1, 4).unwrap();
    compiler.finish(scheduler);
    let error =
        CompilerError::from(LexError::from(BadLiteralError { bad: "'".to_string(), prov: at(3, 14) }));
    let display = compiler.display_error(&error);
    assert_eq!(display.provenance().unwrap().line(), 3);
    assert_eq!(display.message(), "src::my:3:14: \"'\" is a malformed literal!");
    // An error that came by way of the scheduler is shown without its place.
    let error = CompilerError::from(SchedulerError::from(LexError::from(BadLiteralError {
        bad: "'".to_string(),
        prov: at(3, 14),
    })));
    assert!(compiler.display_error(&error).provenance().is_none());
    assert_eq!(compiler.display_error(&error).message(), "\"'\" is a malformed literal!");
}

#[test]
fn lexer_errors_have_messages_and_places() {
    let bad = || "x".to_string();
    let cases: Vec<(LexError, &str)> = vec![
        (BadIncludeError::new(bad(), at(1, 2)).into(), "Could not find \"x\" module!"),
        (
            NoMacroDefError { bad: bad(), prov: at(1, 2) }.into(),
            "Macro \"x\" is missing a definition!",
        ),
        (
            BadTokenError { bad: bad(), prov: at(1, 2) }.into(),
            "\"x\" could not be parsed as a token!",
        ),
        (
            BadDirectiveError { bad: bad(), prov: at(1, 2) }.into(),
            "\"x\" is not a recognized directive!",
        ),
        (BadLiteralError { bad: bad(), prov: at(1, 2) }.into(), "\"x\" is a malformed literal!"),
        (
            BadOperatorError { bad: bad(), prov: at(1, 2) }.into(),
            "\"x\" is an unrecognized operator!",
        ),
        (
            BadIdentifierError { bad: bad(), prov: at(1, 2) }.into(),
            "\"x\" is an invalid identifier!",
        ),
        (
            UnclosedMacroError { prov: at(1, 2) }.into(),
            "Could not find closing brace of macro function block!",
        ),
    ];
    for (error, message) in cases {
        assert_eq!(error.message(), message);
        assert_eq!(error.provenance().unwrap().column(), 2, "{}", message);
    }
}

#[test]
fn other_lexer_errors_have_messages() {
    let cases: Vec<(LexError, &str)> = vec![
        (BadResponseError.into(), "Scheduler sent unexpected response type!"),
        (
            FailedRequestError::new(3, "ModID Request").into(),
            "Worker 3 failed to send \"ModID Request\" request!",
        ),
        (io::Error::new(io::ErrorKind::Other, "disk").into(), "disk"),
    ];
    for (error, message) in cases {
        assert_eq!(error.message(), message);
        assert!(error.provenance().is_none());
    }
}

#[test]
fn scheduler_errors_have_messages() {
    let cases: Vec<(SchedulerError, &str)> = vec![
        (LexError::from(BadResponseError).into(), "Scheduler sent unexpected response type!"),
        (
            ThreadPanicError { thread_id: 12, message: "m".to_string() }.into(),
            "Worker 12 panicked with message \"m\"!",
        ),
        (
            FailedResponseError::new(0, "New Job").into(),
            "Failed to send \"New Job\" response to worker 0!",
        ),
        (
            FailedRequestError::new(10, "New Job").into(),
            "Worker 10 failed to send \"New Job\" request!",
        ),
        (
            WrongStageError::new(PartStage::Tokens, PartStage::Source).into(),
            "Expected stage \"Source\", but module was in stage \"Tokens\"!",
        ),
        (
            WrongStageError::new(PartStage::Processing, PartStage::Tokens).into(),
            "Expected stage \"Tokens\", but module was in stage \"Processing\"!",
        ),
        (
            AlreadyProcessingError.into(),
            "Cannot start processing a module if it's already being processed!",
        ),
        (NotProcessingError.into(), "Cannot finish processing if we never started!"),
        (PoisonedError::job_queue().into(), "\"Job Queue\" was poisoned!"),
        (PoisonedError::modules().into(), "\"Modules\" was poisoned!"),
    ];
    for (error, message) in cases {
        assert_eq!(error.message(), message);
    }
    assert_eq!(SchedulerError::from(RecvError).message(), RecvError.to_string());
}

#[test]
fn compiler_errors_have_messages() {
    let corrupted = PartCorruptedError { name: "src/a".to_string(), id: 4 };
    assert_eq!(
        CompilerError::from(corrupted).message(),
        "Module #4 (\"src/a.cfuq\") could not be loaded! Is the file corrupted?"
    );
    let io_error = io::Error::new(io::ErrorKind::Other, "disk");
    assert_eq!(CompilerError::from(io_error).message(), "disk");
    assert_eq!(
        CompilerError::from(LexError::from(BadResponseError)).message(),
        "Scheduler sent unexpected response type!"
    );
    assert_eq!(
        CompilerError::from(SchedulerError::from(NotProcessingError)).message(),
        "Cannot finish processing if we never started!"
    );
}

#[test]
fn another_compilation_starts_with_its_own_root() {
    let mut compiler: Compiler<u32> = Compiler::new();
    let first = compiler.lex(root_module(&bytes("a"), "a"), Ok(5), 1, 1).unwrap();
    compiler.finish(first);
    let second = compiler.lex(root_module(&bytes("b"), "b"), Ok(6), 1, 1).unwrap();
    assert_eq!(second.ctx.job_queue, [1]);
    assert!(matches!(second.ctx.modules[1].1.state, PartState::Source(6)));
}
