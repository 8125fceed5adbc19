use cfuq::context::{LexContext, Lookup};
use cfuq::lexer::{LexResult, Lexer, ModIdRequest};
use cfuq::part::{Part, PartStage, PartState};
use cfuq::path::ModulePath;
use cfuq::position::Position;
use cfuq::scheduler::SchedulerError;
use std::path::Path;

fn path(s: &str) -> ModulePath {
    ModulePath::from_bytes(&s.as_bytes().to_vec())
}

fn text(p: &ModulePath) -> String {
    String::from_utf8(p.to_bytes()).unwrap()
}

fn request(parent_id: usize, name: &str) -> ModIdRequest {
    let mut pos = Position::new(parent_id);
    pos.advance(4, 3);
    ModIdRequest { parent_id, name: name.to_string(), pos }
}

fn lexed(file_id: usize) -> LexResult {
    LexResult {
        file_id,
        tokens: Vec::new(),
        const_macros: Vec::new(),
        macro_funcs: Vec::new(),
        modules: Vec::new(),
        errors: Vec::new(),
    }
}

/// A program with its root in `src/main`, whose source is the file number 100.
fn program() -> LexContext<u32> {
    LexContext::new(vec![(path("src/main"), Part::new(100, "main".to_string()))], vec![0])
}

fn ask(ctx: &mut LexContext<u32>, rq: ModIdRequest, file: Option<u32>) -> Result<usize, String> {
    match Lexer::handle_request(&rq, ctx) {
        Lookup::Known(id) => Ok(id),
        Lookup::Unknown(path) => {
            let old_len = ctx.modules.len();
            Lexer::open_module(rq, ctx, path, old_len, file).map_err(|e| e.message())
        }
    }
}

const SPELLINGS: [&str; 24] = [
    "", "/", ".", "./", "..", "a", "a/", "/a", "a/b", "a//b", "a/./b", "./a", "././a", "a/.",
    "a/..", "../a", "/a/b/", "//a", "a.b", ".a", "a/.b.c", "é/ü", "a/b.cfuq", "...",
];

#[test]
fn paths_have_the_components_that_std_finds() {
    for s in SPELLINGS {
        for t in SPELLINGS {
            assert_eq!(path(s).same(&path(t)), Path::new(s) == Path::new(t), "{} {}", s, t);
        }
    }
}

#[test]
fn paths_are_joined_as_std_joins_them() {
    for s in SPELLINGS {
        for t in SPELLINGS {
            let joined = path(s).join(t);
            assert_eq!(Path::new(&text(&joined)), Path::new(s).join(t), "{} {}", s, t);
        }
    }
}

#[test]
fn parents_are_those_of_std() {
    for s in SPELLINGS {
        let parent = Path::new(s).parent().unwrap_or(Path::new(""));
        assert_eq!(Path::new(&text(&path(s).parent())), parent, "{}", s);
    }
}

#[test]
fn extensions_are_those_of_std() {
    for s in SPELLINGS {
        for ext in ["", "cfuq"] {
            let std_path = Path::new(s).with_extension(ext);
            assert_eq!(Path::new(&text(&path(s).with_extension(ext))), std_path, "{} {}", s, ext);
        }
    }
    for (s, t) in [("a", "a.cfuq"), ("a.b", "a.b.cfuq"), ("x/.a", "x/.a.cfuq"), ("..", ".."), ("", "")]
    {
        assert_eq!(text(&path(s).with_added_extension("cfuq")), t);
        assert_eq!(text(&path(s).with_added_extension("")), s);
    }
}

#[test]
fn a_stem_that_is_a_dot_counts_at_the_start_only() {
    assert_eq!(text(&path("x/..a").with_extension("")), "x");
    assert_eq!(text(&path("..a").with_extension("")), ".");
    assert_eq!(text(&path("/..a").with_extension("")), "/");
}

#[test]
fn spellings_are_read_back() {
    for s in SPELLINGS {
        let p = path(s);
        assert!(path(&text(&p)).same(&p), "{}", s);
    }
    assert_eq!(text(&path("/a//./b/")), "/a/b");
}

fn looked_up(ctx: &LexContext<u32>, name: &str) -> String {
    match Lexer::handle_request(&request(0, name), ctx) {
        Lookup::Known(id) => format!("#{}", id),
        Lookup::Unknown(path) => text(&path),
    }
}

#[test]
fn names_lead_to_paths() {
    let ctx = program();
    assert_eq!(looked_up(&ctx, "net"), "src/net");
    assert_eq!(looked_up(&ctx, "net::http"), "src/net/http");
    assert_eq!(looked_up(&ctx, "base::net"), "net");
    assert_eq!(looked_up(&ctx, "base"), "");
    assert_eq!(looked_up(&ctx, "a:::b"), "src/a/:b");
    assert_eq!(looked_up(&ctx, "a::"), "src/a");
    assert_eq!(looked_up(&ctx, "::a"), "src/a");
    assert_eq!(looked_up(&ctx, "..::x"), "src/../x");
    assert_eq!(looked_up(&ctx, "/abs::x"), "/abs/x");
    assert_eq!(looked_up(&ctx, "main"), "#0");
    assert_eq!(looked_up(&ctx, "base::src::main"), "#0");
    assert_eq!(looked_up(&ctx, "net::base"), "src/net/base");
}

#[test]
fn a_name_from_the_base_needs_no_parent() {
    let ctx = program();
    match Lexer::handle_request(&request(9, "base::a"), &ctx) {
        Lookup::Unknown(path) => assert_eq!(text(&path), "a"),
        Lookup::Known(id) => panic!("{}", id),
    }
}

#[test]
fn modules_are_added_once() {
    let mut ctx = program();
    assert_eq!(ask(&mut ctx, request(0, "net"), Some(101)), Ok(1));
    assert_eq!(ctx.job_queue, [0, 1]);
    assert_eq!(ctx.modules[1].1.name(), "net");
    assert!(matches!(ctx.modules[1].1.state, PartState::Source(101)));
    assert_eq!(ask(&mut ctx, request(0, "net"), Some(102)), Ok(1));
    assert_eq!(ask(&mut ctx, request(1, "net"), None), Ok(1));
    assert_eq!(ask(&mut ctx, request(1, "base::src::net"), None), Ok(1));
    assert_eq!((ctx.modules.len(), ctx.job_queue.len()), (2, 2));
}

#[test]
fn a_module_that_came_up_meanwhile_is_not_added_again() {
    let mut ctx = program();
    let old_len = ctx.modules.len();
    let rq = request(0, "net");
    let Lookup::Unknown(found) = Lexer::handle_request(&rq, &ctx) else { panic!() };
    assert_eq!(ask(&mut ctx, request(0, "net"), Some(101)), Ok(1));
    assert!(matches!(Lexer::open_module(rq, &mut ctx, found, old_len, Some(102)), Ok(1)));
    assert_eq!(ctx.modules.len(), 2);
}

#[test]
fn a_module_without_source_is_reported() {
    let mut ctx = program();
    let rq = request(0, "ne\u{301}t");
    let Lookup::Unknown(found) = Lexer::handle_request(&rq, &ctx) else { panic!() };
    let err = Lexer::open_module(rq, &mut ctx, found, 1, None).unwrap_err();
    assert_eq!(err.bad, "ne\u{301}t");
    assert_eq!((err.prov.file_id(), err.prov.line(), err.prov.column(), err.prov.size()), (0, 1, 4, 3));
    assert_eq!(err.message(), "Could not find \"ne\u{301}t\" module!");
    assert_eq!((ctx.modules.len(), ctx.job_queue.len()), (1, 1));
}

#[test]
fn jobs_leave_the_queue() {
    let mut ctx = program();
    for (i, name) in ["a", "b", "c"].iter().enumerate() {
        assert_eq!(ask(&mut ctx, request(0, name), Some(200 + i as u32)), Ok(i + 1));
    }
    assert_eq!(Lexer::new_job(&mut ctx).unwrap(), Some(100));
    // The last job takes the place of the first one.
    assert_eq!(ctx.job_queue, [3, 1, 2]);
    assert!(matches!(ctx.modules[0].1.state, PartState::Processing));
    assert_eq!(Lexer::new_job(&mut ctx).unwrap(), Some(202));
    assert_eq!(Lexer::new_job(&mut ctx).unwrap(), Some(201));
    assert_eq!(Lexer::new_job(&mut ctx).unwrap(), Some(200));
    assert_eq!(Lexer::new_job(&mut ctx).unwrap(), None);
}

#[test]
fn a_job_needs_a_source() {
    let mut ctx = program();
    ctx.job_queue.push(0);
    assert_eq!(Lexer::new_job(&mut ctx).unwrap(), Some(100));
    assert!(matches!(Lexer::new_job(&mut ctx), Err(SchedulerError::AlreadyProcessing(_))));
    assert!(Lexer::commit_work(lexed(0), &mut ctx).is_ok());
    match Lexer::new_job(&mut ctx) {
        Err(SchedulerError::WrongStage(err)) => {
            assert_eq!((err.stage, err.expected), (PartStage::Tokens, PartStage::Source));
        }
        other => panic!("{:?}", other),
    }
    assert_eq!(ctx.job_queue, [0]);
    assert!(matches!(ctx.modules[0].1.state, PartState::Processing));
}

#[test]
fn work_is_committed_once() {
    let mut ctx = program();
    assert!(matches!(
        Lexer::commit_work(lexed(0), &mut ctx),
        Err(SchedulerError::NotProcessing(_))
    ));
    assert_eq!(Lexer::new_job(&mut ctx).unwrap(), Some(100));
    assert!(Lexer::commit_work(lexed(0), &mut ctx).is_ok());
    assert!(matches!(&ctx.modules[0].1.state, PartState::Tokens(r) if r.file_id == 0));
    assert!(Lexer::commit_work(lexed(0), &mut ctx).is_err());
}

#[test]
fn parts_are_processed_in_turn() {
    let mut part = Part::new(5u8, "m".to_string());
    assert_eq!(PartStage::from(&part.state), PartStage::Source);
    assert!(part.finish_processing(PartState::Source(6)).is_err());
    let state = part.start_processing().unwrap();
    assert!(matches!(state, PartState::Source(5)));
    assert_eq!(PartStage::from(&part.state), PartStage::Processing);
    assert!(part.start_processing().is_err());
    assert!(part.finish_processing(PartState::Tokens(lexed(1))).is_ok());
    assert_eq!(PartStage::from(&part.state), PartStage::Tokens);
    assert!(part.finish_processing(state).is_err());
    assert_eq!(part.name(), "m");
}
