//! Tokens and the tables of their spellings.
use crate::common::{ModuleScopedId, ModuleScopedIdView, Provenance, ProvenanceView};
use vstd::prelude::*;
use vstd::string::*;

verus! {

#[derive(Debug)]
pub struct Token {
    pub kind: TokenKind,
    pub prov: Provenance,
}

pub struct TokenView {
    pub kind: TokenKindView,
    pub prov: ProvenanceView,
}

impl View for Token {
    type V = TokenView;

    open spec fn view(&self) -> TokenView {
        TokenView { kind: self.kind@, prov: self.prov@ }
    }
}

/// What each token in `tokens` stands for.
pub open spec fn token_views(tokens: Seq<Token>) -> Seq<TokenView> {
    tokens.map_values(|t: Token| t@)
}

impl Token {
    pub fn new(kind: TokenKind, prov: Provenance) -> (r: Self)
        ensures
            r.kind == kind,
            r.prov == prov,
    {
        Self { kind, prov }
    }
}

#[derive(Debug, PartialEq)]
pub enum TokenKind {
    Operator(OperatorKind),
    Delim(DelimKind),
    Identifier(ModuleScopedId),
    Directive(DirectiveKind),
    MacroInv(ModuleScopedId),
    Keyword(KeywordKind),
    Literal(LiteralKind),
}

pub enum TokenKindView {
    Operator(OperatorKind),
    Delim(DelimKind),
    Identifier(ModuleScopedIdView),
    Directive(DirectiveKind),
    MacroInv(ModuleScopedIdView),
    Keyword(KeywordKind),
    Literal(LiteralKindView),
}

impl View for TokenKind {
    type V = TokenKindView;

    open spec fn view(&self) -> TokenKindView {
        match self {
            TokenKind::Operator(op) => TokenKindView::Operator(*op),
            TokenKind::Delim(delim) => TokenKindView::Delim(*delim),
            TokenKind::Identifier(id) => TokenKindView::Identifier(id@),
            TokenKind::Directive(directive) => TokenKindView::Directive(*directive),
            TokenKind::MacroInv(id) => TokenKindView::MacroInv(id@),
            TokenKind::Keyword(keyword) => TokenKindView::Keyword(*keyword),
            TokenKind::Literal(literal) => TokenKindView::Literal(literal@),
        }
    }
}

/// A literal. A floating-point one is kept as its text, which `str::parse::<f64>` accepts.
#[derive(Debug, PartialEq)]
pub enum LiteralKind {
    Int(i64),
    Float(String),
    String(String),
    Char(u8),
    Byte(u8),
}

pub enum LiteralKindView {
    Int(int),
    Float(Seq<char>),
    String(Seq<char>),
    Char(int),
    Byte(int),
}

impl View for LiteralKind {
    type V = LiteralKindView;

    open spec fn view(&self) -> LiteralKindView {
        match self {
            LiteralKind::Int(value) => LiteralKindView::Int(*value as int),
            LiteralKind::Float(text) => LiteralKindView::Float(text@),
            LiteralKind::String(text) => LiteralKindView::String(text@),
            LiteralKind::Char(value) => LiteralKindView::Char(*value as int),
            LiteralKind::Byte(value) => LiteralKindView::Byte(*value as int),
        }
    }
}

#[derive(Clone, Copy, Debug, PartialEq)]
pub enum DirectiveKind {
    If,
    Error,
    Log,
}

#[derive(Clone, Copy, Debug, PartialEq)]
pub enum KeywordKind {
    Function,
    TypeCheck,
    Thing,
}

#[derive(Clone, Copy, Debug, PartialEq)]
pub enum OperatorKind {
    Assign,
    Add,
    Negate,
    Mult,
    Div,
    Mod,
    DivUp,
    Project,
    LogNot,
    LogAnd,
    LogOr,
    BitNot,
    BitAnd,
    BitOr,
    BitXor,
    Equal,
    NEqual,
    Less,
    More,
    LessEqual,
    MoreEqual,
    Return,
}

#[derive(Clone, Copy, Debug, PartialEq)]
pub enum DelimKind {
    ComposeO,
    ComposeC,
    InvokeO,
    InvokeC,
    BlockO,
    BlockC,
    Sep,
    EndL,
    TypeMarker,
    SubPart,
}

/// The number of operators of more than one byte. They are listed first.
pub const MULTI_OPS: usize = 9;

/// The number of delimiters of more than one byte. They are listed first.
pub const MULTI_DELIMS: usize = 1;

/// The operators and their spellings.
pub open spec fn ops() -> Seq<(Seq<char>, OperatorKind)> {
    seq![
        ("->"@, OperatorKind::Project),
        ("=>"@, OperatorKind::Return),
        ("//"@, OperatorKind::DivUp),
        ("&&"@, OperatorKind::LogAnd),
        ("||"@, OperatorKind::LogOr),
        ("=="@, OperatorKind::Equal),
        ("!="@, OperatorKind::NEqual),
        (">="@, OperatorKind::MoreEqual),
        ("<="@, OperatorKind::LessEqual),
        ("="@, OperatorKind::Assign),
        ("+"@, OperatorKind::Add),
        ("-"@, OperatorKind::Negate),
        ("*"@, OperatorKind::Mult),
        ("/"@, OperatorKind::Div),
        ("%"@, OperatorKind::Mod),
        ("|"@, OperatorKind::BitOr),
        ("~"@, OperatorKind::BitNot),
        ("&"@, OperatorKind::BitAnd),
        ("^"@, OperatorKind::BitXor),
        ("!"@, OperatorKind::LogNot),
        ("<"@, OperatorKind::Less),
        (">"@, OperatorKind::More),
    ]
}

/// The delimiters and their spellings. The end of a line has none.
pub open spec fn delims() -> Seq<(Seq<char>, DelimKind)> {
    seq![
        ("::"@, DelimKind::SubPart),
        ("{"@, DelimKind::BlockO),
        ("}"@, DelimKind::BlockC),
        ("("@, DelimKind::InvokeO),
        (")"@, DelimKind::InvokeC),
        ("["@, DelimKind::ComposeO),
        ("]"@, DelimKind::ComposeC),
        (","@, DelimKind::Sep),
        (":"@, DelimKind::TypeMarker),
    ]
}

/// The keywords and their spellings.
pub open spec fn keywords() -> Seq<(Seq<char>, KeywordKind)> {
    seq![
        ("is"@, KeywordKind::TypeCheck),
        ("fu"@, KeywordKind::Function),
        ("thing"@, KeywordKind::Thing),
    ]
}

/// The directives and their spellings.
pub open spec fn directives() -> Seq<(Seq<char>, DirectiveKind)> {
    seq![
        ("if "@, DirectiveKind::If),
        ("err "@, DirectiveKind::Error),
        ("log "@, DirectiveKind::Log),
    ]
}

/// The rows of `table` are those of `rows`.
pub open spec fn lists<K>(table: Seq<(&'static str, K)>, rows: Seq<(Seq<char>, K)>) -> bool {
    &&& table.len() == rows.len()
    &&& forall|i: int|
        0 <= i < rows.len() ==> (#[trigger] table[i]).0@ == rows[i].0 && table[i].1 == rows[i].1
}

pub fn op_table() -> (r: Vec<(&'static str, OperatorKind)>)
    ensures
        lists(r@, ops()),
{
    vec![
        ("->", OperatorKind::Project),
        ("=>", OperatorKind::Return),
        ("//", OperatorKind::DivUp),
        ("&&", OperatorKind::LogAnd),
        ("||", OperatorKind::LogOr),
        ("==", OperatorKind::Equal),
        ("!=", OperatorKind::NEqual),
        (">=", OperatorKind::MoreEqual),
        ("<=", OperatorKind::LessEqual),
        ("=", OperatorKind::Assign),
        ("+", OperatorKind::Add),
        ("-", OperatorKind::Negate),
        ("*", OperatorKind::Mult),
        ("/", OperatorKind::Div),
        ("%", OperatorKind::Mod),
        ("|", OperatorKind::BitOr),
        ("~", OperatorKind::BitNot),
        ("&", OperatorKind::BitAnd),
        ("^", OperatorKind::BitXor),
        ("!", OperatorKind::LogNot),
        ("<", OperatorKind::Less),
        (">", OperatorKind::More),
    ]
}

pub fn delim_table() -> (r: Vec<(&'static str, DelimKind)>)
    ensures
        lists(r@, delims()),
{
    vec![
        ("::", DelimKind::SubPart),
        ("{", DelimKind::BlockO),
        ("}", DelimKind::BlockC),
        ("(", DelimKind::InvokeO),
        (")", DelimKind::InvokeC),
        ("[", DelimKind::ComposeO),
        ("]", DelimKind::ComposeC),
        (",", DelimKind::Sep),
        (":", DelimKind::TypeMarker),
    ]
}

pub fn keyword_table() -> (r: Vec<(&'static str, KeywordKind)>)
    ensures
        lists(r@, keywords()),
{
    vec![
        ("is", KeywordKind::TypeCheck),
        ("fu", KeywordKind::Function),
        ("thing", KeywordKind::Thing),
    ]
}

pub fn directive_table() -> (r: Vec<(&'static str, DirectiveKind)>)
    ensures
        lists(r@, directives()),
{
    vec![("if ", DirectiveKind::If), ("err ", DirectiveKind::Error), ("log ", DirectiveKind::Log)]
}

/// The operators of more than one byte stand first in their table: they are its first
/// `MULTI_OPS` rows. The same holds of the delimiters and `MULTI_DELIMS`.
pub proof fn multi_byte_spellings_first()
    ensures
        forall|i: int|
            0 <= i < ops().len() ==> ((#[trigger] ops()[i]).0.len() > 1 <==> i < MULTI_OPS),
        forall|i: int|
            0 <= i < delims().len() ==> ((#[trigger] delims()[i]).0.len() > 1 <==> i
                < MULTI_DELIMS),
{
    reveal_spellings();
}

/// What the spellings of operators and delimiters hold.
pub proof fn reveal_spellings()
    ensures
        "->"@ == seq!['-', '>'],
        "=>"@ == seq!['=', '>'],
        "//"@ == seq!['/', '/'],
        "&&"@ == seq!['&', '&'],
        "||"@ == seq!['|', '|'],
        "=="@ == seq!['=', '='],
        "!="@ == seq!['!', '='],
        ">="@ == seq!['>', '='],
        "<="@ == seq!['<', '='],
        "="@ == seq!['='],
        "+"@ == seq!['+'],
        "-"@ == seq!['-'],
        "*"@ == seq!['*'],
        "/"@ == seq!['/'],
        "%"@ == seq!['%'],
        "|"@ == seq!['|'],
        "~"@ == seq!['~'],
        "&"@ == seq!['&'],
        "^"@ == seq!['^'],
        "!"@ == seq!['!'],
        "<"@ == seq!['<'],
        ">"@ == seq!['>'],
        "::"@ == seq![':', ':'],
        "{"@ == seq!['{'],
        "}"@ == seq!['}'],
        "("@ == seq!['('],
        ")"@ == seq![')'],
        "["@ == seq!['['],
        "]"@ == seq![']'],
        ","@ == seq![','],
        ":"@ == seq![':'],
{
    reveal_strlit("->");
    reveal_strlit("=>");
    reveal_strlit("//");
    reveal_strlit("&&");
    reveal_strlit("||");
    reveal_strlit("==");
    reveal_strlit("!=");
    reveal_strlit(">=");
    reveal_strlit("<=");
    reveal_strlit("=");
    reveal_strlit("+");
    reveal_strlit("-");
    reveal_strlit("*");
    reveal_strlit("/");
    reveal_strlit("%");
    reveal_strlit("|");
    reveal_strlit("~");
    reveal_strlit("&");
    reveal_strlit("^");
    reveal_strlit("!");
    reveal_strlit("<");
    reveal_strlit(">");
    reveal_strlit("::");
    reveal_strlit("{");
    reveal_strlit("}");
    reveal_strlit("(");
    reveal_strlit(")");
    reveal_strlit("[");
    reveal_strlit("]");
    reveal_strlit(",");
    reveal_strlit(":");
}

} // verus!
