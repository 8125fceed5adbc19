//! Where things stand in the sources, and what names stand for.
use crate::tokens::{Token, TokenView, token_views};
use vstd::prelude::*;

verus! {

/// Compiles only for types that threads may share and hand over.
pub fn assert_send_sync<T: Send + Sync>() {
}

/// A stretch of a source file: the file, the line and column where it starts, and its size.
#[derive(Clone, Copy, Debug)]
pub struct Provenance {
    file_id: usize,
    line: usize,
    column: usize,
    size: usize,
}

pub struct ProvenanceView {
    pub file_id: int,
    pub line: int,
    pub column: int,
    pub size: int,
}

impl View for Provenance {
    type V = ProvenanceView;

    closed spec fn view(&self) -> ProvenanceView {
        ProvenanceView {
            file_id: self.file_id as int,
            line: self.line as int,
            column: self.column as int,
            size: self.size as int,
        }
    }
}

impl Provenance {
    pub fn file_id(&self) -> (r: usize)
        ensures
            r == self@.file_id,
    {
        self.file_id
    }

    pub fn line(&self) -> (r: usize)
        ensures
            r == self@.line,
    {
        self.line
    }

    pub fn column(&self) -> (r: usize)
        ensures
            r == self@.column,
    {
        self.column
    }

    pub fn size(&self) -> (r: usize)
        ensures
            r == self@.size,
    {
        self.size
    }

    pub fn new(file_id: usize, line: usize, column: usize, size: usize) -> (r: Self)
        ensures
            r@ == (ProvenanceView {
                file_id: file_id as int,
                line: line as int,
                column: column as int,
                size: size as int,
            }),
    {
        Self { file_id, line, column, size }
    }
}

/// A name that belongs to a module.
#[derive(Debug, PartialEq)]
pub enum ModuleScopedId {
    Unresolved(String),
    Resolved(usize, usize),
}

pub enum ModuleScopedIdView {
    Unresolved(Seq<char>),
    Resolved(int, int),
}

impl View for ModuleScopedId {
    type V = ModuleScopedIdView;

    open spec fn view(&self) -> ModuleScopedIdView {
        match self {
            ModuleScopedId::Unresolved(name) => ModuleScopedIdView::Unresolved(name@),
            ModuleScopedId::Resolved(module, id) => ModuleScopedIdView::Resolved(
                *module as int,
                *id as int,
            ),
        }
    }
}

/// A name that belongs to the whole program.
#[derive(Debug, PartialEq)]
pub enum GlobalId {
    Unresolved(String),
    Resolved(usize),
}

/// A macro without parameters: its name and the tokens that it stands for.
#[derive(Debug)]
pub enum ConstMacro {
    Tokens(String, Vec<Token>),
}

pub enum ConstMacroView {
    Tokens(Seq<char>, Seq<TokenView>),
}

impl View for ConstMacro {
    type V = ConstMacroView;

    open spec fn view(&self) -> ConstMacroView {
        match self {
            ConstMacro::Tokens(name, tokens) => ConstMacroView::Tokens(
                name@,
                token_views(tokens@),
            ),
        }
    }
}

/// A macro with parameters: the tokens of its signature and those of its body.
#[derive(Debug)]
pub enum MacroFunc {
    Tokens(Vec<Token>, Vec<Token>),
}

pub enum MacroFuncView {
    Tokens(Seq<TokenView>, Seq<TokenView>),
}

impl View for MacroFunc {
    type V = MacroFuncView;

    open spec fn view(&self) -> MacroFuncView {
        match self {
            MacroFunc::Tokens(signature, body) => MacroFuncView::Tokens(
                token_views(signature@),
                token_views(body@),
            ),
        }
    }
}

/// The message of a panic, given what the payload holds as a `String` and as a `&str`.
pub fn unwrap_panic<'a>(string: Option<&'a str>, literal: Option<&'a str>) -> (r: &'a str)
    ensures
        r@ == match (string, literal) {
            (Some(value), _) => value@,
            (None, Some(value)) => value@,
            (None, None) => "Found a non-string panic payload!"@,
        },
{
    if let Some(value) = string {
        value
    } else if let Some(value) = literal {
        value
    } else {
        "Found a non-string panic payload!"
    }
}

} // verus!
