//! The syntax tree of a story and its mathematical view.
use vstd::prelude::*;

verus! {

/// One statement of a story.
#[derive(Debug, Clone, PartialEq, Eq)]
pub enum AstStmt {
    Text { text: String, line: usize },
    Divert { target: String, line: usize },
    Unsupported { raw: String, line: usize },
}

/// A knot: a named block of statements.
#[derive(Debug, Clone, PartialEq, Eq)]
pub struct AstKnot {
    pub name: String,
    pub body: Vec<AstStmt>,
    pub line: usize,
}

/// A parsed story: the statements before the first knot, then the knots.
#[derive(Debug, Clone, PartialEq, Eq)]
pub struct AstStory {
    pub root: Vec<AstStmt>,
    pub knots: Vec<AstKnot>,
}

/// The view of an [`AstStmt`].
pub enum SpecStmt {
    Text { text: Seq<char>, line: usize },
    Divert { target: Seq<char>, line: usize },
    Unsupported { raw: Seq<char>, line: usize },
}

/// The view of an [`AstKnot`].
pub struct SpecKnot {
    pub name: Seq<char>,
    pub body: Seq<SpecStmt>,
    pub line: usize,
}

/// The view of an [`AstStory`].
pub struct SpecStory {
    pub root: Seq<SpecStmt>,
    pub knots: Seq<SpecKnot>,
}

impl View for AstStmt {
    type V = SpecStmt;

    open spec fn view(&self) -> SpecStmt {
        match self {
            AstStmt::Text { text, line } => SpecStmt::Text { text: text@, line: *line },
            AstStmt::Divert { target, line } => SpecStmt::Divert { target: target@, line: *line },
            AstStmt::Unsupported { raw, line } => SpecStmt::Unsupported { raw: raw@, line: *line },
        }
    }
}

/// The views of a sequence of statements.
pub open spec fn stmt_views(v: Seq<AstStmt>) -> Seq<SpecStmt> {
    v.map_values(|s: AstStmt| s@)
}

impl View for AstKnot {
    type V = SpecKnot;

    open spec fn view(&self) -> SpecKnot {
        SpecKnot { name: self.name@, body: stmt_views(self.body@), line: self.line }
    }
}

/// The views of a sequence of knots.
pub open spec fn knot_views(v: Seq<AstKnot>) -> Seq<SpecKnot> {
    v.map_values(|k: AstKnot| k@)
}

impl View for AstStory {
    type V = SpecStory;

    open spec fn view(&self) -> SpecStory {
        SpecStory { root: stmt_views(self.root@), knots: knot_views(self.knots@) }
    }
}

/// The sequence holding the value of `o`, if any.
pub open spec fn opt_seq<T>(o: Option<T>) -> Seq<T> {
    match o {
        Some(x) => seq![x],
        None => seq![],
    }
}

} // verus!
