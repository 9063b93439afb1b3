//! The part of a Python syntax tree that the architecture pass reads.
use vstd::prelude::*;
use ruff_text_size::TextRange;

verus! {

/// An expression, as far as the pass tells expressions apart.
#[allow(inconsistent_fields)]
pub enum Expr {
    StringLiteral { value: String, range: TextRange },
    Name { id: String, range: TextRange },
    Tuple { elts: Vec<Expr>, range: TextRange },
    List { elts: Vec<Expr>, range: TextRange },
    Starred { value: Box<Expr>, range: TextRange },
    Other { range: TextRange },
}

impl Expr {
    pub open spec fn spec_range(self) -> TextRange {
        match self {
            Expr::StringLiteral { range, .. } => range,
            Expr::Name { range, .. } => range,
            Expr::Tuple { range, .. } => range,
            Expr::List { range, .. } => range,
            Expr::Starred { range, .. } => range,
            Expr::Other { range } => range,
        }
    }

    /// The span of the expression in the source.
    pub fn range(&self) -> (r: TextRange)
        ensures
            r == self.spec_range(),
    {
        match self {
            Expr::StringLiteral { range, .. } => *range,
            Expr::Name { range, .. } => *range,
            Expr::Tuple { range, .. } => *range,
            Expr::List { range, .. } => *range,
            Expr::Starred { range, .. } => *range,
            Expr::Other { range } => *range,
        }
    }
}

pub struct Identifier {
    pub id: String,
    pub range: TextRange,
}

/// One name of an import statement: `name` or `name as asname`.
pub struct Alias {
    pub name: Identifier,
    pub asname: Option<Identifier>,
    pub range: TextRange,
}

/// One declared parameter of a function.
pub struct Parameter {
    pub name: Identifier,
    pub range: TextRange,
    /// Declared with one star.
    pub is_args: bool,
    /// Declared with two stars.
    pub is_kwargs: bool,
}

pub struct Decorator {
    pub expression: Expr,
    pub range: TextRange,
}

pub struct ElifElseClause {
    pub body: Vec<Stmt>,
    pub range: TextRange,
}

pub struct StmtFunctionDef {
    pub name: Identifier,
    pub decorator_list: Vec<Decorator>,
    /// The positional-only parameters.
    pub posonlyargs: Vec<Parameter>,
    /// The parameters that can be passed by position or by keyword.
    pub args: Vec<Parameter>,
    pub body: Vec<Stmt>,
    pub range: TextRange,
}

pub struct StmtClassDef {
    pub name: Identifier,
    pub body: Vec<Stmt>,
    pub range: TextRange,
}

pub struct StmtImport {
    pub names: Vec<Alias>,
    pub range: TextRange,
}

pub struct StmtImportFrom {
    pub module: Option<Identifier>,
    pub names: Vec<Alias>,
    /// The number of leading dots.
    pub level: u32,
    pub range: TextRange,
}

pub struct StmtAssign {
    pub targets: Vec<Expr>,
    pub value: Expr,
    pub range: TextRange,
}

pub struct StmtAnnAssign {
    pub target: Expr,
    pub annotation: Expr,
    pub value: Option<Expr>,
    pub range: TextRange,
}

pub struct StmtIf {
    pub body: Vec<Stmt>,
    pub elif_else_clauses: Vec<ElifElseClause>,
    pub range: TextRange,
}

pub struct StmtTry {
    pub body: Vec<Stmt>,
    pub orelse: Vec<Stmt>,
    pub finalbody: Vec<Stmt>,
    pub range: TextRange,
}

pub struct StmtFor {
    pub target: Expr,
    pub body: Vec<Stmt>,
    pub orelse: Vec<Stmt>,
    pub range: TextRange,
}

pub struct StmtExpr {
    pub value: Expr,
    pub range: TextRange,
}

/// A statement. Kinds that the pass ignores are `Other`.
pub enum Stmt {
    Import(StmtImport),
    ImportFrom(StmtImportFrom),
    AnnAssign(StmtAnnAssign),
    Assign(StmtAssign),
    FunctionDef(StmtFunctionDef),
    ClassDef(StmtClassDef),
    If(StmtIf),
    Try(StmtTry),
    For(StmtFor),
    Expr(StmtExpr),
    Other { range: TextRange },
}

/// The docstring of a body: the text of its first statement when that is an
/// expression statement holding a string literal.
pub open spec fn doc_string_of(body: Seq<Stmt>) -> Option<Seq<char>> {
    if body.len() > 0 {
        match body[0] {
            Stmt::Expr(StmtExpr { value: Expr::StringLiteral { value, .. }, .. }) => Some(value@),
            _ => None,
        }
    } else {
        None
    }
}

/// Reads the docstring of a body, if it has one.
pub fn doc_string(body: &Vec<Stmt>) -> (doc: Option<String>)
    ensures
        doc.is_some() == doc_string_of(body@).is_some(),
        doc.is_some() ==> doc.unwrap()@ == doc_string_of(body@).unwrap(),
{
    if body.len() > 0 {
        match &body[0] {
            Stmt::Expr(StmtExpr { value: Expr::StringLiteral { value, .. }, .. }) => Some(
                value.clone(),
            ),
            _ => None,
        }
    } else {
        None
    }
}

} // verus!
