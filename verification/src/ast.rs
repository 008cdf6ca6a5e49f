//! The tree of a program, as far as the analysis reads it.

use vstd::prelude::*;
use crate::finder_types::FinderType;

verus! {

/// An expression of the analysed program, as far as its shape matters here.
#[derive(Debug, PartialEq)]
pub enum Expr {
    /// A literal string, number or truth value. Adjacent string literals are one literal.
    Constant(FinderType),
    /// A formatted string literal: its parts in order.
    JoinedStr(Vec<FStringPart>),
    /// `left + right`
    BinaryAdd(Box<Expr>, Box<Expr>),
    /// `left % right`
    BinaryMod(Box<Expr>, Box<Expr>),
    /// A call: the callee, the positional arguments and the keyword arguments.
    Call { func: Box<Expr>, args: Vec<Expr>, keywords: Vec<Keyword> },
    /// A bare name.
    Name(String),
    /// `value.attr`
    Attribute { value: Box<Expr>, attr: String },
    /// A list display.
    List(Vec<Expr>),
    /// A tuple display.
    Tuple(Vec<Expr>),
    /// A dictionary display.
    Dict(Vec<DictItem>),
    /// `*value`, in an assignment target or an argument list.
    Starred(Box<Expr>),
    /// Any other expression.
    Other,
}

/// One part of a formatted string literal.
#[derive(Debug, PartialEq)]
pub enum FStringPart {
    /// Text that stands in the literal as it is.
    Literal(String),
    /// A replacement field, with the expression written in it.
    Interpolation(Expr),
}

/// A keyword argument of a call; `**mapping` has no name.
#[derive(Debug, PartialEq)]
pub struct Keyword {
    pub name: Option<String>,
    pub value: Expr,
}

/// An entry of a dictionary display; `**mapping` has no key.
#[derive(Debug, PartialEq)]
pub struct DictItem {
    pub key: Option<Expr>,
    pub value: Expr,
}

/// A statement of the analysed program. A line number counts from 1.
#[allow(inconsistent_fields)]
#[derive(Debug, PartialEq)]
pub enum Stmt {
    /// `target = ... = value`, with the line on which the value ends.
    Assign { targets: Vec<Expr>, value: Expr, last_line: usize },
    /// `target: annotation = value`, with the line on which the value ends.
    AnnAssign { target: Expr, value: Option<Expr>, last_line: usize },
    /// An expression that stands as a statement, with the line on which it ends.
    Expr { value: Expr, last_line: usize },
    If { body: Vec<Stmt>, orelse: Vec<Stmt> },
    For { body: Vec<Stmt>, orelse: Vec<Stmt> },
    While { body: Vec<Stmt>, orelse: Vec<Stmt> },
    /// `try`, with the body of each handler.
    Try { body: Vec<Stmt>, handlers: Vec<Vec<Stmt>>, orelse: Vec<Stmt>, finalbody: Vec<Stmt> },
    With { body: Vec<Stmt> },
    /// `match`, with the body of each case.
    Match { cases: Vec<Vec<Stmt>> },
    FunctionDef { body: Vec<Stmt> },
    ClassDef { body: Vec<Stmt> },
    /// Any other statement.
    Other,
}

/// The elements of a list or tuple display.
pub open spec fn sequence_elements(e: Expr) -> Option<Seq<Expr>> {
    match e {
        Expr::List(es) => Some(es@),
        Expr::Tuple(es) => Some(es@),
        _ => None,
    }
}

} // verus!
