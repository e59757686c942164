use vstd::prelude::*;

use crate::span::SourceSpan;

verus! {

/// A parsed program: its statements in source order.
#[derive(Debug)]
pub struct Program {
    pub statements: Vec<Stmt>,
}

/// A statement.
#[derive(Debug)]
pub enum Stmt {
    /// `print("...")`: `content` is the text between the quotes, taken verbatim.
    Print { content: String, span: SourceSpan },
    /// `name = expr`, or `$name = expr` when `decl_mut` is set.
    Assign { name: String, decl_mut: bool, expr: Expr, span: SourceSpan, name_span: SourceSpan },
}

/// An expression.
#[derive(Debug)]
pub enum Expr {
    /// A string literal: the text between the quotes.
    StringLit(String, SourceSpan),
    /// A signed 64-bit integer literal.
    IntLit(i64, SourceSpan),
    /// A reference to a variable.
    Ident(String, SourceSpan),
    /// `left + right`; its span is the span of `left`.
    BinaryAdd(Box<Expr>, Box<Expr>, SourceSpan),
}

/// The mathematical value of an [`Expr`]: text as character sequences.
pub enum ExprM {
    StringLit(Seq<char>, SourceSpan),
    IntLit(i64, SourceSpan),
    Ident(Seq<char>, SourceSpan),
    BinaryAdd(Box<ExprM>, Box<ExprM>, SourceSpan),
}

/// The mathematical value of a [`Stmt`].
pub enum StmtM {
    Print { content: Seq<char>, span: SourceSpan },
    Assign { name: Seq<char>, decl_mut: bool, expr: ExprM, span: SourceSpan, name_span: SourceSpan },
}

impl ExprM {
    /// The span recorded on this expression.
    pub open spec fn span(self) -> SourceSpan {
        match self {
            ExprM::StringLit(_, sp) => sp,
            ExprM::IntLit(_, sp) => sp,
            ExprM::Ident(_, sp) => sp,
            ExprM::BinaryAdd(_, _, sp) => sp,
        }
    }
}

pub open spec fn expr_view(e: Expr) -> ExprM
    decreases e,
{
    match e {
        Expr::StringLit(s, sp) => ExprM::StringLit(s@, sp),
        Expr::IntLit(v, sp) => ExprM::IntLit(v, sp),
        Expr::Ident(s, sp) => ExprM::Ident(s@, sp),
        Expr::BinaryAdd(a, b, sp) => ExprM::BinaryAdd(
            Box::new(expr_view(*a)),
            Box::new(expr_view(*b)),
            sp,
        ),
    }
}

impl View for Expr {
    type V = ExprM;

    open spec fn view(&self) -> ExprM {
        expr_view(*self)
    }
}

impl View for Stmt {
    type V = StmtM;

    open spec fn view(&self) -> StmtM {
        match *self {
            Stmt::Print { content, span } => StmtM::Print { content: content@, span },
            Stmt::Assign { name, decl_mut, expr, span, name_span } => StmtM::Assign {
                name: name@,
                decl_mut,
                expr: expr@,
                span,
                name_span,
            },
        }
    }
}

/// The statements of a sequence, each as its mathematical value.
pub open spec fn stmts_view(s: Seq<Stmt>) -> Seq<StmtM> {
    s.map_values(|x: Stmt| x@)
}

impl View for Program {
    type V = Seq<StmtM>;

    open spec fn view(&self) -> Seq<StmtM> {
        stmts_view(self.statements@)
    }
}

} // verus!
