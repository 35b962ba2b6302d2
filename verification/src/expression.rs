//! The expression tree: a sum type over binary operations and literals, with
//! a visitor so that read-only interpretations can be added without touching
//! the tree type.
use crate::token::{Token, TokenView};
use vstd::prelude::*;

verus! {

/// An expression node. Operands are exclusively owned: the tree shares no
/// subtrees and holds no cycles.
pub enum Expr {
    Binary { left: Box<Expr>, operator: Token, right: Box<Expr> },
    Literal { value: Token },
}

/// The mathematical shadow of an `Expr`.
pub enum ExprView {
    Binary { left: Box<ExprView>, operator: TokenView, right: Box<ExprView> },
    Literal { value: TokenView },
}

/// The mathematical shadow of a concrete expression tree, recursively.
pub open spec fn expr_view(e: Expr) -> ExprView
    decreases e,
{
    match e {
        Expr::Binary { left, operator, right } => ExprView::Binary {
            left: Box::new(expr_view(*left)),
            operator: operator@,
            right: Box::new(expr_view(*right)),
        },
        Expr::Literal { value } => ExprView::Literal { value: value@ },
    }
}

impl View for Expr {
    type V = ExprView;

    open spec fn view(&self) -> ExprView {
        expr_view(*self)
    }
}

/// A read-only interpretation of an expression tree. The two spec functions
/// say what the interpretation yields on each node variant; every
/// implementation is held to them.
pub trait ExprVisitor<R: View> {
    /// What this visitor yields for a binary node with these parts.
    spec fn binary_result(&self, left: &Expr, operator: &Token, right: &Expr) -> R::V;

    /// What this visitor yields for a literal node.
    spec fn literal_result(&self, value: &Token) -> R::V;

    fn visit_binary_expr(&mut self, left: &Expr, operator: &Token, right: &Expr) -> (r: R)
        ensures
            r@ == old(self).binary_result(left, operator, right),
    ;

    fn visit_literal_expr(&mut self, value: &Token) -> (r: R)
        ensures
            r@ == old(self).literal_result(value),
    ;
}

impl Expr {
    /// A binary node owning both operands.
    pub fn binary(left: Expr, operator: Token, right: Expr) -> (e: Expr)
        ensures
            e@ == (ExprView::Binary {
                left: Box::new(left@),
                operator: operator@,
                right: Box::new(right@),
            }),
    {
        Expr::Binary { left: Box::new(left), operator, right: Box::new(right) }
    }

    /// Dispatches to the visitor method matching this node's variant, handing
    /// over the node's parts by reference.
    pub fn accept<R: View, V: ExprVisitor<R>>(&self, visitor: &mut V) -> (r: R)
        ensures
            r@ == (match self {
                Expr::Binary { left, operator, right } => old(visitor).binary_result(
                    left,
                    operator,
                    right,
                ),
                Expr::Literal { value } => old(visitor).literal_result(value),
            }),
    {
        match self {
            Expr::Binary { left, operator, right } => visitor.visit_binary_expr(
                left,
                operator,
                right,
            ),
            Expr::Literal { value } => visitor.visit_literal_expr(value),
        }
    }
}

} // verus!
