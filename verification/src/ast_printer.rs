//! One visitor over the expression tree: it renders the tree as a fully
//! parenthesized, prefix-operator string, the canonical textual form.
use crate::expression::{Expr, ExprView, ExprVisitor};
use crate::token::Token;
use vstd::prelude::*;

verus! {

/// The canonical rendering of an expression: a literal is its decoded value
/// if present and its raw lexeme otherwise; a binary node is
/// `(<operator> <left> <right>)`.
pub open spec fn print_view(e: ExprView) -> Seq<char>
    decreases e,
{
    match e {
        ExprView::Literal { value } => match value.literal {
            Option::Some(l) => l,
            Option::None => value.lexeme,
        },
        ExprView::Binary { left, operator, right } => seq!['('] + operator.lexeme + seq![' ']
            + print_view(*left) + seq![' '] + print_view(*right) + seq![')'],
    }
}

/// The visitor that renders expression trees as canonical strings.
pub struct AstPrinter;

/// The canonical rendering of one node, recursively.
fn print_string(expr: &Expr) -> (r: std::string::String)
    ensures
        r@ == print_view(expr@),
    decreases expr,
{
    match expr {
        Expr::Literal { value } => match &value.literal {
            Option::Some(l) => String::from_str(l.as_str()),
            Option::None => String::from_str(value.lexeme.as_str()),
        },
        Expr::Binary { left, operator, right } => {
            let ls = print_string(left);
            let rs = print_string(right);
            render_binary(operator, &ls, &rs)
        },
    }
}

/// `(<operator-lexeme> <left> <right>)` from the already-rendered operands.
fn render_binary(operator: &Token, left: &std::string::String, right: &std::string::String) -> (r:
    std::string::String)
    ensures
        r@ == seq!['('] + operator@.lexeme + seq![' '] + left@ + seq![' '] + right@ + seq![')'],
{
    let mut out = String::from_str("(");
    out.append(operator.lexeme.as_str());
    out.append(" ");
    out.append(left.as_str());
    out.append(" ");
    out.append(right.as_str());
    out.append(")");
    proof {
        reveal_strlit("(");
        reveal_strlit(" ");
        reveal_strlit(")");
        assert(out@ =~= seq!['('] + operator@.lexeme + seq![' '] + left@ + seq![' '] + right@
            + seq![')']);
    }
    out
}

impl AstPrinter {
    pub fn new() -> (p: Self) {
        AstPrinter
    }

    /// Renders the whole tree in the canonical parenthesized prefix form.
    pub fn print(&mut self, expr: &Expr) -> (r: std::string::String)
        ensures
            r@ == print_view(expr@),
    {
        expr.accept(self)
    }
}

impl ExprVisitor<std::string::String> for AstPrinter {
    open spec fn binary_result(&self, left: &Expr, operator: &Token, right: &Expr) -> Seq<char> {
        print_view(
            ExprView::Binary {
                left: Box::new(left@),
                operator: operator@,
                right: Box::new(right@),
            },
        )
    }

    open spec fn literal_result(&self, value: &Token) -> Seq<char> {
        print_view(ExprView::Literal { value: value@ })
    }

    fn visit_binary_expr(&mut self, left: &Expr, operator: &Token, right: &Expr) -> (r:
        std::string::String) {
        let ls = print_string(left);
        let rs = print_string(right);
        render_binary(operator, &ls, &rs)
    }

    fn visit_literal_expr(&mut self, value: &Token) -> (r: std::string::String) {
        match &value.literal {
            Option::Some(l) => String::from_str(l.as_str()),
            Option::None => String::from_str(value.lexeme.as_str()),
        }
    }
}

} // verus!
