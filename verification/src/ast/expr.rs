//! Expressions.

use crate::token::LiteralType;
use crate::token::LiteralView;
use crate::token::Token;
use crate::token::TokenView;
use vstd::prelude::*;

verus! {

/// An expression. Every node owns its parts.
#[derive(Debug)]
#[allow(inconsistent_fields)]
pub enum Expr {
    Assignment { name: Token, value: Box<Expr> },
    Binary { left: Box<Expr>, operator: Token, right: Box<Expr> },
    Grouping { expression: Box<Expr> },
    Literal { value: LiteralType },
    Unary { operator: Token, right: Box<Expr> },
    Ternary { condition: Box<Expr>, truepart: Box<Expr>, falsepart: Box<Expr> },
    Variable { name: Token },
}

/// An expression, with its tokens and literals as views.
#[allow(inconsistent_fields)]
pub ghost enum ExprView {
    Assignment { name: TokenView, value: Box<ExprView> },
    Binary { left: Box<ExprView>, operator: TokenView, right: Box<ExprView> },
    Grouping { expression: Box<ExprView> },
    Literal { value: LiteralView },
    Unary { operator: TokenView, right: Box<ExprView> },
    Ternary { condition: Box<ExprView>, truepart: Box<ExprView>, falsepart: Box<ExprView> },
    Variable { name: TokenView },
}

impl Expr {
    /// The view of the expression, part by part.
    pub open spec fn model(&self) -> ExprView
        decreases self,
    {
        match self {
            Expr::Assignment { name, value } => ExprView::Assignment {
                name: name@,
                value: Box::new(value.model()),
            },
            Expr::Binary { left, operator, right } => ExprView::Binary {
                left: Box::new(left.model()),
                operator: operator@,
                right: Box::new(right.model()),
            },
            Expr::Grouping { expression } => ExprView::Grouping {
                expression: Box::new(expression.model()),
            },
            Expr::Literal { value } => ExprView::Literal { value: value@ },
            Expr::Unary { operator, right } => ExprView::Unary {
                operator: operator@,
                right: Box::new(right.model()),
            },
            Expr::Ternary { condition, truepart, falsepart } => ExprView::Ternary {
                condition: Box::new(condition.model()),
                truepart: Box::new(truepart.model()),
                falsepart: Box::new(falsepart.model()),
            },
            Expr::Variable { name } => ExprView::Variable { name: name@ },
        }
    }
}

impl View for Expr {
    type V = ExprView;

    open spec fn view(&self) -> ExprView {
        self.model()
    }
}

} // verus!
