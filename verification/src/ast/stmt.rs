//! Statements.

use crate::ast::expr::Expr;
use crate::ast::expr::ExprView;
use crate::token::Token;
use crate::token::TokenView;
use vstd::prelude::*;

verus! {

/// A statement. A program is the run of its top-level statements.
#[derive(Debug)]
pub enum Stmt {
    Block(Vec<Stmt>),
    Program(Vec<Stmt>),
    Var(Token, Option<Expr>),
    Expression(Expr),
    Print(Expr),
}

/// A statement, with its tokens and expressions as views.
pub ghost enum StmtView {
    Block(Seq<StmtView>),
    Program(Seq<StmtView>),
    Var(TokenView, Option<ExprView>),
    Expression(ExprView),
    Print(ExprView),
}

impl Stmt {
    /// The view of the statement, part by part.
    pub open spec fn model(&self) -> StmtView
        decreases self,
    {
        match self {
            Stmt::Block(statements) => StmtView::Block(
                Seq::new(
                    statements@.len(),
                    |i: int|
                        if 0 <= i < statements@.len() {
                            statements@[i].model()
                        } else {
                            StmtView::Block(Seq::empty())
                        },
                ),
            ),
            Stmt::Program(declarations) => StmtView::Program(
                Seq::new(
                    declarations@.len(),
                    |i: int|
                        if 0 <= i < declarations@.len() {
                            declarations@[i].model()
                        } else {
                            StmtView::Block(Seq::empty())
                        },
                ),
            ),
            Stmt::Var(name, initializer) => StmtView::Var(
                name@,
                match initializer {
                    Some(e) => Some(e@),
                    None => None,
                },
            ),
            Stmt::Expression(e) => StmtView::Expression(e@),
            Stmt::Print(e) => StmtView::Print(e@),
        }
    }
}

impl View for Stmt {
    type V = StmtView;

    open spec fn view(&self) -> StmtView {
        self.model()
    }
}

/// The views of a run of statements.
pub open spec fn stmt_views(statements: Seq<Stmt>) -> Seq<StmtView> {
    Seq::new(statements.len(), |i: int| statements[i]@)
}


/// A block's view holds the views of its statements.
pub proof fn lemma_block_view(statements: Vec<Stmt>)
    ensures
        Stmt::Block(statements)@ == StmtView::Block(stmt_views(statements@)),
        Stmt::Program(statements)@ == StmtView::Program(stmt_views(statements@)),
{
    assert(Stmt::Block(statements).model()->Block_0 =~= stmt_views(statements@));
    assert(Stmt::Program(statements).model()->Program_0 =~= stmt_views(statements@));
}

} // verus!
