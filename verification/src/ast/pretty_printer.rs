//! The syntax tree as text, in prefix notation.

use crate::arithmetic::Arithmetic;
use crate::arithmetic::determined;
use crate::ast::expr::Expr;
use crate::ast::expr::ExprView;
use crate::ast::stmt::lemma_block_view;
use crate::ast::stmt::Stmt;
use crate::ast::stmt::stmt_views;
use crate::ast::stmt::StmtView;
use crate::value::literal_value;
use crate::value::LoxValue;
use crate::value::shown;
use vstd::prelude::*;
use vstd::string::StringExecFns;

verus! {

/// The parts, a blank before each.
pub open spec fn spaced(parts: Seq<Seq<char>>) -> Seq<char>
    decreases parts.len(),
{
    if parts.len() == 0 {
        Seq::empty()
    } else {
        spaced(parts.drop_last()) + " "@ + parts.last()
    }
}

/// `(name part part ...)`
pub open spec fn parenthesized(name: Seq<char>, parts: Seq<Seq<char>>) -> Seq<char> {
    "("@ + name + spaced(parts) + ")"@
}

/// An expression in prefix notation: an operator and its operands in
/// parentheses, a literal as `print` would show it, a variable by its name.
pub open spec fn printed<A: Arithmetic>(arith: &A, e: ExprView) -> Seq<char>
    decreases e,
{
    match e {
        ExprView::Assignment { name, value } => "(= "@ + name.lexeme + " "@ + printed(arith, *value)
            + ")"@,
        ExprView::Binary { left, operator, right } => parenthesized(
            operator.lexeme,
            seq![printed(arith, *left), printed(arith, *right)],
        ),
        ExprView::Grouping { expression } => parenthesized(
            "group"@,
            seq![printed(arith, *expression)],
        ),
        ExprView::Literal { value } => shown(arith, literal_value(value)),
        ExprView::Unary { operator, right } => parenthesized(
            operator.lexeme,
            seq![printed(arith, *right)],
        ),
        ExprView::Ternary { condition, truepart, falsepart } => parenthesized(
            "?"@,
            seq![printed(arith, *condition), printed(arith, *truepart), printed(arith, *falsepart)],
        ),
        ExprView::Variable { name } => name.lexeme,
    }
}

/// A statement in prefix notation. The statements of a block or a program
/// stand in square brackets, with semicolons between them.
pub open spec fn printed_stmt<A: Arithmetic>(arith: &A, s: StmtView) -> Seq<char>
    decreases s, 0nat,
{
    match s {
        StmtView::Block(statements) => "["@ + listed(arith, statements, statements.len()) + "]"@,
        StmtView::Program(declarations) => "["@ + listed(arith, declarations, declarations.len())
            + "]"@,
        StmtView::Var(name, initializer) => "(var "@ + name.lexeme + match initializer {
            Some(e) => " = "@ + printed(arith, e),
            None => Seq::empty(),
        } + ")"@,
        StmtView::Expression(e) => printed(arith, e),
        StmtView::Print(e) => parenthesized("print"@, seq![printed(arith, e)]),
    }
}

/// The first `count` statements, with semicolons between them.
pub open spec fn listed<A: Arithmetic>(arith: &A, statements: Seq<StmtView>, count: nat) -> Seq<char>
    decreases statements, count,
{
    if count == 0 || count > statements.len() {
        Seq::empty()
    } else if count == 1 {
        printed_stmt(arith, statements[0])
    } else {
        listed(arith, statements, (count - 1) as nat) + ";"@ + printed_stmt(
            arith,
            statements[count - 1],
        )
    }
}

/// The views of some texts.
pub open spec fn text_views(texts: Seq<String>) -> Seq<Seq<char>> {
    Seq::new(texts.len(), |i: int| texts[i]@)
}

/// Prints syntax trees. It holds the arithmetic that writes the numbers.
pub struct AstPrinter<A: Arithmetic>(pub A);

impl<A: Arithmetic> AstPrinter<A> {
    /// Format a given `Expr` to a readable string.
    pub fn fmt(&mut self, expr: &Expr) -> (r: String)
        requires
            determined(&old(self).0),
        ensures
            r@ == printed(&old(self).0, expr@),
            *final(self) == *old(self),
        decreases expr,
    {
        match expr {
            Expr::Assignment { name, value } => {
                let text = self.fmt(value);
                let mut s = String::from_str("(= ");
                s.append(name.lexeme.as_str());
                s.append(" ");
                s.append(text.as_str());
                s.append(")");
                s
            },
            Expr::Binary { left, operator, right } => {
                let mut parts: Vec<String> = Vec::new();
                parts.push(self.fmt(left));
                parts.push(self.fmt(right));
                assert(text_views(parts@) =~= seq![
                    printed(&self.0, left@),
                    printed(&self.0, right@),
                ]);
                self.parenthesize(operator.lexeme.as_str(), parts)
            },
            Expr::Grouping { expression } => {
                let mut parts: Vec<String> = Vec::new();
                parts.push(self.fmt(expression));
                assert(text_views(parts@) =~= seq![printed(&self.0, expression@)]);
                self.parenthesize("group", parts)
            },
            Expr::Literal { value } => LoxValue::of_literal(value).text(&self.0),
            Expr::Unary { operator, right } => {
                let mut parts: Vec<String> = Vec::new();
                parts.push(self.fmt(right));
                assert(text_views(parts@) =~= seq![printed(&self.0, right@)]);
                self.parenthesize(operator.lexeme.as_str(), parts)
            },
            Expr::Ternary { condition, truepart, falsepart } => {
                let mut parts: Vec<String> = Vec::new();
                parts.push(self.fmt(condition));
                parts.push(self.fmt(truepart));
                parts.push(self.fmt(falsepart));
                assert(text_views(parts@) =~= seq![
                    printed(&self.0, condition@),
                    printed(&self.0, truepart@),
                    printed(&self.0, falsepart@),
                ]);
                self.parenthesize("?", parts)
            },
            Expr::Variable { name } => name.lexeme.clone(),
        }
    }

    /// Format a given `Stmt` to a readable string.
    pub fn fmt_stmt(&mut self, stmt: &Stmt) -> (r: String)
        requires
            determined(&old(self).0),
        ensures
            r@ == printed_stmt(&old(self).0, stmt@),
            *final(self) == *old(self),
        decreases stmt, 0nat,
    {
        match stmt {
            Stmt::Block(statements) => {
                proof {
                    lemma_block_view(*statements);
                }
                self.block(statements)
            },
            Stmt::Program(declarations) => {
                proof {
                    lemma_block_view(*declarations);
                }
                self.block(declarations)
            },
            Stmt::Var(name, initializer) => {
                let mut s = String::from_str("(var ");
                s.append(name.lexeme.as_str());
                match initializer {
                    Some(e) => {
                        let text = self.fmt(e);
                        s.append(" = ");
                        s.append(text.as_str());
                        assert(s@ =~= "(var "@ + name@.lexeme + (" = "@ + text@));
                    },
                    None => {
                        assert(s@ =~= "(var "@ + name@.lexeme + Seq::<char>::empty());
                    },
                }
                s.append(")");
                s
            },
            Stmt::Expression(e) => self.fmt(e),
            Stmt::Print(e) => {
                let mut parts: Vec<String> = Vec::new();
                parts.push(self.fmt(e));
                assert(text_views(parts@) =~= seq![printed(&self.0, e@)]);
                self.parenthesize("print", parts)
            },
        }
    }

    /// Parenthesize the given texts under a name.
    fn parenthesize(&mut self, name: &str, parts: Vec<String>) -> (r: String)
        ensures
            r@ == parenthesized(name@, text_views(parts@)),
            *final(self) == *old(self),
    {
        let mut s = String::from_str("(");
        s.append(name);
        let ghost views = text_views(parts@);
        let mut i: usize = 0;
        while i < parts.len()
            invariant
                i <= parts.len(),
                views == text_views(parts@),
                s@ == "("@ + name@ + spaced(views.take(i as int)),
            decreases parts.len() - i,
        {
            proof {
                assert(views.take(i + 1).drop_last() =~= views.take(i as int));
                assert(views.take(i + 1).last() == parts@[i as int]@);
            }
            s.append(" ");
            s.append(parts[i].as_str());
            proof {
                assert(s@ =~= "("@ + name@ + spaced(views.take(i + 1)));
            }
            i += 1;
        }
        assert(views.take(parts.len() as int) =~= views);
        s.append(")");
        s
    }

    /// Wrapping statements in block.
    fn block(&mut self, statements: &Vec<Stmt>) -> (r: String)
        requires
            determined(&old(self).0),
        ensures
            r@ == "["@ + listed(&old(self).0, stmt_views(statements@), statements@.len()) + "]"@,
            *final(self) == *old(self),
        decreases statements, 1nat,
    {
        let mut s = String::from_str("[");
        let ghost views = stmt_views(statements@);
        let mut i: usize = 0;
        while i < statements.len()
            invariant
                i <= statements.len(),
                *self == *old(self),
                determined(&self.0),
                views == stmt_views(statements@),
                s@ == "["@ + listed(&self.0, views, i as nat),
            decreases statements.len() - i,
        {
            let text = self.fmt_stmt(&statements[i]);
            if i > 0 {
                s.append(";");
            }
            s.append(text.as_str());
            proof {
                assert(s@ =~= "["@ + listed(&self.0, views, (i + 1) as nat));
            }
            i += 1;
        }
        s.append("]");
        s
    }
}

} // verus!
