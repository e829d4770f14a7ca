//! The evaluator.

use crate::arithmetic::Arithmetic;
use crate::arithmetic::calculated;
use crate::arithmetic::compute;
use crate::arithmetic::determined;
use crate::arithmetic::is_zero;
use crate::arithmetic::less;
use crate::arithmetic::less_or_equal;
use crate::arithmetic::negate;
use crate::arithmetic::negated;
use crate::arithmetic::number_is_zero;
use crate::arithmetic::number_less;
use crate::arithmetic::number_less_or_equal;
use crate::arithmetic::Operation;
use crate::ast::expr::Expr;
use crate::ast::expr::ExprView;
use crate::ast::stmt::lemma_block_view;
use crate::ast::stmt::Stmt;
use crate::ast::stmt::stmt_views;
use crate::ast::stmt::StmtView;
use crate::environment::assigned;
use crate::environment::defined;
use crate::environment::entered;
use crate::environment::Environment;
use crate::environment::exited;
use crate::environment::law_assignment;
use crate::environment::law_assignment_below;
use crate::environment::law_assignment_binds_nothing;
use crate::environment::lemma_shadowed_chain;
use crate::environment::same_binding;
use crate::environment::shadowed_below;
use crate::environment::lookup;
use crate::environment::Scope;
use crate::environment::undefined_target;
use crate::environment::undefined_variable;
use crate::error::error_views;
use crate::error::ErrorView;
use crate::error::RloxError;
use crate::token::LiteralView;
use crate::token::TokenType;
use crate::token::TokenView;
use crate::value::literal_value;
use crate::value::LoxValue;
use crate::value::shown;
use crate::value::truthy;
use crate::value::values_equal;
use crate::value::ValueView;
use vstd::prelude::*;
use vstd::string::StringExecFns;

verus! {

/// A value or an error, seen through their views.
pub open spec fn outcome(r: Result<LoxValue, RloxError>) -> Result<ValueView, ErrorView> {
    match r {
        Ok(v) => Ok(v@),
        Err(e) => Err(e@),
    }
}

/// The failure of an evaluation, with its message.
pub open spec fn failure(message: Seq<char>) -> Result<ValueView, ErrorView> {
    Err(ErrorView::RuntimeError(message))
}

/// The rounding operation behind an arithmetic operator.
pub open spec fn operation_of(operator: TokenType) -> Operation {
    match operator {
        TokenType::Plus => Operation::Add,
        TokenType::Minus => Operation::Subtract,
        TokenType::Star => Operation::Multiply,
        _ => Operation::Divide,
    }
}

/// What a unary operator makes of its operand: `-` negates a number and
/// rejects anything else, `!` negates the operand's truthiness.
pub open spec fn unary_result(operator: TokenType, right: ValueView) -> Result<
    ValueView,
    ErrorView,
> {
    match operator {
        TokenType::Minus => match right {
            ValueView::Number(n) => Ok(ValueView::Number(negated(n))),
            _ => failure("Operand must be a number"@),
        },
        TokenType::Bang => Ok(ValueView::Bool(!truthy(right))),
        _ => failure("Unknown unary operator."@),
    }
}

/// What a binary operator makes of two values.
///
/// `+` adds two numbers or joins two strings. `-`, `*` and `/` take two
/// numbers, and `/` refuses a divisor that is zero. The four comparisons take
/// two numbers. `==` and `!=` take any two values and never fail.
pub open spec fn binary_result<A: Arithmetic>(
    arith: &A,
    operator: TokenType,
    lhs: ValueView,
    rhs: ValueView,
) -> Result<ValueView, ErrorView> {
    match operator {
        TokenType::Plus => match (lhs, rhs) {
            (ValueView::Number(a), ValueView::Number(b)) => Ok(
                ValueView::Number(calculated(arith, Operation::Add, a, b)),
            ),
            (ValueView::String(a), ValueView::String(b)) => Ok(ValueView::String(a + b)),
            _ => failure("Operands must be two numbers or strings."@),
        },
        TokenType::Minus | TokenType::Star => match (lhs, rhs) {
            (ValueView::Number(a), ValueView::Number(b)) => Ok(
                ValueView::Number(calculated(arith, operation_of(operator), a, b)),
            ),
            _ => failure("Operands must be two numbers."@),
        },
        TokenType::Slash => match (lhs, rhs) {
            (ValueView::Number(a), ValueView::Number(b)) => if is_zero(b) {
                failure("can not divided by zero"@)
            } else {
                Ok(ValueView::Number(calculated(arith, Operation::Divide, a, b)))
            },
            _ => failure("Operands must be two numbers."@),
        },
        TokenType::Greater | TokenType::GreaterEqual | TokenType::Less | TokenType::LessEqual => {
            match (lhs, rhs) {
                (ValueView::Number(a), ValueView::Number(b)) => Ok(
                    ValueView::Bool(
                        match operator {
                            TokenType::Greater => less(b, a),
                            TokenType::GreaterEqual => less_or_equal(b, a),
                            TokenType::Less => less(a, b),
                            _ => less_or_equal(a, b),
                        },
                    ),
                ),
                _ => failure("Operands must be two numbers."@),
            }
        },
        TokenType::EqualEqual => Ok(ValueView::Bool(values_equal(lhs, rhs))),
        TokenType::BangEqual => Ok(ValueView::Bool(!values_equal(lhs, rhs))),
        _ => failure("Unknown binary operator."@),
    }
}

fn runtime_error(message: &str) -> (r: Result<LoxValue, RloxError>)
    ensures
        outcome(r) == failure(message@),
{
    Err(RloxError::RuntimeError(String::from_str(message)))
}

/// Applies a unary operator to its operand's value.
pub fn apply_unary(operator: TokenType, right: LoxValue) -> (r: Result<LoxValue, RloxError>)
    ensures
        outcome(r) == unary_result(operator, right@),
{
    match operator {
        TokenType::Minus => {
            if let LoxValue::Number(n) = right {
                Ok(LoxValue::Number(negate(n)))
            } else {
                runtime_error("Operand must be a number")
            }
        },
        TokenType::Bang => Ok(LoxValue::Bool(!right.is_truthy())),
        _ => runtime_error("Unknown unary operator."),
    }
}

/// Applies a binary operator to its operands' values.
pub fn apply_binary<A: Arithmetic>(
    arith: &A,
    operator: TokenType,
    lhs: LoxValue,
    rhs: LoxValue,
) -> (r: Result<LoxValue, RloxError>)
    requires
        determined(arith),
    ensures
        outcome(r) == binary_result(arith, operator, lhs@, rhs@),
{
    match operator {
        TokenType::Plus => match (lhs, rhs) {
            (LoxValue::Number(a), LoxValue::Number(b)) => Ok(
                LoxValue::Number(compute(arith, Operation::Add, a, b)),
            ),
            (LoxValue::String(a), LoxValue::String(b)) => Ok(
                LoxValue::String(a.concat(b.as_str())),
            ),
            _ => runtime_error("Operands must be two numbers or strings."),
        },
        TokenType::Minus => match (lhs, rhs) {
            (LoxValue::Number(a), LoxValue::Number(b)) => Ok(
                LoxValue::Number(compute(arith, Operation::Subtract, a, b)),
            ),
            _ => runtime_error("Operands must be two numbers."),
        },
        TokenType::Star => match (lhs, rhs) {
            (LoxValue::Number(a), LoxValue::Number(b)) => Ok(
                LoxValue::Number(compute(arith, Operation::Multiply, a, b)),
            ),
            _ => runtime_error("Operands must be two numbers."),
        },
        TokenType::Slash => match (lhs, rhs) {
            (LoxValue::Number(a), LoxValue::Number(b)) => {
                if number_is_zero(b) {
                    runtime_error("can not divided by zero")
                } else {
                    Ok(LoxValue::Number(compute(arith, Operation::Divide, a, b)))
                }
            },
            _ => runtime_error("Operands must be two numbers."),
        },
        TokenType::Greater => match (lhs, rhs) {
            (LoxValue::Number(a), LoxValue::Number(b)) => Ok(LoxValue::Bool(number_less(b, a))),
            _ => runtime_error("Operands must be two numbers."),
        },
        TokenType::GreaterEqual => match (lhs, rhs) {
            (LoxValue::Number(a), LoxValue::Number(b)) => Ok(
                LoxValue::Bool(number_less_or_equal(b, a)),
            ),
            _ => runtime_error("Operands must be two numbers."),
        },
        TokenType::Less => match (lhs, rhs) {
            (LoxValue::Number(a), LoxValue::Number(b)) => Ok(LoxValue::Bool(number_less(a, b))),
            _ => runtime_error("Operands must be two numbers."),
        },
        TokenType::LessEqual => match (lhs, rhs) {
            (LoxValue::Number(a), LoxValue::Number(b)) => Ok(
                LoxValue::Bool(number_less_or_equal(a, b)),
            ),
            _ => runtime_error("Operands must be two numbers."),
        },
        TokenType::EqualEqual => Ok(LoxValue::Bool(lhs == rhs)),
        TokenType::BangEqual => Ok(LoxValue::Bool(!(lhs == rhs))),
        _ => runtime_error("Unknown binary operator."),
    }
}

/// What evaluating an expression comes to: its value or the error that
/// stopped it, and the scopes afterwards.
pub ghost struct Evaluated {
    pub result: Result<ValueView, ErrorView>,
    pub scopes: Seq<Scope>,
}

/// The value of an expression in `scopes`.
///
/// Operands are evaluated from left to right, and the first that fails,
/// fails the expression. An assignment changes the innermost scope that binds
/// its target and has the assigned value. The condition of a ternary must be
/// a boolean; only the chosen branch is evaluated.
pub open spec fn evaluate<A: Arithmetic>(arith: &A, e: ExprView, scopes: Seq<Scope>) -> Evaluated
    decreases e,
{
    match e {
        ExprView::Literal { value } => Evaluated { result: Ok(literal_value(value)), scopes },
        ExprView::Grouping { expression } => evaluate(arith, *expression, scopes),
        ExprView::Variable { name } => Evaluated {
            result: match lookup(scopes, name.lexeme) {
                Some(value) => Ok(value),
                None => Err(undefined_variable(name.lexeme)),
            },
            scopes,
        },
        ExprView::Assignment { name, value } => {
            let right = evaluate(arith, *value, scopes);
            match right.result {
                Ok(v) => if lookup(right.scopes, name.lexeme) is Some {
                    Evaluated { result: Ok(v), scopes: assigned(right.scopes, name.lexeme, v) }
                } else {
                    Evaluated { result: Err(undefined_target(name.lexeme)), scopes: right.scopes }
                },
                Err(_) => right,
            }
        },
        ExprView::Unary { operator, right } => {
            let operand = evaluate(arith, *right, scopes);
            match operand.result {
                Ok(v) => Evaluated {
                    result: unary_result(operator.token_type, v),
                    scopes: operand.scopes,
                },
                Err(_) => operand,
            }
        },
        ExprView::Binary { left, operator, right } => {
            let first = evaluate(arith, *left, scopes);
            match first.result {
                Ok(lhs) => {
                    let second = evaluate(arith, *right, first.scopes);
                    match second.result {
                        Ok(rhs) => Evaluated {
                            result: binary_result(arith, operator.token_type, lhs, rhs),
                            scopes: second.scopes,
                        },
                        Err(_) => second,
                    }
                },
                Err(_) => first,
            }
        },
        ExprView::Ternary { condition, truepart, falsepart } => {
            let chosen = evaluate(arith, *condition, scopes);
            match chosen.result {
                Ok(ValueView::Bool(b)) => if b {
                    evaluate(arith, *truepart, chosen.scopes)
                } else {
                    evaluate(arith, *falsepart, chosen.scopes)
                },
                Ok(_) => Evaluated {
                    result: failure("invalid ternary expression"@),
                    scopes: chosen.scopes,
                },
                Err(_) => chosen,
            }
        },
    }
}

/// What running a statement comes to: the error that stopped it, if one
/// did, the scopes afterwards, and the lines it printed.
pub ghost struct Ran {
    pub error: Option<ErrorView>,
    pub scopes: Seq<Scope>,
    pub output: Seq<Seq<char>>,
}

/// The error of a block inside more blocks than can be counted.
pub open spec fn too_deep() -> ErrorView {
    ErrorView::RuntimeError("Too many nested blocks."@)
}

/// The effect of a statement in `scopes`.
///
/// A block runs in a scope of its own, which is left again however the
/// block ends. A run of statements stops at the first that fails.
pub open spec fn run<A: Arithmetic>(arith: &A, s: StmtView, scopes: Seq<Scope>) -> Ran
    decreases s, 0nat,
{
    match s {
        StmtView::Expression(e) => {
            let value = evaluate(arith, e, scopes);
            Ran {
                error: match value.result {
                    Ok(_) => None,
                    Err(error) => Some(error),
                },
                scopes: value.scopes,
                output: Seq::empty(),
            }
        },
        StmtView::Print(e) => {
            let value = evaluate(arith, e, scopes);
            match value.result {
                Ok(v) => Ran { error: None, scopes: value.scopes, output: seq![shown(arith, v)] },
                Err(error) => Ran {
                    error: Some(error),
                    scopes: value.scopes,
                    output: Seq::empty(),
                },
            }
        },
        StmtView::Var(name, initializer) => match initializer {
            Some(e) => {
                let value = evaluate(arith, e, scopes);
                match value.result {
                    Ok(v) => Ran {
                        error: None,
                        scopes: defined(value.scopes, name.lexeme, v),
                        output: Seq::empty(),
                    },
                    Err(error) => Ran {
                        error: Some(error),
                        scopes: value.scopes,
                        output: Seq::empty(),
                    },
                }
            },
            None => Ran {
                error: None,
                scopes: defined(scopes, name.lexeme, ValueView::Nil),
                output: Seq::empty(),
            },
        },
        StmtView::Block(statements) => if scopes.len() >= usize::MAX {
            Ran { error: Some(too_deep()), scopes, output: Seq::empty() }
        } else {
            let inside = run_from(arith, statements, 0, entered(scopes));
            Ran { error: inside.error, scopes: exited(inside.scopes), output: inside.output }
        },
        StmtView::Program(declarations) => run_from(arith, declarations, 0, scopes),
    }
}

/// The effect of the statements from the `from`-th on, in order.
pub open spec fn run_from<A: Arithmetic>(
    arith: &A,
    statements: Seq<StmtView>,
    from: int,
    scopes: Seq<Scope>,
) -> Ran
    decreases statements, statements.len() - from,
{
    if 0 <= from < statements.len() {
        let first = run(arith, statements[from], scopes);
        if first.error is Some {
            first
        } else {
            let rest = run_from(arith, statements, from + 1, first.scopes);
            Ran { error: rest.error, scopes: rest.scopes, output: first.output + rest.output }
        }
    } else {
        Ran { error: None, scopes, output: Seq::empty() }
    }
}

/// The views of some lines of text.
pub open spec fn lines(texts: Seq<String>) -> Seq<Seq<char>> {
    Seq::new(texts.len(), |i: int| texts[i]@)
}

/// The state of an interpreter.
pub ghost struct InterpreterView {
    pub had_error: bool,
    pub scopes: Seq<Scope>,
    /// The lines printed so far.
    pub output: Seq<Seq<char>>,
    /// The errors reported so far.
    pub diagnostics: Seq<ErrorView>,
}

/// The evaluator: the scopes of the running program, what it has printed
/// and what has gone wrong.
#[derive(Debug)]
pub struct Interpreter<A: Arithmetic> {
    pub had_error: bool,
    pub environment: Environment,
    output: Vec<String>,
    diagnostics: Vec<RloxError>,
    arith: A,
}

impl<A: Arithmetic> View for Interpreter<A> {
    type V = InterpreterView;

    closed spec fn view(&self) -> InterpreterView {
        InterpreterView {
            had_error: self.had_error,
            scopes: self.environment@,
            output: lines(self.output@),
            diagnostics: error_views(self.diagnostics@),
        }
    }
}

/// The error of a statement that failed, seen through its view.
pub open spec fn unit_outcome(r: Result<(), RloxError>) -> Option<ErrorView> {
    match r {
        Ok(_) => None,
        Err(e) => Some(e@),
    }
}

impl<A: Arithmetic> Interpreter<A> {
    /// The arithmetic that this interpreter computes with.
    pub closed spec fn arithmetic(&self) -> &A {
        &self.arith
    }

    /// The scopes are well formed.
    pub closed spec fn wf(&self) -> bool {
        &&& self.environment.wf()
        &&& determined(&self.arith)
    }

    /// An interpreter with an empty global scope, that has printed and
    /// reported nothing.
    pub fn new(arith: A) -> (r: Self)
        requires
            determined(&arith),
        ensures
            r.wf(),
            *r.arithmetic() == arith,
            r@ == (InterpreterView {
                had_error: false,
                scopes: seq![Scope::empty()],
                output: Seq::empty(),
                diagnostics: Seq::empty(),
            }),
    {
        let r = Self {
            had_error: false,
            environment: Environment::new(),
            output: Vec::new(),
            diagnostics: Vec::new(),
            arith,
        };
        assert(lines(r.output@) =~= Seq::empty());
        assert(error_views(r.diagnostics@) =~= Seq::empty());
        r
    }

    /// The lines printed so far.
    pub fn output(&self) -> (r: &Vec<String>)
        ensures
            lines(r@) == self@.output,
    {
        &self.output
    }

    /// The errors reported so far.
    pub fn diagnostics(&self) -> (r: &Vec<RloxError>)
        ensures
            error_views(r@) == self@.diagnostics,
    {
        &self.diagnostics
    }

    /// The arithmetic that this interpreter computes with.
    pub fn backend(&self) -> (r: &A)
        requires
            self.wf(),
        ensures
            r == self.arithmetic(),
            determined(r),
    {
        &self.arith
    }

    /// Adds an error to those reported.
    pub fn report(&mut self, error: RloxError)
        requires
            old(self).wf(),
        ensures
            final(self).wf(),
            final(self).arithmetic() == old(self).arithmetic(),
            final(self)@ == (InterpreterView {
                diagnostics: old(self)@.diagnostics.push(error@),
                ..old(self)@
            }),
    {
        let ghost before = self@.diagnostics;
        self.diagnostics.push(error);
        assert(self@.diagnostics =~= before.push(error@));
    }

    /// Hands out the lines printed so far, and forgets them.
    pub fn take_output(&mut self) -> (r: Vec<String>)
        requires
            old(self).wf(),
        ensures
            final(self).wf(),
            final(self).arithmetic() == old(self).arithmetic(),
            lines(r@) == old(self)@.output,
            final(self)@ == (InterpreterView { output: Seq::empty(), ..old(self)@ }),
    {
        let mut taken: Vec<String> = Vec::new();
        std::mem::swap(&mut taken, &mut self.output);
        assert(lines(self.output@) =~= Seq::empty());
        taken
    }

    /// Hands out the errors reported so far, and forgets them.
    pub fn take_diagnostics(&mut self) -> (r: Vec<RloxError>)
        requires
            old(self).wf(),
        ensures
            final(self).wf(),
            final(self).arithmetic() == old(self).arithmetic(),
            error_views(r@) == old(self)@.diagnostics,
            final(self)@ == (InterpreterView { diagnostics: Seq::empty(), ..old(self)@ }),
    {
        let mut taken: Vec<RloxError> = Vec::new();
        std::mem::swap(&mut taken, &mut self.diagnostics);
        assert(error_views(self.diagnostics@) =~= Seq::empty());
        taken
    }

    /// Runs a program. Anything but a program is refused and sets the
    /// error flag. A program runs up to its first statement that fails, whose
    /// error is reported.
    pub fn interpret(&mut self, program: Stmt)
        requires
            old(self).wf(),
        ensures
            final(self).wf(),
            final(self).arithmetic() == old(self).arithmetic(),
            match program@ {
                StmtView::Program(_) => {
                    let ran = run(old(self).arithmetic(), program@, old(self)@.scopes);
                    final(self)@ == (InterpreterView {
                        had_error: false,
                        scopes: ran.scopes,
                        output: old(self)@.output + ran.output,
                        diagnostics: old(self)@.diagnostics + optional_error(ran.error),
                    })
                },
                _ => final(self)@ == (InterpreterView {
                    had_error: true,
                    output: old(self)@.output.push("Input is not a valid program!"@),
                    ..old(self)@
                }),
            },
    {
        let ghost before = self@;
        self.had_error = false;
        if let Stmt::Program(_) = program {
            match self.execute(&program) {
                Ok(_) => {
                    proof {
                        assert(before.diagnostics + Seq::<ErrorView>::empty()
                            =~= before.diagnostics);
                    }
                },
                Err(e) => {
                    self.diagnostics.push(e);
                    proof {
                        assert(self@.diagnostics =~= before.diagnostics + seq![e@]);
                    }
                },
            }
        } else {
            self.output.push(String::from_str("Input is not a valid program!"));
            self.had_error = true;
            proof {
                assert(self@.output =~= before.output.push("Input is not a valid program!"@));
            }
        }
    }

    /// Evaluates an expression in the current scopes.
    pub fn evaluate(&mut self, expr: &Expr) -> (r: Result<LoxValue, RloxError>)
        requires
            old(self).wf(),
        ensures
            final(self).wf(),
            final(self).arithmetic() == old(self).arithmetic(),
            ({
                let value = evaluate(old(self).arithmetic(), expr@, old(self)@.scopes);
                &&& outcome(r) == value.result
                &&& final(self)@ == (InterpreterView { scopes: value.scopes, ..old(self)@ })
                &&& value.scopes.len() == old(self)@.scopes.len()
            }),
        decreases expr,
    {
        match expr {
            Expr::Literal { value } => Ok(LoxValue::of_literal(value)),
            Expr::Grouping { expression } => self.evaluate(expression),
            Expr::Variable { name } => self.environment.get(name),
            Expr::Assignment { name, value } => {
                let value = match self.evaluate(value) {
                    Ok(v) => v,
                    Err(e) => {
                        return Err(e);
                    },
                };
                proof {
                    law_assignment(self.environment@, name@.lexeme, value@);
                }
                match self.environment.assign(name, value.clone()) {
                    Ok(_) => Ok(value),
                    Err(e) => Err(e),
                }
            },
            Expr::Unary { operator, right } => {
                match self.evaluate(right) {
                    Ok(v) => apply_unary(operator.token_type, v),
                    Err(e) => Err(e),
                }
            },
            Expr::Binary { left, operator, right } => {
                let lhs = match self.evaluate(left) {
                    Ok(v) => v,
                    Err(e) => {
                        return Err(e);
                    },
                };
                let rhs = match self.evaluate(right) {
                    Ok(v) => v,
                    Err(e) => {
                        return Err(e);
                    },
                };
                apply_binary(&self.arith, operator.token_type, lhs, rhs)
            },
            Expr::Ternary { condition, truepart, falsepart } => {
                let chosen = match self.evaluate(condition) {
                    Ok(v) => v,
                    Err(e) => {
                        return Err(e);
                    },
                };
                match chosen {
                    LoxValue::Bool(b) => {
                        if b {
                            self.evaluate(truepart)
                        } else {
                            self.evaluate(falsepart)
                        }
                    },
                    _ => runtime_error("invalid ternary expression"),
                }
            },
        }
    }

    /// Runs a statement in the current scopes.
    pub fn execute(&mut self, stmt: &Stmt) -> (r: Result<(), RloxError>)
        requires
            old(self).wf(),
        ensures
            final(self).wf(),
            final(self).arithmetic() == old(self).arithmetic(),
            ({
                let ran = run(old(self).arithmetic(), stmt@, old(self)@.scopes);
                &&& unit_outcome(r) == ran.error
                &&& final(self)@ == (InterpreterView {
                    scopes: ran.scopes,
                    output: old(self)@.output + ran.output,
                    ..old(self)@
                })
                &&& ran.scopes.len() == old(self)@.scopes.len()
            }),
        decreases stmt, 0nat,
    {
        let ghost before = self@;
        proof {
            assert(before.output + Seq::<Seq<char>>::empty() =~= before.output);
            self.environment.lemma_global_scope();
        }
        match stmt {
            Stmt::Expression(e) => {
                match self.evaluate(e) {
                    Ok(_) => Ok(()),
                    Err(e) => Err(e),
                }
            },
            Stmt::Print(e) => {
                match self.evaluate(e) {
                    Ok(v) => {
                        let line = v.text(&self.arith);
                        self.output.push(line);
                        proof {
                            assert(self@.output =~= before.output + seq![line@]);
                        }
                        Ok(())
                    },
                    Err(e) => Err(e),
                }
            },
            Stmt::Var(name, initializer) => {
                let value = match initializer {
                    Some(e) => match self.evaluate(e) {
                        Ok(v) => v,
                        Err(e) => {
                            return Err(e);
                        },
                    },
                    None => LoxValue::Nil,
                };
                self.environment.define(name.lexeme.as_str(), value);
                Ok(())
            },
            Stmt::Block(statements) => {
                proof {
                    lemma_block_view(*statements);
                }
                if self.environment.depth() == usize::MAX {
                    return Err(RloxError::RuntimeError(String::from_str("Too many nested blocks.")));
                }
                self.environment.enter_scope();
                let result = self.execute_all(statements);
                let left = self.environment.exit_scope();
                assert(left is Ok);
                result
            },
            Stmt::Program(declarations) => {
                proof {
                    lemma_block_view(*declarations);
                }
                self.execute_all(declarations)
            },
        }
    }

    /// Runs statements in order, up to the first that fails.
    fn execute_all(&mut self, statements: &Vec<Stmt>) -> (r: Result<(), RloxError>)
        requires
            old(self).wf(),
        ensures
            final(self).wf(),
            final(self).arithmetic() == old(self).arithmetic(),
            ({
                let ran = run_from(
                    old(self).arithmetic(),
                    stmt_views(statements@),
                    0,
                    old(self)@.scopes,
                );
                &&& unit_outcome(r) == ran.error
                &&& final(self)@ == (InterpreterView {
                    scopes: ran.scopes,
                    output: old(self)@.output + ran.output,
                    ..old(self)@
                })
                &&& ran.scopes.len() == old(self)@.scopes.len()
            }),
        decreases statements, 1nat,
    {
        let ghost before = self@;
        let ghost views = stmt_views(statements@);
        let ghost total = run_from(&self.arith, views, 0, before.scopes);
        let ghost mut printed: Seq<Seq<char>> = Seq::empty();
        proof {
            assert(before.output + printed =~= before.output);
            assert(printed + total.output =~= total.output);
        }
        let mut i: usize = 0;
        while i < statements.len()
            invariant
                i <= statements.len(),
                self.wf(),
                self.arith == old(self).arith,
                before == old(self)@,
                views == stmt_views(statements@),
                total == run_from(&self.arith, views, 0, before.scopes),
                self@ == (InterpreterView {
                    scopes: self@.scopes,
                    output: before.output + printed,
                    ..before
                }),
                self@.scopes.len() == before.scopes.len(),
                ({
                    let rest = run_from(&self.arith, views, i as int, self@.scopes);
                    &&& total.error == rest.error
                    &&& total.scopes == rest.scopes
                    &&& total.output == printed + rest.output
                }),
            decreases statements.len() - i,
        {
            let ghost here = self@;
            let ghost first = run(&self.arith, views[i as int], here.scopes);
            let result = self.execute(&statements[i]);
            proof {
                assert((before.output + printed) + first.output =~= before.output + (printed
                    + first.output));
                assert forall|more: Seq<Seq<char>>|
                    printed + (first.output + more) =~= (printed + first.output) + more by {}
                printed = printed + first.output;
            }
            match result {
                Ok(_) => {},
                Err(e) => {
                    return Err(e);
                },
            }
            i += 1;
        }
        proof {
            assert(printed + Seq::<Seq<char>>::empty() =~= printed);
        }
        Ok(())
    }
}

/// A sequence of none or one error.
pub open spec fn optional_error(error: Option<ErrorView>) -> Seq<ErrorView> {
    match error {
        Some(e) => seq![e],
        None => Seq::empty(),
    }
}

/// Dividing a number by zero, positive or negative, is an error: no
/// quotient is computed, so none is infinite or not a number.
pub proof fn law_division_by_zero<A: Arithmetic>(arith: &A, x: u64, zero: u64)
    requires
        is_zero(zero),
    ensures
        binary_result(arith, TokenType::Slash, ValueView::Number(x), ValueView::Number(zero))
            == failure("can not divided by zero"@),
{
}

/// Whether two values are of the same kind.
pub open spec fn same_kind(a: ValueView, b: ValueView) -> bool {
    match (a, b) {
        (ValueView::String(_), ValueView::String(_)) => true,
        (ValueView::Number(_), ValueView::Number(_)) => true,
        (ValueView::Bool(_), ValueView::Bool(_)) => true,
        (ValueView::Nil, ValueView::Nil) => true,
        _ => false,
    }
}

/// `==` and `!=` take any two values and never fail. They contradict each
/// other, and values of different kinds are unequal.
pub proof fn law_equality_never_fails<A: Arithmetic>(arith: &A, lhs: ValueView, rhs: ValueView)
    ensures
        binary_result(arith, TokenType::EqualEqual, lhs, rhs) == Ok::<ValueView, ErrorView>(
            ValueView::Bool(values_equal(lhs, rhs)),
        ),
        binary_result(arith, TokenType::BangEqual, lhs, rhs) == Ok::<ValueView, ErrorView>(
            ValueView::Bool(!values_equal(lhs, rhs)),
        ),
        !same_kind(lhs, rhs) ==> !values_equal(lhs, rhs),
{
}

/// `+` joins two strings and adds two numbers; any other pair of operands
/// is an error.
pub proof fn law_plus<A: Arithmetic>(arith: &A, lhs: ValueView, rhs: ValueView)
    ensures
        match (lhs, rhs) {
            (ValueView::String(a), ValueView::String(b)) => binary_result(
                arith,
                TokenType::Plus,
                lhs,
                rhs,
            ) == Ok::<ValueView, ErrorView>(ValueView::String(a + b)),
            (ValueView::Number(a), ValueView::Number(b)) => binary_result(
                arith,
                TokenType::Plus,
                lhs,
                rhs,
            ) is Ok,
            _ => binary_result(arith, TokenType::Plus, lhs, rhs) == failure(
                "Operands must be two numbers or strings."@,
            ),
        },
{
}

/// A ternary has the value of the branch that its condition chooses,
/// whatever the kind of that value, and the other branch is not evaluated. A
/// condition that is no boolean is an error, truthy or not.
pub proof fn law_ternary<A: Arithmetic>(
    arith: &A,
    condition: ExprView,
    truepart: ExprView,
    falsepart: ExprView,
    scopes: Seq<Scope>,
)
    ensures
        ({
            let whole = evaluate(
                arith,
                ExprView::Ternary {
                    condition: Box::new(condition),
                    truepart: Box::new(truepart),
                    falsepart: Box::new(falsepart),
                },
                scopes,
            );
            let chosen = evaluate(arith, condition, scopes);
            match chosen.result {
                Ok(ValueView::Bool(true)) => whole == evaluate(arith, truepart, chosen.scopes),
                Ok(ValueView::Bool(false)) => whole == evaluate(arith, falsepart, chosen.scopes),
                Ok(_) => whole == (Evaluated {
                    result: failure("invalid ternary expression"@),
                    scopes: chosen.scopes,
                }),
                Err(_) => whole == chosen,
            }
        }),
{
}

/// Evaluating an expression binds no name that was not bound, and unbinds
/// none.
pub proof fn law_evaluation_binds_nothing<A: Arithmetic>(
    arith: &A,
    e: ExprView,
    scopes: Seq<Scope>,
    name: Seq<char>,
)
    ensures
        lookup(evaluate(arith, e, scopes).scopes, name) is Some <==> lookup(scopes, name) is Some,
    decreases e,
{
    match e {
        ExprView::Literal { value } => {},
        ExprView::Grouping { expression } => {
            law_evaluation_binds_nothing(arith, *expression, scopes, name);
        },
        ExprView::Variable { name: _ } => {},
        ExprView::Assignment { name: target, value } => {
            law_evaluation_binds_nothing(arith, *value, scopes, name);
            let right = evaluate(arith, *value, scopes);
            if let Ok(v) = right.result {
                law_assignment_binds_nothing(right.scopes, target.lexeme, v, name);
            }
        },
        ExprView::Unary { operator, right } => {
            law_evaluation_binds_nothing(arith, *right, scopes, name);
        },
        ExprView::Binary { left, operator, right } => {
            law_evaluation_binds_nothing(arith, *left, scopes, name);
            law_evaluation_binds_nothing(
                arith,
                *right,
                evaluate(arith, *left, scopes).scopes,
                name,
            );
        },
        ExprView::Ternary { condition, truepart, falsepart } => {
            law_evaluation_binds_nothing(arith, *condition, scopes, name);
            let chosen = evaluate(arith, *condition, scopes);
            law_evaluation_binds_nothing(arith, *truepart, chosen.scopes, name);
            law_evaluation_binds_nothing(arith, *falsepart, chosen.scopes, name);
        },
    }
}

/// Assigning to a name that no scope binds is a runtime error, whatever is
/// assigned: the error of the assigned expression if that fails, and else the
/// error of the undefined target. The scopes are left as the assigned
/// expression left them.
pub proof fn law_undeclared_assignment<A: Arithmetic>(
    arith: &A,
    name: TokenView,
    value: ExprView,
    scopes: Seq<Scope>,
)
    requires
        lookup(scopes, name.lexeme) is None,
    ensures
        ({
            let whole = evaluate(
                arith,
                ExprView::Assignment { name, value: Box::new(value) },
                scopes,
            );
            let right = evaluate(arith, value, scopes);
            &&& whole.scopes == right.scopes
            &&& whole.result is Err
            &&& whole.result->Err_0 is RuntimeError
            &&& right.result is Ok ==> whole.result->Err_0 == undefined_target(name.lexeme)
        }),
{
    law_evaluation_binds_nothing(arith, value, scopes, name.lexeme);
    law_evaluation_fails_at_run_time(arith, value, scopes);
}

/// Evaluating an expression adds and removes no scope.
pub proof fn law_evaluation_keeps_depth<A: Arithmetic>(arith: &A, e: ExprView, scopes: Seq<Scope>)
    ensures
        evaluate(arith, e, scopes).scopes.len() == scopes.len(),
    decreases e,
{
    match e {
        ExprView::Literal { value } => {},
        ExprView::Grouping { expression } => {
            law_evaluation_keeps_depth(arith, *expression, scopes);
        },
        ExprView::Variable { name } => {},
        ExprView::Assignment { name, value } => {
            law_evaluation_keeps_depth(arith, *value, scopes);
            let right = evaluate(arith, *value, scopes);
            if let Ok(v) = right.result {
                law_assignment(right.scopes, name.lexeme, v);
            }
        },
        ExprView::Unary { operator, right } => {
            law_evaluation_keeps_depth(arith, *right, scopes);
        },
        ExprView::Binary { left, operator, right } => {
            law_evaluation_keeps_depth(arith, *left, scopes);
            law_evaluation_keeps_depth(arith, *right, evaluate(arith, *left, scopes).scopes);
        },
        ExprView::Ternary { condition, truepart, falsepart } => {
            law_evaluation_keeps_depth(arith, *condition, scopes);
            let chosen = evaluate(arith, *condition, scopes);
            law_evaluation_keeps_depth(arith, *truepart, chosen.scopes);
            law_evaluation_keeps_depth(arith, *falsepart, chosen.scopes);
        },
    }
}

/// Running a statement adds and removes no scope, whether it fails or not:
/// every block that was entered has been left. So the global scope is never
/// left.
pub proof fn law_run_keeps_depth<A: Arithmetic>(arith: &A, s: StmtView, scopes: Seq<Scope>)
    requires
        scopes.len() >= 1,
    ensures
        run(arith, s, scopes).scopes.len() == scopes.len(),
    decreases s, 0nat,
{
    match s {
        StmtView::Expression(e) => {
            law_evaluation_keeps_depth(arith, e, scopes);
        },
        StmtView::Print(e) => {
            law_evaluation_keeps_depth(arith, e, scopes);
        },
        StmtView::Var(name, initializer) => {
            if let Some(e) = initializer {
                law_evaluation_keeps_depth(arith, e, scopes);
            }
        },
        StmtView::Block(statements) => {
            if scopes.len() < usize::MAX {
                law_run_from_keeps_depth(arith, statements, 0, entered(scopes));
            }
        },
        StmtView::Program(declarations) => {
            law_run_from_keeps_depth(arith, declarations, 0, scopes);
        },
    }
}

/// Running statements in a row adds and removes no scope.
pub proof fn law_run_from_keeps_depth<A: Arithmetic>(
    arith: &A,
    statements: Seq<StmtView>,
    from: int,
    scopes: Seq<Scope>,
)
    requires
        scopes.len() >= 1,
    ensures
        run_from(arith, statements, from, scopes).scopes.len() == scopes.len(),
    decreases statements, statements.len() - from,
{
    if 0 <= from < statements.len() {
        law_run_keeps_depth(arith, statements[from], scopes);
        let first = run(arith, statements[from], scopes);
        if first.error is None {
            law_run_from_keeps_depth(arith, statements, from + 1, first.scopes);
        }
    }
}

/// Whether an expression is made of numbers, parentheses and the four
/// arithmetic operators alone.
pub open spec fn is_arithmetic(e: ExprView) -> bool
    decreases e,
{
    match e {
        ExprView::Literal { value } => value is Number,
        ExprView::Grouping { expression } => is_arithmetic(*expression),
        ExprView::Binary { left, operator, right } => {
            &&& operator.token_type == TokenType::Plus || operator.token_type == TokenType::Minus
                || operator.token_type == TokenType::Star || operator.token_type
                == TokenType::Slash
            &&& is_arithmetic(*left)
            &&& is_arithmetic(*right)
        },
        _ => false,
    }
}

/// The number that an arithmetic expression comes to: every operator
/// applied once to the numbers of its two operands, the left one first. There
/// is none where a divisor is zero.
pub open spec fn arithmetic_value<A: Arithmetic>(arith: &A, e: ExprView) -> Option<u64>
    decreases e,
{
    match e {
        ExprView::Literal { value: LiteralView::Number(n) } => Some(n),
        ExprView::Grouping { expression } => arithmetic_value(arith, *expression),
        ExprView::Binary { left, operator, right } => match arithmetic_value(arith, *left) {
            Some(a) => match arithmetic_value(arith, *right) {
                Some(b) => if operator.token_type == TokenType::Slash && is_zero(b) {
                    None
                } else {
                    Some(calculated(arith, operation_of(operator.token_type), a, b))
                },
                None => None,
            },
            None => None,
        },
        _ => None,
    }
}

/// An arithmetic expression evaluates to the number that the arithmetic
/// computes for it, in any scopes and without changing them. It fails only by
/// a division by zero, never by the kind of an operand.
pub proof fn law_arithmetic<A: Arithmetic>(arith: &A, e: ExprView, scopes: Seq<Scope>)
    requires
        is_arithmetic(e),
    ensures
        evaluate(arith, e, scopes).scopes == scopes,
        evaluate(arith, e, scopes).result == match arithmetic_value(arith, e) {
            Some(x) => Ok::<ValueView, ErrorView>(ValueView::Number(x)),
            None => failure("can not divided by zero"@),
        },
    decreases e,
{
    match e {
        ExprView::Grouping { expression } => {
            law_arithmetic(arith, *expression, scopes);
        },
        ExprView::Binary { left, operator, right } => {
            law_arithmetic(arith, *left, scopes);
            law_arithmetic(arith, *right, scopes);
        },
        _ => {},
    }
}

/// An expression fails with a runtime error, never with another kind.
pub proof fn law_evaluation_fails_at_run_time<A: Arithmetic>(
    arith: &A,
    e: ExprView,
    scopes: Seq<Scope>,
)
    ensures
        match evaluate(arith, e, scopes).result {
            Ok(_) => true,
            Err(error) => error is RuntimeError,
        },
    decreases e,
{
    match e {
        ExprView::Literal { value } => {},
        ExprView::Grouping { expression } => {
            law_evaluation_fails_at_run_time(arith, *expression, scopes);
        },
        ExprView::Variable { name } => {},
        ExprView::Assignment { name, value } => {
            law_evaluation_fails_at_run_time(arith, *value, scopes);
        },
        ExprView::Unary { operator, right } => {
            law_evaluation_fails_at_run_time(arith, *right, scopes);
        },
        ExprView::Binary { left, operator, right } => {
            law_evaluation_fails_at_run_time(arith, *left, scopes);
            law_evaluation_fails_at_run_time(arith, *right, evaluate(arith, *left, scopes).scopes);
        },
        ExprView::Ternary { condition, truepart, falsepart } => {
            law_evaluation_fails_at_run_time(arith, *condition, scopes);
            let chosen = evaluate(arith, *condition, scopes);
            law_evaluation_fails_at_run_time(arith, *truepart, chosen.scopes);
            law_evaluation_fails_at_run_time(arith, *falsepart, chosen.scopes);
        },
    }
}

/// A statement fails with a runtime error, never with another kind: no
/// program can break the interpreter's own invariants.
pub proof fn law_run_fails_at_run_time<A: Arithmetic>(arith: &A, s: StmtView, scopes: Seq<Scope>)
    ensures
        match run(arith, s, scopes).error {
            None => true,
            Some(error) => error is RuntimeError,
        },
    decreases s, 0nat,
{
    match s {
        StmtView::Expression(e) => {
            law_evaluation_fails_at_run_time(arith, e, scopes);
        },
        StmtView::Print(e) => {
            law_evaluation_fails_at_run_time(arith, e, scopes);
        },
        StmtView::Var(name, initializer) => {
            if let Some(e) = initializer {
                law_evaluation_fails_at_run_time(arith, e, scopes);
            }
        },
        StmtView::Block(statements) => {
            law_run_from_fails_at_run_time(arith, statements, 0, entered(scopes));
        },
        StmtView::Program(declarations) => {
            law_run_from_fails_at_run_time(arith, declarations, 0, scopes);
        },
    }
}

/// Statements in a row fail with a runtime error, never with another kind.
pub proof fn law_run_from_fails_at_run_time<A: Arithmetic>(
    arith: &A,
    statements: Seq<StmtView>,
    from: int,
    scopes: Seq<Scope>,
)
    ensures
        match run_from(arith, statements, from, scopes).error {
            None => true,
            Some(error) => error is RuntimeError,
        },
    decreases statements, statements.len() - from,
{
    if 0 <= from < statements.len() {
        law_run_fails_at_run_time(arith, statements[from], scopes);
        let first = run(arith, statements[from], scopes);
        if first.error is None {
            law_run_from_fails_at_run_time(arith, statements, from + 1, first.scopes);
        }
    }
}

/// A scope that binds a name shields the scopes around it from whatever an
/// expression does: their bindings of the name stay as they were, and the
/// scope goes on binding it.
pub proof fn law_evaluation_below<A: Arithmetic>(
    arith: &A,
    e: ExprView,
    scopes: Seq<Scope>,
    at: int,
    name: Seq<char>,
)
    requires
        0 <= at < scopes.len(),
        scopes[at].contains_key(name),
    ensures
        shadowed_below(scopes, evaluate(arith, e, scopes).scopes, at, name),
    decreases e,
{
    match e {
        ExprView::Literal { value } => {},
        ExprView::Grouping { expression } => {
            law_evaluation_below(arith, *expression, scopes, at, name);
        },
        ExprView::Variable { name: _ } => {},
        ExprView::Assignment { name: target, value } => {
            law_evaluation_below(arith, *value, scopes, at, name);
            let right = evaluate(arith, *value, scopes);
            if let Ok(v) = right.result {
                law_assignment_below(right.scopes, target.lexeme, v, at, name);
                lemma_shadowed_chain(
                    scopes,
                    right.scopes,
                    assigned(right.scopes, target.lexeme, v),
                    at,
                    name,
                );
            }
        },
        ExprView::Unary { operator, right } => {
            law_evaluation_below(arith, *right, scopes, at, name);
        },
        ExprView::Binary { left, operator, right } => {
            law_evaluation_below(arith, *left, scopes, at, name);
            let first = evaluate(arith, *left, scopes);
            law_evaluation_below(arith, *right, first.scopes, at, name);
            lemma_shadowed_chain(
                scopes,
                first.scopes,
                evaluate(arith, *right, first.scopes).scopes,
                at,
                name,
            );
        },
        ExprView::Ternary { condition, truepart, falsepart } => {
            law_evaluation_below(arith, *condition, scopes, at, name);
            let chosen = evaluate(arith, *condition, scopes);
            law_evaluation_below(arith, *truepart, chosen.scopes, at, name);
            law_evaluation_below(arith, *falsepart, chosen.scopes, at, name);
            lemma_shadowed_chain(
                scopes,
                chosen.scopes,
                evaluate(arith, *truepart, chosen.scopes).scopes,
                at,
                name,
            );
            lemma_shadowed_chain(
                scopes,
                chosen.scopes,
                evaluate(arith, *falsepart, chosen.scopes).scopes,
                at,
                name,
            );
        },
    }
}

/// A variable shadows the variables of its name in the scopes around it.
/// Once a scope binds the name, no statement changes what the scopes around
/// it bind to the name, whether it declares, assigns, opens blocks or fails:
/// after it they agree on the name with what they were.
pub proof fn law_shadowed_stays<A: Arithmetic>(
    arith: &A,
    s: StmtView,
    scopes: Seq<Scope>,
    at: int,
    name: Seq<char>,
)
    requires
        0 <= at < scopes.len(),
        scopes[at].contains_key(name),
    ensures
        shadowed_below(scopes, run(arith, s, scopes).scopes, at, name),
    decreases s, 0nat,
{
    match s {
        StmtView::Expression(e) => {
            law_evaluation_below(arith, e, scopes, at, name);
        },
        StmtView::Print(e) => {
            law_evaluation_below(arith, e, scopes, at, name);
        },
        StmtView::Var(declared, initializer) => {
            if let Some(e) = initializer {
                law_evaluation_below(arith, e, scopes, at, name);
            }
        },
        StmtView::Block(statements) => {
            if scopes.len() < usize::MAX {
                let inside = entered(scopes);
                law_run_from_shadowed_stays(arith, statements, 0, inside, at, name);
                let after = run_from(arith, statements, 0, inside).scopes;
                assert forall|j: int| 0 <= j < at implies same_binding(
                    #[trigger] exited(after)[j],
                    scopes[j],
                    name,
                ) by {
                    assert(same_binding(after[j], inside[j], name));
                }
            }
        },
        StmtView::Program(declarations) => {
            law_run_from_shadowed_stays(arith, declarations, 0, scopes, at, name);
        },
    }
}

/// The same of statements in a row.
pub proof fn law_run_from_shadowed_stays<A: Arithmetic>(
    arith: &A,
    statements: Seq<StmtView>,
    from: int,
    scopes: Seq<Scope>,
    at: int,
    name: Seq<char>,
)
    requires
        0 <= at < scopes.len(),
        scopes[at].contains_key(name),
    ensures
        shadowed_below(scopes, run_from(arith, statements, from, scopes).scopes, at, name),
    decreases statements, statements.len() - from,
{
    if 0 <= from < statements.len() {
        law_shadowed_stays(arith, statements[from], scopes, at, name);
        let first = run(arith, statements[from], scopes);
        if first.error is None {
            law_run_from_shadowed_stays(arith, statements, from + 1, first.scopes, at, name);
            lemma_shadowed_chain(
                scopes,
                first.scopes,
                run_from(arith, statements, from + 1, first.scopes).scopes,
                at,
                name,
            );
        }
    }
}

} // verus!
