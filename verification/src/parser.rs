//! The parser: tokens to syntax trees, by recursive descent with one token
//! of lookahead.
//!
//! From the loosest to the tightest binding:
//!
//! ```text
//! program     := declaration* end
//! declaration := "var" IDENTIFIER ( "=" expression )? ";" | statement
//! statement   := "print" expression ";" | "{" declaration* "}" | expression ";"
//! expression  := assignment
//! assignment  := IDENTIFIER "=" assignment | ternary
//! ternary     := equality ( "?" expression ":" expression )?
//! equality    := comparison ( ( "!=" | "==" ) comparison )*
//! comparison  := term ( ( "<" | "<=" | ">" | ">=" ) term )*
//! term        := factor ( ( "+" | "-" ) factor )*
//! factor      := unary ( ( "*" | "/" ) unary )*
//! unary       := ( "!" | "-" ) unary | primary
//! primary     := NUMBER | STRING | "true" | "false" | "nil" | IDENTIFIER
//!              | "(" expression ")"
//! ```

use crate::arithmetic::Arithmetic;
use crate::arithmetic::determined;
use crate::arithmetic::is_digit_char;
use crate::arithmetic::is_numeral;
use crate::arithmetic::number_of;
use crate::arithmetic::read_number;
use crate::ast::expr::Expr;
use crate::ast::expr::ExprView;
use crate::ast::stmt::lemma_block_view;
use crate::ast::stmt::Stmt;
use crate::ast::stmt::stmt_views;
use crate::ast::stmt::StmtView;
use crate::error::error_views;
use crate::error::ErrorView;
use crate::error::RloxError;
use crate::scanner::lemma_numeral;
use crate::scanner::optional;
use crate::scanner::scan_from;
use crate::scanner::scan_step;
use crate::scanner::tokens_of;
use crate::text::characters;
use crate::text::string_of;
use crate::token::kind_name;
use crate::token::kind_text;
use crate::token::LiteralType;
use crate::token::LiteralView;
use crate::token::Token;
use crate::token::token_views;
use crate::token::TokenType;
use crate::token::TokenView;
use vstd::prelude::*;
use vstd::string::StringExecFns;

verus! {

/// What `unescape::unescape` makes of a text: the text with its backslash
/// sequences replaced by the characters they stand for, or nothing where a
/// sequence is malformed.
pub uninterp spec fn unescaped(text: Seq<char>) -> Option<Seq<char>>;

/// Decodes the backslash sequences of `text` with `unescape::unescape`,
/// whose result depends on the text alone.
#[verifier::external_body]
fn unescape_text(text: &str) -> (r: Option<String>)
    ensures
        match r {
            Some(decoded) => unescaped(text@) == Some(decoded@),
            None => unescaped(text@) is None,
        },
{
    unescape::unescape(text)
}

/// The kind of the token at `pos`. Past the tokens there is only their end.
pub open spec fn kind_at(ts: Seq<TokenView>, pos: int) -> TokenType {
    if 0 <= pos < ts.len() {
        ts[pos].token_type
    } else {
        TokenType::Eof
    }
}

/// What a parsing function makes of the tokens from some position on.
pub ghost struct Parsed<T> {
    /// The tree, or the error that stopped the function.
    pub result: Result<T, ErrorView>,
    /// How many tokens it took.
    pub used: nat,
    /// The errors it reported, the one that stopped it included.
    pub errors: Seq<ErrorView>,
}

/// A success that took `used` tokens and reported `errors`.
pub open spec fn done<T>(value: T, used: nat, errors: Seq<ErrorView>) -> Parsed<T> {
    Parsed { result: Ok(value), used, errors }
}

/// The syntax error that the token at `at` gives rise to.
pub open spec fn syntax_error(ts: Seq<TokenView>, at: int, message: Seq<char>) -> ErrorView {
    ErrorView::SyntaxError(ts[at].line, ts[at].lexeme, message)
}

/// A syntax error at the token after the `used` that were taken.
pub open spec fn failed<T>(
    ts: Seq<TokenView>,
    pos: int,
    used: nat,
    errors: Seq<ErrorView>,
    message: Seq<char>,
) -> Parsed<T> {
    Parsed {
        result: Err(syntax_error(ts, pos + used, message)),
        used,
        errors: errors.push(syntax_error(ts, pos + used, message)),
    }
}

/// The failure of a part, passed on by the whole after `used` tokens and
/// `errors` of its own.
pub open spec fn passed_on<T, U>(
    part: Parsed<T>,
    error: ErrorView,
    used: nat,
    errors: Seq<ErrorView>,
) -> Parsed<U> {
    Parsed { result: Err(error), used: used + part.used, errors: errors + part.errors }
}

/// `value`, if a token of `kind` comes after the `used` tokens taken so
/// far; that token is taken as well.
pub open spec fn closed_by<T>(
    ts: Seq<TokenView>,
    pos: int,
    used: nat,
    errors: Seq<ErrorView>,
    kind: TokenType,
    message: Seq<char>,
    value: T,
) -> Parsed<T> {
    if kind_at(ts, pos + used) == kind {
        done(value, used + 1, errors)
    } else {
        failed(ts, pos, used, errors, message)
    }
}

/// The message for a token that cannot begin an expression.
pub open spec fn unexpected(kind: TokenType) -> Seq<char> {
    "Unexpected token type: "@ + kind_name(kind) + "."@
}

/// The operators of the four levels of binary operators, from factors
/// (level 0) over terms and comparisons to equalities (level 3).
pub open spec fn is_operator_of(level: nat, kind: TokenType) -> bool {
    if level == 0 {
        kind == TokenType::Star || kind == TokenType::Slash
    } else if level == 1 {
        kind == TokenType::Plus || kind == TokenType::Minus
    } else if level == 2 {
        kind == TokenType::Less || kind == TokenType::LessEqual || kind == TokenType::Greater
            || kind == TokenType::GreaterEqual
    } else {
        kind == TokenType::BangEqual || kind == TokenType::EqualEqual
    }
}

/// A literal expression.
pub open spec fn literal(value: LiteralView) -> ExprView {
    ExprView::Literal { value }
}

/// The text of a string token between its quotes.
pub open spec fn between_quotes(lexeme: Seq<char>) -> Seq<char> {
    lexeme.subrange(1, lexeme.len() - 1)
}

/// The literal of a string whose text between the quotes is `raw`, and
/// the errors to report, given what decoding made of that text: the decoded
/// text, or the text as written and a lexical error where it was not decoded.
pub open spec fn string_literal_of(raw: Seq<char>, decoded: Option<Seq<char>>, line: usize) -> (
    LiteralView,
    Seq<ErrorView>,
) {
    match decoded {
        Some(text) => (LiteralView::String(text), Seq::empty()),
        None => (
            LiteralView::String(raw),
            seq![ErrorView::LexicalError(line, raw, "Invalid escape string sequence"@)],
        ),
    }
}

/// The literal of a string token on line `line`, and the error to report
/// if there is one, from the text between its quotes and what decoding made
/// of it.
pub fn string_literal(raw: String, decoded: Option<String>, line: usize) -> (r: (
    LiteralType,
    Option<RloxError>,
))
    ensures
        ({
            let made = string_literal_of(
                raw@,
                match decoded {
                    Some(text) => Some(text@),
                    None => None,
                },
                line,
            );
            &&& r.0@ == made.0
            &&& match r.1 {
                Some(e) => made.1 == seq![e@],
                None => made.1 == Seq::<ErrorView>::empty(),
            }
        }),
{
    match decoded {
        Some(text) => (LiteralType::String(text), None),
        None => {
            let error = RloxError::LexicalError(
                line,
                raw.clone(),
                String::from_str("Invalid escape string sequence"),
            );
            (LiteralType::String(raw), Some(error))
        },
    }
}

/// `primary := NUMBER | STRING | "true" | "false" | "nil" | IDENTIFIER | "(" expression ")"`
///
/// A number is read from its lexeme. A string is the text between its
/// quotes with the backslash sequences decoded; where they cannot be, that is
/// reported as a lexical error and the text stands as written.
pub open spec fn primary<A: Arithmetic>(arith: &A, ts: Seq<TokenView>, pos: int) -> Parsed<ExprView>
    decreases ts.len() - pos, 0nat,
{
    let kind = kind_at(ts, pos);
    if kind == TokenType::False {
        done(literal(LiteralView::Bool(false)), 1, Seq::empty())
    } else if kind == TokenType::True {
        done(literal(LiteralView::Bool(true)), 1, Seq::empty())
    } else if kind == TokenType::Nil {
        done(literal(LiteralView::Nil), 1, Seq::empty())
    } else if kind == TokenType::Number {
        done(literal(LiteralView::Number(number_of(arith, ts[pos].lexeme))), 1, Seq::empty())
    } else if kind == TokenType::String {
        let raw = between_quotes(ts[pos].lexeme);
        let made = string_literal_of(raw, unescaped(raw), ts[pos].line);
        done(literal(made.0), 1, made.1)
    } else if kind == TokenType::Identifier {
        done(ExprView::Variable { name: ts[pos] }, 1, Seq::empty())
    } else if kind == TokenType::LeftParen {
        let inner = expression(arith, ts, pos + 1);
        match inner.result {
            Ok(e) => closed_by(
                ts,
                pos,
                1 + inner.used,
                inner.errors,
                TokenType::RightParen,
                "Expect ')' after expression."@,
                ExprView::Grouping { expression: Box::new(e) },
            ),
            Err(error) => passed_on(inner, error, 1, Seq::empty()),
        }
    } else {
        failed(ts, pos, 0, Seq::empty(), unexpected(kind))
    }
}

/// `unary := ( "!" | "-" ) unary | primary`
pub open spec fn unary<A: Arithmetic>(arith: &A, ts: Seq<TokenView>, pos: int) -> Parsed<ExprView>
    decreases ts.len() - pos, 1nat,
{
    let kind = kind_at(ts, pos);
    if kind == TokenType::Bang || kind == TokenType::Minus {
        let right = unary(arith, ts, pos + 1);
        match right.result {
            Ok(e) => done(
                ExprView::Unary { operator: ts[pos], right: Box::new(e) },
                1 + right.used,
                right.errors,
            ),
            Err(error) => passed_on(right, error, 1, Seq::empty()),
        }
    } else {
        primary(arith, ts, pos)
    }
}

/// What follows the first operand of a level, `left`: none or more pairs
/// of an operator and an operand, each pair joined to what stands on its left.
pub open spec fn binary_rest<A: Arithmetic>(
    arith: &A,
    ts: Seq<TokenView>,
    pos: int,
    level: nat,
    left: ExprView,
) -> Parsed<ExprView>
    decreases ts.len() - pos, 2nat,
{
    if is_operator_of(level, kind_at(ts, pos)) {
        let right = if level == 0 {
            unary(arith, ts, pos + 1)
        } else {
            binary(arith, ts, pos + 1, (level - 1) as nat)
        };
        match right.result {
            Ok(e) => {
                let joined = ExprView::Binary {
                    left: Box::new(left),
                    operator: ts[pos],
                    right: Box::new(e),
                };
                let next = pos + 1 + right.used;
                // Nothing follows the last token.
                let rest = if next < ts.len() {
                    binary_rest(arith, ts, next, level, joined)
                } else {
                    done(joined, 0, Seq::empty())
                };
                Parsed {
                    result: rest.result,
                    used: 1 + right.used + rest.used,
                    errors: right.errors + rest.errors,
                }
            },
            Err(error) => passed_on(right, error, 1, Seq::empty()),
        }
    } else {
        done(left, 0, Seq::empty())
    }
}

/// One level of left-associative binary operators: an operand of the next
/// tighter level, then what `binary_rest` finds.
pub open spec fn binary<A: Arithmetic>(arith: &A, ts: Seq<TokenView>, pos: int, level: nat) -> Parsed<
    ExprView,
>
    decreases ts.len() - pos, 3 + level,
{
    let first = if level == 0 {
        unary(arith, ts, pos)
    } else {
        binary(arith, ts, pos, (level - 1) as nat)
    };
    match first.result {
        Ok(left) => {
            let next = pos + first.used;
            let rest = if next < ts.len() {
                binary_rest(arith, ts, next, level, left)
            } else {
                done(left, 0, Seq::empty())
            };
            Parsed {
                result: rest.result,
                used: first.used + rest.used,
                errors: first.errors + rest.errors,
            }
        },
        Err(_) => first,
    }
}

/// `ternary := equality ( "?" expression ":" expression )?`
pub open spec fn ternary<A: Arithmetic>(arith: &A, ts: Seq<TokenView>, pos: int) -> Parsed<ExprView>
    decreases ts.len() - pos, 7nat,
{
    let first = binary(arith, ts, pos, 3);
    match first.result {
        Ok(condition) => if kind_at(ts, pos + first.used) == TokenType::QuestionMark {
            let second = expression(arith, ts, pos + first.used + 1);
            match second.result {
                Ok(truepart) => {
                    let used = first.used + 1 + second.used;
                    let errors = first.errors + second.errors;
                    if kind_at(ts, pos + used) == TokenType::Colon {
                        let third = expression(arith, ts, pos + used + 1);
                        match third.result {
                            Ok(falsepart) => done(
                                ExprView::Ternary {
                                    condition: Box::new(condition),
                                    truepart: Box::new(truepart),
                                    falsepart: Box::new(falsepart),
                                },
                                used + 1 + third.used,
                                errors + third.errors,
                            ),
                            Err(error) => passed_on(third, error, used + 1, errors),
                        }
                    } else {
                        failed(ts, pos, used, errors, "Expect ':' after '?' in ternary operator"@)
                    }
                },
                Err(error) => passed_on(second, error, first.used + 1, first.errors),
            }
        } else {
            first
        },
        Err(_) => first,
    }
}

/// `assignment := IDENTIFIER "=" assignment | ternary`
///
/// What stands left of `=` is parsed as a ternary, and must turn out to be
/// a variable.
pub open spec fn assignment<A: Arithmetic>(arith: &A, ts: Seq<TokenView>, pos: int) -> Parsed<
    ExprView,
>
    decreases ts.len() - pos, 8nat,
{
    let first = ternary(arith, ts, pos);
    match first.result {
        Ok(target) => if kind_at(ts, pos + first.used) == TokenType::Equal {
            match target {
                ExprView::Variable { name } => {
                    let second = assignment(arith, ts, pos + first.used + 1);
                    match second.result {
                        Ok(value) => done(
                            ExprView::Assignment { name, value: Box::new(value) },
                            first.used + 1 + second.used,
                            first.errors + second.errors,
                        ),
                        Err(error) => passed_on(second, error, first.used + 1, first.errors),
                    }
                },
                _ => failed(ts, pos, first.used, first.errors, "Invalid assignment target."@),
            }
        } else {
            first
        },
        Err(_) => first,
    }
}

/// `expression := assignment`
pub open spec fn expression<A: Arithmetic>(arith: &A, ts: Seq<TokenView>, pos: int) -> Parsed<
    ExprView,
>
    decreases ts.len() - pos, 9nat,
{
    assignment(arith, ts, pos)
}

/// An expression and the `;` that ends its statement.
pub open spec fn terminated<A: Arithmetic>(
    arith: &A,
    ts: Seq<TokenView>,
    pos: int,
    message: Seq<char>,
) -> Parsed<ExprView> {
    let value = expression(arith, ts, pos);
    match value.result {
        Ok(e) => closed_by(ts, pos, value.used, value.errors, TokenType::Semicolon, message, e),
        Err(_) => value,
    }
}

/// The rest of a variable declaration, after `var`.
pub open spec fn var_declaration<A: Arithmetic>(arith: &A, ts: Seq<TokenView>, pos: int) -> Parsed<
    StmtView,
> {
    if kind_at(ts, pos) == TokenType::Identifier {
        if kind_at(ts, pos + 1) == TokenType::Equal {
            let value = terminated(arith, ts, pos + 2, "Expect ';' after variable declaration."@);
            match value.result {
                Ok(e) => done(StmtView::Var(ts[pos], Some(e)), 2 + value.used, value.errors),
                Err(error) => passed_on(value, error, 2, Seq::empty()),
            }
        } else {
            closed_by(
                ts,
                pos,
                1,
                Seq::empty(),
                TokenType::Semicolon,
                "Expect ';' after variable declaration."@,
                StmtView::Var(ts[pos], None),
            )
        }
    } else {
        failed(ts, pos, 0, Seq::empty(), "Expect variable name."@)
    }
}

/// `statement := "print" expression ";" | "{" declaration* "}" | expression ";"`
pub open spec fn statement<A: Arithmetic>(arith: &A, ts: Seq<TokenView>, pos: int) -> Parsed<
    StmtView,
>
    decreases ts.len() - pos, 10nat,
{
    let kind = kind_at(ts, pos);
    if kind == TokenType::Print {
        let value = terminated(arith, ts, pos + 1, "Expect ';' after value."@);
        match value.result {
            Ok(e) => done(StmtView::Print(e), 1 + value.used, value.errors),
            Err(error) => passed_on(value, error, 1, Seq::empty()),
        }
    } else if kind == TokenType::LeftBrace {
        let body = block(arith, ts, pos + 1);
        match body.result {
            Ok(statements) => done(StmtView::Block(statements), 1 + body.used, body.errors),
            Err(error) => passed_on(body, error, 1, Seq::empty()),
        }
    } else {
        let value = terminated(arith, ts, pos, "Expect ';' after expression."@);
        match value.result {
            Ok(e) => done(StmtView::Expression(e), value.used, value.errors),
            Err(_) => passed_on(value, value.result->Err_0, 0, Seq::empty()),
        }
    }
}

/// `declaration := "var" IDENTIFIER ( "=" expression )? ";" | statement`
pub open spec fn declaration<A: Arithmetic>(arith: &A, ts: Seq<TokenView>, pos: int) -> Parsed<
    StmtView,
>
    decreases ts.len() - pos, 11nat,
{
    if kind_at(ts, pos) == TokenType::Var {
        let rest = var_declaration(arith, ts, pos + 1);
        Parsed { result: rest.result, used: 1 + rest.used, errors: rest.errors }
    } else {
        statement(arith, ts, pos)
    }
}

/// The declarations of a block and the `}` that closes it. The first
/// declaration that fails, fails the block.
pub open spec fn block<A: Arithmetic>(arith: &A, ts: Seq<TokenView>, pos: int) -> Parsed<
    Seq<StmtView>,
>
    decreases ts.len() - pos, 12nat,
{
    let kind = kind_at(ts, pos);
    if kind == TokenType::RightBrace {
        done(Seq::empty(), 1, Seq::empty())
    } else if kind == TokenType::Eof {
        failed(ts, pos, 0, Seq::empty(), "Expect '}' after block."@)
    } else {
        let first = declaration(arith, ts, pos);
        match first.result {
            Ok(s) => {
                let next = pos + first.used;
                // A declaration takes at least one token.
                if pos < next < ts.len() {
                    let rest = block(arith, ts, next);
                    match rest.result {
                        Ok(statements) => done(
                            seq![s] + statements,
                            first.used + rest.used,
                            first.errors + rest.errors,
                        ),
                        Err(error) => passed_on(rest, error, first.used, first.errors),
                    }
                } else {
                    failed(ts, pos, first.used, first.errors, "Expect '}' after block."@)
                }
            },
            Err(error) => passed_on(first, error, 0, Seq::empty()),
        }
    }
}

/// The kinds of token that begin a statement.
pub open spec fn begins_statement(kind: TokenType) -> bool {
    kind == TokenType::Class || kind == TokenType::Fun || kind == TokenType::Var || kind
        == TokenType::For || kind == TokenType::If || kind == TokenType::While || kind
        == TokenType::Print || kind == TokenType::Return
}

/// How many tokens from `pos` on are skipped before one that may begin a
/// statement: up to the first that follows a `;`, begins a statement, or ends
/// the tokens.
pub open spec fn skipped_from(ts: Seq<TokenView>, pos: int) -> nat
    decreases ts.len() - pos,
{
    if kind_at(ts, pos) == TokenType::Eof || kind_at(ts, pos - 1) == TokenType::Semicolon
        || begins_statement(kind_at(ts, pos)) {
        0
    } else {
        1 + skipped_from(ts, pos + 1)
    }
}

/// How many tokens are given up after an error at `pos`: the token at
/// `pos`, unless the tokens end there, and those that `skipped_from` skips.
pub open spec fn given_up(ts: Seq<TokenView>, pos: int) -> nat {
    if kind_at(ts, pos) == TokenType::Eof {
        0
    } else {
        1 + skipped_from(ts, pos + 1)
    }
}

/// The declarations of a program, up to the end of the tokens. After one
/// that fails, parsing goes on behind the tokens given up.
pub ghost struct Listed {
    pub statements: Seq<StmtView>,
    pub used: nat,
    pub errors: Seq<ErrorView>,
}

/// `program := declaration* end`
pub open spec fn program<A: Arithmetic>(arith: &A, ts: Seq<TokenView>, pos: int) -> Listed
    decreases ts.len() - pos,
{
    if kind_at(ts, pos) == TokenType::Eof {
        Listed { statements: Seq::empty(), used: 0, errors: Seq::empty() }
    } else {
        let first = declaration(arith, ts, pos);
        let used = first.used + match first.result {
            Ok(_) => 0,
            Err(_) => given_up(ts, pos + first.used),
        };
        let found = match first.result {
            Ok(s) => seq![s],
            Err(_) => Seq::empty(),
        };
        // A declaration takes at least one token, and so does giving up.
        if 0 < used && pos + used < ts.len() {
            let rest = program(arith, ts, pos + used);
            Listed {
                statements: found + rest.statements,
                used: used + rest.used,
                errors: first.errors + rest.errors,
            }
        } else {
            Listed { statements: found, used, errors: first.errors }
        }
    }
}

/// Whether a token at or after `from` ends the tokens.
pub open spec fn ends_at(ts: Seq<TokenView>, from: int, end: int) -> bool {
    from <= end < ts.len() && ts[end].token_type == TokenType::Eof
}

/// Tokens that a parser can work on from `from`: an end-of-input token
/// lies ahead, every number's lexeme is a numeral, and every string's lexeme
/// has room for its two quotes.
pub open spec fn parseable(ts: Seq<TokenView>, from: int) -> bool {
    &&& 0 <= from
    &&& exists|end: int| ends_at(ts, from, end)
    &&& forall|i: int|
        0 <= i < ts.len() && (#[trigger] ts[i]).token_type == TokenType::Number ==> is_numeral(
            ts[i].lexeme,
        )
    &&& forall|i: int|
        0 <= i < ts.len() && (#[trigger] ts[i]).token_type == TokenType::String ==> ts[i].lexeme.len()
            >= 2
}

/// The state of a parser.
pub ghost struct ParserView {
    pub tokens: Seq<TokenView>,
    pub current: int,
    pub had_error: bool,
    pub diagnostics: Seq<ErrorView>,
}

/// The state `after` a parsing function that took `used` tokens and
/// reported `errors` in the state `before`.
pub open spec fn proceeds(
    before: ParserView,
    after: ParserView,
    used: nat,
    errors: Seq<ErrorView>,
) -> bool {
    &&& after.tokens == before.tokens
    &&& after.current == before.current + used
    &&& after.diagnostics == before.diagnostics + errors
    &&& after.had_error == (before.had_error || errors.len() > 0)
}

/// One step after another is one step: the tokens add up, and so do the
/// errors.
pub proof fn lemma_proceeds_twice(
    a: ParserView,
    b: ParserView,
    c: ParserView,
    used1: nat,
    errors1: Seq<ErrorView>,
    used2: nat,
    errors2: Seq<ErrorView>,
)
    requires
        proceeds(a, b, used1, errors1),
        proceeds(b, c, used2, errors2),
    ensures
        proceeds(a, c, used1 + used2, errors1 + errors2),
{
    assert((a.diagnostics + errors1) + errors2 =~= a.diagnostics + (errors1 + errors2));
}

/// An expression or an error, seen through their views.
pub open spec fn expr_outcome(r: Result<Expr, RloxError>) -> Result<ExprView, ErrorView> {
    match r {
        Ok(e) => Ok(e@),
        Err(e) => Err(e@),
    }
}

/// A statement or an error, seen through their views.
pub open spec fn stmt_outcome(r: Result<Stmt, RloxError>) -> Result<StmtView, ErrorView> {
    match r {
        Ok(s) => Ok(s@),
        Err(e) => Err(e@),
    }
}

/// Statements or an error, seen through their views.
pub open spec fn stmts_outcome(r: Result<Vec<Stmt>, RloxError>) -> Result<
    Seq<StmtView>,
    ErrorView,
> {
    match r {
        Ok(s) => Ok(stmt_views(s@)),
        Err(e) => Err(e@),
    }
}

/// A parser over one run of tokens.
#[derive(Debug)]
pub struct Parser<A: Arithmetic> {
    tokens: Vec<Token>,
    current: usize,
    pub had_error: bool,
    diagnostics: Vec<RloxError>,
    arith: A,
}

impl<A: Arithmetic> View for Parser<A> {
    type V = ParserView;

    closed spec fn view(&self) -> ParserView {
        ParserView {
            tokens: token_views(self.tokens@),
            current: self.current as int,
            had_error: self.had_error,
            diagnostics: error_views(self.diagnostics@),
        }
    }
}

impl<A: Arithmetic> Parser<A> {
    /// The arithmetic that reads this parser's numbers.
    pub closed spec fn arithmetic(&self) -> &A {
        &self.arith
    }

    /// The tokens can be parsed from the cursor on.
    pub closed spec fn wf(&self) -> bool {
        &&& parseable(self@.tokens, self@.current)
        &&& determined(&self.arith)
    }

    /// A parser at the first of `tokens`.
    pub fn new(tokens: Vec<Token>, arith: A) -> (r: Self)
        requires
            parseable(token_views(tokens@), 0),
            determined(&arith),
        ensures
            r.wf(),
            *r.arithmetic() == arith,
            r@ == (ParserView {
                tokens: token_views(tokens@),
                current: 0,
                had_error: false,
                diagnostics: Seq::empty(),
            }),
    {
        let r = Self { tokens, current: 0, had_error: false, diagnostics: Vec::new(), arith };
        assert(error_views(r.diagnostics@) =~= Seq::empty());
        r
    }

    /// The errors reported so far.
    pub fn diagnostics(&self) -> (r: &Vec<RloxError>)
        ensures
            error_views(r@) == self@.diagnostics,
    {
        &self.diagnostics
    }

    /// Parses one expression from the cursor on. What follows it is left
    /// alone.
    pub fn parse(&mut self) -> (r: Option<Expr>)
        requires
            old(self).wf(),
        ensures
            final(self).wf(),
            final(self).arithmetic() == old(self).arithmetic(),
            ({
                let p = expression(old(self).arithmetic(), old(self)@.tokens, old(self)@.current);
                &&& proceeds(old(self)@, final(self)@, p.used, p.errors)
                &&& match r {
                    Some(e) => p.result == Ok::<ExprView, ErrorView>(e@),
                    None => p.result is Err,
                }
            }),
    {
        match self.expression() {
            Ok(e) => Some(e),
            Err(_) => None,
        }
    }

    /// Parses the declarations from the cursor to the end of the tokens.
    /// The result is the program, unless this parser has reported an error,
    /// now or before.
    pub fn parse_program(&mut self) -> (r: Option<Stmt>)
        requires
            old(self).wf(),
        ensures
            final(self).wf(),
            final(self).arithmetic() == old(self).arithmetic(),
            ({
                let p = program(old(self).arithmetic(), old(self)@.tokens, old(self)@.current);
                &&& proceeds(old(self)@, final(self)@, p.used, p.errors)
                &&& match r {
                    Some(s) => !final(self)@.had_error && s@ == StmtView::Program(p.statements),
                    None => final(self)@.had_error,
                }
            }),
    {
        let ghost before = self@;
        let ghost total = program(&self.arith, before.tokens, before.current);
        let ghost mut seen: Seq<ErrorView> = Seq::empty();
        let mut statements: Vec<Stmt> = Vec::new();
        assert(before.diagnostics + seen =~= before.diagnostics);
        assert(stmt_views(statements@) =~= Seq::empty());
        while !self.is_at_end()
            invariant
                self.wf(),
                self.arith == old(self).arith,
                before == old(self)@,
                total == program(&self.arith, before.tokens, before.current),
                before.current <= self@.current,
                proceeds(before, self@, (self@.current - before.current) as nat, seen),
                ({
                    let rest = program(&self.arith, self@.tokens, self@.current);
                    &&& total.statements == stmt_views(statements@) + rest.statements
                    &&& total.used == (self@.current - before.current) + rest.used
                    &&& total.errors == seen + rest.errors
                }),
            decreases self.tokens.len() - self.current,
        {
            let ghost here = self@;
            let ghost first = declaration(&self.arith, here.tokens, here.current);
            let ghost rest = program(&self.arith, here.tokens, here.current);
            let ghost held = stmt_views(statements@);
            match self.declaration() {
                Ok(s) => {
                    statements.push(s);
                    proof {
                        assert(stmt_views(statements@) =~= held + seq![s@]);
                    }
                },
                Err(_) => {
                    let ghost failed_at = self@;
                    self.synchronize();
                    proof {
                        lemma_proceeds_twice(
                            here,
                            failed_at,
                            self@,
                            first.used,
                            first.errors,
                            given_up(here.tokens, failed_at.current),
                            Seq::empty(),
                        );
                        assert(first.errors + Seq::<ErrorView>::empty() =~= first.errors);
                        assert(stmt_views(statements@) + Seq::<StmtView>::empty() =~= held);
                    }
                },
            }
            proof {
                let used = (self@.current - here.current) as nat;
                lemma_proceeds_twice(
                    before,
                    here,
                    self@,
                    (here.current - before.current) as nat,
                    seen,
                    used,
                    first.errors,
                );
                let next = program(&self.arith, self@.tokens, self@.current);
                assert(seen + (first.errors + next.errors) =~= (seen + first.errors) + next.errors);
                assert(held + (stmt_views(statements@).skip(held.len() as int) + next.statements)
                    =~= stmt_views(statements@) + next.statements);
                seen = seen + first.errors;
            }
        }
        proof {
            assert(stmt_views(statements@) + Seq::<StmtView>::empty() =~= stmt_views(statements@));
            assert(seen + Seq::<ErrorView>::empty() =~= seen);
            lemma_block_view(statements);
        }
        if self.had_error {
            None
        } else {
            Some(Stmt::Program(statements))
        }
    }

    fn expression(&mut self) -> (r: Result<Expr, RloxError>)
        requires
            old(self).wf(),
        ensures
            final(self).wf(),
            final(self).arith == old(self).arith,
            ({
                let p = expression(&old(self).arith, old(self)@.tokens, old(self)@.current);
                &&& proceeds(old(self)@, final(self)@, p.used, p.errors)
                &&& expr_outcome(r) == p.result
                &&& r is Ok ==> p.used > 0
                &&& r is Err ==> p.errors.len() > 0
            }),
        decreases old(self).tokens.len() - old(self).current, 9nat,
    {
        self.assignment()
    }

    fn assignment(&mut self) -> (r: Result<Expr, RloxError>)
        requires
            old(self).wf(),
        ensures
            final(self).wf(),
            final(self).arith == old(self).arith,
            ({
                let p = assignment(&old(self).arith, old(self)@.tokens, old(self)@.current);
                &&& proceeds(old(self)@, final(self)@, p.used, p.errors)
                &&& expr_outcome(r) == p.result
                &&& r is Ok ==> p.used > 0
                &&& r is Err ==> p.errors.len() > 0
            }),
        decreases old(self).tokens.len() - old(self).current, 8nat,
    {
        let ghost before = self@;
        let ghost first = ternary(&self.arith, before.tokens, before.current);
        let target = match self.ternary() {
            Ok(e) => e,
            Err(e) => {
                return Err(e);
            },
        };
        if !self.check(TokenType::Equal) {
            return Ok(target);
        }
        let ghost middle = self@;
        match target {
            Expr::Variable { name } => {
                self.advance();
                let ghost ahead = self@;
                let ghost second = assignment(&self.arith, ahead.tokens, ahead.current);
                let result = self.assignment();
                proof {
                    lemma_proceeds_twice(middle, ahead, self@, 1, Seq::empty(), second.used, second.errors);
                    assert(Seq::<ErrorView>::empty() + second.errors =~= second.errors);
                    lemma_proceeds_twice(
                        before,
                        middle,
                        self@,
                        first.used,
                        first.errors,
                        1 + second.used,
                        second.errors,
                    );
                }
                match result {
                    Ok(value) => Ok(Expr::Assignment { name, value: Box::new(value) }),
                    Err(e) => Err(e),
                }
            },
            _ => {
                let e = self.error("Invalid assignment target.");
                proof {
                    lemma_proceeds_twice(
                        before,
                        middle,
                        self@,
                        first.used,
                        first.errors,
                        0,
                        seq![e@],
                    );
                    assert(first.errors + seq![e@] =~= first.errors.push(e@));
                }
                Err(e)
            },
        }
    }

    fn ternary(&mut self) -> (r: Result<Expr, RloxError>)
        requires
            old(self).wf(),
        ensures
            final(self).wf(),
            final(self).arith == old(self).arith,
            ({
                let p = ternary(&old(self).arith, old(self)@.tokens, old(self)@.current);
                &&& proceeds(old(self)@, final(self)@, p.used, p.errors)
                &&& expr_outcome(r) == p.result
                &&& r is Ok ==> p.used > 0
                &&& r is Err ==> p.errors.len() > 0
            }),
        decreases old(self).tokens.len() - old(self).current, 7nat,
    {
        let ghost before = self@;
        let ghost first = binary(&self.arith, before.tokens, before.current, 3);
        let condition = match self.binary(3) {
            Ok(e) => e,
            Err(e) => {
                return Err(e);
            },
        };
        if !self.matches(TokenType::QuestionMark) {
            return Ok(condition);
        }
        let ghost ahead = self@;
        let ghost second = expression(&self.arith, ahead.tokens, ahead.current);
        let result = self.expression();
        let ghost middle = self@;
        proof {
            assert(first.errors + Seq::<ErrorView>::empty() =~= first.errors);
            lemma_proceeds_twice(before, ahead, middle, first.used + 1, first.errors, second.used, second.errors);
        }
        let truepart = match result {
            Ok(e) => e,
            Err(e) => {
                return Err(e);
            },
        };
        let ghost used = first.used + 1 + second.used;
        let ghost errors = first.errors + second.errors;
        if !self.check(TokenType::Colon) {
            let e = self.error("Expect ':' after '?' in ternary operator");
            proof {
                lemma_proceeds_twice(before, middle, self@, used, errors, 0, seq![e@]);
                assert(errors + seq![e@] =~= errors.push(e@));
            }
            return Err(e);
        }
        self.advance();
        let ghost beyond = self@;
        let ghost third = expression(&self.arith, beyond.tokens, beyond.current);
        let result = self.expression();
        proof {
            lemma_proceeds_twice(middle, beyond, self@, 1, Seq::empty(), third.used, third.errors);
            assert(Seq::<ErrorView>::empty() + third.errors =~= third.errors);
            lemma_proceeds_twice(before, middle, self@, used, errors, 1 + third.used, third.errors);
        }
        match result {
            Ok(falsepart) => Ok(
                Expr::Ternary {
                    condition: Box::new(condition),
                    truepart: Box::new(truepart),
                    falsepart: Box::new(falsepart),
                },
            ),
            Err(e) => Err(e),
        }
    }

    /// One level of binary operators: 3 for equality, 2 for comparison, 1
    /// for term, 0 for factor.
    fn binary(&mut self, level: u8) -> (r: Result<Expr, RloxError>)
        requires
            old(self).wf(),
            level <= 3,
        ensures
            final(self).wf(),
            final(self).arith == old(self).arith,
            ({
                let p = binary(
                    &old(self).arith,
                    old(self)@.tokens,
                    old(self)@.current,
                    level as nat,
                );
                &&& proceeds(old(self)@, final(self)@, p.used, p.errors)
                &&& expr_outcome(r) == p.result
                &&& r is Ok ==> p.used > 0
                &&& r is Err ==> p.errors.len() > 0
            }),
        decreases old(self).tokens.len() - old(self).current, 3 + level,
    {
        let ghost before = self@;
        let ghost total = binary(&self.arith, before.tokens, before.current, level as nat);
        let first = if level == 0 {
            self.unary()
        } else {
            self.binary(level - 1)
        };
        let mut expr = match first {
            Ok(e) => e,
            Err(e) => {
                return Err(e);
            },
        };
        let ghost mut seen: Seq<ErrorView> = self@.diagnostics.skip(before.diagnostics.len() as int);
        proof {
            assert(before.diagnostics + seen =~= self@.diagnostics);
            assert(seen + Seq::<ErrorView>::empty() =~= seen);
        }
        while self.is_operator_next(level)
            invariant
                self.wf(),
                self.arith == old(self).arith,
                level <= 3,
                before == old(self)@,
                total == binary(&self.arith, before.tokens, before.current, level as nat),
                before.current <= self@.current,
                proceeds(before, self@, (self@.current - before.current) as nat, seen),
                ({
                    let rest = binary_rest(
                        &self.arith,
                        self@.tokens,
                        self@.current,
                        level as nat,
                        expr@,
                    );
                    &&& total.result == rest.result
                    &&& total.used == (self@.current - before.current) + rest.used
                    &&& total.errors == seen + rest.errors
                }),
            decreases self.tokens.len() - self.current,
        {
            let ghost here = self@;
            let operator = self.tokens[self.current].clone();
            self.advance();
            let ghost ahead = self@;
            let ghost right = if level == 0 {
                unary(&self.arith, ahead.tokens, ahead.current)
            } else {
                binary(&self.arith, ahead.tokens, ahead.current, (level - 1) as nat)
            };
            let result = if level == 0 {
                self.unary()
            } else {
                self.binary(level - 1)
            };
            proof {
                lemma_proceeds_twice(here, ahead, self@, 1, Seq::empty(), right.used, right.errors);
                assert(Seq::<ErrorView>::empty() + right.errors =~= right.errors);
                lemma_proceeds_twice(
                    before,
                    here,
                    self@,
                    (here.current - before.current) as nat,
                    seen,
                    1 + right.used,
                    right.errors,
                );
                assert(seen + (right.errors + Seq::<ErrorView>::empty()) =~= seen + right.errors);
                assert forall|more: Seq<ErrorView>|
                    seen + (right.errors + more) =~= (seen + right.errors) + more by {}
                seen = seen + right.errors;
            }
            match result {
                Ok(e) => {
                    expr = Expr::Binary { left: Box::new(expr), operator, right: Box::new(e) };
                },
                Err(e) => {
                    return Err(e);
                },
            }
        }
        proof {
            assert(seen + Seq::<ErrorView>::empty() =~= seen);
        }
        Ok(expr)
    }

    fn unary(&mut self) -> (r: Result<Expr, RloxError>)
        requires
            old(self).wf(),
        ensures
            final(self).wf(),
            final(self).arith == old(self).arith,
            ({
                let p = unary(&old(self).arith, old(self)@.tokens, old(self)@.current);
                &&& proceeds(old(self)@, final(self)@, p.used, p.errors)
                &&& expr_outcome(r) == p.result
                &&& r is Ok ==> p.used > 0
                &&& r is Err ==> p.errors.len() > 0
            }),
        decreases old(self).tokens.len() - old(self).current, 1nat,
    {
        let ghost before = self@;
        if self.check(TokenType::Bang) || self.check(TokenType::Minus) {
            let operator = self.tokens[self.current].clone();
            self.advance();
            let ghost ahead = self@;
            let ghost right = unary(&self.arith, ahead.tokens, ahead.current);
            let result = self.unary();
            proof {
                lemma_proceeds_twice(before, ahead, self@, 1, Seq::empty(), right.used, right.errors);
                assert(Seq::<ErrorView>::empty() + right.errors =~= right.errors);
            }
            return match result {
                Ok(e) => Ok(Expr::Unary { operator, right: Box::new(e) }),
                Err(e) => Err(e),
            };
        }
        self.primary()
    }

    fn primary(&mut self) -> (r: Result<Expr, RloxError>)
        requires
            old(self).wf(),
        ensures
            final(self).wf(),
            final(self).arith == old(self).arith,
            ({
                let p = primary(&old(self).arith, old(self)@.tokens, old(self)@.current);
                &&& proceeds(old(self)@, final(self)@, p.used, p.errors)
                &&& expr_outcome(r) == p.result
                &&& r is Ok ==> p.used > 0
                &&& r is Err ==> p.errors.len() > 0
            }),
        decreases old(self).tokens.len() - old(self).current, 0nat,
    {
        let ghost before = self@;
        proof {
            assert(before.diagnostics + Seq::<ErrorView>::empty() =~= before.diagnostics);
        }
        let kind = self.peek_kind();
        if kind == TokenType::False {
            self.advance();
            Ok(Expr::Literal { value: LiteralType::Bool(false) })
        } else if kind == TokenType::True {
            self.advance();
            Ok(Expr::Literal { value: LiteralType::Bool(true) })
        } else if kind == TokenType::Nil {
            self.advance();
            Ok(Expr::Literal { value: LiteralType::Nil })
        } else if kind == TokenType::Number {
            let number = read_number(&self.arith, self.tokens[self.current].lexeme.as_str());
            self.advance();
            Ok(Expr::Literal { value: LiteralType::Number(number) })
        } else if kind == TokenType::String {
            let chars = characters(self.tokens[self.current].lexeme.as_str());
            let raw = string_of(&chars, 1, chars.len() - 1);
            let decoded = unescape_text(raw.as_str());
            let line = self.tokens[self.current].line;
            let (value, error) = string_literal(raw, decoded, line);
            match error {
                Some(e) => {
                    self.report(e);
                    let ghost reported = self@;
                    self.advance();
                    proof {
                        lemma_proceeds_twice(before, reported, self@, 0, seq![e@], 1, Seq::empty());
                        assert(seq![e@] + Seq::<ErrorView>::empty() =~= seq![e@]);
                    }
                },
                None => {
                    self.advance();
                },
            }
            Ok(Expr::Literal { value })
        } else if kind == TokenType::Identifier {
            let name = self.tokens[self.current].clone();
            self.advance();
            Ok(Expr::Variable { name })
        } else if kind == TokenType::LeftParen {
            self.advance();
            let ghost ahead = self@;
            let ghost inner = expression(&self.arith, ahead.tokens, ahead.current);
            let result = self.expression();
            proof {
                lemma_proceeds_twice(before, ahead, self@, 1, Seq::empty(), inner.used, inner.errors);
                assert(Seq::<ErrorView>::empty() + inner.errors =~= inner.errors);
            }
            let expr = match result {
                Ok(e) => e,
                Err(e) => {
                    return Err(e);
                },
            };
            let ghost middle = self@;
            match self.consume(TokenType::RightParen, "Expect ')' after expression.") {
                Ok(_) => {
                    proof {
                        lemma_proceeds_twice(
                            before,
                            middle,
                            self@,
                            1 + inner.used,
                            inner.errors,
                            1,
                            Seq::empty(),
                        );
                        assert(inner.errors + Seq::<ErrorView>::empty() =~= inner.errors);
                    }
                    Ok(Expr::Grouping { expression: Box::new(expr) })
                },
                Err(e) => {
                    proof {
                        lemma_proceeds_twice(
                            before,
                            middle,
                            self@,
                            1 + inner.used,
                            inner.errors,
                            0,
                            seq![e@],
                        );
                        assert(inner.errors + seq![e@] =~= inner.errors.push(e@));
                    }
                    Err(e)
                },
            }
        } else {
            let mut message = String::from_str("Unexpected token type: ");
            message.append(kind_text(kind));
            message.append(".");
            let e = self.error(message.as_str());
            proof {
                assert(Seq::<ErrorView>::empty().push(e@) =~= seq![e@]);
            }
            Err(e)
        }
    }

    /// An expression and the `;` after it.
    fn terminated(&mut self, message: &str) -> (r: Result<Expr, RloxError>)
        requires
            old(self).wf(),
        ensures
            final(self).wf(),
            final(self).arith == old(self).arith,
            ({
                let p = terminated(
                    &old(self).arith,
                    old(self)@.tokens,
                    old(self)@.current,
                    message@,
                );
                &&& proceeds(old(self)@, final(self)@, p.used, p.errors)
                &&& expr_outcome(r) == p.result
                &&& r is Ok ==> p.used > 0
                &&& r is Err ==> p.errors.len() > 0
            }),
        decreases old(self).tokens.len() - old(self).current, 9nat, 1nat,
    {
        let ghost before = self@;
        let ghost value = expression(&self.arith, before.tokens, before.current);
        let expr = match self.expression() {
            Ok(e) => e,
            Err(e) => {
                return Err(e);
            },
        };
        let ghost middle = self@;
        match self.consume(TokenType::Semicolon, message) {
            Ok(_) => {
                proof {
                    lemma_proceeds_twice(
                        before,
                        middle,
                        self@,
                        value.used,
                        value.errors,
                        1,
                        Seq::empty(),
                    );
                    assert(value.errors + Seq::<ErrorView>::empty() =~= value.errors);
                }
                Ok(expr)
            },
            Err(e) => {
                proof {
                    lemma_proceeds_twice(
                        before,
                        middle,
                        self@,
                        value.used,
                        value.errors,
                        0,
                        seq![e@],
                    );
                    assert(value.errors + seq![e@] =~= value.errors.push(e@));
                }
                Err(e)
            },
        }
    }

    fn declaration(&mut self) -> (r: Result<Stmt, RloxError>)
        requires
            old(self).wf(),
        ensures
            final(self).wf(),
            final(self).arith == old(self).arith,
            ({
                let p = declaration(&old(self).arith, old(self)@.tokens, old(self)@.current);
                &&& proceeds(old(self)@, final(self)@, p.used, p.errors)
                &&& stmt_outcome(r) == p.result
                &&& r is Ok ==> p.used > 0
                &&& r is Err ==> p.errors.len() > 0
            }),
        decreases old(self).tokens.len() - old(self).current, 11nat,
    {
        let ghost before = self@;
        if self.matches(TokenType::Var) {
            let ghost ahead = self@;
            let ghost rest = var_declaration(&self.arith, ahead.tokens, ahead.current);
            let result = self.var_declaration();
            proof {
                lemma_proceeds_twice(before, ahead, self@, 1, Seq::empty(), rest.used, rest.errors);
                assert(Seq::<ErrorView>::empty() + rest.errors =~= rest.errors);
            }
            result
        } else {
            self.statement()
        }
    }

    fn var_declaration(&mut self) -> (r: Result<Stmt, RloxError>)
        requires
            old(self).wf(),
        ensures
            final(self).wf(),
            final(self).arith == old(self).arith,
            ({
                let p = var_declaration(&old(self).arith, old(self)@.tokens, old(self)@.current);
                &&& proceeds(old(self)@, final(self)@, p.used, p.errors)
                &&& stmt_outcome(r) == p.result
                &&& r is Err ==> p.errors.len() > 0
            }),
        decreases old(self).tokens.len() - old(self).current, 9nat, 2nat,
    {
        let ghost before = self@;
        proof {
            assert(before.diagnostics + Seq::<ErrorView>::empty() =~= before.diagnostics);
        }
        let name = match self.consume(TokenType::Identifier, "Expect variable name.") {
            Ok(token) => token,
            Err(e) => {
                proof {
                    assert(Seq::<ErrorView>::empty().push(e@) =~= seq![e@]);
                }
                return Err(e);
            },
        };
        let ghost named = self@;
        if self.matches(TokenType::Equal) {
            let ghost ahead = self@;
            let ghost value = terminated(
                &self.arith,
                ahead.tokens,
                ahead.current,
                "Expect ';' after variable declaration."@,
            );
            let result = self.terminated("Expect ';' after variable declaration.");
            proof {
                lemma_proceeds_twice(before, ahead, self@, 2, Seq::empty(), value.used, value.errors);
                assert(Seq::<ErrorView>::empty() + value.errors =~= value.errors);
            }
            match result {
                Ok(e) => Ok(Stmt::Var(name, Some(e))),
                Err(e) => Err(e),
            }
        } else {
            match self.consume(TokenType::Semicolon, "Expect ';' after variable declaration.") {
                Ok(_) => {
                    proof {
                        lemma_proceeds_twice(before, named, self@, 1, Seq::empty(), 1, Seq::empty());
                        assert(Seq::<ErrorView>::empty() + Seq::<ErrorView>::empty()
                            =~= Seq::<ErrorView>::empty());
                    }
                    Ok(Stmt::Var(name, None))
                },
                Err(e) => {
                    proof {
                        lemma_proceeds_twice(before, named, self@, 1, Seq::empty(), 0, seq![e@]);
                        assert(Seq::<ErrorView>::empty() + seq![e@] =~= Seq::<ErrorView>::empty().push(
                            e@,
                        ));
                    }
                    Err(e)
                },
            }
        }
    }

    fn statement(&mut self) -> (r: Result<Stmt, RloxError>)
        requires
            old(self).wf(),
        ensures
            final(self).wf(),
            final(self).arith == old(self).arith,
            ({
                let p = statement(&old(self).arith, old(self)@.tokens, old(self)@.current);
                &&& proceeds(old(self)@, final(self)@, p.used, p.errors)
                &&& stmt_outcome(r) == p.result
                &&& r is Ok ==> p.used > 0
                &&& r is Err ==> p.errors.len() > 0
            }),
        decreases old(self).tokens.len() - old(self).current, 10nat,
    {
        let ghost before = self@;
        if self.matches(TokenType::Print) {
            let ghost ahead = self@;
            let ghost value = terminated(
                &self.arith,
                ahead.tokens,
                ahead.current,
                "Expect ';' after value."@,
            );
            let result = self.terminated("Expect ';' after value.");
            proof {
                lemma_proceeds_twice(before, ahead, self@, 1, Seq::empty(), value.used, value.errors);
                assert(Seq::<ErrorView>::empty() + value.errors =~= value.errors);
            }
            match result {
                Ok(e) => Ok(Stmt::Print(e)),
                Err(e) => Err(e),
            }
        } else if self.matches(TokenType::LeftBrace) {
            let ghost ahead = self@;
            let ghost body = block(&self.arith, ahead.tokens, ahead.current);
            let result = self.block();
            proof {
                lemma_proceeds_twice(before, ahead, self@, 1, Seq::empty(), body.used, body.errors);
                assert(Seq::<ErrorView>::empty() + body.errors =~= body.errors);
            }
            match result {
                Ok(statements) => {
                    proof {
                        lemma_block_view(statements);
                    }
                    Ok(Stmt::Block(statements))
                },
                Err(e) => Err(e),
            }
        } else {
            let ghost value = terminated(
                &self.arith,
                before.tokens,
                before.current,
                "Expect ';' after expression."@,
            );
            let result = self.terminated("Expect ';' after expression.");
            proof {
                assert(Seq::<ErrorView>::empty() + value.errors =~= value.errors);
            }
            match result {
                Ok(e) => Ok(Stmt::Expression(e)),
                Err(e) => Err(e),
            }
        }
    }

    /// The declarations up to the closing brace of a block, and the brace.
    fn block(&mut self) -> (r: Result<Vec<Stmt>, RloxError>)
        requires
            old(self).wf(),
        ensures
            final(self).wf(),
            final(self).arith == old(self).arith,
            ({
                let p = block(&old(self).arith, old(self)@.tokens, old(self)@.current);
                &&& proceeds(old(self)@, final(self)@, p.used, p.errors)
                &&& stmts_outcome(r) == p.result
                &&& r is Err ==> p.errors.len() > 0
            }),
        decreases old(self).tokens.len() - old(self).current, 12nat,
    {
        let ghost before = self@;
        let ghost total = block(&self.arith, before.tokens, before.current);
        let ghost mut seen: Seq<ErrorView> = Seq::empty();
        let mut statements: Vec<Stmt> = Vec::new();
        proof {
            assert(before.diagnostics + seen =~= before.diagnostics);
            assert(stmt_views(statements@) =~= Seq::empty());
        }
        while !self.check(TokenType::RightBrace) && !self.is_at_end()
            invariant
                self.wf(),
                self.arith == old(self).arith,
                before == old(self)@,
                total == block(&self.arith, before.tokens, before.current),
                before.current <= self@.current,
                proceeds(before, self@, (self@.current - before.current) as nat, seen),
                ({
                    let rest = block(&self.arith, self@.tokens, self@.current);
                    &&& total.used == (self@.current - before.current) + rest.used
                    &&& total.errors == seen + rest.errors
                    &&& match rest.result {
                        Ok(more) => total.result == Ok::<Seq<StmtView>, ErrorView>(
                            stmt_views(statements@) + more,
                        ),
                        Err(e) => total.result == Err::<Seq<StmtView>, ErrorView>(e),
                    }
                }),
            decreases self.tokens.len() - self.current,
        {
            let ghost here = self@;
            let ghost first = declaration(&self.arith, here.tokens, here.current);
            let ghost held = stmt_views(statements@);
            let result = self.declaration();
            proof {
                lemma_proceeds_twice(
                    before,
                    here,
                    self@,
                    (here.current - before.current) as nat,
                    seen,
                    first.used,
                    first.errors,
                );
                let next = block(&self.arith, self@.tokens, self@.current);
                assert(seen + (first.errors + next.errors) =~= (seen + first.errors) + next.errors);
                assert(seen + (Seq::<ErrorView>::empty() + first.errors) =~= seen + first.errors);
                seen = seen + first.errors;
            }
            match result {
                Ok(s) => {
                    statements.push(s);
                    proof {
                        assert(stmt_views(statements@) =~= held + seq![s@]);
                        assert forall|more: Seq<StmtView>|
                            held + (seq![s@] + more) =~= (held + seq![s@]) + more by {}
                    }
                },
                Err(e) => {
                    return Err(e);
                },
            }
        }
        let ghost middle = self@;
        match self.consume(TokenType::RightBrace, "Expect '}' after block.") {
            Ok(_) => {
                proof {
                    lemma_proceeds_twice(
                        before,
                        middle,
                        self@,
                        (middle.current - before.current) as nat,
                        seen,
                        1,
                        Seq::empty(),
                    );
                    assert(seen + Seq::<ErrorView>::empty() =~= seen);
                    assert(stmt_views(statements@) + Seq::<StmtView>::empty() =~= stmt_views(
                        statements@,
                    ));
                }
                Ok(statements)
            },
            Err(e) => {
                proof {
                    lemma_proceeds_twice(
                        before,
                        middle,
                        self@,
                        (middle.current - before.current) as nat,
                        seen,
                        0,
                        seq![e@],
                    );
                    assert(Seq::<ErrorView>::empty().push(e@) =~= seq![e@]);
                }
                Err(e)
            },
        }
    }

    /// Whether the current token is an operator of `level`.
    fn is_operator_next(&self, level: u8) -> (r: bool)
        requires
            self.wf(),
        ensures
            r == is_operator_of(level as nat, kind_at(self@.tokens, self@.current)),
    {
        let kind = self.peek_kind();
        if level == 0 {
            kind == TokenType::Star || kind == TokenType::Slash
        } else if level == 1 {
            kind == TokenType::Plus || kind == TokenType::Minus
        } else if level == 2 {
            kind == TokenType::Less || kind == TokenType::LessEqual || kind == TokenType::Greater
                || kind == TokenType::GreaterEqual
        } else {
            kind == TokenType::BangEqual || kind == TokenType::EqualEqual
        }
    }

    /// Takes the current token if it is of the expected kind.
    fn matches(&mut self, type_: TokenType) -> (r: bool)
        requires
            old(self).wf(),
        ensures
            final(self).wf(),
            final(self).arith == old(self).arith,
            r == (kind_at(old(self)@.tokens, old(self)@.current) == type_ && type_
                != TokenType::Eof),
            proceeds(
                old(self)@,
                final(self)@,
                if r {
                    1nat
                } else {
                    0nat
                },
                Seq::empty(),
            ),
    {
        proof {
            assert(self@.diagnostics + Seq::<ErrorView>::empty() =~= self@.diagnostics);
        }
        if self.check(type_) {
            self.advance();
            true
        } else {
            false
        }
    }

    /// Check whether current token matches expected token type.
    /// If is at end of token stream, return false.
    fn check(&self, type_: TokenType) -> (r: bool)
        requires
            self.wf(),
        ensures
            r == (kind_at(self@.tokens, self@.current) == type_ && type_ != TokenType::Eof),
    {
        if self.is_at_end() {
            false
        } else {
            self.peek_kind() == type_
        }
    }

    /// Advance cursor, unless the tokens end here.
    fn advance(&mut self)
        requires
            old(self).wf(),
        ensures
            final(self).wf(),
            final(self).arith == old(self).arith,
            proceeds(
                old(self)@,
                final(self)@,
                if kind_at(old(self)@.tokens, old(self)@.current) == TokenType::Eof {
                    0nat
                } else {
                    1nat
                },
                Seq::empty(),
            ),
    {
        proof {
            assert(self@.diagnostics + Seq::<ErrorView>::empty() =~= self@.diagnostics);
        }
        if !self.is_at_end() {
            let ghost end = choose|end: int| ends_at(self@.tokens, self@.current, end);
            self.current += 1;
            assert(ends_at(self@.tokens, self@.current, end));
        }
    }

    /// Return whether is at end of token stream.
    fn is_at_end(&self) -> (r: bool)
        requires
            self.wf(),
        ensures
            r == (kind_at(self@.tokens, self@.current) == TokenType::Eof),
            self.current < self.tokens.len(),
    {
        self.peek_kind() == TokenType::Eof
    }

    /// The kind of the current token.
    fn peek_kind(&self) -> (r: TokenType)
        requires
            self.wf(),
        ensures
            r == kind_at(self@.tokens, self@.current),
            self.current < self.tokens.len(),
    {
        let ghost end = choose|end: int| ends_at(self@.tokens, self@.current, end);
        assert(ends_at(self@.tokens, self@.current, end));
        self.tokens[self.current].token_type
    }

    /// Consume an expected token or raise an error.
    fn consume(&mut self, type_: TokenType, message: &str) -> (r: Result<Token, RloxError>)
        requires
            old(self).wf(),
            type_ != TokenType::Eof,
        ensures
            final(self).wf(),
            final(self).arith == old(self).arith,
            match r {
                Ok(token) => {
                    &&& kind_at(old(self)@.tokens, old(self)@.current) == type_
                    &&& token@ == old(self)@.tokens[old(self)@.current]
                    &&& proceeds(old(self)@, final(self)@, 1, Seq::empty())
                },
                Err(e) => {
                    &&& kind_at(old(self)@.tokens, old(self)@.current) != type_
                    &&& e@ == syntax_error(old(self)@.tokens, old(self)@.current, message@)
                    &&& proceeds(old(self)@, final(self)@, 0, seq![e@])
                },
            },
    {
        if self.check(type_) {
            let token = self.tokens[self.current].clone();
            self.advance();
            Ok(token)
        } else {
            Err(self.error(message))
        }
    }

    /// Records an error.
    fn report(&mut self, error: RloxError)
        requires
            old(self).wf(),
        ensures
            final(self).wf(),
            final(self).arith == old(self).arith,
            proceeds(old(self)@, final(self)@, 0, seq![error@]),
    {
        let ghost diagnostics = self@.diagnostics;
        let ghost end = choose|end: int| ends_at(self@.tokens, self@.current, end);
        self.had_error = true;
        self.diagnostics.push(error);
        assert(self@.diagnostics =~= diagnostics + seq![error@]);
        assert(ends_at(self@.tokens, self@.current, end));
    }

    /// Return a syntax error at the current token, and record it.
    fn error(&mut self, message: &str) -> (e: RloxError)
        requires
            old(self).wf(),
        ensures
            final(self).wf(),
            final(self).arith == old(self).arith,
            e@ == syntax_error(old(self)@.tokens, old(self)@.current, message@),
            proceeds(old(self)@, final(self)@, 0, seq![e@]),
    {
        let _ = self.peek_kind();
        let error = RloxError::SyntaxError(
            self.tokens[self.current].line,
            self.tokens[self.current].lexeme.clone(),
            String::from_str(message),
        );
        self.report(error.clone());
        error
    }

    /// Gives up the current token and those after it, up to one that may
    /// begin a statement.
    fn synchronize(&mut self)
        requires
            old(self).wf(),
        ensures
            final(self).wf(),
            final(self).arith == old(self).arith,
            proceeds(
                old(self)@,
                final(self)@,
                given_up(old(self)@.tokens, old(self)@.current),
                Seq::empty(),
            ),
    {
        let ghost before = self@;
        if self.is_at_end() {
            proof {
                assert(before.diagnostics + Seq::<ErrorView>::empty() =~= before.diagnostics);
            }
            return ;
        }
        self.advance();
        while !self.is_at_end()
            invariant
                self.wf(),
                self.arith == old(self).arith,
                before == old(self)@,
                before.current < self@.current,
                kind_at(before.tokens, before.current) != TokenType::Eof,
                proceeds(before, self@, (self@.current - before.current) as nat, Seq::empty()),
                self@.current + skipped_from(self@.tokens, self@.current) == before.current + 1
                    + skipped_from(before.tokens, before.current + 1),
            decreases self.tokens.len() - self.current,
        {
            if self.tokens[self.current - 1].token_type == TokenType::Semicolon {
                return ;
            }
            let kind = self.peek_kind();
            if kind == TokenType::Class || kind == TokenType::Fun || kind == TokenType::Var || kind
                == TokenType::For || kind == TokenType::If || kind == TokenType::While || kind
                == TokenType::Print || kind == TokenType::Return {
                return ;
            }
            let ghost here = self@;
            self.advance();
            proof {
                lemma_proceeds_twice(
                    before,
                    here,
                    self@,
                    (here.current - before.current) as nat,
                    Seq::empty(),
                    1,
                    Seq::empty(),
                );
                assert(Seq::<ErrorView>::empty() + Seq::<ErrorView>::empty()
                    =~= Seq::<ErrorView>::empty());
            }
        }
    }
}

/// A token as the scanner makes them before the end of the text: a number
/// is written as a numeral, a string has its two quotes, and none is the
/// end-of-input token.
pub open spec fn well_shaped(t: TokenView) -> bool {
    &&& t.token_type == TokenType::Number ==> is_numeral(t.lexeme)
    &&& t.token_type == TokenType::String ==> t.lexeme.len() >= 2
    &&& t.token_type != TokenType::Eof
}

proof fn lemma_step_shape<A: Arithmetic>(arith: &A, src: Seq<char>, start: int, line: nat)
    requires
        0 <= start < src.len(),
    ensures
        match scan_step(arith, src, start, line).token {
            Some(t) => well_shaped(t),
            None => true,
        },
{
    let c = src[start];
    if is_digit_char(c) {
        lemma_numeral(src, start);
    }
}

proof fn lemma_scanned_shape<A: Arithmetic>(arith: &A, src: Seq<char>, start: int, line: nat)
    ensures
        forall|i: int|
            0 <= i < scan_from(arith, src, start, line).tokens.len() ==> well_shaped(
                #[trigger] scan_from(arith, src, start, line).tokens[i],
            ),
    decreases src.len() - start,
{
    if 0 <= start < src.len() {
        let step = scan_step(arith, src, start, line);
        let next = start + 1 + step.rest;
        let bounded = if next <= src.len() {
            next
        } else {
            src.len() as int
        };
        lemma_step_shape(arith, src, start, line);
        lemma_scanned_shape(arith, src, bounded, step.line);
        let head = optional(step.token);
        let after = scan_from(arith, src, bounded, step.line);
        let all = scan_from(arith, src, start, line).tokens;
        assert(all == head + after.tokens);
        assert forall|i: int| 0 <= i < all.len() implies well_shaped(#[trigger] all[i]) by {
            if i < head.len() {
                assert(all[i] == step.token->Some_0);
            } else {
                assert(all[i] == after.tokens[i - head.len()]);
            }
        }
    }
}

/// The tokens of a text without lexical errors are tokens that a parser
/// can work on, from the first token on.
pub proof fn law_scanned_tokens_parse<A: Arithmetic>(arith: &A, src: Seq<char>)
    requires
        tokens_of(arith, src) is Some,
    ensures
        parseable(tokens_of(arith, src)->Some_0, 0),
{
    let scanned = scan_from(arith, src, 0, 1);
    let ts = tokens_of(arith, src)->Some_0;
    lemma_scanned_shape(arith, src, 0, 1);
    assert(ends_at(ts, 0, ts.len() - 1));
    assert forall|i: int| 0 <= i < ts.len() && (#[trigger] ts[i]).token_type
        == TokenType::Number implies is_numeral(ts[i].lexeme) by {
        if i < scanned.tokens.len() {
            assert(well_shaped(scanned.tokens[i]));
        }
    }
    assert forall|i: int| 0 <= i < ts.len() && (#[trigger] ts[i]).token_type
        == TokenType::String implies ts[i].lexeme.len() >= 2 by {
        if i < scanned.tokens.len() {
            assert(well_shaped(scanned.tokens[i]));
        }
    }
}

} // verus!
