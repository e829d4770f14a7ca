use rlox::arithmetic::{Arithmetic, Operation};
use rlox::ast::expr::Expr;
use rlox::ast::stmt::Stmt;
use rlox::environment::{EnvInner, Environment};
use rlox::error::RloxError;
use rlox::interpreter::{apply_binary, apply_unary, Interpreter};
use rlox::parser::Parser;
use rlox::scanner::Scanner;
use rlox::token::{LiteralType, Token, TokenType};
use rlox::value::LoxValue;

/// Doubles as the machine computes them.
#[derive(Clone, Copy)]
struct Machine;

impl Arithmetic for Machine {
    fn number(&self, numeral: &str) -> u64 {
        numeral.parse::<f64>().unwrap().to_bits()
    }

    fn calculate(&self, operation: Operation, a: u64, b: u64) -> u64 {
        let (a, b) = (f64::from_bits(a), f64::from_bits(b));
        let r = match operation {
            Operation::Add => a + b,
            Operation::Subtract => a - b,
            Operation::Multiply => a * b,
            Operation::Divide => a / b,
        };
        r.to_bits()
    }

    fn text(&self, x: u64) -> String {
        format!("{}", f64::from_bits(x))
    }
}

fn number(x: f64) -> LoxValue {
    LoxValue::Number(x.to_bits())
}

fn text(s: &str) -> LoxValue {
    LoxValue::String(s.to_string())
}

fn name(s: &str) -> Token {
    Token::new(TokenType::Identifier, s.to_string(), LiteralType::Nil, 1)
}

fn parse(source: &str) -> Stmt {
    let tokens = Scanner::new(source.to_owned(), Machine).scan_tokens().unwrap();
    Parser::new(tokens, Machine).parse_program().unwrap()
}

fn value_of(source: &str) -> Result<LoxValue, String> {
    let tokens = Scanner::new(source.to_owned(), Machine).scan_tokens().unwrap();
    let expr = Parser::new(tokens, Machine).parse().unwrap();
    Interpreter::new(Machine).evaluate(&expr).map_err(|e| e.describe())
}

/// The lines printed and the errors reported by a program.
fn run(source: &str) -> (Vec<String>, Vec<String>) {
    let mut interpreter = Interpreter::new(Machine);
    interpreter.interpret(parse(source));
    assert!(!interpreter.had_error);
    assert_eq!(interpreter.environment.depth(), 1);
    (
        interpreter.output().clone(),
        interpreter.diagnostics().iter().map(|e| e.describe()).collect(),
    )
}

fn printed(source: &str) -> Vec<String> {
    let (output, errors) = run(source);
    assert_eq!(errors, Vec::<String>::new());
    output
}

fn runtime_error(message: &str) -> Result<LoxValue, String> {
    Err(format!("Runtime Error: [message: {message}]."))
}

#[test]
fn arithmetic_is_that_of_the_doubles() {
    assert_eq!(value_of("1 + 2 * 3 - 4 / 5"), Ok(number(1.0 + 2.0 * 3.0 - 4.0 / 5.0)));
    assert_eq!(value_of("0.1 + 0.2"), Ok(number(0.1 + 0.2)));
    assert_eq!(value_of("10 - 4 - 3"), Ok(number(3.0)));
    assert_eq!(value_of("64 / 4 / 2"), Ok(number(8.0)));
    assert_eq!(value_of("2 * 3 + 4 * 5"), Ok(number(26.0)));
    assert_eq!(value_of("1 / 3"), Ok(number(1.0 / 3.0)));
    assert_eq!(value_of("-(1 - 1)"), Ok(number(-0.0)));
}

#[test]
fn division_by_zero_is_an_error() {
    assert_eq!(value_of("1 / 0"), runtime_error("can not divided by zero"));
    assert_eq!(value_of("0 / 0"), runtime_error("can not divided by zero"));
    assert_eq!(value_of("1 / -0"), runtime_error("can not divided by zero"));
    assert_eq!(value_of("1 / (2 - 2)"), runtime_error("can not divided by zero"));
    assert_eq!(value_of("0 / 1"), Ok(number(0.0)));
}

#[test]
fn plus_joins_strings_and_mixes_nothing() {
    assert_eq!(value_of("\"a\" + \"b\""), Ok(text("ab")));
    assert_eq!(
        value_of("\"a\" + 1"),
        runtime_error("Operands must be two numbers or strings.")
    );
    assert_eq!(
        value_of("1 + \"a\""),
        runtime_error("Operands must be two numbers or strings.")
    );
    assert_eq!(
        value_of("nil + nil"),
        runtime_error("Operands must be two numbers or strings.")
    );
}

#[test]
fn equality_across_kinds_never_fails() {
    assert_eq!(value_of("1 == \"1\""), Ok(LoxValue::Bool(false)));
    assert_eq!(value_of("1 != \"1\""), Ok(LoxValue::Bool(true)));
    assert_eq!(value_of("nil == false"), Ok(LoxValue::Bool(false)));
    assert_eq!(value_of("nil == nil"), Ok(LoxValue::Bool(true)));
    assert_eq!(value_of("\"a\" == \"a\""), Ok(LoxValue::Bool(true)));
    assert_eq!(value_of("\"a\" != \"b\""), Ok(LoxValue::Bool(true)));
    assert_eq!(value_of("0 == -0"), Ok(LoxValue::Bool(true)));
    assert_eq!(value_of("true == true"), Ok(LoxValue::Bool(true)));
}

#[test]
fn ternary_takes_the_kind_of_its_branch() {
    assert_eq!(value_of("1<2?1:\"abc\""), Ok(number(1.0)));
    assert_eq!(value_of("1>2?1:\"abc\""), Ok(text("abc")));
}

#[test]
fn ternary_wants_a_boolean() {
    assert_eq!(value_of("1 ? 2 : 3"), runtime_error("invalid ternary expression"));
    assert_eq!(value_of("nil ? 2 : 3"), runtime_error("invalid ternary expression"));
    assert_eq!(value_of("\"\" ? 2 : 3"), runtime_error("invalid ternary expression"));
    assert_eq!(value_of("!nil ? 2 : 3"), Ok(number(2.0)));
}

#[test]
fn ternary_evaluates_one_branch() {
    assert_eq!(value_of("true ? 1 : 1 / 0"), Ok(number(1.0)));
    assert_eq!(value_of("false ? 1 / 0 : 2"), Ok(number(2.0)));
    assert_eq!(value_of("false ? 1 : 1 / 0"), runtime_error("can not divided by zero"));
}

#[test]
fn unary_operators() {
    assert_eq!(value_of("-\"a\""), runtime_error("Operand must be a number"));
    assert_eq!(value_of("-nil"), runtime_error("Operand must be a number"));
    assert_eq!(value_of("-0"), Ok(number(-0.0)));
    assert_eq!(value_of("!nil"), Ok(LoxValue::Bool(true)));
    assert_eq!(value_of("!false"), Ok(LoxValue::Bool(true)));
    assert_eq!(value_of("!0"), Ok(LoxValue::Bool(false)));
    assert_eq!(value_of("!\"\""), Ok(LoxValue::Bool(false)));
    assert_eq!(
        apply_unary(TokenType::Plus, number(1.0)).map_err(|e| e.describe()),
        runtime_error("Unknown unary operator.")
    );
}

#[test]
fn comparisons_want_numbers() {
    for operator in ["<", "<=", ">", ">=", "-", "*", "/"] {
        assert_eq!(
            value_of(&format!("1 {operator} \"a\"")),
            runtime_error("Operands must be two numbers.")
        );
        assert_eq!(
            value_of(&format!("true {operator} 1")),
            runtime_error("Operands must be two numbers.")
        );
    }
    assert_eq!(value_of("1 <= 1"), Ok(LoxValue::Bool(true)));
    assert_eq!(value_of("1 >= 2"), Ok(LoxValue::Bool(false)));
    assert_eq!(value_of("-1 < 0"), Ok(LoxValue::Bool(true)));
}

#[test]
fn an_operator_that_is_none() {
    assert_eq!(
        apply_binary(&Machine, TokenType::Comma, number(1.0), number(2.0))
            .map_err(|e| e.describe()),
        runtime_error("Unknown binary operator.")
    );
}

#[test]
fn the_left_operand_fails_first() {
    assert_eq!(value_of("-nil + 1 / 0"), runtime_error("Operand must be a number"));
    assert_eq!(value_of("1 / 0 + -nil"), runtime_error("can not divided by zero"));
    assert_eq!(value_of("a + b"), runtime_error("Undefined variable: a."));
}

#[test]
fn truthiness() {
    assert!(!LoxValue::Nil.is_truthy());
    assert!(!LoxValue::Bool(false).is_truthy());
    assert!(LoxValue::Bool(true).is_truthy());
    assert!(number(0.0).is_truthy());
    assert!(text("").is_truthy());
}

#[test]
fn values_as_print_shows_them() {
    assert_eq!(LoxValue::Nil.text(&Machine), "nil");
    assert_eq!(LoxValue::Bool(true).text(&Machine), "true");
    assert_eq!(LoxValue::Bool(false).text(&Machine), "false");
    assert_eq!(number(3.0).text(&Machine), "3");
    assert_eq!(number(2.5).text(&Machine), "2.5");
    assert_eq!(number(-0.125).text(&Machine), "-0.125");
    assert_eq!(text("a \" b").text(&Machine), "a \" b");
    assert_eq!(
        LoxValue::of_literal(&LiteralType::String("s".to_string())),
        text("s")
    );
    assert_eq!(LoxValue::of_literal(&LiteralType::Number(7)), LoxValue::Number(7));
    assert_eq!(LoxValue::of_literal(&LiteralType::Bool(true)), LoxValue::Bool(true));
    assert_eq!(LoxValue::of_literal(&LiteralType::Nil), LoxValue::Nil);
}

#[test]
fn values_compare_as_the_language_does() {
    assert_eq!(number(0.0), number(-0.0));
    assert_ne!(number(f64::NAN), number(f64::NAN));
    assert_ne!(number(1.0), text("1"));
    assert_ne!(LoxValue::Nil, LoxValue::Bool(false));
    assert_eq!(text("a").clone(), text("a"));
}

#[test]
fn print_writes_one_line_each() {
    assert_eq!(
        printed("print 1; print \"two\"; print nil; print 1 < 2; print 2.50; print 1 / 4;"),
        vec!["1", "two", "nil", "true", "2.5", "0.25"]
    );
    assert_eq!(printed("print \"a\nb\";"), vec!["a\nb"]);
    assert_eq!(printed(""), Vec::<String>::new());
}

#[test]
fn variables() {
    assert_eq!(printed("var a; print a;"), vec!["nil"]);
    assert_eq!(printed("var a = 1; var a = a + 1; print a;"), vec!["2"]);
    assert_eq!(printed("var a = 1; print a = 2; print a;"), vec!["2", "2"]);
    assert_eq!(printed("var a; var b; a = b = 3; print a + b;"), vec!["6"]);
}

#[test]
fn a_block_shadows_and_does_not_overwrite() {
    assert_eq!(
        printed("var a = 1; { var a = 2; print a; a = 3; print a; } print a;"),
        vec!["2", "3", "1"]
    );
    assert_eq!(
        printed("var a = 1; { a = 2; { var a = 9; } print a; } print a;"),
        vec!["2", "2"]
    );
    assert_eq!(
        printed("var a = 1; { var b = a + 1; { var c = b + 1; print a + b + c; } }"),
        vec!["6"]
    );
}

#[test]
fn a_variable_of_a_block_ends_with_it() {
    let (output, errors) = run("{ var a = 1; print a; } print a;");
    assert_eq!(output, vec!["1"]);
    assert_eq!(errors, vec!["Runtime Error: [message: Undefined variable: a.]."]);
}

#[test]
fn assigning_what_was_never_declared_is_an_error() {
    let (output, errors) = run("a = 1; print 2;");
    assert_eq!(output, Vec::<String>::new());
    assert_eq!(
        errors,
        vec!["Runtime Error: [message: Can't assign undefined variable: a.]."]
    );
    let (_, errors) = run("{ var a; } { a = 1; }");
    assert_eq!(
        errors,
        vec!["Runtime Error: [message: Can't assign undefined variable: a.]."]
    );
}

#[test]
fn a_program_stops_at_its_first_error() {
    let (output, errors) = run("print 1; print 1 / 0; print 2;");
    assert_eq!(output, vec!["1"]);
    assert_eq!(errors, vec!["Runtime Error: [message: can not divided by zero]."]);
}

#[test]
fn a_block_that_fails_is_left_all_the_same() {
    let mut interpreter = Interpreter::new(Machine);
    interpreter.interpret(parse("var a = 1; { var a = 2; { var a = 3; print -nil; } }"));
    assert_eq!(interpreter.environment.depth(), 1);
    assert_eq!(interpreter.diagnostics().len(), 1);
    interpreter.interpret(parse("print a;"));
    assert_eq!(interpreter.output(), &vec!["1".to_string()]);
}

#[test]
fn statements_one_by_one() {
    let mut interpreter = Interpreter::new(Machine);
    let program = parse("print 1; print nil + 1; print 3;");
    let Stmt::Program(statements) = program else { panic!() };
    let results: Vec<bool> =
        statements.iter().map(|s| interpreter.execute(s).is_ok()).collect();
    assert_eq!(results, vec![true, false, true]);
    assert_eq!(interpreter.output(), &vec!["1".to_string(), "3".to_string()]);
    assert!(interpreter.diagnostics().is_empty());
}

#[test]
fn only_a_program_is_interpreted() {
    let mut interpreter = Interpreter::new(Machine);
    interpreter.interpret(Stmt::Print(Expr::Literal { value: LiteralType::Nil }));
    assert!(interpreter.had_error);
    assert_eq!(
        interpreter.output(),
        &vec!["Input is not a valid program!".to_string()]
    );
    assert!(interpreter.diagnostics().is_empty());
    interpreter.interpret(Stmt::Block(vec![]));
    assert!(interpreter.had_error);
    interpreter.interpret(Stmt::Program(vec![]));
    assert!(!interpreter.had_error);
}

#[test]
fn the_interpreter_keeps_its_variables_between_programs() {
    let mut interpreter = Interpreter::new(Machine);
    interpreter.interpret(parse("var a = 1;"));
    interpreter.interpret(parse("a = a + 1;"));
    interpreter.interpret(parse("print a;"));
    assert_eq!(interpreter.output(), &vec!["2".to_string()]);
}

#[test]
fn environment_scopes() {
    let mut environment = Environment::new();
    assert_eq!(environment.depth(), 1);
    environment.define("a", number(1.0));
    environment.enter_scope();
    assert_eq!(environment.depth(), 2);
    assert_eq!(environment.get(&name("a")).unwrap(), number(1.0));
    environment.define("a", number(2.0));
    assert_eq!(environment.get(&name("a")).unwrap(), number(2.0));
    assert!(environment.assign(&name("a"), number(3.0)).is_ok());
    assert_eq!(environment.get(&name("a")).unwrap(), number(3.0));
    environment.define("a", text("again"));
    assert_eq!(environment.get(&name("a")).unwrap(), text("again"));
    assert!(environment.exit_scope().is_ok());
    assert_eq!(environment.depth(), 1);
    assert_eq!(environment.get(&name("a")).unwrap(), number(1.0));
}

#[test]
fn environment_assigns_outwards() {
    let mut environment = Environment::new();
    environment.define("a", number(1.0));
    environment.enter_scope();
    environment.define("b", number(2.0));
    environment.enter_scope();
    assert!(environment.assign(&name("a"), number(10.0)).is_ok());
    assert!(environment.assign(&name("b"), number(20.0)).is_ok());
    assert!(environment.exit_scope().is_ok());
    assert_eq!(environment.get(&name("b")).unwrap(), number(20.0));
    assert!(environment.exit_scope().is_ok());
    assert_eq!(environment.get(&name("a")).unwrap(), number(10.0));
    assert!(environment.get(&name("b")).is_err());
}

#[test]
fn environment_errors() {
    let mut environment = Environment::new();
    assert_eq!(
        environment.get(&name("x")).unwrap_err().describe(),
        "Runtime Error: [message: Undefined variable: x.]."
    );
    assert_eq!(
        environment.assign(&name("x"), LoxValue::Nil).unwrap_err().describe(),
        "Runtime Error: [message: Can't assign undefined variable: x.]."
    );
    assert!(environment.get(&name("x")).is_err());
    let error = environment.exit_scope().unwrap_err();
    assert!(matches!(error, RloxError::InvariantViolation(_)));
    assert_eq!(
        error.describe(),
        "Internal Error: [message: Already in the global scope, can't exit.]."
    );
    assert_eq!(environment.depth(), 1);
    environment.define("x", LoxValue::Nil);
    assert_eq!(environment.get(&name("x")).unwrap(), LoxValue::Nil);
}

#[test]
fn a_scope_knows_the_scope_around_it() {
    let _inner: EnvInner = EnvInner::from_parent(0);
}

#[test]
fn errors_describe_themselves() {
    assert_eq!(
        RloxError::LexicalError(3, "\"abc".to_string(), "unterminated string".to_string())
            .describe(),
        "Lexical Error: [line: 3, near: \"abc, message: unterminated string]."
    );
    assert_eq!(RloxError::ScannerError.describe(), "Scanner Error.");
    assert_eq!(
        RloxError::SyntaxError(12, ")".to_string(), "Expect expression.".to_string()).describe(),
        "Syntax Error: [line: 12, near: ), message: Expect expression.]."
    );
    assert_eq!(
        RloxError::RuntimeError("Operand must be a number".to_string()).describe(),
        "Runtime Error: [message: Operand must be a number]."
    );
    assert_eq!(
        RloxError::InvariantViolation("scope".to_string()).clone().describe(),
        "Internal Error: [message: scope]."
    );
}

#[test]
fn from_text_to_output() {
    let mut interpreter = Interpreter::new(Machine);
    let result = rlox::runner::run(
        &mut interpreter,
        "var a = \"x\\ty\"; { var b = 2; print a; print b * 3; } a = 1 < 2 ? \"yes\" : 0; print a;"
            .to_string(),
    );
    assert!(result.is_ok());
    assert_eq!(interpreter.take_output(), vec!["x\ty", "6", "yes"]);
    assert!(interpreter.output().is_empty());
    assert!(interpreter.take_diagnostics().is_empty());
}

#[test]
fn a_text_with_a_lexical_error_is_not_run() {
    let mut interpreter = Interpreter::new(Machine);
    let result = rlox::runner::run(&mut interpreter, "print 1; print 2x; @".to_string());
    assert!(matches!(result, Err(RloxError::ScannerError)));
    assert!(interpreter.output().is_empty());
    let lines: Vec<String> = interpreter.take_diagnostics().iter().map(|e| e.describe()).collect();
    assert_eq!(
        lines,
        vec![
            "Lexical Error: [line: 1, near: 2x, message: invalid number].",
            "Lexical Error: [line: 1, near: @, message: invalid token].",
        ]
    );
    assert!(interpreter.diagnostics().is_empty());
}

#[test]
fn a_text_with_a_syntax_error_is_not_run() {
    let mut interpreter = Interpreter::new(Machine);
    let result = rlox::runner::run(&mut interpreter, "print 1; print (2; print".to_string());
    assert_eq!(
        result.unwrap_err().describe(),
        "Syntax Error: [line: 1, near: ;, message: Expect ')' after expression.]."
    );
    assert!(interpreter.output().is_empty());
    assert_eq!(interpreter.diagnostics().len(), 2);
}

#[test]
fn a_runtime_error_is_reported_and_no_failure_of_the_run() {
    let mut interpreter = Interpreter::new(Machine);
    let result = rlox::runner::run(&mut interpreter, "print 1; print -\"a\";".to_string());
    assert!(result.is_ok());
    assert_eq!(interpreter.output(), &vec!["1".to_string()]);
    assert_eq!(
        interpreter.diagnostics()[0].describe(),
        "Runtime Error: [message: Operand must be a number]."
    );
    assert!(rlox::runner::run(&mut interpreter, "print 2;".to_string()).is_ok());
    assert_eq!(interpreter.output().len(), 2);
}
