use rlox::arithmetic::{Arithmetic, Operation};
use rlox::ast::expr::Expr;
use rlox::ast::pretty_printer::AstPrinter;
use rlox::ast::stmt::Stmt;
use rlox::parser::Parser;
use rlox::scanner::Scanner;
use rlox::token::{LiteralType, Token, TokenType};

/// Doubles as the machine computes them.
#[derive(Clone, Copy)]
struct Machine;

impl Arithmetic for Machine {
    fn number(&self, numeral: &str) -> u64 {
        numeral.parse::<f64>().unwrap().to_bits()
    }

    fn calculate(&self, operation: Operation, a: u64, b: u64) -> u64 {
        let (a, b) = (f64::from_bits(a), f64::from_bits(b));
        let r = match operation {
            Operation::Add => a + b,
            Operation::Subtract => a - b,
            Operation::Multiply => a * b,
            Operation::Divide => a / b,
        };
        r.to_bits()
    }

    fn text(&self, x: u64) -> String {
        format!("{}", f64::from_bits(x))
    }
}

fn tokens(source: &str) -> Vec<Token> {
    Scanner::new(source.to_owned(), Machine).scan_tokens().unwrap()
}

fn expression(source: &str) -> String {
    let mut parser = Parser::new(tokens(source), Machine);
    let expr = parser.parse().unwrap();
    assert!(!parser.had_error);
    AstPrinter(Machine).fmt(&expr)
}

fn program(source: &str) -> String {
    let mut parser = Parser::new(tokens(source), Machine);
    let program = parser.parse_program().unwrap();
    assert!(!parser.had_error);
    assert!(matches!(program, Stmt::Program(_)));
    AstPrinter(Machine).fmt_stmt(&program)
}

fn expression_errors(source: &str) -> Vec<String> {
    let mut parser = Parser::new(tokens(source), Machine);
    assert!(parser.parse().is_none());
    assert!(parser.had_error);
    parser.diagnostics().iter().map(|e| e.describe()).collect()
}

fn program_errors(source: &str) -> Vec<String> {
    let mut parser = Parser::new(tokens(source), Machine);
    assert!(parser.parse_program().is_none());
    assert!(parser.had_error);
    parser.diagnostics().iter().map(|e| e.describe()).collect()
}

#[test]
fn round_trip_of_sums_and_products() {
    assert_eq!(expression("1 + 2 * 3"), "(+ 1 (* 2 3))");
    assert_eq!(expression("-1 + 2"), "(+ (- 1) 2)");
}

#[test]
fn binary_operators_associate_to_the_left() {
    assert_eq!(expression("1 - 2 - 3"), "(- (- 1 2) 3)");
    assert_eq!(expression("8 / 4 / 2 * 3"), "(* (/ (/ 8 4) 2) 3)");
    assert_eq!(expression("1 < 2 <= 3 > 4 >= 5"), "(>= (> (<= (< 1 2) 3) 4) 5)");
    assert_eq!(expression("1 == 2 != 3"), "(!= (== 1 2) 3)");
}

#[test]
fn each_level_binds_tighter_than_the_one_before() {
    assert_eq!(
        expression("1 == 2 < 3 + 4 * -5"),
        "(== 1 (< 2 (+ 3 (* 4 (- 5)))))"
    );
    assert_eq!(
        expression("-5 * 4 + 3 < 2 == 1"),
        "(== (< (+ (* (- 5) 4) 3) 2) 1)"
    );
    assert_eq!(expression("!!true"), "(! (! true))");
    assert_eq!(expression("- - 1"), "(- (- 1))");
}

#[test]
fn ternary_nests_to_the_right() {
    assert_eq!(
        expression("1==2?3:4==5?6:7"),
        "(? (== 1 2) 3 (? (== 4 5) 6 7))"
    );
    assert_eq!(
        expression("a ? b ? c : d : e"),
        "(? a (? b c d) e)"
    );
    assert_eq!(expression("a ? b = 1 : c = 2"), "(? a (= b 1) (= c 2))");
}

#[test]
fn assignment_nests_to_the_right() {
    assert_eq!(expression("a = b = 1 + 2"), "(= a (= b (+ 1 2)))");
    assert_eq!(expression("a = b ? c : d"), "(= a (? b c d))");
}

#[test]
fn parse_stops_after_one_expression() {
    let mut parser = Parser::new(tokens("1 2"), Machine);
    let first = parser.parse().unwrap();
    assert_eq!(AstPrinter(Machine).fmt(&first), "1");
    let second = parser.parse().unwrap();
    assert_eq!(AstPrinter(Machine).fmt(&second), "2");
    assert!(parser.parse().is_none());
}

#[test]
fn literals_keep_their_values() {
    let mut parser = Parser::new(tokens("007.50"), Machine);
    match parser.parse().unwrap() {
        Expr::Literal { value } => assert_eq!(value, LiteralType::Number(7.5f64.to_bits())),
        other => panic!("{other:?}"),
    }
    let mut parser = Parser::new(tokens("nil"), Machine);
    assert!(matches!(
        parser.parse().unwrap(),
        Expr::Literal { value: LiteralType::Nil }
    ));
}

#[test]
fn number_is_read_from_the_lexeme() {
    let hand_made = vec![
        Token::new(TokenType::Number, "2.5".to_string(), LiteralType::Nil, 1),
        Token::new(TokenType::Eof, String::new(), LiteralType::Nil, 1),
    ];
    let mut parser = Parser::new(hand_made, Machine);
    match parser.parse().unwrap() {
        Expr::Literal { value } => assert_eq!(value, LiteralType::Number(2.5f64.to_bits())),
        other => panic!("{other:?}"),
    }
}

#[test]
fn strings_are_decoded() {
    let mut parser = Parser::new(tokens(r#""a\nb\t\"c\"\\ A\x42""#), Machine);
    match parser.parse().unwrap() {
        Expr::Literal { value } => {
            assert_eq!(value, LiteralType::String("a\nb\t\"c\"\\ AB".to_string()))
        }
        other => panic!("{other:?}"),
    }
    assert!(!parser.had_error);
}

#[test]
fn a_string_that_cannot_be_decoded_stands_as_written() {
    let mut parser = Parser::new(tokens("\n\"bad \\q escape\""), Machine);
    match parser.parse().unwrap() {
        Expr::Literal { value } => {
            assert_eq!(value, LiteralType::String("bad \\q escape".to_string()))
        }
        other => panic!("{other:?}"),
    }
    assert!(parser.had_error);
    let lines: Vec<String> = parser.diagnostics().iter().map(|e| e.describe()).collect();
    assert_eq!(
        lines,
        vec!["Lexical Error: [line: 2, near: bad \\q escape, message: Invalid escape string sequence]."]
    );
}

#[test]
fn missing_parenthesis() {
    assert_eq!(
        expression_errors("(1 + 2"),
        vec!["Syntax Error: [line: 1, near: , message: Expect ')' after expression.]."]
    );
    assert_eq!(
        expression_errors("(1 + 2 3)"),
        vec!["Syntax Error: [line: 1, near: 3, message: Expect ')' after expression.]."]
    );
}

#[test]
fn unexpected_tokens() {
    assert_eq!(
        expression_errors("1 +\n* 2"),
        vec!["Syntax Error: [line: 2, near: *, message: Unexpected token type: Star.]."]
    );
    assert_eq!(
        expression_errors(""),
        vec!["Syntax Error: [line: 1, near: , message: Unexpected token type: Eof.]."]
    );
    assert_eq!(
        expression_errors("print"),
        vec!["Syntax Error: [line: 1, near: print, message: Unexpected token type: Print.]."]
    );
}

#[test]
fn ternary_needs_its_colon() {
    assert_eq!(
        expression_errors("a ? b ; c"),
        vec!["Syntax Error: [line: 1, near: ;, message: Expect ':' after '?' in ternary operator]."]
    );
}

#[test]
fn only_a_variable_can_be_assigned() {
    assert_eq!(
        expression_errors("1 + a = 2"),
        vec!["Syntax Error: [line: 1, near: =, message: Invalid assignment target.]."]
    );
    assert_eq!(
        expression_errors("(a) = 2"),
        vec!["Syntax Error: [line: 1, near: =, message: Invalid assignment target.]."]
    );
}

#[test]
fn programs() {
    assert_eq!(program(""), "[]");
    assert_eq!(program("1;"), "[1]");
    assert_eq!(
        program("var a = 1; var b; print a + b; a = 2;"),
        "[(var a = 1);(var b);(print (+ a b));(= a 2)]"
    );
    assert_eq!(
        program("{ var a = 1; { print a; } {} } print 2;"),
        "[[(var a = 1);[(print a)];[]];(print 2)]"
    );
}

#[test]
fn statements_need_their_semicolons() {
    assert_eq!(
        program_errors("print 1"),
        vec!["Syntax Error: [line: 1, near: , message: Expect ';' after value.]."]
    );
    assert_eq!(
        program_errors("1 + 2"),
        vec!["Syntax Error: [line: 1, near: , message: Expect ';' after expression.]."]
    );
    assert_eq!(
        program_errors("var a = 1"),
        vec!["Syntax Error: [line: 1, near: , message: Expect ';' after variable declaration.]."]
    );
    assert_eq!(
        program_errors("var a 1;"),
        vec!["Syntax Error: [line: 1, near: 1, message: Expect ';' after variable declaration.]."]
    );
    assert_eq!(
        program_errors("var 1 = 2;"),
        vec!["Syntax Error: [line: 1, near: 1, message: Expect variable name.]."]
    );
}

#[test]
fn a_block_needs_its_brace() {
    assert_eq!(
        program_errors("{ print 1;"),
        vec!["Syntax Error: [line: 1, near: , message: Expect '}' after block.]."]
    );
}

#[test]
fn parsing_goes_on_at_the_next_statement() {
    assert_eq!(
        program_errors("print 1 +; print 2;\nvar = 3; print (4;\nprint 5;"),
        vec![
            "Syntax Error: [line: 1, near: ;, message: Unexpected token type: Semicolon.].",
            "Syntax Error: [line: 2, near: =, message: Expect variable name.].",
            "Syntax Error: [line: 2, near: ;, message: Expect ')' after expression.].",
        ]
    );
    assert_eq!(
        program_errors("1 2 3 print 4; )"),
        vec![
            "Syntax Error: [line: 1, near: 2, message: Expect ';' after expression.].",
            "Syntax Error: [line: 1, near: ), message: Unexpected token type: RightParen.].",
        ]
    );
}

#[test]
fn statement_printing() {
    let name = Token::new(TokenType::Identifier, "x".to_string(), LiteralType::Nil, 1);
    let one = || Expr::Literal { value: LiteralType::Number(1.0f64.to_bits()) };
    let mut printer = AstPrinter(Machine);
    assert_eq!(printer.fmt_stmt(&Stmt::Var(name.clone(), None)), "(var x)");
    assert_eq!(printer.fmt_stmt(&Stmt::Var(name.clone(), Some(one()))), "(var x = 1)");
    assert_eq!(printer.fmt_stmt(&Stmt::Print(one())), "(print 1)");
    assert_eq!(printer.fmt_stmt(&Stmt::Expression(one())), "1");
    assert_eq!(printer.fmt_stmt(&Stmt::Block(vec![])), "[]");
    assert_eq!(
        printer.fmt_stmt(&Stmt::Program(vec![
            Stmt::Print(one()),
            Stmt::Block(vec![Stmt::Expression(one())]),
            Stmt::Var(name.clone(), None),
        ])),
        "[(print 1);[1];(var x)]"
    );
    let empty = Expr::Literal { value: LiteralType::String(String::new()) };
    assert_eq!(printer.fmt_stmt(&Stmt::Block(vec![Stmt::Expression(empty)])), "[]");
    assert_eq!(
        printer.fmt(&Expr::Assignment { name: name.clone(), value: Box::new(one()) }),
        "(= x 1)"
    );
    assert_eq!(printer.fmt(&Expr::Variable { name }), "x");
    assert_eq!(printer.fmt(&Expr::Literal { value: LiteralType::Bool(false) }), "false");
    assert_eq!(printer.fmt(&Expr::Literal { value: LiteralType::Nil }), "nil");
    assert_eq!(
        printer.fmt(&Expr::Literal { value: LiteralType::String("a b".to_string()) }),
        "a b"
    );
}

#[test]
fn a_string_literal_is_the_decoded_text_or_the_written_one() {
    let (value, error) =
        rlox::parser::string_literal("a\\tb".to_string(), Some("a\tb".to_string()), 4);
    assert_eq!(value, LiteralType::String("a\tb".to_string()));
    assert!(error.is_none());
    let (value, error) = rlox::parser::string_literal("a\\qb".to_string(), None, 4);
    assert_eq!(value, LiteralType::String("a\\qb".to_string()));
    assert_eq!(
        error.unwrap().describe(),
        "Lexical Error: [line: 4, near: a\\qb, message: Invalid escape string sequence]."
    );
}
