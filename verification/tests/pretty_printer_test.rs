use rlox::arithmetic::{Arithmetic, Operation};
use rlox::ast::expr::Expr;
use rlox::ast::pretty_printer::AstPrinter;
use rlox::token::{LiteralType, Token, TokenType};

/// Doubles as the machine computes them.
#[derive(Clone, Copy)]
struct Machine;

impl Arithmetic for Machine {
    fn number(&self, numeral: &str) -> u64 {
        numeral.parse::<f64>().unwrap().to_bits()
    }

    fn calculate(&self, operation: Operation, a: u64, b: u64) -> u64 {
        let (a, b) = (f64::from_bits(a), f64::from_bits(b));
        let r = match operation {
            Operation::Add => a + b,
            Operation::Subtract => a - b,
            Operation::Multiply => a * b,
            Operation::Divide => a / b,
        };
        r.to_bits()
    }

    fn text(&self, x: u64) -> String {
        format!("{}", f64::from_bits(x))
    }
}

#[test]
fn test_pretty_printer() {
    let expr = Expr::Binary {
        left: Box::new(Expr::Unary {
            operator: Token::new(TokenType::Minus, "-".to_string(), LiteralType::Nil, 1),
            right: Box::new(Expr::Literal {
                value: LiteralType::Number(123.0f64.to_bits()),
            }),
        }),
        operator: Token::new(TokenType::Star, "*".to_string(), LiteralType::Nil, 1),
        right: Box::new(Expr::Grouping {
            expression: Box::new(Expr::Literal {
                value: LiteralType::Number(45.67f64.to_bits()),
            }),
        }),
    };
    let mut printer = AstPrinter(Machine);

    assert_eq!("(* (- 123) (group 45.67))", printer.fmt(&expr));
}

#[test]
fn pretty_printer_test_test_ternary_operator() {
    let expr = Expr::Ternary {
        condition: Box::new(Expr::Binary {
            left: Box::new(Expr::Literal {
                value: LiteralType::Number(1.0f64.to_bits()),
            }),
            operator: Token::new(TokenType::EqualEqual, "==".to_string(), LiteralType::Nil, 1),
            right: Box::new(Expr::Literal {
                value: LiteralType::Number(2.0f64.to_bits()),
            }),
        }),
        truepart: Box::new(Expr::Binary {
            left: Box::new(Expr::Literal {
                value: LiteralType::Number(1.0f64.to_bits()),
            }),
            operator: Token::new(TokenType::Plus, "+".to_string(), LiteralType::Nil, 1),
            right: Box::new(Expr::Literal {
                value: LiteralType::Number(2.0f64.to_bits()),
            }),
        }),
        falsepart: Box::new(Expr::Binary {
            left: Box::new(Expr::Literal {
                value: LiteralType::Number(3.0f64.to_bits()),
            }),
            operator: Token::new(TokenType::Star, "*".to_string(), LiteralType::Nil, 1),
            right: Box::new(Expr::Literal {
                value: LiteralType::Number(4.0f64.to_bits()),
            }),
        }),
    };
    let mut printer = AstPrinter(Machine);

    assert_eq!("(? (== 1 2) (+ 1 2) (* 3 4))", printer.fmt(&expr));
}
