use rlox::arithmetic::{Arithmetic, Operation};
use rlox::ast::pretty_printer::AstPrinter;
use rlox::parser::Parser;
use rlox::scanner::Scanner;

/// Doubles as the machine computes them.
#[derive(Clone, Copy)]
struct Machine;

impl Arithmetic for Machine {
    fn number(&self, numeral: &str) -> u64 {
        numeral.parse::<f64>().unwrap().to_bits()
    }

    fn calculate(&self, operation: Operation, a: u64, b: u64) -> u64 {
        let (a, b) = (f64::from_bits(a), f64::from_bits(b));
        let r = match operation {
            Operation::Add => a + b,
            Operation::Subtract => a - b,
            Operation::Multiply => a * b,
            Operation::Divide => a / b,
        };
        r.to_bits()
    }

    fn text(&self, x: u64) -> String {
        format!("{}", f64::from_bits(x))
    }
}

fn preprae_test_case() -> Vec<(&'static str, &'static str)> {
    vec![
        ("1 + 2 * 3", "(+ 1 (* 2 3))"),
        ("1 + 2 * 3 - 4 / 5", "(- (+ 1 (* 2 3)) (/ 4 5))"),
        ("-1 + 2", "(+ (- 1) 2)"),
        ("1 != 2 + 3", "(!= 1 (+ 2 3))"),
        (
            "(-1 + 2) * 3 == 6 / 2 == true != false != nil",
            "(!= (!= (== (== (* (group (+ (- 1) 2)) 3) (/ 6 2)) true) false) nil)",
        ),
        ("\"hello\" + \"lox\"", "(+ hello lox)"),
        (
            "1 + 2 == 3 / 4 ? 2 - 1 : 5 + 6 * 7",
            "(? (== (+ 1 2) (/ 3 4)) (- 2 1) (+ 5 (* 6 7)))",
        ),
        (
            "1 == 2 ? 3 : 4 == 5 ? 6 : 7",
            "(? (== 1 2) 3 (? (== 4 5) 6 7))",
        ),
    ]
}

#[test]
fn test_parser() {
    let test_cases = preprae_test_case();
    let mut printer = AstPrinter(Machine);
    test_cases.iter().for_each(|(source, expected)| {
        let mut scanner = Scanner::new(source.to_string(), Machine);
        let tokens = scanner.scan_tokens().unwrap();
        let mut parser = Parser::new(tokens, Machine);
        let expr = parser.parse().unwrap();
        assert_eq!(expected, &printer.fmt(&expr));
    });
}
