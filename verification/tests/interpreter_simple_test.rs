use rlox::arithmetic::{Arithmetic, Operation};
use rlox::interpreter::Interpreter;
use rlox::parser::Parser;
use rlox::scanner::Scanner;
use rlox::value::LoxValue;

/// Doubles as the machine computes them.
#[derive(Clone, Copy)]
struct Machine;

impl Arithmetic for Machine {
    fn number(&self, numeral: &str) -> u64 {
        numeral.parse::<f64>().unwrap().to_bits()
    }

    fn calculate(&self, operation: Operation, a: u64, b: u64) -> u64 {
        let (a, b) = (f64::from_bits(a), f64::from_bits(b));
        let r = match operation {
            Operation::Add => a + b,
            Operation::Subtract => a - b,
            Operation::Multiply => a * b,
            Operation::Divide => a / b,
        };
        r.to_bits()
    }

    fn text(&self, x: u64) -> String {
        format!("{}", f64::from_bits(x))
    }
}

fn number(x: f64) -> LoxValue {
    LoxValue::Number(x.to_bits())
}

#[allow(clippy::nonminimal_bool)]
fn test_cases() -> Vec<(&'static str, LoxValue)> {
    vec![
        // literals
        ("nil", LoxValue::Nil),
        ("true", LoxValue::Bool(true)),
        ("false", LoxValue::Bool(false)),
        ("123.45", number(123.45)),
        ("-123.45", number(-123.45)),
        ("\"hello lox\"", LoxValue::String("hello lox".to_owned())),
        // unary
        ("-123.45", number(-123.45)),
        ("!true", LoxValue::Bool(false)),
        // binary
        ("123.45 + 54.321", number(123.45 + 54.321)),
        ("123.45 - 54.321", number(123.45 - 54.321)),
        ("123.45 * 54.321", number(123.45 * 54.321)),
        ("123.45 / 54.321", number(123.45 / 54.321)),
        (
            "\"hello\" + \" lox\"",
            LoxValue::String("hello lox".to_owned()),
        ),
        ("123.45 > 54.321", LoxValue::Bool(123.45 > 54.321)),
        ("123.45 >= 54.321", LoxValue::Bool(123.45 >= 54.321)),
        ("123.45 < 54.321", LoxValue::Bool(123.45 < 54.321)),
        ("123.45 <= 54.321", LoxValue::Bool(123.45 <= 54.321)),
        ("123.45 == 54.321", LoxValue::Bool(123.45 == 54.321)),
        ("123.45 != 54.321", LoxValue::Bool(123.45 != 54.321)),
        ("true == nil", LoxValue::Bool(false)),
        ("false != nil", LoxValue::Bool(true)),
        ("true == 1.0", LoxValue::Bool(false)),
        ("true != 1.0", LoxValue::Bool(true)),
        // ternary
        ("1 < 2 ? 1 : 2", number(1.0)),
        ("1 > 2 ? 1 : 2", number(2.0)),
        // The language is dynamically typed, so a ternary expression can have a value of
        // either branch's type: in the following, a number or a string.
        ("1 < 2 ? 1 : \"abc\"", number(1.0)),
        ("1 > 2 ? 1 : \"abc\"", LoxValue::String("abc".to_owned())),
        // grouping
        ("!(1 > 2)", LoxValue::Bool(!(1 > 2))),
        ("-((1 + 2) * 3)", number(-((1.0 + 2.0) * 3.0))),
        (
            "(1 + 2) * 3 / ((6 - 2) * 1 / 2)",
            number((1.0 + 2.0) * 3.0 / ((6.0 - 2.0) * 1.0 / 2.0)),
        ),
    ]
}

#[test]
fn test_evaluation() {
    let mut interpreter = Interpreter::new(Machine);
    test_cases().into_iter().for_each(|(input, expected)| {
        let mut scanner = Scanner::new(input.to_string(), Machine);
        let tokens = scanner.scan_tokens().unwrap();
        let mut parser = Parser::new(tokens, Machine);
        let program = parser.parse();
        assert!(program.is_some());
        let evaluated = interpreter.evaluate(&program.unwrap()).ok();
        assert!(evaluated.is_some());
        assert_eq!(expected, evaluated.unwrap());
    });
}
