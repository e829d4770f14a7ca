use rlox::arithmetic::{Arithmetic, Operation};
use rlox::error::RloxError;
use rlox::scanner::{is_alpha, is_alpha_numeric, is_digit, keyword_of, Scanner};
use rlox::token::{kind_text, LiteralType, Token, TokenType};

/// Doubles as the machine computes them.
#[derive(Clone, Copy)]
struct Machine;

impl Arithmetic for Machine {
    fn number(&self, numeral: &str) -> u64 {
        numeral.parse::<f64>().unwrap().to_bits()
    }

    fn calculate(&self, operation: Operation, a: u64, b: u64) -> u64 {
        let (a, b) = (f64::from_bits(a), f64::from_bits(b));
        let r = match operation {
            Operation::Add => a + b,
            Operation::Subtract => a - b,
            Operation::Multiply => a * b,
            Operation::Divide => a / b,
        };
        r.to_bits()
    }

    fn text(&self, x: u64) -> String {
        format!("{}", f64::from_bits(x))
    }
}

fn scan(source: &str) -> Vec<Token> {
    let mut scanner = Scanner::new(source.to_owned(), Machine);
    scanner.scan_tokens().unwrap()
}

fn kinds(source: &str) -> Vec<TokenType> {
    scan(source).iter().map(|t| t.token_type).collect()
}

fn complaints(source: &str) -> Vec<String> {
    let mut scanner = Scanner::new(source.to_owned(), Machine);
    let result = scanner.scan_tokens();
    assert!(matches!(result, Err(RloxError::ScannerError)));
    assert!(scanner.had_error);
    scanner.diagnostics().iter().map(|e| e.describe()).collect()
}

#[test]
fn character_classes() {
    for c in '0'..='9' {
        assert!(is_digit(c) && is_alpha_numeric(c) && !is_alpha(c));
    }
    for c in ('a'..='z').chain('A'..='Z').chain(['_']) {
        assert!(is_alpha(c) && is_alpha_numeric(c) && !is_digit(c));
    }
    for c in ['/', ':', '@', '[', '`', '{', ' ', '\0', 'é', '٣'] {
        assert!(!is_alpha(c) && !is_alpha_numeric(c) && !is_digit(c), "{c:?}");
    }
}

#[test]
fn empty_source_is_one_end_token_on_line_one() {
    let mut scanner = Scanner::new(String::new(), Machine);
    let tokens = scanner.scan_tokens().unwrap();
    assert_eq!(tokens.len(), 1);
    assert_eq!(tokens[0].token_type, TokenType::Eof);
    assert_eq!(tokens[0].lexeme, "");
    assert_eq!(tokens[0].literal, LiteralType::Nil);
    assert_eq!(tokens[0].line, 1);
    assert!(!scanner.had_error);
    assert!(scanner.diagnostics().is_empty());
}

#[test]
fn every_punctuation_and_operator() {
    assert_eq!(
        kinds("(){},.-+;*?:/ ! != = == < <= > >="),
        vec![
            TokenType::LeftParen,
            TokenType::RightParen,
            TokenType::LeftBrace,
            TokenType::RightBrace,
            TokenType::Comma,
            TokenType::Dot,
            TokenType::Minus,
            TokenType::Plus,
            TokenType::Semicolon,
            TokenType::Star,
            TokenType::QuestionMark,
            TokenType::Colon,
            TokenType::Slash,
            TokenType::Bang,
            TokenType::BangEqual,
            TokenType::Equal,
            TokenType::EqualEqual,
            TokenType::Less,
            TokenType::LessEqual,
            TokenType::Greater,
            TokenType::GreaterEqual,
            TokenType::Eof,
        ]
    );
}

#[test]
fn operators_extend_greedily() {
    assert_eq!(
        kinds("===!==<==>"),
        vec![
            TokenType::EqualEqual,
            TokenType::Equal,
            TokenType::BangEqual,
            TokenType::Equal,
            TokenType::LessEqual,
            TokenType::Equal,
            TokenType::Greater,
            TokenType::Eof,
        ]
    );
    let tokens = scan("a<=b");
    assert_eq!(tokens[1].lexeme, "<=");
}

#[test]
fn every_keyword() {
    let words = [
        ("and", TokenType::And),
        ("class", TokenType::Class),
        ("else", TokenType::Else),
        ("false", TokenType::False),
        ("for", TokenType::For),
        ("fun", TokenType::Fun),
        ("if", TokenType::If),
        ("nil", TokenType::Nil),
        ("or", TokenType::Or),
        ("print", TokenType::Print),
        ("return", TokenType::Return),
        ("super", TokenType::Super),
        ("this", TokenType::This),
        ("true", TokenType::True),
        ("var", TokenType::Var),
        ("while", TokenType::While),
    ];
    for (word, kind) in words {
        let tokens = scan(word);
        assert_eq!(tokens[0].token_type, kind);
        assert_eq!(tokens[0].lexeme, word);
        assert_eq!(tokens[0].literal, LiteralType::Nil);
        let chars: Vec<char> = word.chars().collect();
        assert_eq!(keyword_of(&chars, 0, chars.len()), Some(kind));
    }
    for word in ["And", "classy", "nils", "prin", "_var", "whil", "x"] {
        assert_eq!(scan(word)[0].token_type, TokenType::Identifier, "{word}");
    }
    let chars: Vec<char> = "xvarx".chars().collect();
    assert_eq!(keyword_of(&chars, 1, 4), Some(TokenType::Var));
    assert_eq!(keyword_of(&chars, 0, 4), None);
}

#[test]
fn lines_are_counted() {
    let tokens = scan("a\nb // c\n\n\"d\ne\" f");
    let lines: Vec<usize> = tokens.iter().map(|t| t.line).collect();
    assert_eq!(lines, vec![1, 2, 5, 5, 5]);
    assert_eq!(tokens[2].lexeme, "\"d\ne\"");
}

#[test]
fn numbers_take_a_fraction_only_with_digits() {
    let tokens = scan("12.5 3. .5 1.2.3");
    let seen: Vec<(TokenType, String)> =
        tokens.iter().map(|t| (t.token_type, t.lexeme.clone())).collect();
    let expected = [
        (TokenType::Number, "12.5"),
        (TokenType::Number, "3"),
        (TokenType::Dot, "."),
        (TokenType::Dot, "."),
        (TokenType::Number, "5"),
        (TokenType::Number, "1.2"),
        (TokenType::Dot, "."),
        (TokenType::Number, "3"),
        (TokenType::Eof, ""),
    ];
    assert_eq!(seen.len(), expected.len());
    for (got, want) in seen.iter().zip(expected) {
        assert_eq!(got.0, want.0);
        assert_eq!(got.1, want.1);
    }
    assert_eq!(tokens[0].literal, LiteralType::Number(12.5f64.to_bits()));
    assert_eq!(tokens[5].literal, LiteralType::Number(1.2f64.to_bits()));
}

#[test]
fn a_slash_alone_is_a_token_and_a_comment_ends_with_its_line() {
    assert_eq!(
        kinds("1 / 2 // 3 / 4\n/"),
        vec![
            TokenType::Number,
            TokenType::Slash,
            TokenType::Number,
            TokenType::Slash,
            TokenType::Eof
        ]
    );
}

#[test]
fn an_escaped_quote_does_not_end_a_string() {
    let tokens = scan(r#""a\"b" "c\\" d"#);
    assert_eq!(tokens[0].lexeme, r#""a\"b""#);
    assert_eq!(tokens[0].literal, LiteralType::String(r#"a\"b"#.to_string()));
    assert_eq!(tokens[1].lexeme, r#""c\\""#);
    assert_eq!(tokens[1].literal, LiteralType::String(r"c\\".to_string()));
    assert_eq!(tokens[2].token_type, TokenType::Identifier);
}

#[test]
fn unterminated_string_is_reported_with_its_line() {
    assert_eq!(
        complaints("x\n\"abc\ndef"),
        vec!["Lexical Error: [line: 3, near: \"abc\ndef, message: unterminated string]."]
    );
    assert_eq!(
        complaints(r#""ends with an escaped quote\""#),
        vec![r#"Lexical Error: [line: 1, near: "ends with an escaped quote\", message: unterminated string]."#]
    );
}

#[test]
fn invalid_number_is_reported_once_and_makes_no_token() {
    let mut scanner = Scanner::new("1 123abc_9 + 2".to_owned(), Machine);
    assert!(scanner.scan_tokens().is_err());
    let lines: Vec<String> = scanner.diagnostics().iter().map(|e| e.describe()).collect();
    assert_eq!(
        lines,
        vec!["Lexical Error: [line: 1, near: 123abc_9, message: invalid number]."]
    );
    assert_eq!(
        complaints("\n1.5e3"),
        vec!["Lexical Error: [line: 2, near: 1.5e3, message: invalid number]."]
    );
}

#[test]
fn invalid_characters_are_reported_one_by_one() {
    assert_eq!(
        complaints("a @ #\n%"),
        vec![
            "Lexical Error: [line: 1, near: @, message: invalid token].",
            "Lexical Error: [line: 1, near: #, message: invalid token].",
            "Lexical Error: [line: 2, near: %, message: invalid token].",
        ]
    );
    assert_eq!(
        complaints("é"),
        vec!["Lexical Error: [line: 1, near: é, message: invalid token]."]
    );
}

#[test]
fn scanning_goes_on_after_an_error() {
    let mut scanner = Scanner::new("\"open".to_owned(), Machine);
    assert!(matches!(scanner.scan_tokens(), Err(RloxError::ScannerError)));
    assert_eq!(scanner.diagnostics().len(), 1);
    let mut scanner = Scanner::new("1a 2b \"c".to_owned(), Machine);
    assert!(scanner.scan_tokens().is_err());
    assert_eq!(scanner.diagnostics().len(), 3);
}

#[test]
fn kind_names_are_the_variant_names() {
    let all = [
        TokenType::LeftParen,
        TokenType::RightParen,
        TokenType::LeftBrace,
        TokenType::RightBrace,
        TokenType::Comma,
        TokenType::Dot,
        TokenType::Minus,
        TokenType::Plus,
        TokenType::Semicolon,
        TokenType::Slash,
        TokenType::Star,
        TokenType::QuestionMark,
        TokenType::Colon,
        TokenType::Bang,
        TokenType::BangEqual,
        TokenType::Equal,
        TokenType::EqualEqual,
        TokenType::Greater,
        TokenType::GreaterEqual,
        TokenType::Less,
        TokenType::LessEqual,
        TokenType::Identifier,
        TokenType::String,
        TokenType::Number,
        TokenType::And,
        TokenType::Class,
        TokenType::Else,
        TokenType::False,
        TokenType::Fun,
        TokenType::For,
        TokenType::If,
        TokenType::Nil,
        TokenType::Or,
        TokenType::Print,
        TokenType::Return,
        TokenType::Super,
        TokenType::This,
        TokenType::True,
        TokenType::Var,
        TokenType::While,
        TokenType::Eof,
    ];
    for kind in all {
        assert_eq!(kind_text(kind), format!("{kind:?}"));
    }
}

#[test]
fn a_token_holds_what_it_was_made_of() {
    let token = Token::new(
        TokenType::String,
        "\"x\"".to_string(),
        LiteralType::String("x".to_string()),
        9,
    );
    assert_eq!(token.token_type, TokenType::String);
    assert_eq!(token.lexeme, "\"x\"");
    assert_eq!(token.literal, LiteralType::String("x".to_string()));
    assert_eq!(token.line, 9);
    let copy = token.clone();
    assert_eq!(copy.lexeme, token.lexeme);
    assert_eq!(copy.literal, token.literal);
    assert_ne!(LiteralType::Number(1), LiteralType::Number(2));
    assert_ne!(LiteralType::Bool(true), LiteralType::Nil);
}
