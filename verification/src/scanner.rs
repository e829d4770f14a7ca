//! The scanner: source text to tokens.

use crate::arithmetic::all_digits;
use crate::arithmetic::Arithmetic;
use crate::arithmetic::determined;
use crate::arithmetic::is_digit_char;
use crate::arithmetic::is_numeral;
use crate::arithmetic::is_numeral_with;
use crate::arithmetic::number_of;
use crate::arithmetic::read_number;
use crate::error::error_views;
use crate::error::ErrorView;
use crate::error::RloxError;
use crate::text::characters;
use crate::text::spells;
use crate::text::string_of;
use crate::token::LiteralType;
use crate::token::LiteralView;
use crate::token::Token;
use crate::token::token_views;
use crate::token::TokenType;
use crate::token::TokenView;
use vstd::prelude::*;
use vstd::string::StringExecFns;

verus! {

/// A letter or an underscore.
pub open spec fn is_alpha_char(c: char) -> bool {
    ('a' <= c <= 'z') || ('A' <= c <= 'Z') || c == '_'
}

/// A letter, a digit or an underscore.
pub open spec fn is_alpha_numeric_char(c: char) -> bool {
    is_digit_char(c) || is_alpha_char(c)
}

/// Whether `c` is a decimal digit.
pub fn is_digit(c: char) -> (r: bool)
    ensures
        r == is_digit_char(c),
{
    '0' <= c && c <= '9'
}

/// Whether `c` is a letter or an underscore.
pub fn is_alpha(c: char) -> (r: bool)
    ensures
        r == is_alpha_char(c),
{
    ('a' <= c && c <= 'z') || ('A' <= c && c <= 'Z') || c == '_'
}

/// Whether `c` is a letter, a digit or an underscore.
pub fn is_alpha_numeric(c: char) -> (r: bool)
    ensures
        r == is_alpha_numeric_char(c),
{
    is_digit(c) || is_alpha(c)
}

/// The reserved words.
pub open spec fn keyword(word: Seq<char>) -> Option<TokenType> {
    if word == "and"@ {
        Some(TokenType::And)
    } else if word == "class"@ {
        Some(TokenType::Class)
    } else if word == "else"@ {
        Some(TokenType::Else)
    } else if word == "false"@ {
        Some(TokenType::False)
    } else if word == "for"@ {
        Some(TokenType::For)
    } else if word == "fun"@ {
        Some(TokenType::Fun)
    } else if word == "if"@ {
        Some(TokenType::If)
    } else if word == "nil"@ {
        Some(TokenType::Nil)
    } else if word == "or"@ {
        Some(TokenType::Or)
    } else if word == "print"@ {
        Some(TokenType::Print)
    } else if word == "return"@ {
        Some(TokenType::Return)
    } else if word == "super"@ {
        Some(TokenType::Super)
    } else if word == "this"@ {
        Some(TokenType::This)
    } else if word == "true"@ {
        Some(TokenType::True)
    } else if word == "var"@ {
        Some(TokenType::Var)
    } else if word == "while"@ {
        Some(TokenType::While)
    } else {
        None
    }
}

/// Looks `chars[from..to]` up among the reserved words.
pub fn keyword_of(chars: &Vec<char>, from: usize, to: usize) -> (r: Option<TokenType>)
    requires
        from <= to <= chars.len(),
    ensures
        r == keyword(chars@.subrange(from as int, to as int)),
{
    if spells(chars, from, to, "and") {
        Some(TokenType::And)
    } else if spells(chars, from, to, "class") {
        Some(TokenType::Class)
    } else if spells(chars, from, to, "else") {
        Some(TokenType::Else)
    } else if spells(chars, from, to, "false") {
        Some(TokenType::False)
    } else if spells(chars, from, to, "for") {
        Some(TokenType::For)
    } else if spells(chars, from, to, "fun") {
        Some(TokenType::Fun)
    } else if spells(chars, from, to, "if") {
        Some(TokenType::If)
    } else if spells(chars, from, to, "nil") {
        Some(TokenType::Nil)
    } else if spells(chars, from, to, "or") {
        Some(TokenType::Or)
    } else if spells(chars, from, to, "print") {
        Some(TokenType::Print)
    } else if spells(chars, from, to, "return") {
        Some(TokenType::Return)
    } else if spells(chars, from, to, "super") {
        Some(TokenType::Super)
    } else if spells(chars, from, to, "this") {
        Some(TokenType::This)
    } else if spells(chars, from, to, "true") {
        Some(TokenType::True)
    } else if spells(chars, from, to, "var") {
        Some(TokenType::Var)
    } else if spells(chars, from, to, "while") {
        Some(TokenType::While)
    } else {
        None
    }
}

/// The kinds of character that the scanner skips in runs.
#[derive(Clone, Copy, Debug, PartialEq, Eq, Structural)]
pub enum Run {
    /// Decimal digits.
    Digits,
    /// Letters, digits and underscores.
    Word,
    /// Anything up to the end of the line.
    Comment,
}

/// Whether a character belongs to a run.
pub open spec fn belongs(run: Run, c: char) -> bool {
    match run {
        Run::Digits => is_digit_char(c),
        Run::Word => is_alpha_numeric_char(c),
        Run::Comment => c != '\n',
    }
}

/// How many characters from `from` on belong to `run`, without a gap.
pub open spec fn span(src: Seq<char>, from: int, run: Run) -> nat
    decreases src.len() - from,
{
    if 0 <= from < src.len() && belongs(run, src[from]) {
        1 + span(src, from + 1, run)
    } else {
        0
    }
}

/// How many characters from `from` on lie inside a string literal: those
/// before the first quote that no backslash escapes. `escaped` says whether
/// the character before `from` was such a backslash.
pub open spec fn string_span(src: Seq<char>, from: int, escaped: bool) -> nat
    decreases src.len() - from,
{
    if 0 <= from < src.len() && (src[from] != '"' || escaped) {
        1 + string_span(src, from + 1, src[from] == '\\' && !escaped)
    } else {
        0
    }
}

/// The line breaks in `src[from..to]`.
pub open spec fn newlines(src: Seq<char>, from: int, to: int) -> nat
    decreases to - from,
{
    if from < to {
        newlines(src, from, to - 1) + if src[to - 1] == '\n' {
            1nat
        } else {
            0nat
        }
    } else {
        0
    }
}

/// What the scanner makes of the text at one position.
pub ghost struct Step {
    /// The characters taken after the first.
    pub rest: nat,
    /// The line after them.
    pub line: nat,
    /// The token they make, if any.
    pub token: Option<TokenView>,
    /// The error they are, if any.
    pub error: Option<ErrorView>,
}

/// A token of `width` characters that holds no value.
pub open spec fn plain(src: Seq<char>, start: int, width: nat, line: nat, kind: TokenType) -> Step {
    Step {
        rest: (width - 1) as nat,
        line,
        token: Some(
            TokenView {
                token_type: kind,
                lexeme: src.subrange(start, start + width),
                literal: LiteralView::Nil,
                line: line as usize,
            },
        ),
        error: None,
    }
}

/// Characters that make no token.
pub open spec fn skipped(rest: nat, line: nat) -> Step {
    Step { rest, line, token: None, error: None }
}

/// An operator that an `=` may extend.
pub open spec fn extensible(
    src: Seq<char>,
    start: int,
    line: nat,
    short: TokenType,
    long: TokenType,
) -> Step {
    if start + 1 < src.len() && src[start + 1] == '=' {
        plain(src, start, 2, line, long)
    } else {
        plain(src, start, 1, line, short)
    }
}

/// A string literal that opens at `start`. Its value is the text between
/// the quotes, as written. Without a closing quote it is an error.
pub open spec fn string_step(src: Seq<char>, start: int, line: nat) -> Step {
    let inside = string_span(src, start + 1, false);
    let close = start + 1 + inside;
    let last_line = line + newlines(src, start + 1, close);
    if close >= src.len() {
        Step {
            rest: inside,
            line: last_line,
            token: None,
            error: Some(
                ErrorView::LexicalError(
                    last_line as usize,
                    src.subrange(start, src.len() as int),
                    "unterminated string"@,
                ),
            ),
        }
    } else {
        Step {
            rest: inside + 1,
            line: last_line,
            token: Some(
                TokenView {
                    token_type: TokenType::String,
                    lexeme: src.subrange(start, close + 1),
                    literal: LiteralView::String(src.subrange(start + 1, close)),
                    line: last_line as usize,
                },
            ),
            error: None,
        }
    }
}

/// Where the numeral that begins at `start` ends: after its digits, and
/// after a point and more digits if they follow.
pub open spec fn numeral_end(src: Seq<char>, start: int) -> int {
    let whole = start + 1 + span(src, start + 1, Run::Digits);
    if whole + 1 < src.len() && src[whole] == '.' && is_digit_char(src[whole + 1]) {
        whole + 1 + span(src, whole + 1, Run::Digits)
    } else {
        whole
    }
}

/// A number that begins at `start`. A letter right after it spoils it,
/// together with the letters and digits that follow.
pub open spec fn number_step<A: Arithmetic>(arith: &A, src: Seq<char>, start: int, line: nat) -> Step {
    let end = numeral_end(src, start);
    if end < src.len() && is_alpha_char(src[end]) {
        let bad = end + span(src, end, Run::Word);
        Step {
            rest: (bad - start - 1) as nat,
            line,
            token: None,
            error: Some(
                ErrorView::LexicalError(
                    line as usize,
                    src.subrange(start, bad),
                    "invalid number"@,
                ),
            ),
        }
    } else {
        Step {
            rest: (end - start - 1) as nat,
            line,
            token: Some(
                TokenView {
                    token_type: TokenType::Number,
                    lexeme: src.subrange(start, end),
                    literal: LiteralView::Number(number_of(arith, src.subrange(start, end))),
                    line: line as usize,
                },
            ),
            error: None,
        }
    }
}

/// A reserved word or an identifier that begins at `start`.
pub open spec fn word_step(src: Seq<char>, start: int, line: nat) -> Step {
    let width = 1 + span(src, start + 1, Run::Word);
    let word = src.subrange(start, start + width);
    plain(
        src,
        start,
        width,
        line,
        match keyword(word) {
            Some(kind) => kind,
            None => TokenType::Identifier,
        },
    )
}

/// What the scanner makes of the text at `start`, on line `line`.
pub open spec fn scan_step<A: Arithmetic>(arith: &A, src: Seq<char>, start: int, line: nat) -> Step {
    let c = src[start];
    if c == '(' {
        plain(src, start, 1, line, TokenType::LeftParen)
    } else if c == ')' {
        plain(src, start, 1, line, TokenType::RightParen)
    } else if c == '{' {
        plain(src, start, 1, line, TokenType::LeftBrace)
    } else if c == '}' {
        plain(src, start, 1, line, TokenType::RightBrace)
    } else if c == ',' {
        plain(src, start, 1, line, TokenType::Comma)
    } else if c == '.' {
        plain(src, start, 1, line, TokenType::Dot)
    } else if c == '-' {
        plain(src, start, 1, line, TokenType::Minus)
    } else if c == '+' {
        plain(src, start, 1, line, TokenType::Plus)
    } else if c == ';' {
        plain(src, start, 1, line, TokenType::Semicolon)
    } else if c == '*' {
        plain(src, start, 1, line, TokenType::Star)
    } else if c == '?' {
        plain(src, start, 1, line, TokenType::QuestionMark)
    } else if c == ':' {
        plain(src, start, 1, line, TokenType::Colon)
    } else if c == '!' {
        extensible(src, start, line, TokenType::Bang, TokenType::BangEqual)
    } else if c == '=' {
        extensible(src, start, line, TokenType::Equal, TokenType::EqualEqual)
    } else if c == '<' {
        extensible(src, start, line, TokenType::Less, TokenType::LessEqual)
    } else if c == '>' {
        extensible(src, start, line, TokenType::Greater, TokenType::GreaterEqual)
    } else if c == '/' {
        if start + 1 < src.len() && src[start + 1] == '/' {
            skipped(1 + span(src, start + 2, Run::Comment), line)
        } else {
            plain(src, start, 1, line, TokenType::Slash)
        }
    } else if c == ' ' || c == '\r' || c == '\t' {
        skipped(0, line)
    } else if c == '\n' {
        skipped(0, line + 1)
    } else if c == '"' {
        string_step(src, start, line)
    } else if is_digit_char(c) {
        number_step(arith, src, start, line)
    } else if is_alpha_char(c) {
        word_step(src, start, line)
    } else {
        Step {
            rest: 0,
            line,
            token: None,
            error: Some(
                ErrorView::LexicalError(line as usize, src.subrange(start, start + 1), "invalid token"@),
            ),
        }
    }
}

/// A sequence of none or one.
pub open spec fn optional<T>(item: Option<T>) -> Seq<T> {
    match item {
        Some(x) => seq![x],
        None => Seq::empty(),
    }
}

/// The tokens and the errors of a stretch of text, and the line it ends on.
pub ghost struct Scanned {
    pub tokens: Seq<TokenView>,
    pub errors: Seq<ErrorView>,
    pub line: nat,
}

/// What the scanner makes of `src[start..]`, which begins on line `line`.
pub open spec fn scan_from<A: Arithmetic>(arith: &A, src: Seq<char>, start: int, line: nat) -> Scanned
    decreases src.len() - start,
{
    if 0 <= start < src.len() {
        let step = scan_step(arith, src, start, line);
        let next = start + 1 + step.rest;
        let after = scan_from(
            arith,
            src,
            if next <= src.len() {
                next
            } else {
                src.len() as int
            },
            step.line,
        );
        Scanned {
            tokens: optional(step.token) + after.tokens,
            errors: optional(step.error) + after.errors,
            line: after.line,
        }
    } else {
        Scanned { tokens: Seq::empty(), errors: Seq::empty(), line }
    }
}

/// The token that ends every run of tokens.
pub open spec fn end_of_input(line: nat) -> TokenView {
    TokenView {
        token_type: TokenType::Eof,
        lexeme: Seq::empty(),
        literal: LiteralView::Nil,
        line: line as usize,
    }
}

/// The tokens of a whole source text, if it holds no lexical error.
pub open spec fn tokens_of<A: Arithmetic>(arith: &A, src: Seq<char>) -> Option<Seq<TokenView>> {
    let scanned = scan_from(arith, src, 0, 1);
    if scanned.errors.len() == 0 {
        Some(scanned.tokens.push(end_of_input(scanned.line)))
    } else {
        None
    }
}

/// Every character of a run belongs to it.
pub proof fn lemma_span_members(src: Seq<char>, from: int, run: Run)
    requires
        0 <= from,
    ensures
        from + span(src, from, run) <= src.len() || span(src, from, run) == 0,
        forall|i: int| from <= i < from + span(src, from, run) ==> belongs(run, #[trigger] src[i]),
    decreases src.len() - from,
{
    if from < src.len() && belongs(run, src[from]) {
        lemma_span_members(src, from + 1, run);
    }
}

/// The text from a digit to the end of its numeral is a numeral.
pub proof fn lemma_numeral(src: Seq<char>, start: int)
    requires
        0 <= start < src.len(),
        is_digit_char(src[start]),
    ensures
        start < numeral_end(src, start) <= src.len(),
        is_numeral(src.subrange(start, numeral_end(src, start))),
{
    let whole = start + 1 + span(src, start + 1, Run::Digits);
    let end = numeral_end(src, start);
    lemma_span_members(src, start + 1, Run::Digits);
    if end != whole {
        lemma_span_members(src, whole + 1, Run::Digits);
        assert(span(src, whole + 1, Run::Digits) >= 1);
    }
    let text = src.subrange(start, end);
    let point = whole - start;
    assert(all_digits(text.subrange(0, point))) by {
        assert forall|i: int| 0 <= i < point implies is_digit_char(
            #[trigger] text.subrange(0, point)[i],
        ) by {
            assert(text.subrange(0, point)[i] == src[start + i]);
        }
    }
    if end != whole {
        assert(text[point] == '.');
        assert(all_digits(text.subrange(point + 1, text.len() as int))) by {
            assert forall|i: int| 0 <= i < text.len() - point - 1 implies is_digit_char(
                #[trigger] text.subrange(point + 1, text.len() as int)[i],
            ) by {
                assert(text.subrange(point + 1, text.len() as int)[i] == src[whole + 1 + i]);
            }
        }
    }
    assert(is_numeral_with(text, point));
}

/// A scanner over one source text.
#[derive(Debug)]
pub struct Scanner<A: Arithmetic> {
    source: Vec<char>,
    tokens: Vec<Token>,
    start: usize,
    current: usize,
    line: usize,
    pub had_error: bool,
    diagnostics: Vec<RloxError>,
    arith: A,
}

/// The state of a scanner.
pub ghost struct ScannerView {
    pub source: Seq<char>,
    pub tokens: Seq<TokenView>,
    pub start: int,
    pub current: int,
    pub line: nat,
    pub had_error: bool,
    pub diagnostics: Seq<ErrorView>,
}

impl<A: Arithmetic> View for Scanner<A> {
    type V = ScannerView;

    closed spec fn view(&self) -> ScannerView {
        ScannerView {
            source: self.source@,
            tokens: token_views(self.tokens@),
            start: self.start as int,
            current: self.current as int,
            line: self.line as nat,
            had_error: self.had_error,
            diagnostics: error_views(self.diagnostics@),
        }
    }
}

/// A copy of the tokens.
fn copy_tokens(tokens: &Vec<Token>) -> (r: Vec<Token>)
    ensures
        token_views(r@) == token_views(tokens@),
{
    let mut out: Vec<Token> = Vec::new();
    let mut i: usize = 0;
    while i < tokens.len()
        invariant
            i <= tokens.len(),
            out.len() == i,
            forall|k: int| 0 <= k < i ==> out@[k]@ == tokens@[k]@,
        decreases tokens.len() - i,
    {
        out.push(tokens[i].clone());
        i += 1;
    }
    assert(token_views(out@) =~= token_views(tokens@));
    out
}

impl<A: Arithmetic> Scanner<A> {
    /// The arithmetic that reads this scanner's numbers.
    pub closed spec fn arithmetic(&self) -> &A {
        &self.arith
    }

    /// The cursor lies inside the text, and the line counter has room for
    /// every line break still to come.
    pub closed spec fn wf(&self) -> bool {
        &&& self.start <= self.current <= self.source.len()
        &&& self.line + (self.source.len() - self.current) <= usize::MAX
        &&& determined(&self.arith)
    }

    /// Create a scanner instance.
    pub fn new(source: String, arith: A) -> (r: Self)
        requires
            source@.len() < usize::MAX,
            determined(&arith),
        ensures
            r.wf(),
            *r.arithmetic() == arith,
            r@ == (ScannerView {
                source: source@,
                tokens: Seq::empty(),
                start: 0,
                current: 0,
                line: 1,
                had_error: false,
                diagnostics: Seq::empty(),
            }),
    {
        let r = Self {
            source: characters(source.as_str()),
            tokens: Vec::new(),
            start: 0,
            current: 0,
            line: 1,
            had_error: false,
            diagnostics: Vec::new(),
            arith,
        };
        assert(token_views(r.tokens@) =~= Seq::empty());
        assert(error_views(r.diagnostics@) =~= Seq::empty());
        r
    }

    /// The lexical errors met so far.
    pub fn diagnostics(&self) -> (r: &Vec<RloxError>)
        ensures
            error_views(r@) == self@.diagnostics,
    {
        &self.diagnostics
    }

    /// Scans the text from the cursor to its end.
    ///
    /// The tokens and errors found are added to those of earlier calls. When
    /// the scanner has met no error, now or before, the result is every
    /// token so far and an end-of-input token; otherwise it is the scanner
    /// error.
    pub fn scan_tokens(&mut self) -> (r: Result<Vec<Token>, RloxError>)
        requires
            old(self).wf(),
        ensures
            final(self).wf(),
            final(self).arithmetic() == old(self).arithmetic(),
            ({
                let before = old(self)@;
                let after = final(self)@;
                let found = scan_from(
                    old(self).arithmetic(),
                    before.source,
                    before.current,
                    before.line,
                );
                &&& after.source == before.source
                &&& after.line == found.line
                &&& after.diagnostics == before.diagnostics + found.errors
                &&& after.had_error == (before.had_error || found.errors.len() > 0)
                &&& match r {
                    Ok(tokens) => {
                        &&& !after.had_error
                        &&& token_views(tokens@) == after.tokens
                        &&& after.tokens == (before.tokens + found.tokens).push(
                            end_of_input(found.line),
                        )
                    },
                    Err(e) => {
                        &&& after.had_error
                        &&& e@ == ErrorView::ScannerError
                        &&& after.tokens == before.tokens + found.tokens
                    },
                }
            }),
    {
        let ghost before = self@;
        let ghost found = scan_from(&self.arith, before.source, before.current, before.line);
        assert(before.tokens + Seq::<TokenView>::empty() =~= before.tokens);
        assert(before.diagnostics + Seq::<ErrorView>::empty() =~= before.diagnostics);
        while !self.is_at_end()
            invariant
                self.wf(),
                self.arith == old(self).arith,
                self@.source == before.source,
                found == scan_from(&old(self).arith, before.source, before.current, before.line),
                ({
                    let rest = scan_from(&self.arith, self@.source, self@.current, self@.line);
                    &&& before.tokens + found.tokens == self@.tokens + rest.tokens
                    &&& before.diagnostics + found.errors == self@.diagnostics + rest.errors
                    &&& found.line == rest.line
                    &&& (before.had_error || found.errors.len() > 0) == (self@.had_error
                        || rest.errors.len() > 0)
                }),
            decreases self.source.len() - self.current,
        {
            let ghost here = self@;
            let ghost step = scan_step(&self.arith, here.source, here.current, here.line);
            let ghost rest = scan_from(&self.arith, here.source, here.current, here.line);
            self.start = self.current;
            self.scan_token();
            proof {
                let next = scan_from(&self.arith, self@.source, self@.current, self@.line);
                assert(rest.tokens == optional(step.token) + next.tokens);
                assert(here.tokens + (optional(step.token) + next.tokens) =~= (here.tokens
                    + optional(step.token)) + next.tokens);
                assert(here.diagnostics + (optional(step.error) + next.errors) =~= (
                here.diagnostics + optional(step.error)) + next.errors);
            }
        }
        if self.had_error {
            assert(self@.tokens + Seq::<TokenView>::empty() =~= self@.tokens);
            assert(self@.diagnostics + Seq::<ErrorView>::empty() =~= self@.diagnostics);
            return Err(RloxError::ScannerError);
        }
        let ghost tokens = self@.tokens;
        self.tokens.push(Token::new(TokenType::Eof, String::from_str(""), LiteralType::Nil, self.line));
        proof {
            reveal_strlit("");
            assert(""@ =~= Seq::<char>::empty());
            assert(self@.tokens =~= tokens.push(end_of_input(self.line as nat)));
            assert(tokens + Seq::<TokenView>::empty() =~= tokens);
            assert(self@.diagnostics + Seq::<ErrorView>::empty() =~= self@.diagnostics);
        }
        Ok(copy_tokens(&self.tokens))
    }

    /// Whether is at the end of file.
    fn is_at_end(&self) -> (r: bool)
        ensures
            r == (self.current >= self.source.len()),
    {
        self.current >= self.source.len()
    }

    /// Scans the one token, comment, blank or error at the cursor.
    fn scan_token(&mut self)
        requires
            old(self).wf(),
            old(self).start == old(self).current,
            old(self).current < old(self).source.len(),
        ensures
            final(self).wf(),
            final(self).arith == old(self).arith,
            ({
                let before = old(self)@;
                let after = final(self)@;
                let step = scan_step(&old(self).arith, before.source, before.current, before.line);
                &&& after.source == before.source
                &&& after.current == before.current + 1 + step.rest
                &&& after.line == step.line
                &&& after.tokens == before.tokens + optional(step.token)
                &&& after.diagnostics == before.diagnostics + optional(step.error)
                &&& after.had_error == (before.had_error || step.error is Some)
            }),
    {
        let ghost before = self@;
        proof {
            assert(before.tokens + Seq::<TokenView>::empty() =~= before.tokens);
            assert(before.diagnostics + Seq::<ErrorView>::empty() =~= before.diagnostics);
        }
        let c = self.advance();
        if c == '(' {
            self.add_token(TokenType::LeftParen, LiteralType::Nil)
        } else if c == ')' {
            self.add_token(TokenType::RightParen, LiteralType::Nil)
        } else if c == '{' {
            self.add_token(TokenType::LeftBrace, LiteralType::Nil)
        } else if c == '}' {
            self.add_token(TokenType::RightBrace, LiteralType::Nil)
        } else if c == ',' {
            self.add_token(TokenType::Comma, LiteralType::Nil)
        } else if c == '.' {
            self.add_token(TokenType::Dot, LiteralType::Nil)
        } else if c == '-' {
            self.add_token(TokenType::Minus, LiteralType::Nil)
        } else if c == '+' {
            self.add_token(TokenType::Plus, LiteralType::Nil)
        } else if c == ';' {
            self.add_token(TokenType::Semicolon, LiteralType::Nil)
        } else if c == '*' {
            self.add_token(TokenType::Star, LiteralType::Nil)
        } else if c == '?' {
            self.add_token(TokenType::QuestionMark, LiteralType::Nil)
        } else if c == ':' {
            self.add_token(TokenType::Colon, LiteralType::Nil)
        } else if c == '!' {
            if self.match_char('=') {
                self.add_token(TokenType::BangEqual, LiteralType::Nil)
            } else {
                self.add_token(TokenType::Bang, LiteralType::Nil)
            }
        } else if c == '=' {
            if self.match_char('=') {
                self.add_token(TokenType::EqualEqual, LiteralType::Nil)
            } else {
                self.add_token(TokenType::Equal, LiteralType::Nil)
            }
        } else if c == '<' {
            if self.match_char('=') {
                self.add_token(TokenType::LessEqual, LiteralType::Nil)
            } else {
                self.add_token(TokenType::Less, LiteralType::Nil)
            }
        } else if c == '>' {
            if self.match_char('=') {
                self.add_token(TokenType::GreaterEqual, LiteralType::Nil)
            } else {
                self.add_token(TokenType::Greater, LiteralType::Nil)
            }
        } else if c == '/' {
            if self.match_char('/') {
                self.skip(Run::Comment);
            } else {
                self.add_token(TokenType::Slash, LiteralType::Nil);
            }
        } else if c == ' ' || c == '\r' || c == '\t' {
        } else if c == '\n' {
            self.line += 1;
        } else if c == '"' {
            self.string();
        } else if is_digit(c) {
            self.number();
        } else if is_alpha(c) {
            self.identifier();
        } else {
            let near = string_of(&self.source, self.start, self.current);
            self.report(near, "invalid token");
        }
    }

    /// Advance current index and return current character.
    fn advance(&mut self) -> (c: char)
        requires
            old(self).wf(),
            old(self).current < old(self).source.len(),
        ensures
            final(self).wf(),
            final(self).arith == old(self).arith,
            c == old(self).source@[old(self).current as int],
            final(self)@ == (ScannerView { current: old(self)@.current + 1, ..old(self)@ }),
            final(self).line == old(self).line,
            final(self).start == old(self).start,
    {
        self.current += 1;
        self.source[self.current - 1]
    }

    /// Add a new token to token list.
    fn add_token(&mut self, token_type: TokenType, literal: LiteralType)
        requires
            old(self).wf(),
        ensures
            final(self).wf(),
            final(self).arith == old(self).arith,
            final(self)@ == (ScannerView {
                tokens: old(self)@.tokens.push(
                    TokenView {
                        token_type,
                        lexeme: old(self)@.source.subrange(old(self)@.start, old(self)@.current),
                        literal: literal@,
                        line: old(self).line,
                    },
                ),
                ..old(self)@
            }),
            final(self).line == old(self).line,
            final(self).start == old(self).start,
    {
        let text = string_of(&self.source, self.start, self.current);
        let ghost tokens = self@.tokens;
        let token = Token { token_type, lexeme: text, literal, line: self.line };
        self.tokens.push(token);
        assert(self@.tokens =~= tokens.push(token@));
    }

    /// Records a lexical error on the current line.
    fn report(&mut self, near: String, message: &str)
        requires
            old(self).wf(),
        ensures
            final(self).wf(),
            final(self).arith == old(self).arith,
            final(self)@ == (ScannerView {
                had_error: true,
                diagnostics: old(self)@.diagnostics.push(
                    ErrorView::LexicalError(old(self).line, near@, message@),
                ),
                ..old(self)@
            }),
            final(self).line == old(self).line,
            final(self).start == old(self).start,
    {
        let ghost diagnostics = self@.diagnostics;
        let error = RloxError::LexicalError(self.line, near, String::from_str(message));
        self.had_error = true;
        self.diagnostics.push(error);
        assert(self@.diagnostics =~= diagnostics.push(error@));
    }

    /// Return whether next char matches the expected char, and take it if so.
    fn match_char(&mut self, expected: char) -> (r: bool)
        requires
            old(self).wf(),
        ensures
            final(self).wf(),
            final(self).arith == old(self).arith,
            r == (old(self).current < old(self).source.len() && old(self).source@[old(
                self,
            ).current as int] == expected),
            final(self)@ == (ScannerView {
                current: old(self)@.current + if r {
                    1int
                } else {
                    0int
                },
                ..old(self)@
            }),
            final(self).line == old(self).line,
            final(self).start == old(self).start,
    {
        if self.is_at_end() {
            return false;
        }
        if self.source[self.current] != expected {
            false
        } else {
            self.current += 1;
            true
        }
    }

    /// Get current character.
    fn peek(&self) -> (c: char)
        ensures
            c == if self.current < self.source.len() {
                self.source@[self.current as int]
            } else {
                '\0'
            },
    {
        if self.is_at_end() {
            '\0'
        } else {
            self.source[self.current]
        }
    }

    /// Get next character.
    fn peek_next(&self) -> (c: char)
        requires
            self.current <= self.source.len(),
        ensures
            c == if self.current + 1 < self.source.len() {
                self.source@[self.current + 1]
            } else {
                '\0'
            },
    {
        if self.source.len() - self.current <= 1 {
            '\0'
        } else {
            self.source[self.current + 1]
        }
    }

    /// Takes the characters at the cursor that belong to `run`.
    fn skip(&mut self, run: Run)
        requires
            old(self).wf(),
        ensures
            final(self).wf(),
            final(self).arith == old(self).arith,
            final(self)@ == (ScannerView {
                current: old(self)@.current + span(old(self)@.source, old(self)@.current, run),
                ..old(self)@
            }),
            final(self).line == old(self).line,
            final(self).start == old(self).start,
    {
        let ghost first = self@.current;
        while self.current < self.source.len() && in_run(run, self.source[self.current])
            invariant
                self.wf(),
                self.arith == old(self).arith,
                self@ == (ScannerView { current: self@.current, ..old(self)@ }),
                self.line == old(self).line,
                self.start == old(self).start,
                first == old(self)@.current,
                first <= self@.current,
                self@.current + span(self@.source, self@.current, run) == first + span(
                    self@.source,
                    first,
                    run,
                ),
            decreases self.source.len() - self.current,
        {
            self.current += 1;
        }
    }

    /// Handle string token.
    fn string(&mut self)
        requires
            old(self).wf(),
            old(self).start + 1 == old(self).current,
            old(self).source@[old(self).start as int] == '"',
        ensures
            final(self).wf(),
            final(self).arith == old(self).arith,
            ({
                let before = old(self)@;
                let after = final(self)@;
                let step = string_step(before.source, before.start, before.line);
                &&& after.source == before.source
                &&& after.current == before.start + 1 + step.rest
                &&& after.line == step.line
                &&& after.tokens == before.tokens + optional(step.token)
                &&& after.diagnostics == before.diagnostics + optional(step.error)
                &&& after.had_error == (before.had_error || step.error is Some)
            }),
    {
        let ghost before = self@;
        let mut escaped = false;
        while self.current < self.source.len() && (self.source[self.current] != '"' || escaped)
            invariant
                self.wf(),
                self.arith == old(self).arith,
                self@ == (ScannerView { current: self@.current, line: self@.line, ..before }),
                self.start == old(self).start,
                before == old(self)@,
                before.start + 1 <= self@.current,
                self@.current + string_span(self@.source, self@.current, escaped) == before.start
                    + 1 + string_span(before.source, before.start + 1, false),
                self@.line == before.line + newlines(before.source, before.start + 1, self@.current),
            decreases self.source.len() - self.current,
        {
            let c = self.source[self.current];
            if c == '\n' {
                self.line += 1;
            }
            if c == '\\' {
                escaped = !escaped;
            } else {
                escaped = false;
            }
            self.current += 1;
        }
        if self.is_at_end() {
            let near = string_of(&self.source, self.start, self.current);
            self.report(near, "unterminated string");
            proof {
                assert(before.tokens + Seq::<TokenView>::empty() =~= before.tokens);
                assert(before.diagnostics + optional(
                    string_step(before.source, before.start, before.line).error,
                ) =~= self@.diagnostics);
            }
            return ;
        }
        // The closing '"'.
        self.current += 1;
        let value = string_of(&self.source, self.start + 1, self.current - 1);
        self.add_token(TokenType::String, LiteralType::String(value));
        proof {
            assert(before.diagnostics + Seq::<ErrorView>::empty() =~= before.diagnostics);
            assert(before.tokens + optional(
                string_step(before.source, before.start, before.line).token,
            ) =~= self@.tokens);
        }
    }

    /// Handle number token.
    fn number(&mut self)
        requires
            old(self).wf(),
            old(self).start + 1 == old(self).current,
            is_digit_char(old(self).source@[old(self).start as int]),
        ensures
            final(self).wf(),
            final(self).arith == old(self).arith,
            ({
                let before = old(self)@;
                let after = final(self)@;
                let step = number_step(&old(self).arith, before.source, before.start, before.line);
                &&& after.source == before.source
                &&& after.current == before.start + 1 + step.rest
                &&& after.line == step.line
                &&& after.tokens == before.tokens + optional(step.token)
                &&& after.diagnostics == before.diagnostics + optional(step.error)
                &&& after.had_error == (before.had_error || step.error is Some)
            }),
    {
        let ghost before = self@;
        let ghost src = before.source;
        proof {
            lemma_numeral(src, before.start);
        }
        self.skip(Run::Digits);
        // Look for a fractional part.
        if self.peek() == '.' && is_digit(self.peek_next()) {
            // Consume the '.'.
            self.current += 1;
            self.skip(Run::Digits);
        }
        // Make sure number does not have trailing alpha characters.
        if is_alpha(self.peek()) {
            self.skip(Run::Word);
            let near = string_of(&self.source, self.start, self.current);
            self.report(near, "invalid number");
            proof {
                assert(before.tokens + Seq::<TokenView>::empty() =~= before.tokens);
                assert(before.diagnostics + optional(
                    number_step(&self.arith, src, before.start, before.line).error,
                ) =~= self@.diagnostics);
            }
            return ;
        }
        let text = string_of(&self.source, self.start, self.current);
        let value = read_number(&self.arith, text.as_str());
        self.add_token(TokenType::Number, LiteralType::Number(value));
        proof {
            assert(before.diagnostics + Seq::<ErrorView>::empty() =~= before.diagnostics);
            assert(before.tokens + optional(
                number_step(&self.arith, src, before.start, before.line).token,
            ) =~= self@.tokens);
        }
    }

    /// Handle keyword and identifier token.
    fn identifier(&mut self)
        requires
            old(self).wf(),
            old(self).start + 1 == old(self).current,
        ensures
            final(self).wf(),
            final(self).arith == old(self).arith,
            ({
                let before = old(self)@;
                let after = final(self)@;
                let step = word_step(before.source, before.start, before.line);
                &&& after.source == before.source
                &&& after.current == before.start + 1 + step.rest
                &&& after.line == step.line
                &&& after.tokens == before.tokens + optional(step.token)
                &&& after.diagnostics == before.diagnostics + optional(step.error)
                &&& after.had_error == (before.had_error || step.error is Some)
            }),
    {
        let ghost before = self@;
        proof {
            lemma_span_members(before.source, before.start + 1, Run::Word);
        }
        self.skip(Run::Word);
        match keyword_of(&self.source, self.start, self.current) {
            Some(token_type) => self.add_token(token_type, LiteralType::Nil),
            None => self.add_token(TokenType::Identifier, LiteralType::Nil),
        }
        proof {
            assert(before.diagnostics + Seq::<ErrorView>::empty() =~= before.diagnostics);
            assert(before.tokens + optional(
                word_step(before.source, before.start, before.line).token,
            ) =~= self@.tokens);
        }
    }
}

/// Whether a character belongs to a run.
fn in_run(run: Run, c: char) -> (r: bool)
    ensures
        r == belongs(run, c),
{
    match run {
        Run::Digits => is_digit(c),
        Run::Word => is_alpha_numeric(c),
        Run::Comment => c != '\n',
    }
}

} // verus!
