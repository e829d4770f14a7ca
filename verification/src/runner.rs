//! From source text to output: scan, parse, run.

use crate::arithmetic::Arithmetic;
use crate::ast::stmt::StmtView;
use crate::error::error_views;
use crate::error::ErrorView;
use crate::error::RloxError;
use crate::interpreter::Interpreter;
use crate::interpreter::InterpreterView;
use crate::interpreter::optional_error;
use crate::parser::law_scanned_tokens_parse;
use crate::parser::Parser;
use crate::parser::program;
use crate::scanner::scan_from;
use crate::scanner::Scanner;
use crate::scanner::tokens_of;
use vstd::prelude::*;

verus! {

/// Reports every error of `errors` to the interpreter.
fn report_all<A: Arithmetic>(interpreter: &mut Interpreter<A>, errors: &Vec<RloxError>)
    requires
        old(interpreter).wf(),
    ensures
        final(interpreter).wf(),
        final(interpreter).arithmetic() == old(interpreter).arithmetic(),
        final(interpreter)@ == (InterpreterView {
            diagnostics: old(interpreter)@.diagnostics + error_views(errors@),
            ..old(interpreter)@
        }),
{
    let ghost before = interpreter@;
    let mut i: usize = 0;
    assert(before.diagnostics + error_views(errors@).take(0) =~= before.diagnostics);
    while i < errors.len()
        invariant
            i <= errors.len(),
            interpreter.wf(),
            interpreter.arithmetic() == old(interpreter).arithmetic(),
            before == old(interpreter)@,
            interpreter@ == (InterpreterView {
                diagnostics: before.diagnostics + error_views(errors@).take(i as int),
                ..before
            }),
        decreases errors.len() - i,
    {
        interpreter.report(errors[i].clone());
        proof {
            assert((before.diagnostics + error_views(errors@).take(i as int)).push(errors@[i as int]@)
                =~= before.diagnostics + error_views(errors@).take(i + 1));
        }
        i += 1;
    }
    assert(error_views(errors@).take(errors.len() as int) =~= error_views(errors@));
}

/// Runs a source text on an interpreter.
///
/// A text with a lexical error is not parsed, and a text with a syntax
/// error is not run: their errors are reported, and the result is the scanner
/// error or the first error of the parser. Any other text is a program, which
/// the interpreter runs; an error of the running program is reported, and is
/// no failure of this function.
pub fn run<A: Arithmetic + Copy>(interpreter: &mut Interpreter<A>, source: String) -> (r: Result<
    (),
    RloxError,
>)
    requires
        old(interpreter).wf(),
        source@.len() < usize::MAX,
    ensures
        final(interpreter).wf(),
        final(interpreter).arithmetic() == old(interpreter).arithmetic(),
        ({
            let arith = old(interpreter).arithmetic();
            let before = old(interpreter)@;
            let after = final(interpreter)@;
            match tokens_of(arith, source@) {
                None => {
                    &&& r is Err
                    &&& r->Err_0@ == ErrorView::ScannerError
                    &&& after == (InterpreterView {
                        diagnostics: before.diagnostics + scan_from(arith, source@, 0, 1).errors,
                        ..before
                    })
                },
                Some(tokens) => {
                    let parsed = program(arith, tokens, 0);
                    if parsed.errors.len() > 0 {
                        &&& r is Err
                        &&& r->Err_0@ == parsed.errors[0]
                        &&& after == (InterpreterView {
                            diagnostics: before.diagnostics + parsed.errors,
                            ..before
                        })
                    } else {
                        let ran = crate::interpreter::run(
                            arith,
                            StmtView::Program(parsed.statements),
                            before.scopes,
                        );
                        &&& r is Ok
                        &&& after == (InterpreterView {
                            had_error: false,
                            scopes: ran.scopes,
                            output: before.output + ran.output,
                            diagnostics: before.diagnostics + optional_error(ran.error),
                        })
                    }
                },
            }
        }),
{
    let ghost before = interpreter@;
    let ghost text = source@;
    let arith = *interpreter.backend();
    let mut scanner = Scanner::new(source, arith);
    let scanned = scanner.scan_tokens();
    proof {
        let found = scan_from(&arith, text, 0, 1);
        assert(Seq::<ErrorView>::empty() + found.errors =~= found.errors);
        assert(Seq::<crate::token::TokenView>::empty() + found.tokens =~= found.tokens);
    }
    report_all(interpreter, scanner.diagnostics());
    let tokens = match scanned {
        Ok(tokens) => tokens,
        Err(e) => {
            return Err(e);
        },
    };
    proof {
        assert(before.diagnostics + Seq::<ErrorView>::empty() =~= before.diagnostics);
        law_scanned_tokens_parse(&arith, text);
    }
    let mut parser = Parser::new(tokens, arith);
    let parsed = parser.parse_program();
    proof {
        let p = program(&arith, crate::token::token_views(tokens@), 0);
        assert(Seq::<ErrorView>::empty() + p.errors =~= p.errors);
    }
    report_all(interpreter, parser.diagnostics());
    match parsed {
        Some(program) => {
            proof {
                assert(before.diagnostics + Seq::<ErrorView>::empty() =~= before.diagnostics);
            }
            interpreter.interpret(program);
            Ok(())
        },
        None => Err(parser.diagnostics()[0].clone()),
    }
}

} // verus!
