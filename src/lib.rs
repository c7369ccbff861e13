//! A miniature language toolchain: scanner, Pratt parser, bytecode compiler
//! and a stack virtual machine with spawn / sync / barrier primitives.
use vstd::prelude::*;

pub mod compiler;
pub mod grammar;
pub mod laws;
pub mod num;
pub mod parser;
pub mod preprocess;
pub mod scanner;
pub mod vm;

pub use compiler::{BytecodeCompiler, Compiler};
pub use parser::PrattParser;
pub use scanner::Scanner;
pub use vm::VM;

verus! {

/// Parses one expression from `source`. On a syntax error the token found and the byte
/// offset are those of the lookahead where the grammar fails.
pub fn parse_expr(source: &str) -> (r: Result<parser::Expr, parser::ParseError>)
    requires
        4 * source@.len() <= usize::MAX,
    ensures
        match grammar::parse_spec(source@) {
            Err(grammar::Failure::Lex(c)) => r == Err::<parser::Expr, parser::ParseError>(
                parser::ParseError::Lex(scanner::LexError::UnexpectedCharacter(c)),
            ),
            Err(grammar::Failure::Syntax(q)) => r matches Err(
                parser::ParseError::UnexpectedToken { found, position },
            ) && parser::look_ok(source@, q, found) && position == grammar::offset(source@, q),
            Ok(t) => r matches Ok(e) && grammar::tree(e) == t,
        },
{
    let mut parser = parser::PrattParser::new(scanner::Scanner::new(source))?;
    parser.expr(0)
}

} // verus!
