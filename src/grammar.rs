//! What the parser computes, stated over the source text: the lookahead token is the
//! lexeme `s[j..k]`, and each rule maps a lookahead position to a tree and the next one.
use crate::num::{decimal_value, Num};
use crate::parser::{binding_power, Expr};
use crate::scanner::{
    byte_len, consumed, is_ident_start, keyword, single_char_token, skip_spec, token_end, Token,
};
use crate::num::is_digit;
use vstd::prelude::*;

verus! {

broadcast use vstd::std_specs::vec::axiom_vec_index_decreases;

/// An expression tree with names as character sequences.
pub enum Tree {
    Number(Num),
    Ident(Seq<char>),
    Unary(Token, Box<Tree>),
    Binary(Box<Tree>, Token, Box<Tree>),
    Call(Seq<char>, Seq<Tree>),
    Function(Seq<char>, Seq<Seq<char>>, Seq<Tree>),
}

/// The tree of an expression.
pub open spec fn tree(e: Expr) -> Tree
    decreases e, 1nat,
{
    match e {
        Expr::Number(n) => Tree::Number(n),
        Expr::Ident(name) => Tree::Ident(name@),
        Expr::UnaryOp { op, rhs } => Tree::Unary(op, Box::new(tree(*rhs))),
        Expr::BinaryOp { lhs, op, rhs } => Tree::Binary(Box::new(tree(*lhs)), op, Box::new(tree(*rhs))),
        Expr::Call { name, args } => Tree::Call(name@, trees(args, args.len() as int)),
        Expr::Function { name, params, body } => Tree::Function(
            name@,
            params@.map_values(|p: String| p@),
            trees(body, body.len() as int),
        ),
    }
}

/// The trees of the first `n` expressions of `v`.
pub open spec fn trees(v: Vec<Expr>, n: int) -> Seq<Tree>
    decreases v, 0nat, n,
{
    if n <= 0 || n > v.len() {
        Seq::empty()
    } else {
        trees(v, n - 1).push(tree(v[n - 1]))
    }
}

/// Why the text is not an expression.
pub enum Failure {
    /// This character, met where a token should start, starts none.
    Lex(char),
    /// The lookahead token at this position is not allowed where it stands.
    Syntax(Pos),
}

/// The byte offset the scanner reports with the lookahead at `p`: just past the character
/// after the lookahead token.
pub open spec fn offset(s: Seq<char>, p: Pos) -> nat {
    byte_len(s.subrange(0, consumed(p.k, s.len() as int)))
}

/// The failure of scanning for a token from `i`.
pub open spec fn lex_failure(s: Seq<char>, i: int) -> Failure {
    Failure::Lex(s[skip_spec(s, i)])
}

/// A lookahead position: the lexeme `s[j..k]`, with the scanner's cursor at `k`. It is
/// the end of input when `j` is at the end of the text.
pub struct Pos {
    pub j: int,
    pub k: int,
}

/// The token after `i`, or `None` if a character there starts no token.
pub open spec fn lex(s: Seq<char>, i: int) -> Option<Pos> {
    let j = skip_spec(s, i);
    if j >= s.len() {
        Some(Pos { j, k: j })
    } else {
        match token_end(s, j) {
            Some(k) => Some(Pos { j, k }),
            None => None,
        }
    }
}

pub open spec fn at_end(s: Seq<char>, p: Pos) -> bool {
    p.j >= s.len()
}

pub open spec fn lexeme(s: Seq<char>, p: Pos) -> Seq<char> {
    s.subrange(p.j, p.k)
}

/// The lookahead token, or `None` for an identifier.
pub open spec fn look(s: Seq<char>, p: Pos) -> Option<Token> {
    if at_end(s, p) {
        Some(Token::Eof)
    } else if is_ident_start(s[p.j]) {
        keyword(lexeme(s, p))
    } else if is_digit(s[p.j]) {
        Some(Token::Number(Num { bits: decimal_value(lexeme(s, p)) }))
    } else {
        single_char_token(s[p.j])
    }
}

pub open spec fn is_ident(s: Seq<char>, p: Pos) -> bool {
    look(s, p) is None
}

pub open spec fn looks(s: Seq<char>, p: Pos, t: Token) -> bool {
    look(s, p) == Some(t)
}

pub open spec fn advance_spec(s: Seq<char>, p: Pos) -> Option<Pos> {
    lex(s, p.k)
}

pub open spec fn is_operator(t: Token) -> bool {
    t is Plus || t is Minus || t is Star || t is Slash
}

/// `expr(min_bp)`: a prefix rule, then infix operators binding at least as tightly as
/// `min_bp`.
pub open spec fn expr_spec(s: Seq<char>, p: Pos, min_bp: u8, f: nat) -> Result<(Tree, Pos), Failure>
    decreases f,
{
    if f == 0 {
        Err(Failure::Syntax(p))
    } else {
        match nud_spec(s, p, (f - 1) as nat) {
            Err(e) => Err(e),
            Ok((lhs, at1)) => loop_spec(s, at1, lhs, min_bp, (f - 1) as nat),
        }
    }
}

/// The infix loop: stops before the end, `)`, a token that is no operator, or an
/// operator binding no more tightly than `min_bp`, so that operators of equal power
/// group to the left.
pub open spec fn loop_spec(s: Seq<char>, p: Pos, lhs: Tree, min_bp: u8, f: nat) -> Result<(Tree, Pos), Failure>
    decreases f,
{
    if f == 0 {
        Err(Failure::Syntax(p))
    } else {
        match look(s, p) {
            Some(op) => if op is Eof || op is RParen || binding_power(op) <= min_bp {
                Ok((lhs, p))
            } else {
                match advance_spec(s, p) {
                    None => Err(lex_failure(s, p.k)),
                    Some(at2) => match led_spec(s, at2, lhs, op, (f - 1) as nat) {
                        Err(e) => Err(e),
                        Ok((l2, at3)) => loop_spec(s, at3, l2, min_bp, (f - 1) as nat),
                    },
                }
            },
            None => Ok((lhs, p)),
        }
    }
}

/// The infix rule for `op`, already consumed.
pub open spec fn led_spec(s: Seq<char>, p: Pos, lhs: Tree, op: Token, f: nat) -> Result<(Tree, Pos), Failure>
    decreases f,
{
    if f == 0 {
        Err(Failure::Syntax(p))
    } else if is_operator(op) {
        match expr_spec(s, p, binding_power(op), (f - 1) as nat) {
            Err(e) => Err(e),
            Ok((rhs, at2)) => Ok((Tree::Binary(Box::new(lhs), op, Box::new(rhs)), at2)),
        }
    } else {
        Ok((lhs, p))
    }
}

/// The prefix rules.
pub open spec fn nud_spec(s: Seq<char>, p: Pos, f: nat) -> Result<(Tree, Pos), Failure>
    decreases f,
{
    if f == 0 {
        Err(Failure::Syntax(p))
    } else if is_ident(s, p) {
        match advance_spec(s, p) {
            None => Err(lex_failure(s, p.k)),
            Some(at2) => if looks(s, at2, Token::LParen) {
                call_spec(s, at2, lexeme(s, p), (f - 1) as nat)
            } else {
                Ok((Tree::Ident(lexeme(s, p)), at2))
            },
        }
    } else {
        match look(s, p) {
            Some(Token::Number(n)) => match advance_spec(s, p) {
                None => Err(lex_failure(s, p.k)),
                Some(at2) => Ok((Tree::Number(n), at2)),
            },
            Some(Token::Minus) => match advance_spec(s, p) {
                None => Err(lex_failure(s, p.k)),
                Some(at2) => match expr_spec(s, at2, 100, (f - 1) as nat) {
                    Err(e) => Err(e),
                    Ok((rhs, at3)) => Ok((Tree::Unary(Token::Minus, Box::new(rhs)), at3)),
                },
            },
            Some(Token::LParen) => match advance_spec(s, p) {
                None => Err(lex_failure(s, p.k)),
                Some(at2) => match expr_spec(s, at2, 0, (f - 1) as nat) {
                    Err(e) => Err(e),
                    Ok((e, at3)) => if looks(s, at3, Token::RParen) {
                        match advance_spec(s, at3) {
                            None => Err(lex_failure(s, at3.k)),
                            Some(at4) => Ok((e, at4)),
                        }
                    } else {
                        Err(Failure::Syntax(at3))
                    },
                },
            },
            Some(Token::KeywordFn) => function_spec(s, p, (f - 1) as nat),
            _ => Err(Failure::Syntax(p)),
        }
    }
}

/// A call to `name`; the lookahead is its `(`.
pub open spec fn call_spec(s: Seq<char>, p: Pos, name: Seq<char>, f: nat) -> Result<(Tree, Pos), Failure>
    decreases f,
{
    if f == 0 {
        Err(Failure::Syntax(p))
    } else {
        match advance_spec(s, p) {
            None => Err(lex_failure(s, p.k)),
            Some(at1) => match args_spec(s, at1, Seq::empty(), (f - 1) as nat) {
                Err(e) => Err(e),
                Ok((args, at2)) => if looks(s, at2, Token::RParen) {
                    match advance_spec(s, at2) {
                        None => Err(lex_failure(s, at2.k)),
                        Some(at3) => Ok((Tree::Call(name, args), at3)),
                    }
                } else {
                    Err(Failure::Syntax(at2))
                },
            },
        }
    }
}

/// Arguments separated by `,`, after those in `acc`.
pub open spec fn args_spec(s: Seq<char>, p: Pos, acc: Seq<Tree>, f: nat) -> Result<(Seq<Tree>, Pos), Failure>
    decreases f,
{
    if f == 0 {
        Err(Failure::Syntax(p))
    } else if looks(s, p, Token::RParen) || at_end(s, p) {
        Ok((acc, p))
    } else {
        match expr_spec(s, p, 0, (f - 1) as nat) {
            Err(e) => Err(e),
            Ok((e, at1)) => if looks(s, at1, Token::Comma) {
                match advance_spec(s, at1) {
                    None => Err(lex_failure(s, at1.k)),
                    Some(at2) => args_spec(s, at2, acc.push(e), (f - 1) as nat),
                }
            } else {
                Ok((acc.push(e), at1))
            },
        }
    }
}

/// `fn name(params) { body }`; the lookahead is `fn`.
pub open spec fn function_spec(s: Seq<char>, p: Pos, f: nat) -> Result<(Tree, Pos), Failure>
    decreases f,
{
    if f == 0 {
        Err(Failure::Syntax(p))
    } else {
        match advance_spec(s, p) {
            None => Err(lex_failure(s, p.k)),
            Some(at1) => if !is_ident(s, at1) {
                Err(Failure::Syntax(at1))
            } else {
                match advance_spec(s, at1) {
                    None => Err(lex_failure(s, at1.k)),
                    Some(at2) => if !looks(s, at2, Token::LParen) {
                        Err(Failure::Syntax(at2))
                    } else {
                        match advance_spec(s, at2) {
                            None => Err(lex_failure(s, at2.k)),
                            Some(at3) => match params_spec(s, at3, Seq::empty(), (f - 1) as nat) {
                                Err(e) => Err(e),
                                Ok((params, at4)) => if !looks(s, at4, Token::RParen) {
                                    Err(Failure::Syntax(at4))
                                } else {
                                    match advance_spec(s, at4) {
                                        None => Err(lex_failure(s, at4.k)),
                                        Some(at5) => if !looks(s, at5, Token::LBrace) {
                                            Err(Failure::Syntax(at5))
                                        } else {
                                            match advance_spec(s, at5) {
                                                None => Err(lex_failure(s, at5.k)),
                                                Some(at6) => match body_spec(
                                                    s,
                                                    at6,
                                                    Seq::empty(),
                                                    (f - 1) as nat,
                                                ) {
                                                    Err(e) => Err(e),
                                                    Ok((body, at7)) => if !looks(
                                                        s,
                                                        at7,
                                                        Token::RBrace,
                                                    ) {
                                                        Err(Failure::Syntax(at7))
                                                    } else {
                                                        match advance_spec(s, at7) {
                                                            None => Err(lex_failure(s, at7.k)),
                                                            Some(at8) => Ok(
                                                                (
                                                                    Tree::Function(
                                                                        lexeme(s, at1),
                                                                        params,
                                                                        body,
                                                                    ),
                                                                    at8,
                                                                ),
                                                            ),
                                                        }
                                                    },
                                                },
                                            }
                                        },
                                    }
                                },
                            },
                        }
                    },
                }
            },
        }
    }
}

/// Parameter names separated by `,`, after those in `acc`.
pub open spec fn params_spec(s: Seq<char>, p: Pos, acc: Seq<Seq<char>>, f: nat) -> Result<(Seq<Seq<char>>, Pos), Failure>
    decreases f,
{
    if f == 0 {
        Err(Failure::Syntax(p))
    } else if !is_ident(s, p) {
        Ok((acc, p))
    } else {
        match advance_spec(s, p) {
            None => Err(lex_failure(s, p.k)),
            Some(at1) => if looks(s, at1, Token::Comma) {
                match advance_spec(s, at1) {
                    None => Err(lex_failure(s, at1.k)),
                    Some(at2) => params_spec(s, at2, acc.push(lexeme(s, p)), (f - 1) as nat),
                }
            } else {
                Ok((acc.push(lexeme(s, p)), at1))
            },
        }
    }
}

/// Statements up to `}` or the end, each optionally followed by `;`, after those in `acc`.
pub open spec fn body_spec(s: Seq<char>, p: Pos, acc: Seq<Tree>, f: nat) -> Result<(Seq<Tree>, Pos), Failure>
    decreases f,
{
    if f == 0 {
        Err(Failure::Syntax(p))
    } else if looks(s, p, Token::RBrace) || at_end(s, p) {
        Ok((acc, p))
    } else {
        match expr_spec(s, p, 0, (f - 1) as nat) {
            Err(e) => Err(e),
            Ok((e, at1)) => if looks(s, at1, Token::Semicolon) {
                match advance_spec(s, at1) {
                    None => Err(lex_failure(s, at1.k)),
                    Some(at2) => body_spec(s, at2, acc.push(e), (f - 1) as nat),
                }
            } else {
                body_spec(s, at1, acc.push(e), (f - 1) as nat)
            },
        }
    }
}

/// Fuel enough for every rule from `p` on: each rule call uses one unit, and between
/// two tokens at most four rules are entered.
pub open spec fn fuel(s: Seq<char>, p: Pos) -> nat {
    (4 * (2 * (s.len() - p.k) + if at_end(s, p) { 0int } else { 1int }) + 8) as nat
}

/// The tree of one expression at the start of `s`, if `s` begins with one.
pub open spec fn parse_spec(s: Seq<char>) -> Result<Tree, Failure> {
    match lex(s, 0) {
        None => Err(lex_failure(s, 0)),
        Some(p) => match expr_spec(s, p, 0, fuel(s, p)) {
            Err(e) => Err(e),
            Ok((t, _)) => Ok(t),
        },
    }
}

} // verus!
