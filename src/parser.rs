//! The Pratt (operator-precedence) parser: tokens to an expression tree.
use crate::num::Num;
use crate::grammar::{
    args_spec, at_end, body_spec, call_spec, expr_spec, fuel, function_spec, is_ident,
    is_operator, led_spec, offset, Failure, lex, lexeme, look, loop_spec, nud_spec, params_spec, tree, trees, Pos,
    Tree,
};
use crate::scanner::{denotes, lemma_skip_forward, skip_spec, token_end, LexError, Scanner, Token};
use vstd::prelude::*;

verus! {

broadcast use vstd::std_specs::vec::axiom_vec_index_decreases;

/// An expression tree. Each node owns its children.
#[derive(Debug, PartialEq)]
pub enum Expr {
    Number(Num),
    Ident(String),
    UnaryOp { op: Token, rhs: Box<Expr> },
    BinaryOp { lhs: Box<Expr>, op: Token, rhs: Box<Expr> },
    Call { name: String, args: Vec<Expr> },
    Function { name: String, params: Vec<String>, body: Vec<Expr> },
}


/// Why the text could not be parsed.
#[derive(Debug, Clone, PartialEq)]
pub enum ParseError {
    /// The scanner met a character that starts no token.
    Lex(LexError),
    /// A token that the grammar does not allow where it stands, with the byte offset
    /// reached in the source.
    UnexpectedToken { found: Token, position: usize },
}

/// A copy of `t`.
fn copy_token(t: &Token) -> (r: Token)
    ensures
        r == *t,
{
    match t {
        Token::Identifier(s) => Token::Identifier(s.clone()),
        Token::Number(n) => Token::Number(*n),
        Token::Plus => Token::Plus,
        Token::Minus => Token::Minus,
        Token::Star => Token::Star,
        Token::Slash => Token::Slash,
        Token::Assign => Token::Assign,
        Token::Semicolon => Token::Semicolon,
        Token::LParen => Token::LParen,
        Token::RParen => Token::RParen,
        Token::Comma => Token::Comma,
        Token::LBrace => Token::LBrace,
        Token::RBrace => Token::RBrace,
        Token::KeywordSpawn => Token::KeywordSpawn,
        Token::KeywordSync => Token::KeywordSync,
        Token::KeywordBarrier => Token::KeywordBarrier,
        Token::KeywordJump => Token::KeywordJump,
        Token::KeywordJz => Token::KeywordJz,
        Token::KeywordJnz => Token::KeywordJnz,
        Token::KeywordFn => Token::KeywordFn,
        Token::Eof => Token::Eof,
    }
}

/// Binding power of `t` as an infix operator: 10 for `+ -`, 20 for `* /`, else 0.
pub open spec fn binding_power(t: Token) -> u8 {
    match t {
        Token::Plus | Token::Minus => 10,
        Token::Star | Token::Slash => 20,
        _ => 0,
    }
}

/// The lexeme `s[p.j..p.k]` is token `t`; at the end of the text `t` is `Eof`.
pub open spec fn look_ok(s: Seq<char>, p: Pos, t: Token) -> bool {
    &&& 0 <= p.j <= p.k <= s.len()
    &&& if p.j >= s.len() {
        t is Eof && p.k == p.j
    } else {
        p.j < p.k && token_end(s, p.j) == Some(p.k) && denotes(t, s.subrange(p.j, p.k))
    }
}

/// What `look` says of a lookahead that `look_ok` describes.
pub proof fn lemma_look(s: Seq<char>, p: Pos, t: Token)
    requires
        look_ok(s, p, t),
    ensures
        (t is Identifier) == is_ident(s, p),
        t is Identifier ==> t->Identifier_0@ == lexeme(s, p),
        !(t is Identifier) ==> look(s, p) == Some(t),
        (t is Eof) == at_end(s, p),
{
}

/// The result of a rule, as the grammar gives it: on a syntax error, the token found and
/// the byte offset are those of the lookahead where the grammar fails.
pub open spec fn outcome(r: Result<Expr, ParseError>, spec: Result<(Tree, Pos), Failure>, after: PrattParser) -> bool {
    match spec {
        Err(Failure::Lex(c)) => r == Err::<Expr, ParseError>(ParseError::Lex(LexError::UnexpectedCharacter(c))),
        Err(Failure::Syntax(q)) => r matches Err(ParseError::UnexpectedToken { found, position })
            && look_ok(after.text(), q, found) && position == offset(after.text(), q),
        Ok((t, p)) => r is Ok && tree(r->Ok_0) == t && after.wf() && after.pos() == p,
    }
}

proof fn lemma_trees_prefix(v1: Vec<Expr>, v2: Vec<Expr>, n: int)
    requires
        0 <= n <= v1.len(),
        n <= v2.len(),
        forall|i: int| 0 <= i < n ==> v1@[i] == v2@[i],
    ensures
        trees(v1, n) == trees(v2, n),
    decreases n,
{
    if n > 0 {
        lemma_trees_prefix(v1, v2, n - 1);
        assert(v1[n - 1] == v2[n - 1]);
    }
}

proof fn lemma_trees_push(v1: Vec<Expr>, v2: Vec<Expr>, e: Expr)
    requires
        v2@ == v1@.push(e),
    ensures
        trees(v2, v2.len() as int) == trees(v1, v1.len() as int).push(tree(e)),
{
    lemma_trees_prefix(v1, v2, v1.len() as int);
    assert(v2[v1.len() as int] == e);
}

/// A Pratt parser over one scanner, with one token of lookahead.
pub struct PrattParser<'a> {
    scanner: Scanner<'a>,
    current: Token,
    /// Where the lookahead token starts in the text.
    start: Ghost<int>,
}

impl<'a> PrattParser<'a> {
    /// The source text.
    pub closed spec fn text(&self) -> Seq<char> {
        self.scanner.text()
    }

    /// The lookahead token.
    pub closed spec fn lookahead(&self) -> Token {
        self.current
    }

    /// The lookahead position.
    pub closed spec fn pos(&self) -> Pos {
        Pos { j: self.start@, k: self.scanner.cursor() }
    }

    pub closed spec fn wf(&self) -> bool {
        &&& self.scanner.wf()
        &&& look_ok(self.text(), self.pos(), self.current)
        &&& self.scanner.remaining() == self.text().len() - self.scanner.cursor()
        &&& (self.current is Identifier) == is_ident(self.text(), self.pos())
        &&& self.current is Identifier ==> self.current->Identifier_0@ == lexeme(self.text(), self.pos())
        &&& !(self.current is Identifier) ==> look(self.text(), self.pos()) == Some(self.current)
        &&& (self.current is Eof) == at_end(self.text(), self.pos())
    }

    /// Input left to parse: it falls with every token consumed.
    pub closed spec fn measure(&self) -> nat {
        2 * self.scanner.remaining() + if self.current is Eof {
            0nat
        } else {
            1nat
        }
    }

    /// A parser whose lookahead is the scanner's next token.
    pub fn new(scanner: Scanner<'a>) -> (r: Result<PrattParser<'a>, ParseError>)
        requires
            scanner.wf(),
        ensures
            match lex(scanner.text(), scanner.cursor()) {
                None => r == Err::<PrattParser<'a>, ParseError>(ParseError::Lex(LexError::UnexpectedCharacter(
                    scanner.text()[skip_spec(scanner.text(), scanner.cursor())],
                ))),
                Some(p) => r matches Ok(q) && q.wf() && q.text() == scanner.text() && q.pos() == p,
            },
    {
        let mut parser = PrattParser { scanner, current: Token::Eof, start: Ghost(0) };
        match parser.advance() {
            Ok(()) => Ok(parser),
            Err(e) => Err(e),
        }
    }

    /// Replaces the lookahead with the scanner's next token.
    fn advance(&mut self) -> (r: Result<(), ParseError>)
        requires
            old(self).scanner.wf(),
        ensures
            final(self).text() == old(self).text(),
            final(self).measure() <= old(self).measure(),
            r is Ok && !(old(self).current is Eof) ==> final(self).measure() < old(self).measure(),
            match lex(old(self).text(), old(self).scanner.cursor()) {
                None => r == Err::<(), ParseError>(ParseError::Lex(LexError::UnexpectedCharacter(
                    old(self).text()[skip_spec(old(self).text(), old(self).scanner.cursor())],
                ))),
                Some(p) => r is Ok && final(self).wf() && final(self).pos() == p,
            },
    {
        proof {
            self.scanner.lemma_bounds();
            lemma_skip_forward(self.text(), self.scanner.cursor());
        }
        let ghost j = crate::scanner::skip_spec(self.text(), self.scanner.cursor());
        match self.scanner.next_token() {
            Ok(t) => {
                self.current = t;
                self.start = Ghost(j);
                proof {
                    self.scanner.lemma_bounds();
                    lemma_look(self.text(), self.pos(), self.current);
                }
                Ok(())
            },
            Err(e) => Err(ParseError::Lex(e)),
        }
    }

    fn unexpected(&self) -> (r: ParseError)
        requires
            self.wf(),
        ensures
            r matches ParseError::UnexpectedToken { found, position } && found == self.lookahead()
                && position == offset(self.text(), self.pos()),
    {
        ParseError::UnexpectedToken {
            found: copy_token(&self.current),
            position: self.scanner.current_position(),
        }
    }

    fn at_eof(&self) -> (r: bool)
        ensures
            r == (self.current is Eof),
    {
        matches!(self.current, Token::Eof)
    }

    /// Parses `fn name(p, ...) { e; ... }`; the lookahead is the `fn` keyword.
    pub fn parse_function(&mut self) -> (r: Result<Expr, ParseError>)
        requires
            old(self).wf(),
            old(self).lookahead() is KeywordFn,
        ensures
            final(self).text() == old(self).text(),
            outcome(r, function_spec(old(self).text(), old(self).pos(), fuel(old(self).text(), old(self).pos())), *final(self)),
    {
        proof { self.scanner.lemma_bounds(); }
        self.function_fuel(Ghost(fuel(self.text(), self.pos())))
    }

    fn function_fuel(&mut self, Ghost(f): Ghost<nat>) -> (r: Result<Expr, ParseError>)
        requires
            old(self).wf(),
            old(self).current is KeywordFn,
            f >= 4 * old(self).measure(),
        ensures
            final(self).text() == old(self).text(),
            final(self).measure() <= old(self).measure(),
            r is Ok ==> final(self).measure() < old(self).measure(),
            outcome(r, function_spec(old(self).text(), old(self).pos(), f), *final(self)),
        decreases old(self).measure(), 0nat,
    {
        let ghost s = self.text();
        let ghost m0 = self.measure();
        self.advance()?;
        let name = match &self.current {
            Token::Identifier(name) => name.clone(),
            _ => {
                return Err(self.unexpected());
            },
        };
        let ghost at1 = self.pos();
        self.advance()?;
        if !matches!(self.current, Token::LParen) {
            return Err(self.unexpected());
        }
        self.advance()?;
        let ghost at3 = self.pos();
        let mut params: Vec<String> = Vec::new();
        let ghost mut g: nat = (f - 1) as nat;
        proof {
            assert(params@.map_values(|q: String| q@) =~= Seq::<Seq<char>>::empty());
        }
        loop
            invariant_except_break
                g >= 4 * self.measure() + 1,
                params_spec(s, self.pos(), params@.map_values(|q: String| q@), g) == params_spec(s, at3, Seq::empty(), (f - 1) as nat),
            invariant
                params_spec(s, at3, Seq::empty(), (f - 1) as nat) is Err ==> function_spec(s, old(self).pos(), f) == Err::<(Tree, Pos), Failure>(params_spec(s, at3, Seq::empty(), (f - 1) as nat)->Err_0),
                self.wf(),
                self.text() == s,
                s == old(self).text(),
                self.measure() < m0,
                m0 == old(self).measure(),
            ensures
                self.wf(),
                self.text() == s,
                self.measure() < m0,
                params_spec(s, at3, Seq::empty(), (f - 1) as nat) == Ok::<_, Failure>((params@.map_values(|q: String| q@), self.pos())),
            decreases self.measure(),
        {
            let param = match &self.current {
                Token::Identifier(param) => param.clone(),
                _ => {
                    break;
                },
            };
            let ghost pp = self.pos();
            let ghost before = params@;
            params.push(param);
            proof {
                assert(params@.map_values(|q: String| q@) =~= before.map_values(|q: String| q@).push(lexeme(s, pp)));
            }
            self.advance()?;
            if matches!(self.current, Token::Comma) {
                self.advance()?;
                proof {
                    g = (g - 1) as nat;
                }
            } else {
                break;
            }
        }
        if !matches!(self.current, Token::RParen) {
            return Err(self.unexpected());
        }
        self.advance()?;
        if !matches!(self.current, Token::LBrace) {
            return Err(self.unexpected());
        }
        self.advance()?;
        let ghost at6 = self.pos();
        let mut body: Vec<Expr> = Vec::new();
        let ghost mut g: nat = (f - 1) as nat;
        proof {
            assert(trees(body, 0) == Seq::<Tree>::empty());
        }
        while !matches!(self.current, Token::RBrace) && !self.at_eof()
            invariant
                self.wf(),
                self.text() == s,
                s == old(self).text(),
                self.measure() < m0,
                m0 == old(self).measure(),
                g >= 4 * self.measure() + 3,
                body_spec(s, self.pos(), trees(body, body.len() as int), g) == body_spec(s, at6, Seq::empty(), (f - 1) as nat),
                body_spec(s, at6, Seq::empty(), (f - 1) as nat) is Err ==> function_spec(s, old(self).pos(), f) == Err::<(Tree, Pos), Failure>(body_spec(s, at6, Seq::empty(), (f - 1) as nat)->Err_0),
            decreases self.measure(),
        {
            let e = self.expr_fuel(0, Ghost((g - 1) as nat))?;
            let ghost before = body;
            body.push(e);
            proof {
                lemma_trees_push(before, body, e);
            }
            if matches!(self.current, Token::Semicolon) {
                self.advance()?;
            }
            proof {
                g = (g - 1) as nat;
            }
        }
        if !matches!(self.current, Token::RBrace) {
            return Err(self.unexpected());
        }
        self.advance()?;
        Ok(Expr::Function { name, params, body })
    }

    /// Parses the arguments of a call to `name`; the lookahead is the `(` after the name.
    pub fn parse_call(&mut self, name: String) -> (r: Result<Expr, ParseError>)
        requires
            old(self).wf(),
            old(self).lookahead() is LParen,
        ensures
            final(self).text() == old(self).text(),
            outcome(r, call_spec(old(self).text(), old(self).pos(), name@, fuel(old(self).text(), old(self).pos())), *final(self)),
    {
        proof { self.scanner.lemma_bounds(); }
        self.call_fuel(name, Ghost(fuel(self.text(), self.pos())))
    }

    fn call_fuel(&mut self, name: String, Ghost(f): Ghost<nat>) -> (r: Result<Expr, ParseError>)
        requires
            old(self).wf(),
            old(self).current is LParen,
            f >= 4 * old(self).measure(),
        ensures
            final(self).text() == old(self).text(),
            final(self).measure() <= old(self).measure(),
            r is Ok ==> final(self).measure() < old(self).measure(),
            outcome(r, call_spec(old(self).text(), old(self).pos(), name@, f), *final(self)),
        decreases old(self).measure(), 0nat,
    {
        let ghost s = self.text();
        let ghost m0 = self.measure();
        self.advance()?;
        let ghost at1 = self.pos();
        let mut args: Vec<Expr> = Vec::new();
        let ghost mut g: nat = (f - 1) as nat;
        proof {
            assert(trees(args, 0) == Seq::<Tree>::empty());
        }
        loop
            invariant_except_break
                g >= 4 * self.measure() + 3,
                args_spec(s, self.pos(), trees(args, args.len() as int), g) == args_spec(s, at1, Seq::empty(), (f - 1) as nat),
            invariant
                args_spec(s, at1, Seq::empty(), (f - 1) as nat) is Err ==> call_spec(s, old(self).pos(), name@, f) == Err::<(Tree, Pos), Failure>(args_spec(s, at1, Seq::empty(), (f - 1) as nat)->Err_0),
                self.wf(),
                self.text() == s,
                s == old(self).text(),
                self.measure() < m0,
                m0 == old(self).measure(),
            ensures
                self.wf(),
                self.text() == s,
                self.measure() < m0,
                args_spec(s, at1, Seq::empty(), (f - 1) as nat) == Ok::<_, Failure>((trees(args, args.len() as int), self.pos())),
            decreases self.measure(),
        {
            if matches!(self.current, Token::RParen) || self.at_eof() {
                break;
            }
            let e = self.expr_fuel(0, Ghost((g - 1) as nat))?;
            let ghost before = args;
            args.push(e);
            proof {
                lemma_trees_push(before, args, e);
            }
            if matches!(self.current, Token::Comma) {
                self.advance()?;
                proof {
                    g = (g - 1) as nat;
                }
            } else {
                break;
            }
        }
        if !matches!(self.current, Token::RParen) {
            return Err(self.unexpected());
        }
        self.advance()?;
        Ok(Expr::Call { name, args })
    }

    /// The prefix rule for the lookahead token.
    fn nud(&mut self, Ghost(f): Ghost<nat>) -> (r: Result<Expr, ParseError>)
        requires
            old(self).wf(),
            f >= 4 * old(self).measure() + 1,
        ensures
            final(self).text() == old(self).text(),
            final(self).measure() <= old(self).measure(),
            r is Ok ==> final(self).measure() < old(self).measure(),
            outcome(r, nud_spec(old(self).text(), old(self).pos(), f), *final(self)),
        decreases old(self).measure(), 1nat,
    {
        match &self.current {
            Token::Number(n) => {
                let n = *n;
                self.advance()?;
                Ok(Expr::Number(n))
            },
            Token::Identifier(name) => {
                let name = name.clone();
                self.advance()?;
                if matches!(self.current, Token::LParen) {
                    self.call_fuel(name, Ghost((f - 1) as nat))
                } else {
                    Ok(Expr::Ident(name))
                }
            },
            Token::Minus => {
                self.advance()?;
                let rhs = self.expr_fuel(100, Ghost((f - 1) as nat))?;
                Ok(Expr::UnaryOp { op: Token::Minus, rhs: Box::new(rhs) })
            },
            Token::LParen => {
                self.advance()?;
                let e = self.expr_fuel(0, Ghost((f - 1) as nat))?;
                if !matches!(self.current, Token::RParen) {
                    return Err(self.unexpected());
                }
                self.advance()?;
                Ok(e)
            },
            Token::KeywordFn => self.function_fuel(Ghost((f - 1) as nat)),
            _ => Err(self.unexpected()),
        }
    }

    fn lbp(token: &Token) -> (r: u8)
        ensures
            r == binding_power(*token),
    {
        match token {
            Token::Plus | Token::Minus => 10,
            Token::Star | Token::Slash => 20,
            _ => 0,
        }
    }

    /// The infix rule for `token`, already consumed, with `lhs` as its left operand; a token
    /// that is no infix operator leaves `lhs` as it is.
    fn led(&mut self, lhs: Expr, token: Token, Ghost(f): Ghost<nat>) -> (r: Result<Expr, ParseError>)
        requires
            old(self).wf(),
            f >= 4 * old(self).measure() + 3,
        ensures
            final(self).text() == old(self).text(),
            final(self).measure() <= old(self).measure(),
            outcome(r, led_spec(old(self).text(), old(self).pos(), tree(lhs), token, f), *final(self)),
        decreases old(self).measure(), 3nat,
    {
        match token {
            Token::Plus | Token::Minus | Token::Star | Token::Slash => {
                let rbp = Self::lbp(&token);
                let rhs = self.expr_fuel(rbp, Ghost((f - 1) as nat))?;
                Ok(Expr::BinaryOp { lhs: Box::new(lhs), op: token, rhs: Box::new(rhs) })
            },
            _ => Ok(lhs),
        }
    }

    /// Parses one expression whose operators bind more tightly than `min_bp`; stops before
    /// the first token that is not such an operator. Operators of equal power group to
    /// the left.
    pub fn expr(&mut self, min_bp: u8) -> (r: Result<Expr, ParseError>)
        requires
            old(self).wf(),
        ensures
            final(self).text() == old(self).text(),
            outcome(r, expr_spec(old(self).text(), old(self).pos(), min_bp, fuel(old(self).text(), old(self).pos())), *final(self)),
    {
        proof { self.scanner.lemma_bounds(); }
        self.expr_fuel(min_bp, Ghost(fuel(self.text(), self.pos())))
    }

    fn expr_fuel(&mut self, min_bp: u8, Ghost(f): Ghost<nat>) -> (r: Result<Expr, ParseError>)
        requires
            old(self).wf(),
            f >= 4 * old(self).measure() + 2,
        ensures
            final(self).text() == old(self).text(),
            final(self).measure() <= old(self).measure(),
            r is Ok ==> final(self).measure() < old(self).measure(),
            outcome(r, expr_spec(old(self).text(), old(self).pos(), min_bp, f), *final(self)),
        decreases old(self).measure(), 2nat,
    {
        let ghost s = self.text();
        let ghost m0 = self.measure();
        let ghost at0 = self.pos();
        let mut lhs = self.nud(Ghost((f - 1) as nat))?;
        let ghost at1 = self.pos();
        let ghost l1 = tree(lhs);
        let ghost mut g: nat = (f - 1) as nat;
        loop
            invariant_except_break
                g >= 4 * self.measure() + 3,
                loop_spec(s, self.pos(), tree(lhs), min_bp, g) == loop_spec(s, at1, l1, min_bp, (f - 1) as nat),
            invariant
                expr_spec(s, old(self).pos(), min_bp, f) == loop_spec(s, at1, l1, min_bp, (f - 1) as nat),
                self.wf(),
                self.text() == s,
                s == old(self).text(),
                self.measure() < m0,
                m0 == old(self).measure(),
            ensures
                self.wf(),
                self.text() == s,
                self.measure() < m0,
                loop_spec(s, at1, l1, min_bp, (f - 1) as nat) == Ok::<_, Failure>((tree(lhs), self.pos())),
            decreases self.measure(),
        {
            if self.at_eof() || matches!(self.current, Token::RParen) {
                break;
            }
            let lbp = Self::lbp(&self.current);
            if lbp <= min_bp {
                break;
            }
            let op = copy_token(&self.current);
            self.advance()?;
            lhs = self.led(lhs, op, Ghost((g - 1) as nat))?;
            proof {
                g = (g - 1) as nat;
            }
        }
        Ok(lhs)
    }
}

} // verus!
