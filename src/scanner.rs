//! The lexical scanner: source text to tokens, one at a time.
use crate::num::{decimal_value, is_decimal_literal, is_digit, Num};
use vstd::prelude::*;

verus! {

/// A lexical token.
#[derive(Debug, Clone, PartialEq)]
pub enum Token {
    Identifier(String),
    Number(Num),
    Plus,
    Minus,
    Star,
    Slash,
    Assign,
    Semicolon,
    LParen,
    RParen,
    Comma,
    LBrace,
    RBrace,
    KeywordSpawn,
    KeywordSync,
    KeywordBarrier,
    KeywordJump,
    KeywordJz,
    KeywordJnz,
    KeywordFn,
    Eof,
}

/// Why the scanner could not produce a token.
#[derive(Debug, Clone, Copy, PartialEq, Eq, Structural)]
pub enum LexError {
    /// A character that starts no token.
    UnexpectedCharacter(char),
}

/// Whether `c` has the Unicode `White_Space` property, which is what `char::is_whitespace`
/// tests: tab through carriage return, space, next line, no-break space, ogham space mark,
/// en quad through hair space, line and paragraph separators, narrow no-break space,
/// medium mathematical space and ideographic space.
pub open spec fn unicode_whitespace(c: char) -> bool {
    let v = c as u32;
    (0x09 <= v && v <= 0x0D) || v == 0x20 || v == 0x85 || v == 0xA0 || v == 0x1680 || (0x2000
        <= v && v <= 0x200A) || v == 0x2028 || v == 0x2029 || v == 0x202F || v == 0x205F || v
        == 0x3000
}

/// Whether `char::is_alphanumeric` holds (Unicode `Alphabetic` or `Numeric`).
pub uninterp spec fn unicode_alphanumeric(c: char) -> bool;

/// Whether `c` is Unicode whitespace.
pub(crate) fn is_whitespace(c: char) -> (r: bool)
    ensures
        r == unicode_whitespace(c),
{
    let v = c as u32;
    (0x09 <= v && v <= 0x0D) || v == 0x20 || v == 0x85 || v == 0xA0 || v == 0x1680 || (0x2000
        <= v && v <= 0x200A) || v == 0x2028 || v == 0x2029 || v == 0x202F || v == 0x205F || v
        == 0x3000
}

/// Relies on `char::is_alphanumeric`, a function of the character alone.
#[verifier::external_body]
fn is_alphanumeric(c: char) -> (r: bool)
    ensures
        r == unicode_alphanumeric(c),
        (c as u32) < 0x80 ==> r == (is_ascii_alpha(c) || is_digit(c)),
{
    c.is_alphanumeric()
}

pub open spec fn is_ascii_alpha(c: char) -> bool {
    ('a' <= c && c <= 'z') || ('A' <= c && c <= 'Z')
}

pub open spec fn is_ident_start(c: char) -> bool {
    is_ascii_alpha(c) || c == '_'
}

pub open spec fn is_ident_char(c: char) -> bool {
    unicode_alphanumeric(c) || c == '_'
}

/// Number of bytes of `c` in UTF-8.
pub open spec fn utf8_len(c: char) -> nat {
    if (c as u32) < 0x80 {
        1
    } else if (c as u32) < 0x800 {
        2
    } else if (c as u32) < 0x10000 {
        3
    } else {
        4
    }
}

/// Number of bytes of `s` in UTF-8.
pub open spec fn byte_len(s: Seq<char>) -> nat
    decreases s.len(),
{
    if s.len() == 0 {
        0
    } else {
        byte_len(s.drop_last()) + utf8_len(s.last())
    }
}

/// Index of the first character at or after `i` that is not whitespace and does not
/// start a `//` comment.
pub open spec fn skip_spec(s: Seq<char>, i: int) -> int
    decreases s.len() - i, 0nat,
{
    if 0 <= i < s.len() && unicode_whitespace(s[i]) {
        skip_spec(s, i + 1)
    } else if 0 <= i && i + 1 < s.len() && s[i] == '/' && s[i + 1] == '/' {
        skip_comment(s, i + 2)
    } else {
        i
    }
}

/// Skips the rest of a line comment from `i`, up to (not over) the next `\n`, then
/// goes on skipping.
pub open spec fn skip_comment(s: Seq<char>, i: int) -> int
    decreases s.len() - i, 1nat,
{
    if 0 <= i < s.len() && s[i] != '\n' {
        skip_comment(s, i + 1)
    } else {
        skip_spec(s, i)
    }
}

/// Index of the first character at or after `i` that is not a decimal digit.
pub open spec fn digits_end(s: Seq<char>, i: int) -> int
    decreases s.len() - i,
{
    if 0 <= i < s.len() && is_digit(s[i]) {
        digits_end(s, i + 1)
    } else {
        i
    }
}

/// Index of the first character at or after `i` that cannot continue an identifier.
pub open spec fn ident_end(s: Seq<char>, i: int) -> int
    decreases s.len() - i,
{
    if 0 <= i < s.len() && is_ident_char(s[i]) {
        ident_end(s, i + 1)
    } else {
        i
    }
}

/// End of a number literal at `j`: its digits, then `.` and digits if a digit follows the `.`.
pub open spec fn number_end(s: Seq<char>, j: int) -> int {
    let k = digits_end(s, j);
    if k + 1 < s.len() && s[k] == '.' && is_digit(s[k + 1]) {
        digits_end(s, k + 1)
    } else {
        k
    }
}

/// The token of a character that is a token by itself.
pub open spec fn single_char_token(c: char) -> Option<Token> {
    if c == '+' {
        Some(Token::Plus)
    } else if c == '-' {
        Some(Token::Minus)
    } else if c == '*' {
        Some(Token::Star)
    } else if c == '/' {
        Some(Token::Slash)
    } else if c == '=' {
        Some(Token::Assign)
    } else if c == ';' {
        Some(Token::Semicolon)
    } else if c == '(' {
        Some(Token::LParen)
    } else if c == ')' {
        Some(Token::RParen)
    } else if c == ',' {
        Some(Token::Comma)
    } else if c == '{' {
        Some(Token::LBrace)
    } else if c == '}' {
        Some(Token::RBrace)
    } else {
        None
    }
}

/// The keyword spelled `text`, if any.
pub open spec fn keyword(text: Seq<char>) -> Option<Token> {
    if text == "spawn"@ {
        Some(Token::KeywordSpawn)
    } else if text == "sync"@ {
        Some(Token::KeywordSync)
    } else if text == "barrier"@ {
        Some(Token::KeywordBarrier)
    } else if text == "jump"@ {
        Some(Token::KeywordJump)
    } else if text == "jz"@ {
        Some(Token::KeywordJz)
    } else if text == "jnz"@ {
        Some(Token::KeywordJnz)
    } else if text == "fn"@ {
        Some(Token::KeywordFn)
    } else {
        None
    }
}

/// End of the token that starts at `j` (after whitespace), or `None` if `s[j]` starts none.
pub open spec fn token_end(s: Seq<char>, j: int) -> Option<int> {
    if is_ident_start(s[j]) {
        Some(ident_end(s, j))
    } else if is_digit(s[j]) {
        Some(number_end(s, j))
    } else if single_char_token(s[j]) is Some {
        Some(j + 1)
    } else {
        None
    }
}

/// `t` is the token written `text`.
pub open spec fn denotes(t: Token, text: Seq<char>) -> bool {
    let c = text[0];
    if is_ident_start(c) {
        match keyword(text) {
            Some(k) => t == k,
            None => t is Identifier && t->Identifier_0@ == text,
        }
    } else if is_digit(c) {
        t == Token::Number(Num { bits: decimal_value(text) })
    } else {
        single_char_token(c) == Some(t)
    }
}

proof fn lemma_byte_len_bound(s: Seq<char>)
    ensures
        byte_len(s) <= 4 * s.len(),
    decreases s.len(),
{
    if s.len() > 0 {
        lemma_byte_len_bound(s.drop_last());
    }
}

pub proof fn lemma_skip_forward(s: Seq<char>, i: int)
    requires
        0 <= i <= s.len(),
    ensures
        i <= skip_spec(s, i) <= s.len(),
    decreases s.len() - i, 0nat,
{
    if 0 <= i < s.len() && unicode_whitespace(s[i]) {
        lemma_skip_forward(s, i + 1);
    } else if 0 <= i && i + 1 < s.len() && s[i] == '/' && s[i + 1] == '/' {
        lemma_comment_forward(s, i + 2);
    }
}

proof fn lemma_comment_forward(s: Seq<char>, i: int)
    requires
        0 <= i <= s.len(),
    ensures
        i <= skip_comment(s, i) <= s.len(),
    decreases s.len() - i, 1nat,
{
    if 0 <= i < s.len() && s[i] != '\n' {
        lemma_comment_forward(s, i + 1);
    } else {
        lemma_skip_forward(s, i);
    }
}

proof fn lemma_digits_end(s: Seq<char>, i: int)
    requires
        0 <= i <= s.len(),
    ensures
        i <= digits_end(s, i) <= s.len(),
        forall|m: int| i <= m < digits_end(s, i) ==> is_digit(#[trigger] s[m]),
    decreases s.len() - i,
{
    if 0 <= i < s.len() && is_digit(s[i]) {
        lemma_digits_end(s, i + 1);
    }
}

proof fn lemma_ident_end(s: Seq<char>, i: int)
    requires
        0 <= i <= s.len(),
    ensures
        i <= ident_end(s, i) <= s.len(),
    decreases s.len() - i,
{
    if 0 <= i < s.len() && is_ident_char(s[i]) {
        lemma_ident_end(s, i + 1);
    }
}

/// Index just past the character that the scanner holds as current.
pub open spec fn consumed(cur: int, len: int) -> int {
    if cur < len { cur + 1 } else { len }
}

/// Produces tokens from a source text; holds one current character.
pub struct Scanner<'a> {
    input: &'a str,
    chars: Vec<char>,
    cur: usize,
    pos: usize,
}

impl<'a> Scanner<'a> {
    /// The source text.
    pub closed spec fn text(&self) -> Seq<char> {
        self.chars@
    }

    /// Index of the current character; the text's length once it is all consumed.
    pub closed spec fn cursor(&self) -> int {
        self.cur as int
    }

    pub closed spec fn wf(&self) -> bool {
        &&& self.chars@ == self.input@
        &&& self.cur <= self.chars.len()
        &&& 4 * self.chars.len() <= usize::MAX
        &&& self.pos == byte_len(
            self.chars@.subrange(0, consumed(self.cur as int, self.chars.len() as int)),
        )
    }

    /// Characters not yet turned into tokens, the current one included.
    pub closed spec fn remaining(&self) -> nat {
        (self.chars.len() - self.cur) as nat
    }

    pub proof fn lemma_bounds(&self)
        requires
            self.wf(),
        ensures
            0 <= self.cursor() <= self.text().len(),
            self.remaining() == self.text().len() - self.cursor(),
    {
    }

    /// A scanner whose current character is the first of `input`.
    pub fn new(input: &'a str) -> (r: Scanner<'a>)
        requires
            4 * input@.len() <= usize::MAX,
        ensures
            r.wf(),
            r.text() == input@,
            r.cursor() == 0,
    {
        let n = input.unicode_len();
        let mut chars: Vec<char> = Vec::new();
        let mut i: usize = 0;
        while i < n
            invariant
                n == input@.len(),
                i <= n,
                chars@ == input@.subrange(0, i as int),
            decreases n - i,
        {
            chars.push(input.get_char(i));
            i = i + 1;
            proof {
                assert(chars@ =~= input@.subrange(0, i as int));
            }
        }
        proof {
            assert(chars@ =~= input@);
        }
        let pos = if n > 0 {
            char_byte_len(chars[0])
        } else {
            0
        };
        let s = Scanner { input, chars, cur: 0, pos };
        proof {
            if n > 0 {
                let t = s.chars@.subrange(0, 1);
                assert(t.drop_last() =~= Seq::<char>::empty());
                assert(byte_len(t.drop_last()) == 0);
                assert(byte_len(t) == utf8_len(s.chars@[0]));
            } else {
                assert(s.chars@.subrange(0, 0) =~= Seq::<char>::empty());
                assert(byte_len(s.chars@.subrange(0, 0)) == 0);
            }
        }
        s
    }

    /// Moves to the next character.
    fn bump(&mut self)
        requires
            old(self).wf(),
        ensures
            final(self).wf(),
            final(self).text() == old(self).text(),
            final(self).input == old(self).input,
            final(self).cursor() == consumed(old(self).cursor(), old(self).text().len() as int),
    {
        let len = self.chars.len();
        if self.cur < len {
            let next = self.cur + 1;
            if next < len {
                proof {
                    let t = self.chars@.subrange(0, next + 1);
                    assert(t.drop_last() =~= self.chars@.subrange(0, next as int));
                    lemma_byte_len_bound(t);
                }
                self.pos = self.pos + char_byte_len(self.chars[next]);
            }
            self.cur = next;
        }
    }

    fn skip_whitespace_and_comments(&mut self)
        requires
            old(self).wf(),
        ensures
            final(self).wf(),
            final(self).text() == old(self).text(),
            final(self).input == old(self).input,
            final(self).cursor() == skip_spec(old(self).text(), old(self).cursor()),
    {
        let ghost s = self.text();
        let ghost target = skip_spec(s, self.cursor());
        loop
            invariant
                s == old(self).text(),
                target == skip_spec(old(self).text(), old(self).cursor()),
                self.wf(),
                self.text() == s,
                self.input == old(self).input,
                skip_spec(s, self.cursor()) == target,
            ensures
                self.cursor() == target,
            decreases s.len() - self.cursor(),
        {
            let ghost c0 = self.cursor();
            while self.cur < self.chars.len() && is_whitespace(self.chars[self.cur])
                invariant
                    c0 <= self.cursor(),
                    self.wf(),
                    self.text() == s,
                    self.input == old(self).input,
                    skip_spec(s, self.cursor()) == target,
                decreases s.len() - self.cursor(),
            {
                self.bump();
            }
            if self.cur < self.chars.len() && self.chars[self.cur] == '/' && matches!(self.peek(), Some('/')) {
                let ghost start = self.cursor();
                while self.cur < self.chars.len() && self.chars[self.cur] != '\n'
                    invariant
                        self.wf(),
                        self.text() == s,
                        self.input == old(self).input,
                        c0 <= start,
                        0 <= start,
                        start + 2 <= s.len(),
                        s[start] == '/' && s[start + 1] == '/',
                        start <= self.cursor(),
                        self.cursor() == start || self.cursor() == start + 1 ==> skip_comment(s, start + 2) == target,
                        self.cursor() >= start + 2 ==> skip_comment(s, self.cursor()) == target,
                    decreases s.len() - self.cursor(),
                {
                    self.bump();
                }
            } else {
                proof {
                    assert(skip_spec(s, self.cursor()) == self.cursor());
                }
                break;
            }
        }
    }

    /// Scans a maximal run of identifier characters: a keyword, or else an identifier.
    fn identifier_or_keyword(&mut self) -> (t: Token)
        requires
            old(self).wf(),
            old(self).cursor() < old(self).text().len(),
            is_ident_start(old(self).text()[old(self).cursor()]),
        ensures
            final(self).wf(),
            final(self).text() == old(self).text(),
            final(self).input == old(self).input,
            final(self).cursor() == ident_end(old(self).text(), old(self).cursor()),
            final(self).cursor() > old(self).cursor(),
            denotes(t, old(self).text().subrange(old(self).cursor(), final(self).cursor())),
    {
        let ghost s = self.text();
        let start = self.cur;
        let first = is_alphanumeric_or_underscore(self.chars[start]);
        while self.cur < self.chars.len() && is_alphanumeric_or_underscore(self.chars[self.cur])
            invariant
                self.wf(),
                self.text() == s,
                self.input == old(self).input,
                start <= self.cursor(),
                start < s.len(),
                is_ident_start(s[start as int]),
                ident_end(s, self.cursor()) == ident_end(s, start as int),
                first == is_ident_char(s[start as int]),
                first,
            decreases s.len() - self.cursor(),
        {
            self.bump();
        }
        let text = self.input.substring_char(start, self.cur);
        let ident = String::from_str(text);
        proof {
            assert(ident@ == s.subrange(start as int, self.cursor()));
            assert(ident@[0] == s[start as int]);
        }
        if ident == String::from_str("spawn") {
            Token::KeywordSpawn
        } else if ident == String::from_str("sync") {
            Token::KeywordSync
        } else if ident == String::from_str("barrier") {
            Token::KeywordBarrier
        } else if ident == String::from_str("jump") {
            Token::KeywordJump
        } else if ident == String::from_str("jz") {
            Token::KeywordJz
        } else if ident == String::from_str("jnz") {
            Token::KeywordJnz
        } else if ident == String::from_str("fn") {
            Token::KeywordFn
        } else {
            Token::Identifier(ident)
        }
    }

    /// Scans digits, then `.` and digits if a digit follows the `.`.
    fn number(&mut self) -> (t: Token)
        requires
            old(self).wf(),
            old(self).cursor() < old(self).text().len(),
            is_digit(old(self).text()[old(self).cursor()]),
        ensures
            final(self).wf(),
            final(self).text() == old(self).text(),
            final(self).input == old(self).input,
            final(self).cursor() == number_end(old(self).text(), old(self).cursor()),
            final(self).cursor() > old(self).cursor(),
            denotes(t, old(self).text().subrange(old(self).cursor(), final(self).cursor())),
    {
        let ghost s = self.text();
        let start = self.cur;
        while self.cur < self.chars.len() && is_ascii_digit(self.chars[self.cur])
            invariant
                self.wf(),
                self.text() == s,
                self.input == old(self).input,
                start <= self.cursor() <= s.len(),
                start < s.len(),
                is_digit(s[start as int]),
                digits_end(s, self.cursor()) == digits_end(s, start as int),
                forall|m: int| start <= m < self.cursor() ==> is_digit(#[trigger] s[m]),
            decreases s.len() - self.cursor(),
        {
            self.bump();
        }
        let ghost dot = self.cursor();
        let fraction = self.cur < self.chars.len() && self.chars[self.cur] == '.' && match self.peek() {
            Some(c) => is_ascii_digit(c),
            None => false,
        };
        if fraction {
            self.bump();
            while self.cur < self.chars.len() && is_ascii_digit(self.chars[self.cur])
                invariant
                    self.wf(),
                    self.text() == s,
                    self.input == old(self).input,
                    dot < self.cursor() <= s.len(),
                    s[dot] == '.',
                    digits_end(s, self.cursor()) == digits_end(s, dot + 1),
                    forall|m: int| start <= m < dot ==> is_digit(#[trigger] s[m]),
                    forall|m: int| dot < m < self.cursor() ==> is_digit(#[trigger] s[m]),
                decreases s.len() - self.cursor(),
            {
                self.bump();
            }
        }
        let text = self.input.substring_char(start, self.cur);
        proof {
            let t = text@;
            assert(t == s.subrange(start as int, self.cursor()));
            assert forall|i: int, m: int|
                0 <= i < t.len() && 0 <= m < t.len() && #[trigger] t[i] == '.' && #[trigger] t[m]
                    == '.' implies i == m by {
                assert(t[i] == s[start + i]);
                assert(t[m] == s[start + m]);
            }
            assert forall|i: int| 0 <= i < t.len() implies is_digit(#[trigger] t[i]) || t[i]
                == '.' by {
                assert(t[i] == s[start + i]);
            }
        }
        Token::Number(Num::from_decimal(text))
    }

    /// Skips whitespace and comments, then scans one token. At the end of the text
    /// this is `Eof`, as often as it is asked for.
    pub fn next_token(&mut self) -> (r: Result<Token, LexError>)
        requires
            old(self).wf(),
        ensures
            final(self).wf(),
            final(self).text() == old(self).text(),
            old(self).cursor() <= final(self).cursor(),
            (r matches Ok(t) && !(t is Eof)) ==> old(self).cursor() < final(self).cursor(),
            final(self).remaining() <= old(self).remaining(),
            (r matches Ok(t) && !(t is Eof)) ==> final(self).remaining() < old(self).remaining(),
            ({
                let s = old(self).text();
                let j = skip_spec(s, old(self).cursor());
                if j >= s.len() {
                    r == Ok::<Token, LexError>(Token::Eof) && final(self).cursor() == j
                } else {
                    match token_end(s, j) {
                        Some(k) => r is Ok && final(self).cursor() == k && j < k && denotes(
                            r->Ok_0,
                            s.subrange(j, k),
                        ),
                        None => r == Err::<Token, LexError>(LexError::UnexpectedCharacter(s[j]))
                            && final(self).cursor() == j,
                    }
                }
            }),
    {
        proof {
            lemma_skip_forward(self.text(), self.cursor());
        }
        self.skip_whitespace_and_comments();
        if self.cur >= self.chars.len() {
            return Ok(Token::Eof);
        }
        let c = self.chars[self.cur];
        if is_ascii_alphabetic(c) || c == '_' {
            Ok(self.identifier_or_keyword())
        } else if is_ascii_digit(c) {
            Ok(self.number())
        } else {
            let t = if c == '+' {
                Token::Plus
            } else if c == '-' {
                Token::Minus
            } else if c == '*' {
                Token::Star
            } else if c == '/' {
                Token::Slash
            } else if c == '=' {
                Token::Assign
            } else if c == ';' {
                Token::Semicolon
            } else if c == '(' {
                Token::LParen
            } else if c == ')' {
                Token::RParen
            } else if c == ',' {
                Token::Comma
            } else if c == '{' {
                Token::LBrace
            } else if c == '}' {
                Token::RBrace
            } else {
                return Err(LexError::UnexpectedCharacter(c));
            };
            self.bump();
            proof {
                let s = self.text();
                let j = self.cursor() - 1;
                assert(s.subrange(j, j + 1)[0] == s[j]);
            }
            Ok(t)
        }
    }

    /// The character after the current one.
    fn peek(&self) -> (r: Option<char>)
        requires
            self.wf(),
        ensures
            r == (if self.cursor() + 1 < self.text().len() {
                Some(self.text()[self.cursor() + 1])
            } else {
                None::<char>
            }),
    {
        if self.cur + 1 < self.chars.len() {
            Some(self.chars[self.cur + 1])
        } else {
            None
        }
    }

    /// Byte offset, in the source, just past the current character.
    pub fn current_position(&self) -> (r: usize)
        requires
            self.wf(),
        ensures
            r == byte_len(
                self.text().subrange(0, consumed(self.cursor(), self.text().len() as int)),
            ),
    {
        self.pos
    }
}

fn is_ascii_digit(c: char) -> (r: bool)
    ensures
        r == is_digit(c),
{
    '0' <= c && c <= '9'
}

fn is_ascii_alphabetic(c: char) -> (r: bool)
    ensures
        r == is_ascii_alpha(c),
{
    ('a' <= c && c <= 'z') || ('A' <= c && c <= 'Z')
}

fn is_alphanumeric_or_underscore(c: char) -> (r: bool)
    ensures
        r == is_ident_char(c),
        is_ident_start(c) ==> r,
{
    is_alphanumeric(c) || c == '_'
}

/// Number of bytes of `c` in UTF-8.
fn char_byte_len(c: char) -> (r: usize)
    ensures
        r == utf8_len(c),
{
    let v = c as u32;
    if v < 0x80 {
        1
    } else if v < 0x800 {
        2
    } else if v < 0x10000 {
        3
    } else {
        4
    }
}

} // verus!
