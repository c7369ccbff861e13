//! The decisions of the textual preprocessor: `#define NAME VALUE` registers a literal
//! substitution for the lines that follow, `#include "path"` asks for the preprocessed
//! contents of another file. Reading that file is left to the caller.
use crate::scanner::{is_whitespace, unicode_whitespace};
use vstd::prelude::*;

verus! {

/// `s` with every occurrence of `from` replaced by `to`, left to right, as `str::replace`
/// does.
pub uninterp spec fn replaced(s: Seq<char>, from: Seq<char>, to: Seq<char>) -> Seq<char>;

/// Relies on `str::replace`, a function of its three arguments.
#[verifier::external_body]
fn replace_all(s: &str, from: &str, to: &str) -> (r: String)
    ensures
        r@ == replaced(s@, from@, to@),
{
    s.replace(from, to)
}

/// Index of the first character at or after `i` that is not whitespace.
pub open spec fn lead(s: Seq<char>, i: int) -> int
    decreases s.len() - i,
{
    if 0 <= i < s.len() && unicode_whitespace(s[i]) {
        lead(s, i + 1)
    } else {
        i
    }
}

/// Index just past the last character before `j` that is not whitespace.
pub open spec fn trail(s: Seq<char>, j: int) -> int
    decreases j,
{
    if 0 < j <= s.len() && unicode_whitespace(s[j - 1]) {
        trail(s, j - 1)
    } else {
        j
    }
}

/// `s` without leading and trailing whitespace, as `str::trim` gives it.
pub open spec fn trimmed(s: Seq<char>) -> Seq<char> {
    if lead(s, 0) >= s.len() {
        Seq::empty()
    } else {
        s.subrange(lead(s, 0), trail(s, s.len() as int))
    }
}

/// Index of the first space at or after `i`, if any.
pub open spec fn first_space(s: Seq<char>, i: int) -> Option<int>
    decreases s.len() - i,
{
    if i < 0 || i >= s.len() {
        None
    } else if s[i] == ' ' {
        Some(i)
    } else {
        first_space(s, i + 1)
    }
}

pub open spec fn starts_with(s: Seq<char>, prefix: Seq<char>) -> bool {
    s.len() >= prefix.len() && s.subrange(0, prefix.len() as int) == prefix
}

/// What one line asks of the preprocessor.
#[derive(Debug, Clone, PartialEq)]
pub enum Directive {
    /// `#define NAME VALUE`: the name runs to the first space, the value is the rest.
    Define { name: String, value: String },
    /// `#include "path"`.
    Include { path: String },
    /// A directive without its argument: the line is dropped.
    Ignored,
    /// Any other line: it is kept, with macros substituted.
    Text,
}

/// A directive with its arguments as character sequences.
pub enum DirectiveView {
    Define(Seq<char>, Seq<char>),
    Include(Seq<char>),
    Ignored,
    Text,
}

pub open spec fn directive_view(d: Directive) -> DirectiveView {
    match d {
        Directive::Define { name, value } => DirectiveView::Define(name@, value@),
        Directive::Include { path } => DirectiveView::Include(path@),
        Directive::Ignored => DirectiveView::Ignored,
        Directive::Text => DirectiveView::Text,
    }
}

/// What `line` asks for. The line is read trimmed; after `#define ` the name runs to the
/// first space and the value is the rest; after `#include ` the trimmed rest must be quoted.
pub open spec fn directive_spec(line: Seq<char>) -> DirectiveView {
    let t = trimmed(line);
    if starts_with(t, "#define "@) {
        let rest = t.subrange(8, t.len() as int);
        match first_space(rest, 0) {
            Some(i) => DirectiveView::Define(rest.subrange(0, i), rest.subrange(i + 1, rest.len() as int)),
            None => DirectiveView::Ignored,
        }
    } else if starts_with(t, "#include "@) {
        let rest = trimmed(t.subrange(9, t.len() as int));
        if rest.len() >= 2 && rest[0] == '"' && rest.last() == '"' {
            DirectiveView::Include(rest.subrange(1, rest.len() - 1))
        } else {
            DirectiveView::Ignored
        }
    } else {
        DirectiveView::Text
    }
}

proof fn lemma_lead(s: Seq<char>, i: int)
    requires
        0 <= i <= s.len(),
    ensures
        i <= lead(s, i) <= s.len(),
    decreases s.len() - i,
{
    if 0 <= i < s.len() && unicode_whitespace(s[i]) {
        lemma_lead(s, i + 1);
    }
}

proof fn lemma_trail(s: Seq<char>, j: int, a: int)
    requires
        0 <= a < j <= s.len(),
        !unicode_whitespace(s[a]),
    ensures
        a < trail(s, j) <= j,
    decreases j,
{
    if 0 < j <= s.len() && unicode_whitespace(s[j - 1]) {
        lemma_trail(s, j - 1, a);
    }
}

/// `s` without leading and trailing whitespace.
fn trim(s: &str) -> (r: &str)
    ensures
        r@ == trimmed(s@),
{
    let n = s.unicode_len();
    let mut a: usize = 0;
    while a < n && is_whitespace(s.get_char(a))
        invariant
            n == s@.len(),
            a <= n,
            lead(s@, a as int) == lead(s@, 0),
        decreases n - a,
    {
        a = a + 1;
    }
    if a >= n {
        proof {
            lemma_lead(s@, 0);
        }
        return s.substring_char(0, 0);
    }
    let mut b: usize = n;
    while b > 0 && is_whitespace(s.get_char(b - 1))
        invariant
            n == s@.len(),
            a < n,
            !unicode_whitespace(s@[a as int]),
            a < b <= n,
            trail(s@, b as int) == trail(s@, n as int),
        decreases b,
    {
        b = b - 1;
    }
    s.substring_char(a, b)
}

/// Index of the first space in `s`.
fn find_space(s: &str) -> (r: Option<usize>)
    ensures
        match r {
            Some(i) => first_space(s@, 0) == Some(i as int) && i < s@.len(),
            None => first_space(s@, 0) is None,
        },
{
    let n = s.unicode_len();
    let mut i: usize = 0;
    while i < n
        invariant
            n == s@.len(),
            i <= n,
            first_space(s@, i as int) == first_space(s@, 0),
        decreases n - i,
    {
        if s.get_char(i) == ' ' {
            return Some(i);
        }
        i = i + 1;
    }
    None
}

fn has_prefix(s: &str, prefix: &str) -> (r: bool)
    ensures
        r == starts_with(s@, prefix@),
{
    let n = s.unicode_len();
    let m = prefix.unicode_len();
    if n < m {
        return false;
    }
    let head = String::from_str(s.substring_char(0, m));
    head == String::from_str(prefix)
}

/// What `line` asks of the preprocessor.
pub fn classify(line: &str) -> (r: Directive)
    ensures
        directive_view(r) == directive_spec(line@),
{
    let t = trim(line);
    let n = t.unicode_len();
    if has_prefix(t, "#define ") {
        proof {
            reveal_strlit("#define ");
        }
        let rest = t.substring_char(8, n);
        match find_space(rest) {
            Some(i) => {
                let k = rest.unicode_len();
                let name = String::from_str(rest.substring_char(0, i));
                let value = String::from_str(rest.substring_char(i + 1, k));
                Directive::Define { name, value }
            },
            None => Directive::Ignored,
        }
    } else if has_prefix(t, "#include ") {
        proof {
            reveal_strlit("#include ");
        }
        let rest = trim(t.substring_char(9, n));
        let k = rest.unicode_len();
        if k >= 2 && rest.get_char(0) == '"' && rest.get_char(k - 1) == '"' {
            Directive::Include { path: String::from_str(rest.substring_char(1, k - 1)) }
        } else {
            Directive::Ignored
        }
    } else {
        Directive::Text
    }
}

/// Macros as (name, value) pairs, in order of first definition.
pub type Macros = Seq<(Seq<char>, Seq<char>)>;

/// Index of the macro called `name`, if any.
pub open spec fn macro_index(ms: Macros, name: Seq<char>, i: int) -> Option<int>
    decreases ms.len() - i,
{
    if i < 0 || i >= ms.len() {
        None
    } else if ms[i].0 == name {
        Some(i)
    } else {
        macro_index(ms, name, i + 1)
    }
}

/// `ms` after `#define name value`: a new name is added last; an existing one gets the
/// new value in its place.
pub open spec fn define_spec(ms: Macros, name: Seq<char>, value: Seq<char>) -> Macros {
    match macro_index(ms, name, 0) {
        Some(i) => ms.update(i, (name, value)),
        None => ms.push((name, value)),
    }
}

/// `line` with each macro substituted in turn, first defined first.
pub open spec fn expand_spec(ms: Macros, line: Seq<char>) -> Seq<char>
    decreases ms.len(),
{
    if ms.len() == 0 {
        line
    } else {
        replaced(expand_spec(ms.drop_last(), line), ms.last().0, ms.last().1)
    }
}

/// What the caller does with a line.
#[derive(Debug, Clone, PartialEq)]
pub enum Action {
    /// Append this text and a newline to the output.
    Emit(String),
    /// Append the preprocessed contents of this file, if it can be read, and a newline.
    Include(String),
    /// Append nothing.
    Skip,
}

/// The preprocessor's state: the macros defined so far.
pub struct Preprocessor {
    pub macros: Vec<(String, String)>,
}

impl Preprocessor {
    pub open spec fn view_macros(&self) -> Macros {
        self.macros@.map_values(|m: (String, String)| (m.0@, m.1@))
    }

    pub fn new() -> (r: Preprocessor)
        ensures
            r.view_macros() == Seq::<(Seq<char>, Seq<char>)>::empty(),
    {
        let r = Preprocessor { macros: Vec::new() };
        proof {
            assert(r.view_macros() =~= Seq::<(Seq<char>, Seq<char>)>::empty());
        }
        r
    }

    fn define(&mut self, name: String, value: String)
        ensures
            final(self).view_macros() == define_spec(old(self).view_macros(), name@, value@),
    {
        let ghost ms = self.view_macros();
        let n = self.macros.len();
        let mut i: usize = 0;
        while i < n
            invariant
                n == self.macros.len(),
                i <= n,
                ms == self.view_macros(),
                ms == old(self).view_macros(),
                macro_index(ms, name@, i as int) == macro_index(ms, name@, 0),
            decreases n - i,
        {
            if self.macros[i].0 == name {
                let ghost nv = name@;
                let ghost vv = value@;
                proof {
                    assert(ms[i as int].0 == nv);
                }
                self.macros[i] = (name, value);
                proof {
                    assert(self.view_macros() =~= ms.update(i as int, (nv, vv)));
                }
                return;
            }
            i = i + 1;
        }
        let ghost nv = name@;
        let ghost vv = value@;
        self.macros.push((name, value));
        proof {
            assert(self.view_macros() =~= ms.push((nv, vv)));
        }
    }

    /// `line` with every macro substituted.
    pub fn expand(&self, line: &str) -> (r: String)
        ensures
            r@ == expand_spec(self.view_macros(), line@),
    {
        let ghost ms = self.view_macros();
        let n = self.macros.len();
        let mut out = String::from_str(line);
        let mut i: usize = 0;
        while i < n
            invariant
                n == self.macros.len(),
                ms == self.view_macros(),
                i <= n,
                out@ == expand_spec(ms.subrange(0, i as int), line@),
            decreases n - i,
        {
            out = replace_all(out.as_str(), self.macros[i].0.as_str(), self.macros[i].1.as_str());
            proof {
                assert(ms.subrange(0, i + 1).drop_last() =~= ms.subrange(0, i as int));
            }
            i = i + 1;
        }
        proof {
            assert(ms.subrange(0, n as int) =~= ms);
        }
        out
    }

    /// Takes one line of source text.
    pub fn feed(&mut self, line: &str) -> (r: Action)
        ensures
            match directive_spec(line@) {
                DirectiveView::Define(name, value) => r is Skip && final(self).view_macros()
                    == define_spec(old(self).view_macros(), name, value),
                DirectiveView::Include(path) => r matches Action::Include(p) && p@ == path
                    && final(self).view_macros() == old(self).view_macros(),
                DirectiveView::Ignored => r is Skip && final(self).view_macros() == old(
                    self,
                ).view_macros(),
                DirectiveView::Text => r matches Action::Emit(text) && text@ == expand_spec(
                    old(self).view_macros(),
                    line@,
                ) && final(self).view_macros() == old(self).view_macros(),
            },
    {
        match classify(line) {
            Directive::Define { name, value } => {
                self.define(name, value);
                Action::Skip
            },
            Directive::Include { path } => Action::Include(path),
            Directive::Ignored => Action::Skip,
            Directive::Text => Action::Emit(self.expand(line)),
        }
    }
}

/// Index of the first `\n` at or after `i`, or the length of `s`.
pub open spec fn newline_at(s: Seq<char>, i: int) -> int
    decreases s.len() - i,
{
    if i < 0 || i >= s.len() {
        s.len() as int
    } else if s[i] == '\n' {
        i
    } else {
        newline_at(s, i + 1)
    }
}

/// The lines of `s` from index `i`, as `str::lines` gives them: split at `\n` or
/// `\r\n`, without the line endings; a final line ending adds no empty line.
pub open spec fn lines_from(s: Seq<char>, i: int) -> Seq<Seq<char>>
    decreases s.len() - i,
    via lemma_lines_from_decreases
{
    if i < 0 || i >= s.len() {
        Seq::empty()
    } else {
        let j = newline_at(s, i);
        let raw = s.subrange(i, j);
        let line = if j < s.len() && raw.len() > 0 && raw.last() == '\r' {
            raw.drop_last()
        } else {
            raw
        };
        if j < s.len() {
            seq![line] + lines_from(s, j + 1)
        } else {
            seq![line]
        }
    }
}

#[via_fn]
proof fn lemma_lines_from_decreases(s: Seq<char>, i: int) {
    if 0 <= i < s.len() {
        lemma_newline_at(s, i);
    }
}

proof fn lemma_newline_at(s: Seq<char>, i: int)
    requires
        0 <= i <= s.len(),
    ensures
        i <= newline_at(s, i) <= s.len(),
    decreases s.len() - i,
{
    if 0 <= i < s.len() && s[i] != '\n' {
        lemma_newline_at(s, i + 1);
    }
}

/// The lines of `code`.
pub fn split_lines(code: &str) -> (r: Vec<String>)
    ensures
        r@.map_values(|l: String| l@) == lines_from(code@, 0),
{
    let n = code.unicode_len();
    let mut out: Vec<String> = Vec::new();
    let mut i: usize = 0;
    proof {
        assert(out@.map_values(|l: String| l@) =~= Seq::<Seq<char>>::empty());
    }
    while i < n
        invariant
            n == code@.len(),
            i <= n,
            out@.map_values(|l: String| l@) + lines_from(code@, i as int) == lines_from(code@, 0),
        decreases n - i,
    {
        let mut j: usize = i;
        while j < n && code.get_char(j) != '\n'
            invariant
                n == code@.len(),
                i <= j <= n,
                newline_at(code@, j as int) == newline_at(code@, i as int),
            decreases n - j,
        {
            j = j + 1;
        }
        let end = if j < n && j > i && code.get_char(j - 1) == '\r' {
            j - 1
        } else {
            j
        };
        let line = String::from_str(code.substring_char(i, end));
        let ghost before = out@.map_values(|l: String| l@);
        out.push(line);
        proof {
            let raw = code@.subrange(i as int, j as int);
            if end < j {
                assert(raw.drop_last() =~= code@.subrange(i as int, end as int));
            }
            assert(out@.map_values(|l: String| l@) =~= before.push(line@));
            if j < n {
                assert(lines_from(code@, i as int) == seq![line@] + lines_from(code@, j + 1));
                assert(before.push(line@) + lines_from(code@, j + 1) =~= before + (seq![line@]
                    + lines_from(code@, j + 1)));
            } else {
                assert(lines_from(code@, i as int) == seq![line@]);
                assert(before.push(line@) + lines_from(code@, n as int) =~= before + seq![line@]);
            }
        }
        if j < n {
            i = j + 1;
        } else {
            i = n;
        }
    }
    proof {
        assert(out@.map_values(|l: String| l@) + lines_from(code@, n as int) =~= out@.map_values(
            |l: String| l@,
        ));
    }
    out
}

} // verus!
