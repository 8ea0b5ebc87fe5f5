use vstd::prelude::*;
use vstd::std_specs::iter::IteratorSpec;

use crate::ast::{is_plain_value, Assignment, Expansion, Expression, Operator};
use crate::error::{push_char, ErrorKind, Position, SyntaxError};
use crate::scope::opt_view;

verus! {

/// Line and column reached after consuming `s` from the start of a text.
pub open spec fn position_after(s: Seq<char>) -> (int, int)
    decreases s.len(),
{
    if s.len() == 0 {
        (1, 1)
    } else {
        let p = position_after(s.drop_last());
        if s.last() == '\n' {
            (p.0 + 1, 1)
        } else {
            (p.0, p.1 + 1)
        }
    }
}

/// `p` is the place `q`.
pub open spec fn at(p: Position, q: (int, int)) -> bool {
    p.line as int == q.0 && p.column as int == q.1
}

/// `i` is the index of the first NUL character of `s`.
pub open spec fn first_nul(s: Seq<char>, i: int) -> bool {
    0 <= i < s.len() && s[i] == '\0' && forall|j: int| 0 <= j < i ==> s[j] != '\0'
}

/// The kinds that are detected on running out of input.
pub open spec fn is_end_kind(k: ErrorKind) -> bool {
    k == ErrorKind::Eof || k == ErrorKind::UnterminatedSingleQuotedString
        || k == ErrorKind::UnterminatedDoubleQuotedString || k == ErrorKind::UnterminatedExpansion
}

proof fn lemma_position_bounds(s: Seq<char>)
    ensures
        position_after(s).0 >= 1,
        position_after(s).1 >= 1,
        position_after(s).0 + position_after(s).1 <= s.len() + 2,
    decreases s.len(),
{
    if s.len() > 0 {
        lemma_position_bounds(s.drop_last());
    }
}

/// The characters of `s`, in order.
fn chars_of(s: &str) -> (r: Vec<char>)
    ensures
        r@ == s@,
{
    broadcast use {vstd::string::axiom_spec_iter, vstd::string::next_postcondition};

    let mut it = s.chars();
    let mut v: Vec<char> = Vec::new();
    loop
        invariant
            it.obeys_prophetic_iter_laws(),
            it.decrease() is Some,
            v@ + it.remaining() == s@,
        ensures
            v@ == s@,
        decreases it.decrease()->0,
    {
        let ghost before = it.remaining();
        match it.next() {
            Some(ch) => {
                v.push(ch);
                proof {
                    assert(v@ + it.remaining() =~= s@) by {
                        assert(before == seq![ch] + it.remaining());
                    }
                }
            },
            None => {
                assert(v@ =~= s@);
                break;
            },
        }
    }
    v
}

/// A character that may begin a variable name.
pub open spec fn ident_start(c: char) -> bool {
    ('a' <= c && c <= 'z') || ('A' <= c && c <= 'Z') || c == '_'
}

/// A character that may continue a variable name.
pub open spec fn ident_char(c: char) -> bool {
    ident_start(c) || ('0' <= c && c <= '9')
}

/// ASCII letters, digits and underscores, not starting with a digit.
pub open spec fn is_identifier(s: Seq<char>) -> bool {
    s.len() > 0 && ident_start(s[0]) && forall|i: int| 1 <= i < s.len() ==> ident_char(#[trigger] s[i])
}

/// A character that stands for itself in an unquoted value.
pub open spec fn plain_char(c: char) -> bool {
    &&& c != '\n' && c != '\'' && c != '"' && c != '$' && c != '\\' && c != '\0'
    &&& c != ' ' && c != '\t' && c != '|' && c != '&' && c != ';' && c != '<' && c != '>'
    &&& c != '(' && c != ')' && c != '`'
}

/// `s` is the single declaration `name=value` and nothing more.
pub open spec fn declaration_shape(s: Seq<char>, name: Seq<char>, value: Seq<char>) -> bool {
    is_identifier(name) && s == name + seq!['='] + value
}

/// Every character of `t` stands for itself.
pub open spec fn plain_text(t: Seq<char>) -> bool {
    forall|i: int| 0 <= i < t.len() ==> plain_char(#[trigger] t[i])
}

/// `s` is the single declaration `name=text`, with `text` plain.
pub open spec fn plain_declaration(s: Seq<char>, name: Seq<char>, text: Seq<char>) -> bool {
    declaration_shape(s, name, text) && plain_text(text)
}

/// Nothing, or a variable name.
pub open spec fn name_or_nothing(w: Seq<char>) -> bool {
    w.len() == 0 || is_identifier(w)
}

/// `${` followed by nothing but a variable name, or nothing at all: an
/// expansion that is never closed.
pub open spec fn unclosed_value(v: Seq<char>) -> bool {
    v.len() >= 2 && v[0] == '$' && v[1] == '{' && name_or_nothing(v.subrange(2, v.len() as int))
}

/// `s` is the single declaration `name=${var`, never closed.
pub open spec fn unclosed_declaration(s: Seq<char>, name: Seq<char>, value: Seq<char>) -> bool {
    declaration_shape(s, name, value) && unclosed_value(value)
}

/// A character that stands for itself in the word of an expansion.
pub open spec fn word_char(c: char) -> bool {
    c != '}' && c != '$' && c != '\\' && c != '\0'
}

/// `r` is a plain word followed by the closing `}` of its expansion, at the
/// end of the input.
pub open spec fn closed_word(r: Seq<char>) -> bool {
    r.len() >= 1 && r.last() == '}' && forall|i: int| 0 <= i < r.len() - 1 ==> word_char(#[trigger] r[i])
}

/// `tok` is how `op` is written.
pub open spec fn operator_token(tok: Seq<char>, op: Operator) -> bool {
    ||| tok == seq!['-'] && op == Operator::IfUnset
    ||| tok == seq![':', '-'] && op == Operator::IfUnsetOrNull
    ||| tok == seq!['+'] && op == Operator::IfSet
    ||| tok == seq![':', '+'] && op == Operator::IfSetAndNotNull
    ||| tok == seq!['='] && op == Operator::AssignIfUnset
    ||| tok == seq![':', '='] && op == Operator::AssignIfUnsetOrNull
    ||| tok == seq!['?'] && op == Operator::ErrorIfUnset
    ||| tok == seq![':', '?'] && op == Operator::ErrorIfUnsetOrNull
}

/// `r` is `var<tok>word}` with a plain word, at the end of the input.
pub open spec fn braced_form(r: Seq<char>, var: Seq<char>, tok: Seq<char>, op: Operator, word: Seq<char>) -> bool {
    &&& is_identifier(var)
    &&& operator_token(tok, op)
    &&& closed_word(word.push('}'))
    &&& r == var + tok + word.push('}')
}

/// `s` is the single declaration `name=${var<tok>word}` with a plain word.
pub open spec fn expansion_declaration(
    s: Seq<char>,
    name: Seq<char>,
    var: Seq<char>,
    tok: Seq<char>,
    op: Operator,
    word: Seq<char>,
) -> bool {
    is_identifier(name) && s.len() >= name.len() + 3 && braced_form(s.subrange(name.len() + 3int, s.len() as int), var, tok, op, word)
        && s.subrange(0, name.len() + 3int) == name + seq!['=', '$', '{']
}

/// `e` is the expansion of `var` by `op` with the plain word `word`.
pub open spec fn is_simple_expansion(e: Expression, var: Seq<char>, op: Operator, word: Seq<char>) -> bool {
    e matches Expression::Expansion(x) && x.name@ == var && x.operator == op && is_plain_value(x.rhs@, word)
}

proof fn lemma_expansion_declaration(
    s: Seq<char>,
    name: Seq<char>,
    var: Seq<char>,
    tok: Seq<char>,
    op: Operator,
    word: Seq<char>,
)
    requires
        expansion_declaration(s, name, var, tok, op, word),
    ensures
        declaration_shape(s, name, s.subrange(name.len() + 1int, s.len() as int)),
        s[name.len() + 1int] == '$',
        s[name.len() + 2int] == '{',
        forall|i: int| 0 <= i < s.len() ==> #[trigger] s[i] != '\0',
{
    let head = name + seq!['=', '$', '{'];
    assert(s.subrange(0, name.len() + 3int) == head);
    assert(s.subrange(0, name.len() + 3int)[name.len() + 1int] == s[name.len() + 1int]);
    assert(s.subrange(0, name.len() + 3int)[name.len() + 2int] == s[name.len() + 2int]);
    assert(s[name.len() + 1int] == head[name.len() + 1int]);
    assert(s[name.len() + 2int] == head[name.len() + 2int]);
    assert(s =~= name + seq!['='] + s.subrange(name.len() + 1int, s.len() as int)) by {
        assert forall|i: int| 0 <= i <= name.len() implies #[trigger] s[i] == head[i] by {
            assert(s.subrange(0, name.len() + 3int)[i] == s[i]);
        }
    }
    let b = s.subrange(name.len() + 3int, s.len() as int);
    let vt = var + tok;
    let w = word.push('}');
    assert(b == vt + w);
    assert(b.len() == s.len() - name.len() - 3);
    assert(w.len() == word.len() + 1);
    assert(w[word.len() as int] == '}');
    assert forall|i: int| 0 <= i < s.len() implies #[trigger] s[i] != '\0' by {
        if i < name.len() + 3 {
            assert(s.subrange(0, name.len() + 3int)[i] == s[i]);
            if i < name.len() && i > 0 {
                assert(ident_char(name[i]));
            }
            assert(s[i] == head[i]);
        } else {
            let j = i - name.len() - 3;
            assert(s[i] == b[j]);
            if j < var.len() {
                assert(b[j] == var[j]);
                if j > 0 {
                    assert(ident_char(var[j]));
                }
            } else if j < vt.len() {
                assert(b[j] == tok[j - var.len()]);
            } else {
                assert(j < b.len());
                assert((vt + w)[j] == w[j - vt.len()]);
                assert(b[j] == w[j - vt.len()]);
                if j - vt.len() < word.len() {
                    assert(w[j - vt.len()] == word[j - vt.len()]);
                    assert(word_char(w[j - vt.len()]));
                }
            }
        }
    }
}

proof fn lemma_declaration_chars(s: Seq<char>, name: Seq<char>, value: Seq<char>)
    requires
        declaration_shape(s, name, value),
    ensures
        forall|i: int| 0 <= i < name.len() ==> #[trigger] s[i] == name[i],
        s[name.len() as int] == '=',
        forall|i: int| 0 <= i < value.len() ==> s[name.len() + 1int + i] == #[trigger] value[i],
        s.len() == name.len() + 1int + value.len(),
        (forall|i: int| 0 <= i < value.len() ==> #[trigger] value[i] != '\0') ==> forall|i: int|
            0 <= i < s.len() ==> #[trigger] s[i] != '\0',
{
    if forall|i: int| 0 <= i < value.len() ==> #[trigger] value[i] != '\0' {
        assert forall|i: int| 0 <= i < s.len() implies #[trigger] s[i] != '\0' by {
            if i < name.len() {
                assert(s[i] == name[i]);
                if i > 0 {
                    assert(ident_char(name[i]));
                }
            } else if i > name.len() {
                assert(s[i] == value[i - name.len() - 1]);
            }
        }
    }
}

proof fn lemma_unclosed_has_no_nul(v: Seq<char>)
    requires
        unclosed_value(v),
    ensures
        forall|i: int| 0 <= i < v.len() ==> #[trigger] v[i] != '\0',
{
    let w = v.subrange(2, v.len() as int);
    assert forall|i: int| 0 <= i < v.len() implies #[trigger] v[i] != '\0' by {
        if i >= 2 {
            assert(v[i] == w[i - 2]);
            if i > 2 {
                assert(ident_char(w[i - 2]));
            }
        }
    }
}

fn is_ident_start(c: char) -> (r: bool)
    ensures
        r == ident_start(c),
{
    ('a' <= c && c <= 'z') || ('A' <= c && c <= 'Z') || c == '_'
}

fn is_ident_char(c: char) -> (r: bool)
    ensures
        r == ident_char(c),
{
    is_ident_start(c) || ('0' <= c && c <= '9')
}

fn is_shell_parameter(c: char) -> bool {
    ('0' <= c && c <= '9') || c == '@' || c == '*' || c == '#' || c == '?' || c == '-' || c == '$'
        || c == '!'
}

fn is_special(c: char) -> (r: bool)
    ensures
        r == (c == ' ' || c == '\t' || c == '|' || c == '&' || c == ';' || c == '<' || c == '>'
            || c == '(' || c == ')' || c == '`'),
{
    c == ' ' || c == '\t' || c == '|' || c == '&' || c == ';' || c == '<' || c == '>' || c == '('
        || c == ')' || c == '`'
}

/// A read position in a text, with its line and column.
struct Cursor {
    chars: Vec<char>,
    index: usize,
    position: Position,
    filename: Option<String>,
}

impl Cursor {
    spec fn wf(&self) -> bool {
        &&& self.index <= self.chars.len()
        &&& self.chars.len() + 2 < usize::MAX
        &&& at(self.position, position_after(self.chars@.take(self.index as int)))
    }

    /// What `after` is, reached from `self` by reading on.
    spec fn reaches(&self, after: Cursor) -> bool {
        &&& after.wf()
        &&& after.chars@ == self.chars@
        &&& after.filename == self.filename
        &&& after.index >= self.index
    }

    /// An error that parsing from `self` may report.
    spec fn reportable(&self, e: SyntaxError) -> bool {
        &&& e.spec_filename() == opt_view(self.filename)
        &&& e.spec_kind() != ErrorKind::NullCharacter
        &&& is_end_kind(e.spec_kind()) ==> at(e.spec_position(), position_after(self.chars@))
    }

    fn peek(&self) -> (r: Option<char>)
        requires
            self.wf(),
        ensures
            match r {
                Some(ch) => self.index < self.chars.len() && ch == self.chars@[self.index as int],
                None => self.index == self.chars.len(),
            },
    {
        if self.index < self.chars.len() {
            Some(self.chars[self.index])
        } else {
            None
        }
    }

    fn bump(&mut self)
        requires
            old(self).wf(),
            old(self).index < old(self).chars.len(),
        ensures
            old(self).reaches(*final(self)),
            final(self).index == old(self).index + 1,
    {
        let ghost s = self.chars@.take(self.index as int);
        proof {
            lemma_position_bounds(s);
            assert(self.chars@.take(self.index + 1).drop_last() =~= s);
        }
        let ch = self.chars[self.index];
        self.position.advance(ch);
        self.index = self.index + 1;
    }

    fn fail(&self, kind: ErrorKind) -> (e: SyntaxError)
        requires
            self.wf(),
            kind != ErrorKind::NullCharacter,
            is_end_kind(kind) ==> self.index == self.chars.len(),
        ensures
            self.reportable(e),
            e.spec_kind() == kind,
            at(e.spec_position(), position_after(self.chars@.take(self.index as int))),
    {
        proof {
            assert(self.index == self.chars.len() ==> self.chars@.take(self.index as int) =~= self.chars@);
        }
        let filename = match &self.filename {
            Some(f) => Some(f.clone()),
            None => None,
        };
        SyntaxError::new(kind, self.position, filename)
    }

    /// Reads an identifier; the cursor stands on its first character.
    fn read_name(&mut self) -> (r: String)
        requires
            old(self).wf(),
            old(self).index < old(self).chars.len(),
            ident_start(old(self).chars@[old(self).index as int]),
        ensures
            old(self).reaches(*final(self)),
            final(self).index > old(self).index,
            is_identifier(r@),
            r@ == old(self).chars@.subrange(old(self).index as int, final(self).index as int),
            final(self).index == final(self).chars.len() || !ident_char(
                final(self).chars@[final(self).index as int],
            ),
    {
        let mut name = String::new();
        let first = self.chars[self.index];
        push_char(&mut name, first);
        self.bump();
        proof {
            assert(name@ =~= self.chars@.subrange(old(self).index as int, self.index as int));
        }
        while self.index < self.chars.len() && is_ident_char(self.chars[self.index])
            invariant
                old(self).reaches(*self),
                self.index > old(self).index,
                is_identifier(name@),
                name@ == self.chars@.subrange(old(self).index as int, self.index as int),
            decreases self.chars.len() - self.index,
        {
            let ch = self.chars[self.index];
            push_char(&mut name, ch);
            self.bump();
            proof {
                assert(name@ =~= self.chars@.subrange(old(self).index as int, self.index as int));
            }
        }
        name
    }
}

/// Moves pending literal text into `out`.
fn flush(text: &mut String, out: &mut Vec<Expression>)
    ensures
        final(text)@.len() == 0,
        old(text)@.len() == 0 ==> final(out)@ == old(out)@,
        old(text)@.len() > 0 ==> final(out)@.len() == old(out)@.len() + 1 && final(out)@.drop_last()
            == old(out)@ && (final(out)@.last() matches Expression::Characters(t) && t@ == old(text)@),
{
    if !text.as_str().is_empty() {
        let mut t = String::new();
        std::mem::swap(text, &mut t);
        out.push(Expression::Characters(t));
    }
}

/// Reads what follows a `$`; the cursor stands on the `$`.
fn parse_dollar(c: &mut Cursor) -> (r: Result<Expression, SyntaxError>)
    requires
        old(c).wf(),
        old(c).index < old(c).chars.len(),
    ensures
        old(c).reaches(*final(c)),
        r is Ok ==> final(c).index > old(c).index,
        r matches Err(e) ==> old(c).reportable(e),
        (old(c).index + 2 <= old(c).chars.len() && old(c).chars@[old(c).index + 1] == '{' && name_or_nothing(
            old(c).chars@.subrange(old(c).index + 2, old(c).chars.len() as int),
        )) ==> (r matches Err(e) && e.spec_kind() == ErrorKind::UnterminatedExpansion),
        forall|var: Seq<char>, tok: Seq<char>, op: Operator, word: Seq<char>|
            #[trigger] braced_form(
                old(c).chars@.subrange(old(c).index + 2, old(c).chars.len() as int),
                var,
                tok,
                op,
                word,
            ) ==> ((old(c).index + 2 <= old(c).chars.len() && old(c).chars@[old(c).index + 1] == '{') ==> (
            final(c).index == old(c).chars.len() && (r matches Ok(e) && is_simple_expansion(e, var, op, word)))),
    decreases old(c).chars.len() - old(c).index, 0int,
{
    c.bump();
    match c.peek() {
        Some('{') => {
            c.bump();
            parse_braced(c)
        },
        Some('(') => {
            c.bump();
            match c.peek() {
                Some('(') => Err(c.fail(ErrorKind::UnsupportedCommandOrArithmeticExpansion)),
                _ => Err(c.fail(ErrorKind::UnsupportedCommandExpansion)),
            }
        },
        Some(ch) => {
            if is_ident_start(ch) {
                let name = c.read_name();
                Ok(Expression::Expansion(Expansion { name, operator: Operator::IfUnset, rhs: Vec::new() }))
            } else if is_shell_parameter(ch) {
                let mut p = String::new();
                push_char(&mut p, '$');
                push_char(&mut p, ch);
                Err(c.fail(ErrorKind::UnsupportedShellParameter(p)))
            } else {
                let mut t = String::new();
                push_char(&mut t, '$');
                Ok(Expression::Characters(t))
            }
        },
        None => {
            let mut t = String::new();
            push_char(&mut t, '$');
            Ok(Expression::Characters(t))
        },
    }
}

/// Reads an expansion after its `${`, up to and including the closing `}`.
fn parse_braced(c: &mut Cursor) -> (r: Result<Expression, SyntaxError>)
    requires
        old(c).wf(),
    ensures
        old(c).reaches(*final(c)),
        r is Ok ==> final(c).index > old(c).index,
        r matches Err(e) ==> old(c).reportable(e),
        name_or_nothing(old(c).chars@.subrange(old(c).index as int, old(c).chars.len() as int)) ==> (r matches Err(
            e,
        ) && e.spec_kind() == ErrorKind::UnterminatedExpansion),
        forall|var: Seq<char>, tok: Seq<char>, op: Operator, word: Seq<char>|
            #[trigger] braced_form(
                old(c).chars@.subrange(old(c).index as int, old(c).chars.len() as int),
                var,
                tok,
                op,
                word,
            ) ==> (final(c).index == old(c).chars.len() && (r matches Ok(e) && is_simple_expansion(
                e,
                var,
                op,
                word,
            ))),
    decreases old(c).chars.len() - old(c).index, 2int,
{
    let ghost start = c.index as int;
    let ghost rest = c.chars@.subrange(start, c.chars.len() as int);
    proof {
        assert forall|var: Seq<char>, tok: Seq<char>, op: Operator, word: Seq<char>|
            #[trigger] braced_form(rest, var, tok, op, word) implies start < c.chars.len() && ident_start(
            c.chars@[start],
        ) by {
            let vt = var + tok;
            assert(var.len() > 0);
            assert(rest.len() == vt.len() + word.len() + 1);
            assert(rest.len() == c.chars.len() - start);
            assert(rest[0] == vt[0]);
            assert(vt[0] == var[0]);
            assert(c.chars@[start] == rest[0]);
        }
    }
    let first = match c.peek() {
        None => {
            return Err(c.fail(ErrorKind::UnterminatedExpansion));
        },
        Some(ch) => ch,
    };
    if !is_ident_start(first) {
        if is_shell_parameter(first) {
            let mut p = String::new();
            push_char(&mut p, '$');
            push_char(&mut p, first);
            return Err(c.fail(ErrorKind::UnsupportedShellParameter(p)));
        }
        return Err(c.fail(ErrorKind::InvalidCharacter(first)));
    }
    let name = c.read_name();
    proof {
        if name_or_nothing(rest) && c.index < c.chars.len() {
            let k = c.index - start;
            assert(c.chars@[c.index as int] == rest[k]);
            assert(ident_char(rest[k]));
        }
        assert forall|var: Seq<char>, tok: Seq<char>, op: Operator, word: Seq<char>|
            #[trigger] braced_form(rest, var, tok, op, word) implies c.index == start + var.len() && name@ == var
            && c.chars@[c.index as int] == tok[0] && (tok.len() == 2 ==> c.chars@[c.index + 1] == tok[1])
            && c.chars@.subrange(start + var.len() + tok.len(), c.chars.len() as int) == word.push('}') by {
            let k = c.index - start;
            assert(rest[var.len() as int] == tok[0]);
            if k < var.len() {
                assert(c.chars@[c.index as int] == rest[k]);
                assert(rest[k] == var[k]);
                assert(ident_char(var[k]));
            } else if k > var.len() {
                assert(name@[var.len() as int] == rest[var.len() as int]);
                assert(ident_char(name@[var.len() as int]));
            }
            assert(name@ =~= var);
            assert(c.chars@[c.index as int] == rest[var.len() as int]);
            if tok.len() == 2 {
                assert(c.chars@[c.index + 1] == rest[var.len() + 1int]);
            }
            let vt = var + tok;
            let w = word.push('}');
            assert(rest.subrange(vt.len() as int, rest.len() as int) =~= w);
            assert(c.chars@.subrange(start + vt.len(), c.chars.len() as int) =~= rest.subrange(
                vt.len() as int,
                rest.len() as int,
            ));
        }
    }
    let colon = match c.peek() {
        None => {
            return Err(c.fail(ErrorKind::UnterminatedExpansion));
        },
        Some('}') => {
            c.bump();
            return Ok(Expression::Expansion(Expansion { name, operator: Operator::IfUnset, rhs: Vec::new() }));
        },
        Some(':') => {
            c.bump();
            true
        },
        Some(_) => false,
    };
    let op = match c.peek() {
        None => {
            return Err(c.fail(ErrorKind::UnterminatedExpansion));
        },
        Some(ch) => ch,
    };
    let operator = if op == '-' {
        if colon { Operator::IfUnsetOrNull } else { Operator::IfUnset }
    } else if op == '+' {
        if colon { Operator::IfSetAndNotNull } else { Operator::IfSet }
    } else if op == '=' {
        if colon { Operator::AssignIfUnsetOrNull } else { Operator::AssignIfUnset }
    } else if op == '?' {
        if colon { Operator::ErrorIfUnsetOrNull } else { Operator::ErrorIfUnset }
    } else {
        return Err(c.fail(ErrorKind::InvalidCharacter(op)));
    };
    proof {
        assert forall|var: Seq<char>, tok: Seq<char>, o: Operator, word: Seq<char>|
            #[trigger] braced_form(rest, var, tok, o, word) implies operator == o && c.index + 1 == start
            + var.len() + tok.len() by {
            if tok.len() == 2 {
                assert(colon);
            } else {
                assert(!colon);
            }
        }
    }
    c.bump();
    match parse_word(c) {
        Ok(rhs) => {
            proof {
                assert forall|var: Seq<char>, tok: Seq<char>, o: Operator, word: Seq<char>|
                    #[trigger] braced_form(rest, var, tok, o, word) implies c.chars@.subrange(
                    start + var.len() + tok.len(),
                    c.chars.len() - 1,
                ) == word by {
                    assert(c.chars@.subrange(start + var.len() + tok.len(), c.chars.len() - 1) =~= word);
                }
            }
            Ok(Expression::Expansion(Expansion { name, operator, rhs }))
        },
        Err(e) => Err(e),
    }
}

/// Reads the word of an expansion up to and including the closing `}`.
fn parse_word(c: &mut Cursor) -> (r: Result<Vec<Expression>, SyntaxError>)
    requires
        old(c).wf(),
    ensures
        old(c).reaches(*final(c)),
        r is Ok ==> final(c).index > old(c).index,
        r matches Err(e) ==> old(c).reportable(e),
        closed_word(old(c).chars@.subrange(old(c).index as int, old(c).chars.len() as int)) ==> (final(c).index
            == old(c).chars.len() && (r matches Ok(v) && is_plain_value(
            v@,
            old(c).chars@.subrange(old(c).index as int, old(c).chars.len() - 1),
        ))),
    decreases old(c).chars.len() - old(c).index, 1int,
{
    let ghost closed = closed_word(old(c).chars@.subrange(old(c).index as int, old(c).chars.len() as int));
    let mut out: Vec<Expression> = Vec::new();
    let mut text = String::new();
    proof {
        assert(text@ =~= c.chars@.subrange(old(c).index as int, c.index as int));
    }
    loop
        invariant
            old(c).reaches(*c),
            closed == closed_word(old(c).chars@.subrange(old(c).index as int, old(c).chars.len() as int)),
            closed ==> out@.len() == 0 && c.index < c.chars.len() && text@ == c.chars@.subrange(
                old(c).index as int,
                c.index as int,
            ),
        decreases c.chars.len() - c.index,
    {
        proof {
            if closed {
                let rest = old(c).chars@.subrange(old(c).index as int, old(c).chars.len() as int);
                let k = c.index - old(c).index;
                assert(c.chars@[c.index as int] == rest[k]);
                if k < rest.len() - 1 {
                    assert(word_char(rest[k]));
                }
            }
        }
        let ch = match c.peek() {
            None => {
                return Err(c.fail(ErrorKind::UnterminatedExpansion));
            },
            Some(ch) => ch,
        };
        if ch == '}' {
            c.bump();
            flush(&mut text, &mut out);
            proof {
                if closed {
                    assert(c.index == c.chars.len());
                }
            }
            return Ok(out);
        } else if ch == '$' {
            flush(&mut text, &mut out);
            match parse_dollar(c) {
                Ok(x) => out.push(x),
                Err(e) => {
                    return Err(e);
                },
            }
        } else if ch == '\\' {
            c.bump();
            match c.peek() {
                None => {
                    return Err(c.fail(ErrorKind::UnterminatedExpansion));
                },
                Some(next) => {
                    push_char(&mut text, next);
                    c.bump();
                },
            }
        } else {
            push_char(&mut text, ch);
            c.bump();
            proof {
                if closed {
                    assert(text@ =~= c.chars@.subrange(old(c).index as int, c.index as int));
                }
            }
        }
    }
}

/// Reads a single-quoted string into `text`; the cursor stands on the
/// opening quote.
fn parse_single_quoted(c: &mut Cursor, text: &mut String) -> (r: Result<(), SyntaxError>)
    requires
        old(c).wf(),
        old(c).index < old(c).chars.len(),
    ensures
        old(c).reaches(*final(c)),
        r is Ok ==> final(c).index > old(c).index,
        r matches Err(e) ==> old(c).reportable(e),
{
    c.bump();
    loop
        invariant
            old(c).reaches(*c),
            c.index > old(c).index,
        decreases c.chars.len() - c.index,
    {
        match c.peek() {
            None => {
                return Err(c.fail(ErrorKind::UnterminatedSingleQuotedString));
            },
            Some('\'') => {
                c.bump();
                return Ok(());
            },
            Some(ch) => {
                push_char(text, ch);
                c.bump();
            },
        }
    }
}

/// Reads a double-quoted string into `text` and `out`; the cursor stands on
/// the opening quote.
fn parse_double_quoted(c: &mut Cursor, text: &mut String, out: &mut Vec<Expression>) -> (r: Result<
    (),
    SyntaxError,
>)
    requires
        old(c).wf(),
        old(c).index < old(c).chars.len(),
    ensures
        old(c).reaches(*final(c)),
        r is Ok ==> final(c).index > old(c).index,
        r matches Err(e) ==> old(c).reportable(e),
{
    c.bump();
    loop
        invariant
            old(c).reaches(*c),
            c.index > old(c).index,
        decreases c.chars.len() - c.index,
    {
        let ch = match c.peek() {
            None => {
                return Err(c.fail(ErrorKind::UnterminatedDoubleQuotedString));
            },
            Some(ch) => ch,
        };
        if ch == '"' {
            c.bump();
            return Ok(());
        } else if ch == '$' {
            flush(text, out);
            match parse_dollar(c) {
                Ok(x) => out.push(x),
                Err(e) => {
                    return Err(e);
                },
            }
        } else if ch == '\\' {
            c.bump();
            match c.peek() {
                None => {
                    return Err(c.fail(ErrorKind::UnterminatedDoubleQuotedString));
                },
                Some(next) => {
                    if next == '\n' {
                    } else if next == '$' || next == '"' || next == '\\' {
                        push_char(text, next);
                    } else {
                        push_char(text, '\\');
                        push_char(text, next);
                    }
                    c.bump();
                },
            }
        } else {
            push_char(text, ch);
            c.bump();
        }
    }
}

/// Reads the value of a declaration, up to the end of its line.
fn parse_value(c: &mut Cursor) -> (r: Result<Vec<Expression>, SyntaxError>)
    requires
        old(c).wf(),
    ensures
        old(c).reaches(*final(c)),
        r matches Err(e) ==> old(c).reportable(e),
        (forall|j: int| old(c).index <= j < old(c).chars.len() ==> plain_char(#[trigger] old(c).chars@[j]))
            ==> (final(c).index == old(c).chars.len() && (r matches Ok(v) && is_plain_value(
            v@,
            old(c).chars@.subrange(old(c).index as int, old(c).chars.len() as int),
        ))),
        (old(c).index + 2 <= old(c).chars.len() && old(c).chars@[old(c).index as int] == '$'
            && old(c).chars@[old(c).index + 1] == '{' && name_or_nothing(
            old(c).chars@.subrange(old(c).index + 2, old(c).chars.len() as int),
        )) ==> (r matches Err(e) && e.spec_kind() == ErrorKind::UnterminatedExpansion),
        forall|var: Seq<char>, tok: Seq<char>, op: Operator, word: Seq<char>|
            #[trigger] braced_form(
                old(c).chars@.subrange(old(c).index + 2, old(c).chars.len() as int),
                var,
                tok,
                op,
                word,
            ) ==> ((old(c).index + 2 <= old(c).chars.len() && old(c).chars@[old(c).index as int] == '$'
                && old(c).chars@[old(c).index + 1] == '{') ==> (final(c).index == old(c).chars.len() && (r matches Ok(
                v,
            ) && v.len() == 1 && is_simple_expansion(v@[0], var, op, word)))),
{
    let ghost plain = forall|j: int|
        old(c).index <= j < old(c).chars.len() ==> plain_char(#[trigger] old(c).chars@[j]);
    let ghost opened = old(c).index + 2 <= old(c).chars.len() && old(c).chars@[old(c).index as int] == '$'
        && old(c).chars@[old(c).index + 1] == '{' && name_or_nothing(
        old(c).chars@.subrange(old(c).index + 2, old(c).chars.len() as int),
    );
    let mut out: Vec<Expression> = Vec::new();
    let mut text = String::new();
    proof {
        assert(text@ =~= c.chars@.subrange(old(c).index as int, c.index as int));
    }
    loop
        invariant
            old(c).reaches(*c),
            plain == forall|j: int|
                old(c).index <= j < old(c).chars.len() ==> plain_char(#[trigger] old(c).chars@[j]),
            plain ==> out@.len() == 0 && text@ == c.chars@.subrange(old(c).index as int, c.index as int),
            opened == (old(c).index + 2 <= old(c).chars.len() && old(c).chars@[old(c).index as int] == '$'
                && old(c).chars@[old(c).index + 1] == '{' && name_or_nothing(
                old(c).chars@.subrange(old(c).index + 2, old(c).chars.len() as int),
            )),
            opened ==> c.index == old(c).index,
            forall|var: Seq<char>, tok: Seq<char>, op: Operator, word: Seq<char>|
                #[trigger] braced_form(
                    old(c).chars@.subrange(old(c).index + 2, old(c).chars.len() as int),
                    var,
                    tok,
                    op,
                    word,
                ) ==> ((old(c).index + 2 <= old(c).chars.len() && old(c).chars@[old(c).index as int] == '$'
                    && old(c).chars@[old(c).index + 1] == '{') ==> (text@.len() == 0 && ((c.index == old(c).index
                    && out.len() == 0) || (c.index == c.chars.len() && out.len() == 1 && is_simple_expansion(
                    out@[0],
                    var,
                    op,
                    word,
                ))))),
        ensures
            forall|var: Seq<char>, tok: Seq<char>, op: Operator, word: Seq<char>|
                #[trigger] braced_form(
                    old(c).chars@.subrange(old(c).index + 2, old(c).chars.len() as int),
                    var,
                    tok,
                    op,
                    word,
                ) ==> ((old(c).index + 2 <= old(c).chars.len() && old(c).chars@[old(c).index as int] == '$'
                    && old(c).chars@[old(c).index + 1] == '{') ==> (text@.len() == 0 && c.index == c.chars.len()
                    && out.len() == 1 && is_simple_expansion(out@[0], var, op, word))),
            !opened,
            old(c).reaches(*c),
            plain ==> c.index == c.chars.len() && out@.len() == 0 && text@ == c.chars@.subrange(
                old(c).index as int,
                c.index as int,
            ),
        decreases c.chars.len() - c.index,
    {
        let ch = match c.peek() {
            None => {
                break;
            },
            Some(ch) => ch,
        };
        if ch == '\n' {
            break;
        } else if ch == '\'' {
            match parse_single_quoted(c, &mut text) {
                Ok(()) => {},
                Err(e) => {
                    return Err(e);
                },
            }
        } else if ch == '"' {
            match parse_double_quoted(c, &mut text, &mut out) {
                Ok(()) => {},
                Err(e) => {
                    return Err(e);
                },
            }
        } else if ch == '$' {
            flush(&mut text, &mut out);
            match parse_dollar(c) {
                Ok(x) => out.push(x),
                Err(e) => {
                    return Err(e);
                },
            }
        } else if ch == '\\' {
            c.bump();
            match c.peek() {
                None => {
                    return Err(c.fail(ErrorKind::Eof));
                },
                Some(next) => {
                    if next != '\n' {
                        push_char(&mut text, next);
                    }
                    c.bump();
                },
            }
        } else if is_special(ch) {
            return Err(c.fail(ErrorKind::UnescapedSpecialCharacter(ch)));
        } else {
            push_char(&mut text, ch);
            c.bump();
            proof {
                if plain {
                    assert(text@ =~= c.chars@.subrange(old(c).index as int, c.index as int));
                }
            }
        }
    }
    flush(&mut text, &mut out);
    Ok(out)
}

/// Reads one declaration `NAME=value`; the cursor stands on the name.
fn parse_declaration(c: &mut Cursor) -> (r: Result<Assignment, SyntaxError>)
    requires
        old(c).wf(),
        old(c).index < old(c).chars.len(),
        ident_start(old(c).chars@[old(c).index as int]),
    ensures
        r matches Ok(a) ==> is_identifier(a.name@),
        forall|name: Seq<char>, text: Seq<char>|
            #[trigger] plain_declaration(
                old(c).chars@.subrange(old(c).index as int, old(c).chars.len() as int),
                name,
                text,
            ) ==> (final(c).index == final(c).chars.len() && (r matches Ok(a) && a.name@ == name
                && is_plain_value(a.value@, text))),
        forall|name: Seq<char>, value: Seq<char>|
            #[trigger] unclosed_declaration(
                old(c).chars@.subrange(old(c).index as int, old(c).chars.len() as int),
                name,
                value,
            ) ==> (r matches Err(e) && e.spec_kind() == ErrorKind::UnterminatedExpansion),
        forall|name: Seq<char>, var: Seq<char>, tok: Seq<char>, op: Operator, word: Seq<char>|
            #[trigger] expansion_declaration(
                old(c).chars@.subrange(old(c).index as int, old(c).chars.len() as int),
                name,
                var,
                tok,
                op,
                word,
            ) ==> (final(c).index == final(c).chars.len() && (r matches Ok(a) && a.name@ == name
                && a.value.len() == 1 && is_simple_expansion(a.value@[0], var, op, word))),
        old(c).reaches(*final(c)),
        r is Ok ==> final(c).index > old(c).index,
        r matches Err(e) ==> old(c).reportable(e),
{
    let ghost start = c.index as int;
    let ghost rest = c.chars@.subrange(start, c.chars.len() as int);
    let name = c.read_name();
    proof {
        assert forall|n: Seq<char>, t: Seq<char>| #[trigger] declaration_shape(rest, n, t) implies c.index
            == start + n.len() && name@ == n && c.chars@[c.index as int] == '='
            && c.chars@.subrange(c.index + 1, c.chars.len() as int) == t by {
            lemma_declaration_chars(rest, n, t);
            let k = c.index - start;
            if k < n.len() {
                assert(c.chars@[c.index as int] == rest[k]);
                assert(ident_char(n[k]));
            } else if k > n.len() {
                assert(name@[n.len() as int] == rest[n.len() as int]);
            }
            assert(name@ =~= n);
            assert(c.chars@.subrange(c.index + 1, c.chars.len() as int) =~= t);
        }
        assert forall|n: Seq<char>, var: Seq<char>, tok: Seq<char>, op: Operator, word: Seq<char>|
            #[trigger] expansion_declaration(rest, n, var, tok, op, word) implies c.index == start + n.len()
            && name@ == n && c.chars@[c.index as int] == '=' by {
            lemma_expansion_declaration(rest, n, var, tok, op, word);
            assert(declaration_shape(rest, n, rest.subrange(n.len() + 1int, rest.len() as int)));
        }
    }
    match c.peek() {
        None => {
            return Err(c.fail(ErrorKind::Eof));
        },
        Some('=') => {
            c.bump();
        },
        Some(ch) => {
            return Err(c.fail(ErrorKind::InvalidCharacter(ch)));
        },
    }
    proof {
        assert forall|n: Seq<char>, t: Seq<char>| #[trigger] plain_declaration(rest, n, t) implies forall|j: int|
            c.index <= j < c.chars.len() ==> plain_char(#[trigger] c.chars@[j]) by {
            assert forall|j: int| c.index <= j < c.chars.len() implies plain_char(#[trigger] c.chars@[j]) by {
                assert(c.chars@[j] == t[j - c.index]);
            }
        }
        assert forall|n: Seq<char>, v: Seq<char>| #[trigger] unclosed_declaration(rest, n, v) implies c.index
            + 2 <= c.chars.len() && c.chars@[c.index as int] == '$' && c.chars@[c.index + 1] == '{'
            && name_or_nothing(c.chars@.subrange(c.index + 2, c.chars.len() as int)) by {
            assert(c.chars@[c.index as int] == v[0]);
            assert(c.chars@[c.index + 1] == v[1]);
            assert(c.chars@.subrange(c.index + 2, c.chars.len() as int) =~= v.subrange(2, v.len() as int));
        }
        assert forall|n: Seq<char>, var: Seq<char>, tok: Seq<char>, op: Operator, word: Seq<char>|
            #[trigger] expansion_declaration(rest, n, var, tok, op, word) implies c.index + 2 <= c.chars.len()
            && c.chars@[c.index as int] == '$' && c.chars@[c.index + 1] == '{' && braced_form(
            c.chars@.subrange(c.index + 2, c.chars.len() as int),
            var,
            tok,
            op,
            word,
        ) by {
            lemma_expansion_declaration(rest, n, var, tok, op, word);
            let v = rest.subrange(n.len() + 1int, rest.len() as int);
            assert(declaration_shape(rest, n, v));
            assert(c.chars@[c.index as int] == rest[n.len() + 1int]);
            assert(c.chars@[c.index + 1] == rest[n.len() + 2int]);
            assert(c.chars@.subrange(c.index + 2, c.chars.len() as int) =~= rest.subrange(
                n.len() + 3int,
                rest.len() as int,
            ));
        }
    }
    match parse_value(c) {
        Ok(value) => Ok(Assignment { name, value }),
        Err(e) => Err(e),
    }
}

/// The position of the first NUL character of `chars`, if there is one.
fn find_nul(chars: &Vec<char>) -> (r: Option<Position>)
    requires
        chars.len() + 2 < usize::MAX,
    ensures
        match r {
            Some(p) => exists|i: int| first_nul(chars@, i) && at(p, position_after(chars@.take(i))),
            None => forall|i: int| 0 <= i < chars.len() ==> chars@[i] != '\0',
        },
{
    let mut position = Position::start();
    let mut i: usize = 0;
    while i < chars.len()
        invariant
            i <= chars.len(),
            chars.len() + 2 < usize::MAX,
            at(position, position_after(chars@.take(i as int))),
            forall|j: int| 0 <= j < i ==> chars@[j] != '\0',
        decreases chars.len() - i,
    {
        if chars[i] == '\0' {
            assert(first_nul(chars@, i as int));
            return Some(position);
        }
        proof {
            lemma_position_bounds(chars@.take(i as int));
            assert(chars@.take(i + 1).drop_last() =~= chars@.take(i as int));
        }
        position.advance(chars[i]);
        i = i + 1;
    }
    None
}

/// Parses declarations `NAME=value`, one per line, into assignments in
/// order. Blank lines and lines starting with `#` are skipped. Values may
/// hold single- and double-quoted strings, backslash escapes and expansions
/// `$NAME`, `${NAME}` and `${NAME<operator>word}`. A NUL character anywhere
/// is rejected at its own position; errors detected on running out of input
/// stand at the end of the input; `filename`, if given, is carried into
/// every error. A lone declaration `NAME=text` with plain text gives exactly
/// that assignment; `NAME=${VAR<operator>word}` with a plain word gives that
/// one expansion, its operator read by the table of `operator_token`; and
/// `NAME=${VAR` that is never closed fails as an unterminated expansion.
pub fn parse(input: &str, filename: Option<String>) -> (r: Result<Vec<Assignment>, SyntaxError>)
    requires
        input@.len() + 2 < usize::MAX,
    ensures
        forall|i: int|
            first_nul(input@, i) ==> (r matches Err(e) && e.spec_kind() == ErrorKind::NullCharacter
                && at(e.spec_position(), position_after(input@.take(i)))),
        r matches Err(e) ==> e.spec_filename() == opt_view(filename),
        r matches Err(e) ==> (is_end_kind(e.spec_kind()) ==> at(e.spec_position(), position_after(input@))),
        r is Ok ==> forall|i: int| 0 <= i < input@.len() ==> input@[i] != '\0',
        r matches Ok(v) ==> forall|i: int| 0 <= i < v.len() ==> is_identifier(#[trigger] v@[i].name@),
        forall|name: Seq<char>, text: Seq<char>|
            #[trigger] plain_declaration(input@, name, text) ==> (r matches Ok(v) && v.len() == 1
                && v@[0].name@ == name && is_plain_value(v@[0].value@, text)),
        forall|name: Seq<char>, value: Seq<char>|
            #[trigger] unclosed_declaration(input@, name, value) ==> (r matches Err(e) && e.spec_kind()
                == ErrorKind::UnterminatedExpansion),
        forall|name: Seq<char>, var: Seq<char>, tok: Seq<char>, op: Operator, word: Seq<char>|
            #[trigger] expansion_declaration(input@, name, var, tok, op, word) ==> (r matches Ok(v) && v.len()
                == 1 && v@[0].name@ == name && v@[0].value.len() == 1 && is_simple_expansion(
                v@[0].value@[0],
                var,
                op,
                word,
            )),
{
    let chars = chars_of(input);
    match find_nul(&chars) {
        Some(p) => {
            proof {
                assert forall|n: Seq<char>, t: Seq<char>| #[trigger] plain_declaration(input@, n, t) implies false by {
                    lemma_declaration_chars(input@, n, t);
                }
                assert forall|n: Seq<char>, v: Seq<char>| #[trigger] unclosed_declaration(input@, n, v) implies false by {
                    lemma_unclosed_has_no_nul(v);
                    lemma_declaration_chars(input@, n, v);
                }
                assert forall|n: Seq<char>, var: Seq<char>, tok: Seq<char>, op: Operator, word: Seq<char>|
                    #[trigger] expansion_declaration(input@, n, var, tok, op, word) implies false by {
                    lemma_expansion_declaration(input@, n, var, tok, op, word);
                }
                assert forall|i: int| first_nul(input@, i) implies at(p, position_after(input@.take(i))) by {
                    let k = choose|k: int| first_nul(chars@, k) && at(p, position_after(chars@.take(k)));
                    assert(k == i);
                }
            }
            return Err(SyntaxError::new(ErrorKind::NullCharacter, p, filename));
        },
        None => {},
    }
    let ghost name_view = opt_view(filename);
    let mut c = Cursor { chars, index: 0, position: Position::start(), filename };
    proof {
        assert(c.chars@.take(0) =~= Seq::<char>::empty());
    }
    let mut out: Vec<Assignment> = Vec::new();
    proof {
        assert(c.chars@.subrange(0, c.chars.len() as int) =~= input@);
    }
    while c.index < c.chars.len()
        invariant
            c.wf(),
            c.chars@ == input@,
            opt_view(c.filename) == name_view,
            name_view == opt_view(filename),
            forall|i: int| 0 <= i < input@.len() ==> input@[i] != '\0',
            forall|i: int| 0 <= i < out.len() ==> is_identifier(#[trigger] out@[i].name@),
            forall|n: Seq<char>, t: Seq<char>| #[trigger] plain_declaration(input@, n, t) ==> ((c.index == 0
                && out.len() == 0) || (c.index == c.chars.len() && out.len() == 1 && out@[0].name@ == n
                && is_plain_value(out@[0].value@, t))),
            forall|n: Seq<char>, v: Seq<char>| #[trigger] unclosed_declaration(input@, n, v) ==> (c.index == 0
                && input@.len() > 0),
            forall|n: Seq<char>, var: Seq<char>, tok: Seq<char>, op: Operator, word: Seq<char>|
                #[trigger] expansion_declaration(input@, n, var, tok, op, word) ==> ((c.index == 0 && out.len()
                == 0) || (c.index == c.chars.len() && out.len() == 1 && out@[0].name@ == n && out@[0].value.len()
                == 1 && is_simple_expansion(out@[0].value@[0], var, op, word))),
        decreases c.chars.len() - c.index,
    {
        proof {
            assert forall|n: Seq<char>, t: Seq<char>| #[trigger] plain_declaration(input@, n, t) implies c.index
                == 0 && ident_start(c.chars@[0]) && c.chars@.subrange(0, c.chars.len() as int) == input@ by {
                lemma_declaration_chars(input@, n, t);
                assert(c.chars@.subrange(0, c.chars.len() as int) =~= input@);
            }
            assert forall|n: Seq<char>, v: Seq<char>| #[trigger] unclosed_declaration(input@, n, v) implies c.index
                == 0 && ident_start(c.chars@[0]) && c.chars@.subrange(0, c.chars.len() as int) == input@ by {
                lemma_declaration_chars(input@, n, v);
                assert(c.chars@.subrange(0, c.chars.len() as int) =~= input@);
            }
            assert forall|n: Seq<char>, var: Seq<char>, tok: Seq<char>, op: Operator, word: Seq<char>|
                #[trigger] expansion_declaration(input@, n, var, tok, op, word) implies c.index == 0
                && ident_start(c.chars@[0]) && c.chars@.subrange(0, c.chars.len() as int) == input@ by {
                lemma_expansion_declaration(input@, n, var, tok, op, word);
                lemma_declaration_chars(input@, n, input@.subrange(n.len() + 1int, input@.len() as int));
                assert(c.chars@.subrange(0, c.chars.len() as int) =~= input@);
            }
        }
        let ch = c.chars[c.index];
        if ch == '\n' || ch == ' ' || ch == '\t' {
            c.bump();
        } else if ch == '#' {
            let ghost start = c.index;
            c.bump();
            while c.index < c.chars.len() && c.chars[c.index] != '\n'
                invariant
                    c.index > start,
                    c.wf(),
                    c.chars@ == input@,
                    opt_view(c.filename) == name_view,
                decreases c.chars.len() - c.index,
            {
                c.bump();
            }
        } else if is_ident_start(ch) {
            match parse_declaration(&mut c) {
                Ok(a) => out.push(a),
                Err(e) => {
                    return Err(e);
                },
            }
        } else {
            return Err(c.fail(ErrorKind::InvalidCharacter(ch)));
        }
    }
    Ok(out)
}

} // verus!
