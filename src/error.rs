use vstd::prelude::*;
use vstd::string::StringExecFns;

use crate::scope::opt_view;

verus! {

/// A place in the source text: line and column, both counted from 1.
#[derive(Debug, Clone, Copy, PartialEq, Eq, Structural)]
pub struct Position {
    pub line: usize,
    pub column: usize,
}

impl Position {
    /// The position of the first character of a text.
    pub fn start() -> (r: Position)
        ensures
            r.line == 1,
            r.column == 1,
    {
        Position { line: 1, column: 1 }
    }

    /// The position after consuming `ch`: a newline moves to the first
    /// column of the next line, any other character to the next column.
    pub fn advance(&mut self, ch: char)
        requires
            old(self).line < usize::MAX,
            old(self).column < usize::MAX,
        ensures
            ch == '\n' ==> final(self).line == old(self).line + 1 && final(self).column == 1,
            ch != '\n' ==> final(self).line == old(self).line && final(self).column == old(self).column + 1,
    {
        if ch == '\n' {
            self.line = self.line + 1;
            self.column = 1;
        } else {
            self.column = self.column + 1;
        }
    }
}

/// The lexical errors.
#[derive(Debug, Clone, PartialEq, Eq)]
pub enum ErrorKind {
    Eof,
    NullCharacter,
    UnescapedSpecialCharacter(char),
    UnterminatedSingleQuotedString,
    UnterminatedDoubleQuotedString,
    UnsupportedShellParameter(String),
    UnterminatedExpansion,
    UnsupportedCommandExpansion,
    UnsupportedCommandOrArithmeticExpansion,
    InvalidCharacter(char),
}

/// The rendering of an error kind.
pub open spec fn kind_text(k: ErrorKind) -> Seq<char> {
    match k {
        ErrorKind::Eof => "Unexpected end of input"@,
        ErrorKind::NullCharacter => "Unexpected <NUL> character"@,
        ErrorKind::UnescapedSpecialCharacter(ch) => "Unescaped special shell character '"@ + seq![ch] + "'"@,
        ErrorKind::UnterminatedSingleQuotedString => "Unterminated single-quoted string"@,
        ErrorKind::UnterminatedDoubleQuotedString => "Unterminated double-quoted string"@,
        ErrorKind::UnsupportedShellParameter(p) => "Unsupported special shell parameter: "@ + p@,
        ErrorKind::UnterminatedExpansion => "Unterminated expansion"@,
        ErrorKind::UnsupportedCommandExpansion => "Unsupported command expansion"@,
        ErrorKind::UnsupportedCommandOrArithmeticExpansion => "Unsupported command or arithmetic expansion"@,
        ErrorKind::InvalidCharacter(ch) => "Invalid character '"@ + seq![ch] + "'"@,
    }
}

/// The decimal digits of `n`, most significant first, without sign or padding.
pub open spec fn decimal(n: nat) -> Seq<char>
    decreases n,
{
    let digits = seq!['0', '1', '2', '3', '4', '5', '6', '7', '8', '9'];
    if n < 10 {
        seq![digits[n as int]]
    } else {
        decimal(n / 10).push(digits[(n % 10) as int])
    }
}

/// Relies on `String::push`: appends one character.
#[verifier::external_body]
pub(crate) fn push_char(s: &mut String, c: char)
    ensures
        final(s)@ == old(s)@.push(c),
{
    s.push(c)
}

/// Relies on `ToString` for `usize`, which goes through its `Display`: the
/// decimal digits, without sign or padding.
#[verifier::external_body]
fn decimal_text(n: usize) -> (r: String)
    ensures
        r@ == decimal(n as nat),
{
    n.to_string()
}

impl ErrorKind {
    /// The human-readable message of this kind.
    pub fn message(&self) -> (r: String)
        ensures
            r@ == kind_text(*self),
    {
        let mut s = String::new();
        match self {
            ErrorKind::Eof => s.append("Unexpected end of input"),
            ErrorKind::NullCharacter => s.append("Unexpected <NUL> character"),
            ErrorKind::UnescapedSpecialCharacter(ch) => {
                s.append("Unescaped special shell character '");
                push_char(&mut s, *ch);
                s.append("'");
            },
            ErrorKind::UnterminatedSingleQuotedString => s.append("Unterminated single-quoted string"),
            ErrorKind::UnterminatedDoubleQuotedString => s.append("Unterminated double-quoted string"),
            ErrorKind::UnsupportedShellParameter(p) => {
                s.append("Unsupported special shell parameter: ");
                s.append(p.as_str());
            },
            ErrorKind::UnterminatedExpansion => s.append("Unterminated expansion"),
            ErrorKind::UnsupportedCommandExpansion => s.append("Unsupported command expansion"),
            ErrorKind::UnsupportedCommandOrArithmeticExpansion => {
                s.append("Unsupported command or arithmetic expansion")
            },
            ErrorKind::InvalidCharacter(ch) => {
                s.append("Invalid character '");
                push_char(&mut s, *ch);
                s.append("'");
            },
        }
        s
    }
}

/// A lexical error: its kind, where it was detected, and the file it came
/// from when that is known.
#[derive(Debug, PartialEq, Eq)]
pub struct SyntaxError {
    kind: ErrorKind,
    position: Position,
    filename: Option<String>,
}

/// The rendering of a syntax error.
pub open spec fn syntax_error_text(
    kind: ErrorKind,
    position: Position,
    filename: Option<Seq<char>>,
) -> Seq<char> {
    let place = match filename {
        Some(f) => " in "@ + f,
        None => Seq::empty(),
    };
    kind_text(kind) + place + " on line "@ + decimal(position.line as nat) + ", column "@ + decimal(
        position.column as nat,
    )
}

impl SyntaxError {
    /// The kind of this error.
    pub closed spec fn spec_kind(&self) -> ErrorKind {
        self.kind
    }

    /// Where this error was detected.
    pub closed spec fn spec_position(&self) -> Position {
        self.position
    }

    /// The file this error came from, if known.
    pub closed spec fn spec_filename(&self) -> Option<Seq<char>> {
        opt_view(self.filename)
    }

    pub fn new(kind: ErrorKind, position: Position, filename: Option<String>) -> (r: SyntaxError)
        ensures
            r.spec_kind() == kind,
            r.spec_position() == position,
            r.spec_filename() == opt_view(filename),
    {
        SyntaxError { kind, position, filename }
    }

    pub fn kind(&self) -> (r: &ErrorKind)
        ensures
            *r == self.spec_kind(),
    {
        &self.kind
    }

    pub fn line(&self) -> (r: usize)
        ensures
            r == self.spec_position().line,
    {
        self.position.line
    }

    pub fn column(&self) -> (r: usize)
        ensures
            r == self.spec_position().column,
    {
        self.position.column
    }

    pub fn file(&self) -> (r: Option<&str>)
        ensures
            match r {
                Some(f) => self.spec_filename() == Some(f@),
                None => self.spec_filename() is None,
            },
    {
        match &self.filename {
            Some(f) => Some(f.as_str()),
            None => None,
        }
    }

    /// The human-readable message: the kind's message, then the file if
    /// known, then the line and column.
    pub fn message(&self) -> (r: String)
        ensures
            r@ == syntax_error_text(self.spec_kind(), self.spec_position(), self.spec_filename()),
    {
        let mut s = self.kind.message();
        match &self.filename {
            Some(f) => {
                s.append(" in ");
                s.append(f.as_str());
            },
            None => {},
        }
        s.append(" on line ");
        let line = decimal_text(self.position.line);
        s.append(line.as_str());
        s.append(", column ");
        let column = decimal_text(self.position.column);
        s.append(column.as_str());
        s
    }
}

} // verus!
