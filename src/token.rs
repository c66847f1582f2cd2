use vstd::prelude::*;

verus! {

/// The kinds of token of the source language.
#[derive(Clone, Copy, Debug, PartialEq, Eq, Structural)]
pub enum Kind {
    LeftParen,
    RightParen,
    LeftBrace,
    RightBrace,
    Comma,
    Dot,
    Minus,
    Plus,
    Semicolon,
    Slash,
    Star,
    Question,
    Colon,
    NewLine,
    Bang,
    BangEqual,
    Equal,
    EqualEqual,
    Greater,
    GreaterEqual,
    Less,
    LessEqual,
    Name,
    Str,
    Integer,
    Float,
    And,
    Class,
    Else,
    False,
    Func,
    For,
    If,
    Nil,
    Or,
    Print,
    Return,
    Super,
    This,
    True,
    Var,
    While,
    Break,
    Eof,
}

/// A token: its kind, its text, and where it starts.
#[derive(Debug)]
pub struct Token {
    kind: Kind,
    lexeme: String,
    line: usize,
    pos: usize,
}

impl Token {
    pub closed spec fn kind_spec(&self) -> Kind {
        self.kind
    }

    pub closed spec fn text(&self) -> Seq<char> {
        self.lexeme@
    }

    pub closed spec fn line_spec(&self) -> usize {
        self.line
    }

    pub closed spec fn pos_spec(&self) -> usize {
        self.pos
    }

    pub fn new(kind: Kind, lexeme: String, line: usize, pos: usize) -> (r: Self)
        ensures
            r.kind_spec() == kind,
            r.text() == lexeme@,
            r.line_spec() == line,
            r.pos_spec() == pos,
    {
        Self { kind, lexeme, line, pos }
    }

    /// A copy of the token.
    pub fn duplicate(&self) -> (r: Self)
        ensures
            r == *self,
    {
        Self { kind: self.kind, lexeme: self.lexeme.clone(), line: self.line, pos: self.pos }
    }

    pub fn kind(&self) -> (r: Kind)
        ensures
            r == self.kind_spec(),
    {
        self.kind
    }

    pub fn lexeme(&self) -> (r: &str)
        ensures
            r@ == self.text(),
    {
        self.lexeme.as_str()
    }

    /// The length of the token's text, in bytes.
    pub fn len(&self) -> (r: usize)
        ensures
            r == vstd::utf8::encode_utf8(self.text()).len() as usize,
    {
        self.lexeme.as_str().len()
    }

    pub fn line(&self) -> (r: usize)
        ensures
            r == self.line_spec(),
    {
        self.line
    }

    pub fn pos(&self) -> (r: usize)
        ensures
            r == self.pos_spec(),
    {
        self.pos
    }

    /// The start of the token and its length.
    pub fn range(&self) -> (r: (usize, usize))
        ensures
            r.0 == self.pos_spec(),
            r.1 == vstd::utf8::encode_utf8(self.text()).len() as usize,
    {
        (self.pos, self.len())
    }
}

} // verus!
