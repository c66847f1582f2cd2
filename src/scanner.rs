use vstd::prelude::*;
use crate::token::{Kind, Token};
use vstd::string::StringExecFns;

verus! {

/// Why the source could not be split into tokens; positions count characters.
#[derive(Debug, PartialEq, Eq, Structural)]
pub enum LexError {
    UnexpectedChar { ch: char, line: usize, pos: usize },
    ExpectedBangEqual { line: usize, pos: usize },
    UnexpectedDot { line: usize, pos: usize },
    ExpectedDigit { line: usize, pos: usize },
}

impl LexError {
    /// The message to show, and the line and character position it is about.
    pub fn describe(&self) -> (String, usize, usize) {
        match self {
            LexError::UnexpectedChar { ch, line, pos } => {
                let mut v = chars_of("Unexpected character: `");
                v.push(*ch);
                v.push('`');
                (string_of(&v), *line, *pos)
            },
            LexError::ExpectedBangEqual { line, pos } => (String::from_str("Expected `!=`"), *line, *pos),
            LexError::UnexpectedDot { line, pos } => (String::from_str("Unexpected `.`"), *line, *pos),
            LexError::ExpectedDigit { line, pos } => (String::from_str("Expected a digit after `.`"), *line, *pos),
        }
    }
}

/// Relies on `str::chars`: the characters of the text, in order.
#[verifier::external_body]
pub(crate) fn chars_of(s: &str) -> (r: Vec<char>)
    ensures
        r@ == s@,
{
    s.chars().collect()
}

/// Relies on collecting characters into a `String`: the same characters, in order.
#[verifier::external_body]
pub(crate) fn string_of(v: &Vec<char>) -> (r: String)
    ensures
        r@ == v@,
{
    v.iter().collect()
}

pub open spec fn is_digit(c: char) -> bool {
    '0' <= c <= '9'
}

pub open spec fn is_alpha(c: char) -> bool {
    ('a' <= c <= 'z') || ('A' <= c <= 'Z') || c == '_'
}

/// A character that can begin a token or a blank.
pub open spec fn starts_token(c: char) -> bool {
    c == ' ' || c == '\t' || c == '\r' || c == '\n' || c == '+' || c == '-' || c == '*' || c == '/'
        || c == ',' || c == '=' || c == '!' || c == '>' || c == '<' || c == ':' || c == '(' || c == ')'
        || c == '{' || c == '}' || is_alpha(c) || is_digit(c)
}

/// The kind of a one-character token.
pub open spec fn single_kind(c: char) -> Option<Kind> {
    if c == '\n' {
        Some(Kind::NewLine)
    } else if c == '+' {
        Some(Kind::Plus)
    } else if c == '-' {
        Some(Kind::Minus)
    } else if c == '*' {
        Some(Kind::Star)
    } else if c == '/' {
        Some(Kind::Slash)
    } else if c == ',' {
        Some(Kind::Comma)
    } else if c == '=' {
        Some(Kind::Equal)
    } else if c == '>' {
        Some(Kind::Greater)
    } else if c == '<' {
        Some(Kind::Less)
    } else if c == ':' {
        Some(Kind::Colon)
    } else if c == '(' {
        Some(Kind::LeftParen)
    } else if c == ')' {
        Some(Kind::RightParen)
    } else if c == '{' {
        Some(Kind::LeftBrace)
    } else if c == '}' {
        Some(Kind::RightBrace)
    } else {
        None
    }
}

/// The kind of a two-character token `c=`.
pub open spec fn eq_kind(c: char) -> Option<Kind> {
    if c == '=' {
        Some(Kind::EqualEqual)
    } else if c == '!' {
        Some(Kind::BangEqual)
    } else if c == '>' {
        Some(Kind::GreaterEqual)
    } else if c == '<' {
        Some(Kind::LessEqual)
    } else {
        None
    }
}

/// The keyword that `t` spells, if any.
pub open spec fn keyword_kind(t: Seq<char>) -> Option<Kind> {
    if t == seq!['n', 'o', 't'] {
        Some(Kind::Bang)
    } else if t == seq!['a', 'n', 'd'] {
        Some(Kind::And)
    } else if t == seq!['o', 'r'] {
        Some(Kind::Or)
    } else if t == seq!['i', 'f'] {
        Some(Kind::If)
    } else if t == seq!['e', 'l', 's', 'e'] {
        Some(Kind::Else)
    } else if t == seq!['t', 'r', 'u', 'e'] {
        Some(Kind::True)
    } else if t == seq!['f', 'a', 'l', 's', 'e'] {
        Some(Kind::False)
    } else {
        None
    }
}

/// The kind that a token's text gives it: operators by their characters
/// (`*` is `Star`, `/` is `Slash`), keywords, names, and numbers, which are
/// floats exactly when they hold a `.`.
pub open spec fn kind_of_text(t: Seq<char>) -> Kind {
    if t.len() == 1 && single_kind(t[0]) is Some {
        single_kind(t[0])->0
    } else if t.len() == 2 && t[1] == '=' && eq_kind(t[0]) is Some {
        eq_kind(t[0])->0
    } else if keyword_kind(t) is Some {
        keyword_kind(t)->0
    } else if t.len() > 0 && is_alpha(t[0]) {
        Kind::Name
    } else if t.contains('.') {
        Kind::Float
    } else {
        Kind::Integer
    }
}

/// A character that can make scanning fail: one that starts no token, or a
/// `!` or `.`, which need a particular next character.
pub open spec fn may_fail_at(c: char) -> bool {
    !starts_token(c) || c == '!' || c == '.'
}

/// A token whose text is the source at its position.
pub open spec fn from_source(t: Token, source: Seq<char>) -> bool {
    t.pos_spec() + t.text().len() <= source.len() && t.text() == source.subrange(
        t.pos_spec() as int,
        t.pos_spec() + t.text().len(),
    ) && t.text().len() > 0
}

/// Splits source text into tokens.
pub struct Scanner {
    source: Vec<char>,
    line: usize,
    start: usize,
    current: usize,
    tokens: Vec<Token>,
}

impl Scanner {
    pub closed spec fn text(&self) -> Seq<char> {
        self.source@
    }

    /// How many characters have been consumed.
    pub closed spec fn position(&self) -> usize {
        self.current
    }

    pub closed spec fn same_but_position(&self, o: &Self) -> bool {
        self.source == o.source && self.start == o.start && self.line == o.line && self.tokens == o.tokens
    }

    pub closed spec fn wf(&self) -> bool {
        &&& self.start <= self.current <= self.source@.len()
        &&& 1 <= self.line <= self.current + 1
        &&& self.source@.len() < usize::MAX
        &&& forall|i: int| 0 <= i < self.tokens@.len() ==> from_source(#[trigger] self.tokens@[i], self.source@)
            && self.tokens@[i].kind_spec() != Kind::Eof && self.tokens@[i].kind_spec() == kind_of_text(
            self.tokens@[i].text(),
        )
    }

    pub fn new(source: &str) -> (r: Self)
        requires
            source@.len() < usize::MAX,
        ensures
            r.wf(),
            r.text() == source@,
    {
        Self { source: chars_of(source), line: 1, start: 0, current: 0, tokens: Vec::new() }
    }

    /// The next character, if any.
    pub fn peek(&self) -> (r: Option<char>)
        ensures
            r == (if self.position() < self.text().len() {
                Some(self.text()[self.position() as int])
            } else {
                None
            }),
    {
        if self.current < self.source.len() {
            Some(self.source[self.current])
        } else {
            None
        }
    }

    /// Takes the next character, if any.
    pub fn advance(&mut self) -> (r: Option<char>)
        requires
            old(self).wf(),
        ensures
            final(self).wf(),
            final(self).same_but_position(old(self)),
            old(self).position() < old(self).text().len() ==> final(self).position() == old(self).position() + 1
                && r == Some(old(self).text()[old(self).position() as int]),
            old(self).position() >= old(self).text().len() ==> final(self).position() == old(self).position()
                && r is None,
    {
        let ch = self.peek();
        if self.current < self.source.len() {
            self.current = self.current + 1;
        }
        ch
    }

    fn is_end(&self) -> (r: bool)
        ensures
            r == (self.current >= self.source@.len()),
    {
        self.current >= self.source.len()
    }

    /// All tokens of the source, ending with one `Eof`.
    pub fn scan_tokens(self) -> (r: Result<Vec<Token>, LexError>)
        requires
            self.wf(),
        ensures
            r is Ok ==> r->Ok_0@.len() >= 1 && r->Ok_0@.last().kind_spec() == Kind::Eof && forall|i: int|
                0 <= i < r->Ok_0@.len() - 1 ==> from_source(#[trigger] r->Ok_0@[i], self.text())
                    && r->Ok_0@[i].kind_spec() != Kind::Eof && r->Ok_0@[i].kind_spec() == kind_of_text(
                    r->Ok_0@[i].text(),
                ),
            r matches Err(LexError::UnexpectedChar { ch, line, pos }) ==> pos < self.text().len()
                && self.text()[pos as int] == ch && !starts_token(ch),
            r is Err ==> exists|i: int| 0 <= i < self.text().len() && may_fail_at(#[trigger] self.text()[i]),
    {
        let mut me = self;
        while !me.is_end()
            invariant
                me.wf(),
                me.source@ == self.source@,
            decreases me.source@.len() - me.current,
        {
            me.start = me.current;
            let ghost src = me.source@;
            match me.scan_token() {
                Ok(()) => {},
                Err(e) => {
                    proof {
                        let i = choose|i: int| 0 <= i < src.len() && may_fail_at(#[trigger] src[i]);
                        assert(self.text()[i] == src[i]);
                    }
                    return Err(e);
                },
            }
        }
        let eof = Token::new(Kind::Eof, "<EOF>".to_owned(), me.line, me.current);
        me.tokens.push(eof);
        Ok(me.tokens)
    }

    fn add_token(&mut self, kind: Kind)
        requires
            old(self).wf(),
            old(self).start < old(self).current,
            kind != Kind::Eof,
            kind == kind_of_text(old(self).source@.subrange(old(self).start as int, old(self).current as int)),
        ensures
            final(self).wf(),
            final(self).source@ == old(self).source@,
            final(self).start == old(self).start,
            final(self).current == old(self).current,
            final(self).line == old(self).line,
    {
        let lexeme = self.current_lexeme();
        let tk = Token::new(kind, lexeme, self.line, self.start);
        self.tokens.push(tk);
        proof {
            let n = self.tokens@.len() - 1;
            assert(self.tokens@[n].text() =~= self.source@.subrange(self.start as int, self.current as int));
        }
    }

    /// Adds the one-character token just consumed.
    fn add_single(&mut self, kind: Kind)
        requires
            old(self).wf(),
            old(self).current == old(self).start + 1,
            single_kind(old(self).source@[old(self).start as int]) == Some(kind),
        ensures
            final(self).wf(),
            final(self).source@ == old(self).source@,
            final(self).start == old(self).start,
            final(self).current == old(self).current,
            final(self).line == old(self).line,
    {
        proof {
            let t = self.source@.subrange(self.start as int, self.current as int);
            assert(t[0] == self.source@[self.start as int]);
            assert(t.len() == 1);
        }
        self.add_token(kind);
    }

    fn current_lexeme(&self) -> (r: String)
        requires
            self.start <= self.current <= self.source@.len(),
        ensures
            r@ == self.source@.subrange(self.start as int, self.current as int),
    {
        let mut v: Vec<char> = Vec::new();
        let mut i: usize = self.start;
        while i < self.current
            invariant
                self.start <= i <= self.current <= self.source@.len(),
                v@ == self.source@.subrange(self.start as int, i as int),
            decreases self.current - i,
        {
            v.push(self.source[i]);
            i = i + 1;
            assert(v@ =~= self.source@.subrange(self.start as int, i as int));
        }
        string_of(&v)
    }

    /// Scans one token, or skips one blank.
    fn scan_token(&mut self) -> (r: Result<(), LexError>)
        requires
            old(self).wf(),
            old(self).start == old(self).current,
            old(self).current < old(self).source@.len(),
        ensures
            final(self).wf(),
            final(self).source@ == old(self).source@,
            final(self).current > old(self).current,
            r matches Err(LexError::UnexpectedChar { ch, line, pos }) ==> pos < old(self).source@.len()
                && old(self).source@[pos as int] == ch && !starts_token(ch),
            r is Err ==> exists|i: int| 0 <= i < old(self).source@.len() && may_fail_at(#[trigger] old(self).source@[i]),
    {
        let next_char = match self.advance() {
            Some(c) => c,
            None => ' ',
        };
        match next_char {
            ' ' | '\t' | '\r' => {},
            '\n' => {
                self.line = self.line + 1;
                self.add_single(Kind::NewLine);
            },
            '+' => self.add_single(Kind::Plus),
            '-' => self.add_single(Kind::Minus),
            '*' => self.add_single(Kind::Star),
            '/' => self.add_single(Kind::Slash),
            ',' => self.add_single(Kind::Comma),
            '=' => self.op_or_opeq(Kind::Equal, Kind::EqualEqual),
            '!' => {
                assert(may_fail_at(self.source@[self.start as int]));
                match self.advance() {
                    Some('=') => {
                        proof {
                            let t = self.source@.subrange(self.start as int, self.current as int);
                            assert(t.len() == 2 && t[0] == '!' && t[1] == '=');
                        }
                        self.add_token(Kind::BangEqual)
                    },
                    _ => {
                        return Err(LexError::ExpectedBangEqual { line: self.line, pos: self.current - 1 });
                    },
                }
            },
            '>' => self.op_or_opeq(Kind::Greater, Kind::GreaterEqual),
            '<' => self.op_or_opeq(Kind::Less, Kind::LessEqual),
            ':' => self.add_single(Kind::Colon),
            '(' => self.add_single(Kind::LeftParen),
            ')' => self.add_single(Kind::RightParen),
            '{' => self.add_single(Kind::LeftBrace),
            '}' => self.add_single(Kind::RightBrace),
            'A'..='Z' | 'a'..='z' | '_' => self.expect_ident(),
            '0'..='9' => self.expect_number()?,
            o => {
                assert(may_fail_at(self.source@[self.start as int]));
                return Err(LexError::UnexpectedChar { ch: o, line: self.line, pos: self.current - 1 });
            },
        }
        Ok(())
    }

    fn op_or_opeq(&mut self, op: Kind, opeq: Kind)
        requires
            old(self).wf(),
            old(self).current == old(self).start + 1,
            single_kind(old(self).source@[old(self).start as int]) == Some(op),
            eq_kind(old(self).source@[old(self).start as int]) == Some(opeq),
            op != Kind::Eof,
            opeq != Kind::Eof,
        ensures
            final(self).wf(),
            final(self).source@ == old(self).source@,
            final(self).current >= old(self).current,
    {
        match self.peek() {
            Some('=') => {
                self.advance();
                proof {
                    let t = self.source@.subrange(self.start as int, self.current as int);
                    assert(t.len() == 2 && t[0] == self.source@[self.start as int] && t[1] == '=');
                }
                self.add_token(opeq);
            },
            _ => self.add_single(op),
        }
    }

    fn expect_ident(&mut self)
        requires
            old(self).wf(),
            old(self).current == old(self).start + 1,
            is_alpha(old(self).source@[old(self).start as int]),
        ensures
            final(self).wf(),
            final(self).source@ == old(self).source@,
            final(self).current >= old(self).current,
    {
        while !self.is_end()
            invariant
                self.wf(),
                self.source@ == old(self).source@,
                self.start == old(self).start,
                self.current >= old(self).current,
                is_alpha(self.source@[self.start as int]),
                forall|k: int| self.start < k < self.current ==> is_alpha(#[trigger] self.source@[k]) || is_digit(self.source@[k]),
            decreases self.source@.len() - self.current,
        {
            let c = self.source[self.current];
            if ('0' <= c && c <= '9') || ('A' <= c && c <= 'Z') || ('a' <= c && c <= 'z') || c == '_' {
                self.advance();
            } else {
                break;
            }
        }
        let kind = match self.check_keyword() {
            Some(kw) => kw,
            None => Kind::Name,
        };
        proof {
            let t = self.source@.subrange(self.start as int, self.current as int);
            assert(t[0] == self.source@[self.start as int]);
            if t.len() == 2 {
                assert(t[1] == self.source@[self.start + 1]);
            }
        }
        self.add_token(kind);
    }

    /// Whether the current lexeme is `w`.
    fn lexeme_is(&self, w: &[char]) -> (r: bool)
        requires
            self.start <= self.current <= self.source@.len(),
        ensures
            r == (self.source@.subrange(self.start as int, self.current as int) == w@),
    {
        if self.current - self.start != w.len() {
            return false;
        }
        let mut i: usize = 0;
        while i < w.len()
            invariant
                self.current - self.start == w@.len(),
                self.start <= self.current <= self.source@.len(),
                i <= w@.len(),
                forall|k: int| 0 <= k < i ==> self.source@[self.start + k] == w@[k],
            decreases w.len() - i,
        {
            if self.source[self.start + i] != w[i] {
                assert(self.source@.subrange(self.start as int, self.current as int)[i as int] != w@[i as int]);
                return false;
            }
            i = i + 1;
        }
        assert(self.source@.subrange(self.start as int, self.current as int) =~= w@);
        true
    }

    /// The keyword that the current lexeme is, if it is one.
    fn check_keyword(&self) -> (r: Option<Kind>)
        requires
            self.start <= self.current <= self.source@.len(),
        ensures
            r is Some ==> r->0 != Kind::Eof,
            r == keyword_kind(self.source@.subrange(self.start as int, self.current as int)),
    {
        let w1 = vec!['n', 'o', 't'];
        let w2 = vec!['a', 'n', 'd'];
        let w3 = vec!['o', 'r'];
        let w4 = vec!['i', 'f'];
        let w5 = vec!['e', 'l', 's', 'e'];
        let w6 = vec!['t', 'r', 'u', 'e'];
        let w7 = vec!['f', 'a', 'l', 's', 'e'];
        assert(w1@ =~= seq!['n', 'o', 't']);
        assert(w2@ =~= seq!['a', 'n', 'd']);
        assert(w3@ =~= seq!['o', 'r']);
        assert(w4@ =~= seq!['i', 'f']);
        assert(w5@ =~= seq!['e', 'l', 's', 'e']);
        assert(w6@ =~= seq!['t', 'r', 'u', 'e']);
        assert(w7@ =~= seq!['f', 'a', 'l', 's', 'e']);
        if self.lexeme_is(w1.as_slice()) {
            Some(Kind::Bang)
        } else if self.lexeme_is(w2.as_slice()) {
            Some(Kind::And)
        } else if self.lexeme_is(w3.as_slice()) {
            Some(Kind::Or)
        } else if self.lexeme_is(w4.as_slice()) {
            Some(Kind::If)
        } else if self.lexeme_is(w5.as_slice()) {
            Some(Kind::Else)
        } else if self.lexeme_is(w6.as_slice()) {
            Some(Kind::True)
        } else if self.lexeme_is(w7.as_slice()) {
            Some(Kind::False)
        } else {
            None
        }
    }

    /// An integer, or a float with digits after its one `.`.
    fn expect_number(&mut self) -> (r: Result<(), LexError>)
        requires
            old(self).wf(),
            old(self).current == old(self).start + 1,
            is_digit(old(self).source@[old(self).start as int]),
        ensures
            r is Err ==> !(r->Err_0 is UnexpectedChar),
            r is Err ==> exists|i: int| 0 <= i < old(self).source@.len() && may_fail_at(#[trigger] old(self).source@[i]),
            final(self).wf(),
            final(self).source@ == old(self).source@,
            final(self).current >= old(self).current,
    {
        let mut can_end = true;
        let mut kind = Kind::Integer;
        while !self.is_end()
            invariant
                self.wf(),
                self.source@ == old(self).source@,
                self.start == old(self).start,
                self.current >= old(self).current,
                kind == Kind::Integer || kind == Kind::Float,
                is_digit(self.source@[self.start as int]),
                forall|k: int| self.start < k < self.current ==> is_digit(#[trigger] self.source@[k]) || self.source@[k] == '.',
                (kind == Kind::Float) == self.source@.subrange(self.start as int, self.current as int).contains('.'),
                !can_end ==> self.current >= 1 && self.source@[self.current - 1] == '.',
            decreases self.source@.len() - self.current,
        {
            let c = self.source[self.current];
            let ghost t0 = self.source@.subrange(self.start as int, self.current as int);
            if '0' <= c && c <= '9' {
                self.advance();
                can_end = true;
                proof {
                    let t1 = self.source@.subrange(self.start as int, self.current as int);
                    assert(t1 =~= t0.push(c));
                    if t1.contains('.') {
                        let q = choose|q: int| 0 <= q < t1.len() && t1[q] == '.';
                        assert(q < t0.len());
                        assert(t0[q] == '.');
                    }
                    if t0.contains('.') {
                        let q = choose|q: int| 0 <= q < t0.len() && t0[q] == '.';
                        assert(t1[q] == '.');
                    }
                }
            } else if c == '.' {
                if kind == Kind::Integer {
                    self.advance();
                    kind = Kind::Float;
                    can_end = false;
                    proof {
                        let t1 = self.source@.subrange(self.start as int, self.current as int);
                        assert(t1 =~= t0.push(c));
                        assert(t1[t1.len() - 1] == '.');
                    }
                } else {
                    assert(may_fail_at(self.source@[self.current as int]));
                    return Err(LexError::UnexpectedDot { line: self.line, pos: self.current });
                }
            } else if can_end {
                break;
            } else {
                assert(may_fail_at(self.source@[self.current - 1]));
                return Err(LexError::ExpectedDigit { line: self.line, pos: self.current });
            }
        }
        proof {
            let t = self.source@.subrange(self.start as int, self.current as int);
            assert(t[0] == self.source@[self.start as int]);
            if t.len() == 2 {
                assert(t[1] == self.source@[self.start + 1]);
            }
            if keyword_kind(t) is Some {
                assert(t[0] != 'n' && t[0] != 'a' && t[0] != 'o' && t[0] != 'i' && t[0] != 'e' && t[0] != 't' && t[0] != 'f');
            }
        }
        self.add_token(kind);
        Ok(())
    }
}

} // verus!
