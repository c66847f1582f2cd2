use vstd::prelude::*;
use crate::ast::{Expr, ExprData, Stmt, StmtData};
use crate::token::{Kind, Token};

verus! {

/// Why the tokens do not form a program: a message and the offending token's place.
#[derive(Debug)]
pub struct ParseError {
    pub message: &'static str,
    pub line: usize,
    pub pos: usize,
    pub len: usize,
}

pub open spec fn digit_value(c: char) -> int {
    c as int - '0' as int
}

/// The value of a string of decimal digits.
pub open spec fn decimal_value(s: Seq<char>) -> int
    decreases s.len(),
{
    if s.len() == 0 {
        0
    } else {
        decimal_value(s.drop_last()) * 10 + digit_value(s.last())
    }
}

pub open spec fn all_digits(s: Seq<char>) -> bool {
    forall|i: int| 0 <= i < s.len() ==> '0' <= #[trigger] s[i] <= '9'
}

/// The value of a string of decimal digits, when it fits an `i64`.
pub fn parse_decimal(s: &str) -> (r: Option<i64>)
    ensures
        all_digits(s@) && s@.len() > 0 && decimal_value(s@) <= i64::MAX ==> r == Some(decimal_value(s@) as i64),
        r is Some ==> all_digits(s@) && s@.len() > 0 && r->0 == decimal_value(s@),
{
    let chars = crate::scanner::chars_of(s);
    if chars.len() == 0 {
        return None;
    }
    let mut v: i64 = 0;
    let mut i: usize = 0;
    while i < chars.len()
        invariant
            chars@ == s@,
            i <= chars@.len(),
            all_digits(chars@.take(i as int)),
            v == decimal_value(chars@.take(i as int)),
            0 <= v,
        decreases chars.len() - i,
    {
        let c = chars[i];
        assert(chars@.take(i + 1).drop_last() =~= chars@.take(i as int));
        if c < '0' || c > '9' {
            assert(!all_digits(chars@)) by {
                assert(chars@[i as int] == c);
            }
            return None;
        }
        let d = (c as u32 - '0' as u32) as i64;
        match v.checked_mul(10) {
            Some(m) => match m.checked_add(d) {
                Some(n) => {
                    v = n;
                },
                None => {
                    proof {
                        assert(chars@.take(i + 1).drop_last() =~= chars@.take(i as int));
                        if all_digits(chars@) {
                            lemma_decimal_prefix_grows(chars@, i as int + 1);
                        }
                    }
                    return None;
                },
            },
            None => {
                proof {
                    assert(chars@.take(i + 1).drop_last() =~= chars@.take(i as int));
                    if all_digits(chars@) {
                        lemma_decimal_prefix_grows(chars@, i as int + 1);
                        lemma_decimal_nonneg(chars@.take(i + 1).drop_last());
                    }
                }
                return None;
            },
        }
        i = i + 1;
    }
    assert(chars@.take(i as int) =~= chars@);
    Some(v)
}

proof fn lemma_decimal_prefix_grows(s: Seq<char>, k: int)
    requires
        0 <= k <= s.len(),
        all_digits(s),
    ensures
        decimal_value(s.take(k)) <= decimal_value(s),
        0 <= decimal_value(s.take(k)),
    decreases s.len(),
{
    if k == s.len() {
        assert(s.take(k) =~= s);
        lemma_decimal_nonneg(s);
    } else {
        lemma_decimal_prefix_grows(s.drop_last(), k);
        assert(s.drop_last().take(k) =~= s.take(k));
        lemma_decimal_nonneg(s.drop_last());
    }
}

proof fn lemma_decimal_nonneg(s: Seq<char>)
    requires
        all_digits(s),
    ensures
        0 <= decimal_value(s),
    decreases s.len(),
{
    if s.len() > 0 {
        lemma_decimal_nonneg(s.drop_last());
    }
}

impl Expr {
    /// The literal or name that a token stands for.
    pub fn atom(t: Token) -> (r: Option<Self>)
        ensures
            r is Some ==> (r->0.data is Int || r->0.data is Float || r->0.data is Name || r->0.data is Bool),
    {
        let range = token_range(&t);
        match t.kind() {
            Kind::Integer => match parse_decimal(t.lexeme()) {
                Some(i) => Some(Expr { data: ExprData::Int(i), range }),
                None => None,
            },
            Kind::Float => Some(Expr { data: ExprData::Float(t.lexeme().to_owned()), range }),
            Kind::Name => Some(Expr { data: ExprData::Name(t), range }),
            Kind::True => Some(Expr { data: ExprData::Bool(true), range }),
            Kind::False => Some(Expr { data: ExprData::Bool(false), range }),
            _ => None,
        }
    }
}

/// First and last character position of a token.
fn token_range(t: &Token) -> (usize, usize) {
    let p = t.pos();
    (p, p.saturating_add(t.len().saturating_sub(1)))
}

fn min3(a: usize, b: usize, c: usize) -> usize {
    let m = if a < b {
        a
    } else {
        b
    };
    if m < c {
        m
    } else {
        c
    }
}

fn max3(a: usize, b: usize, c: usize) -> usize {
    let m = if a > b {
        a
    } else {
        b
    };
    if m > c {
        m
    } else {
        c
    }
}

/// A recursive-descent parser over a token sequence.
pub struct Parser {
    tokens: Vec<Token>,
    current: usize,
}

impl Parser {
    pub closed spec fn wf(&self) -> bool {
        self.current <= self.tokens@.len()
    }

    pub closed spec fn toks(&self) -> Seq<Token> {
        self.tokens@
    }

    /// How many tokens have been consumed.
    pub closed spec fn cursor(&self) -> usize {
        self.current
    }

    /// How many tokens are left.
    pub closed spec fn rest(&self) -> nat {
        (self.tokens@.len() - self.current) as nat
    }

    pub fn new(tokens: Vec<Token>) -> (r: Self)
        ensures
            r.wf(),
            r.rest() == tokens@.len(),
    {
        Self { tokens, current: 0 }
    }

    fn peek(&self) -> (r: Option<&Token>)
        requires
            self.wf(),
        ensures
            r is Some <==> self.current < self.tokens@.len(),
            r is Some ==> *r->0 == self.tokens@[self.current as int],
    {
        if self.current < self.tokens.len() {
            Some(&self.tokens[self.current])
        } else {
            None
        }
    }

    fn peek_kind(&self) -> (r: Option<Kind>)
        requires
            self.wf(),
        ensures
            r is Some <==> self.current < self.tokens@.len(),
            r is Some ==> r->0 == self.tokens@[self.current as int].kind_spec(),
    {
        match self.peek() {
            Some(t) => Some(t.kind()),
            None => None,
        }
    }

    fn advance(&mut self) -> (r: Option<Token>)
        requires
            old(self).wf(),
        ensures
            final(self).wf(),
            final(self).toks() == old(self).toks(),
            old(self).cursor() < old(self).toks().len() ==> final(self).cursor() == old(self).cursor() + 1
                && r is Some,
            old(self).cursor() >= old(self).toks().len() ==> final(self).cursor() == old(self).cursor()
                && r is None,
    {
        if self.current < self.tokens.len() {
            let t = self.tokens[self.current].duplicate();
            self.current = self.current + 1;
            Some(t)
        } else {
            None
        }
    }

    fn previous(&self) -> (r: Option<Token>)
        requires
            self.wf(),
    {
        if self.current == 0 {
            None
        } else {
            Some(self.tokens[self.current - 1].duplicate())
        }
    }

    fn error_at(&self, message: &'static str) -> ParseError
        requires
            self.wf(),
    {
        match self.peek() {
            Some(t) => ParseError { message, line: t.line(), pos: t.pos(), len: t.len() },
            None => match self.previous() {
                Some(t) => ParseError { message: "Unexpected EOF.", line: t.line(), pos: t.pos(), len: t.len() },
                None => ParseError { message: "Unexpected EOF.", line: 0, pos: 0, len: 0 },
            },
        }
    }

    fn is_match(&self, kind: Kind) -> (r: bool)
        requires
            self.wf(),
        ensures
            r ==> self.current < self.tokens@.len(),
    {
        match self.peek() {
            Some(t) => t.kind() == kind,
            None => false,
        }
    }

    /// Takes the next token when it has one of `kinds`.
    fn match_any(&mut self, kinds: &[Kind]) -> (r: bool)
        requires
            old(self).wf(),
        ensures
            final(self).wf(),
            final(self).toks() == old(self).toks(),
            r ==> final(self).cursor() == old(self).cursor() + 1,
            !r ==> final(self).cursor() == old(self).cursor(),
    {
        let mut i: usize = 0;
        while i < kinds.len()
            invariant
                self.wf(),
                *self == *old(self),
                i <= kinds@.len(),
            decreases kinds.len() - i,
        {
            if self.is_match(kinds[i]) {
                let n = self.tokens.len();
                assert(self.current < n);
                self.current = self.current + 1;
                return true;
            }
            i = i + 1;
        }
        false
    }

    /// Whether the next tokens have the kinds `kinds`, in order.
    fn is_match_all(&self, kinds: &[Kind]) -> (r: bool)
        requires
            self.wf(),
        ensures
            r ==> self.current + kinds@.len() <= self.tokens@.len(),
    {
        let mut i: usize = 0;
        while i < kinds.len()
            invariant
                self.wf(),
                i <= kinds@.len(),
                self.current + i <= self.tokens@.len(),
                self.tokens@.len() == self.tokens.len(),
            decreases kinds.len() - i,
        {
            if self.current + i >= self.tokens.len() || self.tokens[self.current + i].kind() != kinds[i] {
                return false;
            }
            i = i + 1;
        }
        true
    }

    fn expect(&mut self, kind: Kind, msg: &'static str) -> (r: Result<Token, ParseError>)
        requires
            old(self).wf(),
        ensures
            final(self).wf(),
            final(self).toks() == old(self).toks(),
            r is Ok ==> final(self).cursor() == old(self).cursor() + 1,
            r is Err ==> final(self).cursor() == old(self).cursor(),
    {
        if self.is_match(kind) {
            match self.advance() {
                Some(t) => Ok(t),
                None => Err(self.error_at(msg)),
            }
        } else {
            Err(self.error_at(msg))
        }
    }

    /// Whether the parser stands at the end of input, at `Eof`, or at a `}`.
    pub open spec fn at_stop(&self) -> bool {
        self.cursor() >= self.toks().len() || self.toks()[self.cursor() as int].kind_spec() == Kind::Eof
            || self.toks()[self.cursor() as int].kind_spec() == Kind::RightBrace
    }

    /// Statements up to the end of input or a closing brace.
    pub fn stmts(&mut self) -> (r: Result<Vec<Stmt>, ParseError>)
        requires
            old(self).wf(),
        ensures
            final(self).wf(),
            final(self).toks() == old(self).toks(),
            final(self).cursor() >= old(self).cursor(),
            r is Ok ==> final(self).at_stop(),
        decreases old(self).rest(), 20nat,
    {
        let mut stmts: Vec<Stmt> = Vec::new();
        loop
            invariant
                self.wf(),
                self.toks() == old(self).toks(),
                self.current >= old(self).cursor(),
            ensures
                self.wf(),
                self.toks() == old(self).toks(),
                self.current >= old(self).cursor(),
                self.at_stop(),
            decreases self.rest(),
        {
            if self.match_any(&[Kind::NewLine]) {
                continue;
            }
            match self.peek_kind() {
                None | Some(Kind::Eof) | Some(Kind::RightBrace) => break,
                _ => {
                    let st = self.stmt()?;
                    stmts.push(st);
                },
            }
        }
        Ok(stmts)
    }

    fn stmt(&mut self) -> (r: Result<Stmt, ParseError>)
        requires
            old(self).wf(),
        ensures
            final(self).wf(),
            final(self).toks() == old(self).toks(),
            final(self).cursor() >= old(self).cursor(),
            r is Ok ==> final(self).cursor() > old(self).cursor(),
        decreases old(self).rest(), 19nat,
    {
        if self.is_match_all(&[Kind::Name, Kind::Equal]) {
            self.assignment()
        } else if self.match_any(&[Kind::If]) {
            self.if_stmt()
        } else {
            let e = self.exp()?;
            let range = e.range;
            Ok(Stmt { stmt: StmtData::Expr(e), range })
        }
    }

    /// `if cond { ... } else { ... }`, after the `if`.
    fn if_stmt(&mut self) -> (r: Result<Stmt, ParseError>)
        requires
            old(self).wf(),
        ensures
            final(self).wf(),
            final(self).toks() == old(self).toks(),
            final(self).cursor() >= old(self).cursor(),
            r is Ok ==> final(self).cursor() > old(self).cursor(),
        decreases old(self).rest(), 19nat,
    {
        let condition = self.exp()?;
        let open1 = self.expect(Kind::LeftBrace, "Expected `{`")?;
        let then = self.block(&open1)?;
        self.expect(Kind::Else, "Expected `else` branch")?;
        let open2 = self.expect(Kind::LeftBrace, "Expected `{`")?;
        let else_ = self.block(&open2)?;
        let range = (condition.range.0, else_.range.1);
        Ok(Stmt { stmt: StmtData::If { condition, then, else_ }, range })
    }

    /// `name = exp`.
    fn assignment(&mut self) -> (r: Result<Stmt, ParseError>)
        requires
            old(self).wf(),
            old(self).cursor() + 2 <= old(self).toks().len(),
        ensures
            final(self).wf(),
            final(self).toks() == old(self).toks(),
            final(self).cursor() >= old(self).cursor(),
            r is Ok ==> final(self).cursor() > old(self).cursor(),
        decreases old(self).rest(), 18nat,
    {
        let name = self.tokens[self.current].duplicate();
        let n = self.tokens.len();
        assert(self.current + 2 <= n);
        self.current = self.current + 2;
        let binding = self.exp()?;
        let (start, _) = token_range(&name);
        let range = (start, binding.range.1);
        Ok(Stmt { stmt: StmtData::Assign { name, binding }, range })
    }

    /// An expression: a block or a conditional expression.
    pub fn exp(&mut self) -> (r: Result<Expr, ParseError>)
        requires
            old(self).wf(),
        ensures
            final(self).wf(),
            final(self).toks() == old(self).toks(),
            final(self).cursor() >= old(self).cursor(),
            r is Ok ==> final(self).cursor() > old(self).cursor(),
        decreases old(self).rest(), 18nat,
    {
        if self.is_match(Kind::LeftBrace) {
            let open = match self.advance() {
                Some(t) => t,
                None => return Err(self.error_at("Expected `{`")),
            };
            self.block(&open)
        } else {
            self.condition()
        }
    }

    /// The statements of a block after its `{`, and its closing `}`; a final
    /// expression statement is the block's value.
    pub fn block(&mut self, open: &Token) -> (r: Result<Expr, ParseError>)
        requires
            old(self).wf(),
        ensures
            final(self).wf(),
            final(self).toks() == old(self).toks(),
            final(self).cursor() >= old(self).cursor(),
            r is Ok ==> final(self).cursor() > old(self).cursor(),
        decreases old(self).rest(), 22nat,
    {
        while self.match_any(&[Kind::NewLine])
            invariant
                self.wf(),
                self.toks() == old(self).toks(),
                self.current >= old(self).cursor(),
            decreases self.rest(),
        {
        }
        let mut sts = self.stmts()?;
        while self.match_any(&[Kind::NewLine])
            invariant
                self.wf(),
                self.toks() == old(self).toks(),
                self.current >= old(self).cursor(),
            decreases self.rest(),
        {
        }
        let close = self.expect(Kind::RightBrace, "Expected `}`")?;
        let result = match sts.pop() {
            Some(s) => match s.stmt {
                StmtData::Expr(e) => Some(Box::new(e)),
                other => {
                    sts.push(Stmt { stmt: other, range: s.range });
                    None
                },
            },
            None => None,
        };
        let (start, _) = token_range(open);
        let (_, end) = token_range(&close);
        Ok(Expr { data: ExprData::Block { body: sts, result }, range: (start, end) })
    }

    /// `e1 if cond else e2`, or a logical expression.
    fn condition(&mut self) -> (r: Result<Expr, ParseError>)
        requires
            old(self).wf(),
        ensures
            final(self).wf(),
            final(self).toks() == old(self).toks(),
            final(self).cursor() >= old(self).cursor(),
            r is Ok ==> final(self).cursor() > old(self).cursor(),
        decreases old(self).rest(), 17nat,
    {
        let e = self.logical()?;
        if self.match_any(&[Kind::If]) {
            let cond = self.logical()?;
            self.expect(Kind::Else, "Expected `else`")?;
            let els = self.logical()?;
            let range = (min3(e.range.0, cond.range.0, els.range.0), max3(e.range.1, cond.range.1, els.range.1));
            Ok(Expr {
                data: ExprData::Condition { condition: Box::new(cond), then: Box::new(e), else_: Box::new(els) },
                range,
            })
        } else {
            Ok(e)
        }
    }

    fn binary(left: Expr, op: Token, right: Expr) -> Expr {
        let (os, oe) = token_range(&op);
        let range = (min3(left.range.0, os, right.range.0), max3(left.range.1, oe, right.range.1));
        Expr { data: ExprData::Prim { op, operands: vec![left, right] }, range }
    }

    /// `and` and `or`, left to right.
    fn logical(&mut self) -> (r: Result<Expr, ParseError>)
        requires
            old(self).wf(),
        ensures
            final(self).wf(),
            final(self).toks() == old(self).toks(),
            final(self).cursor() >= old(self).cursor(),
            r is Ok ==> final(self).cursor() > old(self).cursor(),
        decreases old(self).rest(), 16nat,
    {
        let mut e1 = self.equality()?;
        while self.match_any(&[Kind::And, Kind::Or])
            invariant
                self.wf(),
                self.toks() == old(self).toks(),
                self.current > old(self).cursor(),
            decreases self.rest(),
        {
            let op = match self.previous() {
                Some(t) => t,
                None => return Err(self.error_at("Unexpected Token.")),
            };
            let e2 = self.equality()?;
            e1 = Self::binary(e1, op, e2);
        }
        Ok(e1)
    }

    /// Comparisons, left to right.
    fn equality(&mut self) -> (r: Result<Expr, ParseError>)
        requires
            old(self).wf(),
        ensures
            final(self).wf(),
            final(self).toks() == old(self).toks(),
            final(self).cursor() >= old(self).cursor(),
            r is Ok ==> final(self).cursor() > old(self).cursor(),
        decreases old(self).rest(), 15nat,
    {
        let mut e1 = self.term()?;
        while self.match_any(
            &[Kind::EqualEqual, Kind::BangEqual, Kind::Greater, Kind::GreaterEqual, Kind::Less, Kind::LessEqual],
        )
            invariant
                self.wf(),
                self.toks() == old(self).toks(),
                self.current > old(self).cursor(),
            decreases self.rest(),
        {
            let op = match self.previous() {
                Some(t) => t,
                None => return Err(self.error_at("Unexpected Token.")),
            };
            let e2 = self.term()?;
            e1 = Self::binary(e1, op, e2);
        }
        Ok(e1)
    }

    /// `+` and `-`, left to right.
    fn term(&mut self) -> (r: Result<Expr, ParseError>)
        requires
            old(self).wf(),
        ensures
            final(self).wf(),
            final(self).toks() == old(self).toks(),
            final(self).cursor() >= old(self).cursor(),
            r is Ok ==> final(self).cursor() > old(self).cursor(),
        decreases old(self).rest(), 14nat,
    {
        let mut e1 = self.factor()?;
        while self.match_any(&[Kind::Plus, Kind::Minus])
            invariant
                self.wf(),
                self.toks() == old(self).toks(),
                self.current > old(self).cursor(),
            decreases self.rest(),
        {
            let op = match self.previous() {
                Some(t) => t,
                None => return Err(self.error_at("Unexpected Token.")),
            };
            let e2 = self.factor()?;
            e1 = Self::binary(e1, op, e2);
        }
        Ok(e1)
    }

    /// `*` and `/`, left to right.
    fn factor(&mut self) -> (r: Result<Expr, ParseError>)
        requires
            old(self).wf(),
        ensures
            final(self).wf(),
            final(self).toks() == old(self).toks(),
            final(self).cursor() >= old(self).cursor(),
            r is Ok ==> final(self).cursor() > old(self).cursor(),
        decreases old(self).rest(), 13nat,
    {
        let mut e1 = self.unary()?;
        while self.match_any(&[Kind::Star, Kind::Slash])
            invariant
                self.wf(),
                self.toks() == old(self).toks(),
                self.current > old(self).cursor(),
            decreases self.rest(),
        {
            let op = match self.previous() {
                Some(t) => t,
                None => return Err(self.error_at("Unexpected Token.")),
            };
            let e2 = self.unary()?;
            e1 = Self::binary(e1, op, e2);
        }
        Ok(e1)
    }

    /// `-e` and `not e`, or a call.
    fn unary(&mut self) -> (r: Result<Expr, ParseError>)
        requires
            old(self).wf(),
        ensures
            final(self).wf(),
            final(self).toks() == old(self).toks(),
            final(self).cursor() >= old(self).cursor(),
            r is Ok ==> final(self).cursor() > old(self).cursor(),
        decreases old(self).rest(), 12nat,
    {
        if self.match_any(&[Kind::Minus, Kind::Bang]) {
            let op = match self.previous() {
                Some(t) => t,
                None => return Err(self.error_at("Unexpected Token.")),
            };
            let operand = self.function_call()?;
            let (os, _) = token_range(&op);
            let range = (os, operand.range.1);
            return Ok(Expr { data: ExprData::Prim { op, operands: vec![operand] }, range });
        }
        self.function_call()
    }

    /// A primary expression followed by any number of argument lists.
    fn function_call(&mut self) -> (r: Result<Expr, ParseError>)
        requires
            old(self).wf(),
        ensures
            final(self).wf(),
            final(self).toks() == old(self).toks(),
            final(self).cursor() >= old(self).cursor(),
            r is Ok ==> final(self).cursor() > old(self).cursor(),
        decreases old(self).rest(), 11nat,
    {
        let mut callee = self.primary()?;
        while self.match_any(&[Kind::LeftParen])
            invariant
                self.wf(),
                self.toks() == old(self).toks(),
                self.current > old(self).cursor(),
            decreases self.rest(),
        {
            let args = self.arguments()?;
            let close = self.expect(Kind::RightParen, "Expected `)`")?;
            let (_, end) = token_range(&close);
            let range = (callee.range.0, end);
            callee = Expr { data: ExprData::Call { name: Box::new(callee), args }, range };
        }
        Ok(callee)
    }

    /// Comma-separated expressions up to a `)`.
    fn arguments(&mut self) -> (r: Result<Vec<Expr>, ParseError>)
        requires
            old(self).wf(),
        ensures
            final(self).wf(),
            final(self).toks() == old(self).toks(),
            final(self).cursor() >= old(self).cursor(),
        decreases old(self).rest(), 25nat,
    {
        let mut first = true;
        let mut args: Vec<Expr> = Vec::new();
        loop
            invariant
                self.wf(),
                self.toks() == old(self).toks(),
                self.current >= old(self).cursor(),
                !first ==> self.current > old(self).cursor(),
            decreases self.rest(),
        {
            match self.peek_kind() {
                Some(Kind::RightParen) | None => break,
                _ => {
                    if !first {
                        self.expect(Kind::Comma, "Expected `,`")?;
                    } else {
                        first = false;
                    }
                    args.push(self.exp()?);
                },
            }
        }
        Ok(args)
    }

    /// A literal, a name, or a parenthesised expression.
    fn primary(&mut self) -> (r: Result<Expr, ParseError>)
        requires
            old(self).wf(),
        ensures
            final(self).wf(),
            final(self).toks() == old(self).toks(),
            final(self).cursor() >= old(self).cursor(),
            r is Ok ==> final(self).cursor() > old(self).cursor(),
        decreases old(self).rest(), 10nat,
    {
        match self.peek_kind() {
            Some(Kind::Integer) | Some(Kind::Float) | Some(Kind::Name) | Some(Kind::True) | Some(Kind::False) => {
                let err = self.error_at("Integer literal out of range.");
                match self.advance() {
                    Some(tk) => match Expr::atom(tk) {
                        Some(e) => Ok(e),
                        None => Err(err),
                    },
                    None => Err(err),
                }
            },
            Some(Kind::LeftParen) => {
                self.advance();
                let r = self.exp()?;
                self.expect(Kind::RightParen, "Expected `)`.")?;
                Ok(r)
            },
            Some(_) => Err(self.error_at("Unexpected Token.")),
            None => Err(self.error_at("Unexpected EOF.")),
        }
    }
}

} // verus!
