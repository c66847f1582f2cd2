use vstd::prelude::*;
use crate::token::{Kind, Token};
use crate::x86::i64_text;
use vstd::string::StringExecFns;

verus! {

/// Something that covers a span of the source, as (start, end).
pub trait Range {
    fn range(&self) -> (usize, usize);
}

/// An expression with the span of source it came from.
#[derive(Debug)]
pub struct Expr {
    pub data: ExprData,
    pub range: (usize, usize),
}

#[derive(Debug)]
pub enum ExprData {
    Int(i64),
    Bool(bool),
    /// A floating-point literal, kept as its source text.
    Float(String),
    Name(Token),
    /// A unary or binary operator applied to its operands.
    Prim { op: Token, operands: Vec<Expr> },
    Call { name: Box<Expr>, args: Vec<Expr> },
    /// `then if condition else else_`
    Condition { condition: Box<Expr>, then: Box<Expr>, else_: Box<Expr> },
    Block { body: Vec<Stmt>, result: Option<Box<Expr>> },
}

#[derive(Debug)]
pub struct Stmt {
    pub stmt: StmtData,
    pub range: (usize, usize),
}

#[derive(Debug)]
pub enum StmtData {
    Expr(Expr),
    Assign { name: Token, binding: Expr },
    If { condition: Expr, then: Expr, else_: Expr },
}

impl Range for Expr {
    fn range(&self) -> (usize, usize) {
        self.range
    }
}

impl Range for Stmt {
    fn range(&self) -> (usize, usize) {
        self.range
    }
}

/// Literals and names are atoms.
pub open spec fn is_atom_spec(e: Expr) -> bool {
    e.data is Int || e.data is Float || e.data is Name || e.data is Bool
}

pub open spec fn is_and_or(op: Token) -> bool {
    op.kind_spec() == Kind::And || op.kind_spec() == Kind::Or
}

/// No `and` or `or` operator occurs anywhere in the expression.
pub open spec fn no_and_or(e: Expr) -> bool
    decreases e,
{
    match e.data {
        ExprData::Prim { op, operands } => !is_and_or(op) && forall|i: int|
            0 <= i < operands@.len() ==> no_and_or(#[trigger] operands@[i]),
        ExprData::Call { name, args } => no_and_or(*name) && forall|i: int|
            0 <= i < args@.len() ==> no_and_or(#[trigger] args@[i]),
        ExprData::Condition { condition, then, else_ } => no_and_or(*condition) && no_and_or(*then)
            && no_and_or(*else_),
        ExprData::Block { body, result } => (forall|i: int|
            0 <= i < body@.len() ==> no_and_or_stmt(#[trigger] body@[i])) && (result is Some
            ==> no_and_or(*result->0)),
        _ => true,
    }
}

pub open spec fn no_and_or_stmt(s: Stmt) -> bool
    decreases s,
{
    match s.stmt {
        StmtData::Expr(e) => no_and_or(e),
        StmtData::Assign { name, binding } => no_and_or(binding),
        StmtData::If { condition, then, else_ } => no_and_or(condition) && no_and_or(then) && no_and_or(
            else_,
        ),
    }
}

/// Every `and` and `or` is binary, all the way down.
pub open spec fn and_or_binary(e: Expr) -> bool
    decreases e,
{
    match e.data {
        ExprData::Prim { op, operands } => (is_and_or(op) ==> operands@.len() == 2) && forall|i: int|
            0 <= i < operands@.len() ==> and_or_binary(#[trigger] operands@[i]),
        ExprData::Call { name, args } => and_or_binary(*name) && forall|i: int|
            0 <= i < args@.len() ==> and_or_binary(#[trigger] args@[i]),
        ExprData::Condition { condition, then, else_ } => and_or_binary(*condition) && and_or_binary(
            *then,
        ) && and_or_binary(*else_),
        ExprData::Block { body, result } => (forall|i: int|
            0 <= i < body@.len() ==> and_or_binary_stmt(#[trigger] body@[i])) && (result is Some
            ==> and_or_binary(*result->0)),
        _ => true,
    }
}

pub open spec fn and_or_binary_stmt(s: Stmt) -> bool
    decreases s,
{
    match s.stmt {
        StmtData::Expr(e) => and_or_binary(e),
        StmtData::Assign { name, binding } => and_or_binary(binding),
        StmtData::If { condition, then, else_ } => and_or_binary(condition) && and_or_binary(then)
            && and_or_binary(else_),
    }
}

/// Two expressions with the same shape, operators, names and literals.
pub open spec fn same_expr(a: Expr, b: Expr) -> bool
    decreases a,
{
    a.range == b.range && match (a.data, b.data) {
        (ExprData::Prim { op: o1, operands: x1 }, ExprData::Prim { op: o2, operands: x2 }) => o1 == o2
            && x1@.len() == x2@.len() && forall|i: int|
            0 <= i < x1@.len() ==> same_expr(#[trigger] x1@[i], x2@[i]),
        (ExprData::Call { name: n1, args: x1 }, ExprData::Call { name: n2, args: x2 }) => same_expr(
            *n1,
            *n2,
        ) && x1@.len() == x2@.len() && forall|i: int|
            0 <= i < x1@.len() ==> same_expr(#[trigger] x1@[i], x2@[i]),
        (
            ExprData::Condition { condition: c1, then: t1, else_: e1 },
            ExprData::Condition { condition: c2, then: t2, else_: e2 },
        ) => same_expr(*c1, *c2) && same_expr(*t1, *t2) && same_expr(*e1, *e2),
        (ExprData::Block { body: b1, result: r1 }, ExprData::Block { body: b2, result: r2 }) => b1@.len()
            == b2@.len() && (forall|i: int| 0 <= i < b1@.len() ==> same_stmt(#[trigger] b1@[i], b2@[i]))
            && (r1 is Some <==> r2 is Some) && (r1 is Some ==> same_expr(*r1->0, *r2->0)),
        (ExprData::Int(x), ExprData::Int(y)) => x == y,
        (ExprData::Bool(x), ExprData::Bool(y)) => x == y,
        (ExprData::Float(x), ExprData::Float(y)) => x@ == y@,
        (ExprData::Name(x), ExprData::Name(y)) => x == y,
        _ => false,
    }
}

pub open spec fn same_stmt(a: Stmt, b: Stmt) -> bool
    decreases a,
{
    a.range == b.range && match (a.stmt, b.stmt) {
        (StmtData::Expr(x), StmtData::Expr(y)) => same_expr(x, y),
        (StmtData::Assign { name: n1, binding: x }, StmtData::Assign { name: n2, binding: y }) => n1
            == n2 && same_expr(x, y),
        (
            StmtData::If { condition: c1, then: t1, else_: e1 },
            StmtData::If { condition: c2, then: t2, else_: e2 },
        ) => same_expr(c1, c2) && same_expr(t1, t2) && same_expr(e1, e2),
        _ => false,
    }
}

impl Stmt {
    /// The statement as source-like text.
    pub fn to_text(&self) -> String
        decreases self,
    {
        match &self.stmt {
            StmtData::Expr(e) => e.to_text(),
            StmtData::Assign { name, binding } => {
                let mut s = String::from_str(name.lexeme());
                s.append(" = ");
                s.append(binding.to_text().as_str());
                s
            },
            StmtData::If { condition, then, else_ } => {
                let mut s = String::from_str("if (");
                s.append(condition.to_text().as_str());
                s.append(") ");
                s.append(then.to_text().as_str());
                s.append(" else ");
                s.append(else_.to_text().as_str());
                s
            },
        }
    }
}

fn join_exprs(v: &Vec<Expr>, sep: &str) -> String
    decreases v,
{
    let mut s = String::new();
    let mut i: usize = 0;
    while i < v.len()
        decreases v.len() - i,
    {
        if i > 0 {
            s.append(sep);
        }
        s.append(v[i].to_text().as_str());
        i = i + 1;
    }
    s
}

fn body_text(v: &Vec<Stmt>) -> String
    decreases v,
{
    let mut s = String::new();
    let mut i: usize = 0;
    while i < v.len()
        decreases v.len() - i,
    {
        s.append(v[i].to_text().as_str());
        s.append("\n");
        i = i + 1;
    }
    s
}

impl Expr {
    /// The expression as source-like text.
    pub fn to_text(&self) -> String
        decreases self,
    {
        match &self.data {
            ExprData::Name(n) => String::from_str(n.lexeme()),
            ExprData::Int(i) => i64_text(*i),
            ExprData::Float(f) => f.clone(),
            ExprData::Bool(b) => String::from_str(
                if *b {
                    "true"
                } else {
                    "false"
                },
            ),
            ExprData::Call { name, args } => {
                let mut s = name.to_text();
                s.append("(");
                s.append(join_exprs(args, ",").as_str());
                s.append(")");
                s
            },
            ExprData::Prim { op, operands } => {
                if operands.len() == 2 {
                    let mut s = operands[0].to_text();
                    s.append(" ");
                    s.append(op.lexeme());
                    s.append(" ");
                    s.append(operands[1].to_text().as_str());
                    s
                } else {
                    let mut s = String::from_str(op.lexeme());
                    s.append(" ");
                    s.append(join_exprs(operands, " ").as_str());
                    s
                }
            },
            ExprData::Condition { condition, then, else_ } => {
                let mut s = then.to_text();
                s.append(" if ");
                s.append(condition.to_text().as_str());
                s.append(" else ");
                s.append(else_.to_text().as_str());
                s
            },
            ExprData::Block { body, result } => {
                let mut s = String::from_str("{\n");
                s.append(body_text(body).as_str());
                match result {
                    Some(r) => {
                        s.append(r.to_text().as_str());
                        s.append("\n");
                    },
                    None => {},
                }
                s.append("}");
                s
            },
        }
    }

    pub fn new(expr: ExprData, range: (usize, usize)) -> (r: Self)
        ensures
            r.data == expr,
            r.range == range,
    {
        Self { data: expr, range }
    }

    pub fn is_atom(&self) -> (r: bool)
        ensures
            r == is_atom_spec(*self),
    {
        match &self.data {
            ExprData::Int(_) | ExprData::Float(_) | ExprData::Name(_) | ExprData::Bool(_) => true,
            _ => false,
        }
    }

    /// The identifier, when the expression is a name.
    pub fn get_ident(&self) -> (r: Option<&str>)
        ensures
            r is Some <==> self.data is Name,
            r is Some ==> r->0@ == self.data->Name_0.text(),
    {
        match &self.data {
            ExprData::Name(id) => Some(id.lexeme()),
            _ => None,
        }
    }
}

} // verus!
