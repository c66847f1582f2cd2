use vstd::prelude::*;
use crate::ast::{
    Expr, ExprData, Stmt, StmtData, and_or_binary, and_or_binary_stmt, is_and_or, no_and_or,
    no_and_or_stmt, same_expr, same_stmt,
};
use crate::token::Kind;

verus! {

/// `r` is what shrinking makes of `e`: `a and b` becomes `b if a else false`,
/// `a or b` becomes `true if a else b`, everything else keeps its shape, with
/// the rewrite applied throughout.
pub open spec fn shrinks_to(e: Expr, r: Expr) -> bool
    decreases e,
{
    r.range == e.range && match e.data {
        ExprData::Prim { op, operands } => if is_and_or(op) && operands@.len() == 2 {
            match r.data {
                ExprData::Condition { condition, then, else_ } => if op.kind_spec() == Kind::And {
                    shrinks_to(operands@[0], *condition) && shrinks_to(operands@[1], *then) && else_.data
                        == ExprData::Bool(false) && else_.range == e.range
                } else {
                    shrinks_to(operands@[0], *condition) && then.data == ExprData::Bool(true)
                        && then.range == e.range && shrinks_to(operands@[1], *else_)
                },
                _ => false,
            }
        } else {
            match r.data {
                ExprData::Prim { op: op2, operands: o2 } => op2 == op && o2@.len() == operands@.len()
                    && forall|i: int| 0 <= i < operands@.len() ==> shrinks_to(#[trigger] operands@[i], o2@[i]),
                _ => false,
            }
        },
        ExprData::Call { name, args } => match r.data {
            ExprData::Call { name: n2, args: a2 } => shrinks_to(*name, *n2) && a2@.len() == args@.len()
                && forall|i: int| 0 <= i < args@.len() ==> shrinks_to(#[trigger] args@[i], a2@[i]),
            _ => false,
        },
        ExprData::Condition { condition, then, else_ } => match r.data {
            ExprData::Condition { condition: c2, then: t2, else_: e2 } => shrinks_to(*condition, *c2)
                && shrinks_to(*then, *t2) && shrinks_to(*else_, *e2),
            _ => false,
        },
        ExprData::Block { body, result } => match r.data {
            ExprData::Block { body: b2, result: r2 } => b2@.len() == body@.len() && (forall|i: int|
                0 <= i < body@.len() ==> stmt_shrinks_to(#[trigger] body@[i], b2@[i])) && (result is Some
                <==> r2 is Some) && (result is Some ==> shrinks_to(*result->0, *r2->0)),
            _ => false,
        },
        ExprData::Int(x) => r.data == ExprData::Int(x),
        ExprData::Bool(x) => r.data == ExprData::Bool(x),
        ExprData::Float(x) => r.data is Float && r.data->Float_0@ == x@,
        ExprData::Name(x) => r.data == ExprData::Name(x),
    }
}

pub open spec fn stmt_shrinks_to(s: Stmt, r: Stmt) -> bool
    decreases s,
{
    r.range == s.range && match s.stmt {
        StmtData::Expr(e) => match r.stmt {
            StmtData::Expr(e2) => shrinks_to(e, e2),
            _ => false,
        },
        StmtData::Assign { name, binding } => match r.stmt {
            StmtData::Assign { name: n2, binding: b2 } => n2 == name && shrinks_to(binding, b2),
            _ => false,
        },
        StmtData::If { condition, then, else_ } => match r.stmt {
            StmtData::If { condition: c2, then: t2, else_: e2 } => shrinks_to(condition, c2) && shrinks_to(
                then,
                t2,
            ) && shrinks_to(else_, e2),
            _ => false,
        },
    }
}

proof fn lemma_shrunk_has_no_and_or(e: Expr, r: Expr)
    requires
        and_or_binary(e),
        shrinks_to(e, r),
    ensures
        no_and_or(r),
    decreases e,
{
    match e.data {
        ExprData::Prim { op, operands } => {
            if is_and_or(op) && operands@.len() == 2 {
                if let ExprData::Condition { condition, then, else_ } = r.data {
                    lemma_shrunk_has_no_and_or(operands@[0], *condition);
                    if op.kind_spec() == Kind::And {
                        lemma_shrunk_has_no_and_or(operands@[1], *then);
                        assert(no_and_or(*else_));
                    } else {
                        lemma_shrunk_has_no_and_or(operands@[1], *else_);
                        assert(no_and_or(*then));
                    }
                }
            } else {
                if let ExprData::Prim { op: op2, operands: o2 } = r.data {
                    assert forall|i: int| 0 <= i < o2@.len() implies no_and_or(#[trigger] o2@[i]) by {
                        lemma_shrunk_has_no_and_or(operands@[i], o2@[i]);
                    }
                }
            }
        },
        ExprData::Call { name, args } => {
            if let ExprData::Call { name: n2, args: a2 } = r.data {
                lemma_shrunk_has_no_and_or(*name, *n2);
                assert forall|i: int| 0 <= i < a2@.len() implies no_and_or(#[trigger] a2@[i]) by {
                    lemma_shrunk_has_no_and_or(args@[i], a2@[i]);
                }
            }
        },
        ExprData::Condition { condition, then, else_ } => {
            if let ExprData::Condition { condition: c2, then: t2, else_: e2 } = r.data {
                lemma_shrunk_has_no_and_or(*condition, *c2);
                lemma_shrunk_has_no_and_or(*then, *t2);
                lemma_shrunk_has_no_and_or(*else_, *e2);
            }
        },
        ExprData::Block { body, result } => {
            if let ExprData::Block { body: b2, result: r2 } = r.data {
                assert forall|i: int| 0 <= i < b2@.len() implies no_and_or_stmt(#[trigger] b2@[i]) by {
                    lemma_stmt_shrunk_has_no_and_or(body@[i], b2@[i]);
                }
                if result is Some {
                    lemma_shrunk_has_no_and_or(*result->0, *r2->0);
                }
            }
        },
        _ => {},
    }
}

proof fn lemma_stmt_shrunk_has_no_and_or(s: Stmt, r: Stmt)
    requires
        and_or_binary_stmt(s),
        stmt_shrinks_to(s, r),
    ensures
        no_and_or_stmt(r),
    decreases s,
{
    match s.stmt {
        StmtData::Expr(e) => {
            if let StmtData::Expr(e2) = r.stmt {
                lemma_shrunk_has_no_and_or(e, e2);
            }
        },
        StmtData::Assign { name, binding } => {
            if let StmtData::Assign { name: n2, binding: b2 } = r.stmt {
                lemma_shrunk_has_no_and_or(binding, b2);
            }
        },
        StmtData::If { condition, then, else_ } => {
            if let StmtData::If { condition: c2, then: t2, else_: e2 } = r.stmt {
                lemma_shrunk_has_no_and_or(condition, c2);
                lemma_shrunk_has_no_and_or(then, t2);
                lemma_shrunk_has_no_and_or(else_, e2);
            }
        },
    }
}

proof fn lemma_shrink_fixes(e: Expr, r: Expr)
    requires
        no_and_or(e),
        shrinks_to(e, r),
    ensures
        same_expr(e, r),
    decreases e,
{
    match e.data {
        ExprData::Prim { op, operands } => {
            if let ExprData::Prim { op: op2, operands: o2 } = r.data {
                assert forall|i: int| 0 <= i < operands@.len() implies same_expr(#[trigger] operands@[i], o2@[i]) by {
                    lemma_shrink_fixes(operands@[i], o2@[i]);
                }
            }
        },
        ExprData::Call { name, args } => {
            if let ExprData::Call { name: n2, args: a2 } = r.data {
                lemma_shrink_fixes(*name, *n2);
                assert forall|i: int| 0 <= i < args@.len() implies same_expr(#[trigger] args@[i], a2@[i]) by {
                    lemma_shrink_fixes(args@[i], a2@[i]);
                }
            }
        },
        ExprData::Condition { condition, then, else_ } => {
            if let ExprData::Condition { condition: c2, then: t2, else_: e2 } = r.data {
                lemma_shrink_fixes(*condition, *c2);
                lemma_shrink_fixes(*then, *t2);
                lemma_shrink_fixes(*else_, *e2);
            }
        },
        ExprData::Block { body, result } => {
            if let ExprData::Block { body: b2, result: r2 } = r.data {
                assert forall|i: int| 0 <= i < body@.len() implies same_stmt(#[trigger] body@[i], b2@[i]) by {
                    lemma_stmt_shrink_fixes(body@[i], b2@[i]);
                }
                if result is Some {
                    lemma_shrink_fixes(*result->0, *r2->0);
                }
            }
        },
        _ => {},
    }
}

proof fn lemma_stmt_shrink_fixes(s: Stmt, r: Stmt)
    requires
        no_and_or_stmt(s),
        stmt_shrinks_to(s, r),
    ensures
        same_stmt(s, r),
    decreases s,
{
    match s.stmt {
        StmtData::Expr(e) => {
            if let StmtData::Expr(e2) = r.stmt {
                lemma_shrink_fixes(e, e2);
            }
        },
        StmtData::Assign { name, binding } => {
            if let StmtData::Assign { name: n2, binding: b2 } = r.stmt {
                lemma_shrink_fixes(binding, b2);
            }
        },
        StmtData::If { condition, then, else_ } => {
            if let StmtData::If { condition: c2, then: t2, else_: e2 } = r.stmt {
                lemma_shrink_fixes(condition, c2);
                lemma_shrink_fixes(then, t2);
                lemma_shrink_fixes(else_, e2);
            }
        },
    }
}

/// Statement by statement, `r` is what shrinking makes of `p`.
pub open spec fn stmts_shrink_to(p: Seq<Stmt>, r: Seq<Stmt>) -> bool {
    r.len() == p.len() && forall|i: int| 0 <= i < p.len() ==> stmt_shrinks_to(#[trigger] p[i], r[i])
}

/// Shrinking leaves no `and` or `or`, and shrinking a shrunk program again
/// gives back the same program.
pub proof fn lemma_shrink_idempotent(p: Seq<Stmt>, q: Seq<Stmt>, r: Seq<Stmt>)
    requires
        forall|i: int| 0 <= i < p.len() ==> and_or_binary_stmt(#[trigger] p[i]),
        stmts_shrink_to(p, q),
        stmts_shrink_to(q, r),
    ensures
        forall|i: int| 0 <= i < q.len() ==> no_and_or_stmt(#[trigger] q[i]),
        r.len() == q.len(),
        forall|i: int| 0 <= i < q.len() ==> same_stmt(#[trigger] q[i], r[i]),
{
    assert forall|i: int| 0 <= i < q.len() implies no_and_or_stmt(#[trigger] q[i]) by {
        lemma_stmt_shrunk_has_no_and_or(p[i], q[i]);
    }
    assert forall|i: int| 0 <= i < q.len() implies same_stmt(#[trigger] q[i], r[i]) by {
        lemma_stmt_shrunk_has_no_and_or(p[i], q[i]);
        lemma_stmt_shrink_fixes(q[i], r[i]);
    }
}

pub struct Shrink {}

/// Whether every `and` and `or` in the expression has two operands.
pub fn is_and_or_binary(e: &Expr) -> (r: bool)
    ensures
        r == and_or_binary(*e),
    decreases e,
{
    match &e.data {
        ExprData::Prim { op, operands } => {
            let k = op.kind();
            if (k == Kind::And || k == Kind::Or) && operands.len() != 2 {
                return false;
            }
            all_binary(operands)
        },
        ExprData::Call { name, args } => is_and_or_binary(name) && all_binary(args),
        ExprData::Condition { condition, then, else_ } => is_and_or_binary(condition) && is_and_or_binary(then)
            && is_and_or_binary(else_),
        ExprData::Block { body, result } => {
            if !stmts_binary(body) {
                return false;
            }
            match result {
                Some(r) => is_and_or_binary(r),
                None => true,
            }
        },
        _ => true,
    }
}

fn all_binary(v: &Vec<Expr>) -> (r: bool)
    ensures
        r == forall|i: int| 0 <= i < v@.len() ==> and_or_binary(#[trigger] v@[i]),
    decreases v,
{
    let mut i: usize = 0;
    while i < v.len()
        invariant
            i <= v@.len(),
            forall|k: int| 0 <= k < i ==> and_or_binary(#[trigger] v@[k]),
        decreases v.len() - i,
    {
        if !is_and_or_binary(&v[i]) {
            return false;
        }
        i = i + 1;
    }
    true
}

/// Whether every `and` and `or` in the statements has two operands, as
/// `Shrink::shrink_stmts` requires.
pub fn stmts_binary(v: &Vec<Stmt>) -> (r: bool)
    ensures
        r == forall|i: int| 0 <= i < v@.len() ==> and_or_binary_stmt(#[trigger] v@[i]),
    decreases v,
{
    let mut i: usize = 0;
    while i < v.len()
        invariant
            i <= v@.len(),
            forall|k: int| 0 <= k < i ==> and_or_binary_stmt(#[trigger] v@[k]),
        decreases v.len() - i,
    {
        let ok = match &v[i].stmt {
            StmtData::Expr(e) => is_and_or_binary(e),
            StmtData::Assign { binding, .. } => is_and_or_binary(binding),
            StmtData::If { condition, then, else_ } => is_and_or_binary(condition) && is_and_or_binary(then)
                && is_and_or_binary(else_),
        };
        if !ok {
            return false;
        }
        i = i + 1;
    }
    true
}

impl Shrink {
    /// Rewrites `and` and `or` into conditional expressions throughout.
    pub fn shrink_stmts(stmts: Vec<Stmt>) -> (r: Vec<Stmt>)
        requires
            forall|i: int| 0 <= i < stmts@.len() ==> and_or_binary_stmt(#[trigger] stmts@[i]),
        ensures
            stmts_shrink_to(stmts@, r@),
            forall|i: int| 0 <= i < r@.len() ==> no_and_or_stmt(#[trigger] r@[i]),
    {
        let mut out: Vec<Stmt> = Vec::new();
        let mut i: usize = 0;
        while i < stmts.len()
            invariant
                i <= stmts@.len(),
                out@.len() == i,
                forall|k: int| 0 <= k < stmts@.len() ==> and_or_binary_stmt(#[trigger] stmts@[k]),
                forall|k: int| 0 <= k < i ==> stmt_shrinks_to(#[trigger] stmts@[k], out@[k]),
            decreases stmts.len() - i,
        {
            out.push(Self::shrink_stmt(&stmts[i]));
            i = i + 1;
        }
        proof {
            assert forall|k: int| 0 <= k < out@.len() implies no_and_or_stmt(#[trigger] out@[k]) by {
                lemma_stmt_shrunk_has_no_and_or(stmts@[k], out@[k]);
            }
        }
        out
    }

    fn shrink_stmt(s: &Stmt) -> (r: Stmt)
        requires
            and_or_binary_stmt(*s),
        ensures
            stmt_shrinks_to(*s, r),
        decreases s,
    {
        let stmt = match &s.stmt {
            StmtData::Expr(e) => StmtData::Expr(Self::shrink_expr(e)),
            StmtData::Assign { name, binding } => StmtData::Assign {
                name: name.duplicate(),
                binding: Self::shrink_expr(binding),
            },
            StmtData::If { condition, then, else_ } => StmtData::If {
                condition: Self::shrink_expr(condition),
                then: Self::shrink_expr(then),
                else_: Self::shrink_expr(else_),
            },
        };
        Stmt { stmt, range: s.range }
    }

    fn shrink_body(v: &Vec<Stmt>) -> (r: Vec<Stmt>)
        requires
            forall|k: int| 0 <= k < v@.len() ==> and_or_binary_stmt(#[trigger] v@[k]),
        ensures
            r@.len() == v@.len(),
            forall|k: int| 0 <= k < v@.len() ==> stmt_shrinks_to(#[trigger] v@[k], r@[k]),
        decreases v,
    {
        let mut out: Vec<Stmt> = Vec::new();
        let mut i: usize = 0;
        while i < v.len()
            invariant
                i <= v@.len(),
                out@.len() == i,
                forall|k: int| 0 <= k < v@.len() ==> and_or_binary_stmt(#[trigger] v@[k]),
                forall|k: int| 0 <= k < i ==> stmt_shrinks_to(#[trigger] v@[k], out@[k]),
            decreases v.len() - i,
        {
            out.push(Self::shrink_stmt(&v[i]));
            i = i + 1;
        }
        out
    }

    fn shrink_all(v: &Vec<Expr>) -> (r: Vec<Expr>)
        requires
            forall|k: int| 0 <= k < v@.len() ==> and_or_binary(#[trigger] v@[k]),
        ensures
            r@.len() == v@.len(),
            forall|k: int| 0 <= k < v@.len() ==> shrinks_to(#[trigger] v@[k], r@[k]),
        decreases v,
    {
        let mut out: Vec<Expr> = Vec::new();
        let mut i: usize = 0;
        while i < v.len()
            invariant
                i <= v@.len(),
                out@.len() == i,
                forall|k: int| 0 <= k < v@.len() ==> and_or_binary(#[trigger] v@[k]),
                forall|k: int| 0 <= k < i ==> shrinks_to(#[trigger] v@[k], out@[k]),
            decreases v.len() - i,
        {
            out.push(Self::shrink_expr(&v[i]));
            i = i + 1;
        }
        out
    }

    fn shrink_expr(e: &Expr) -> (r: Expr)
        requires
            and_or_binary(*e),
        ensures
            shrinks_to(*e, r),
        decreases e,
    {
        let range = e.range;
        match &e.data {
            ExprData::Prim { op, operands } => {
                let k = op.kind();
                if (k == Kind::And || k == Kind::Or) && operands.len() == 2 {
                    let a = Self::shrink_expr(&operands[0]);
                    let b = Self::shrink_expr(&operands[1]);
                    if k == Kind::And {
                        let f = Expr { data: ExprData::Bool(false), range };
                        Expr {
                            data: ExprData::Condition {
                                condition: Box::new(a),
                                then: Box::new(b),
                                else_: Box::new(f),
                            },
                            range,
                        }
                    } else {
                        let t = Expr { data: ExprData::Bool(true), range };
                        Expr {
                            data: ExprData::Condition {
                                condition: Box::new(a),
                                then: Box::new(t),
                                else_: Box::new(b),
                            },
                            range,
                        }
                    }
                } else {
                    let out = Self::shrink_all(operands);
                    Expr { data: ExprData::Prim { op: op.duplicate(), operands: out }, range }
                }
            },
            ExprData::Call { name, args } => {
                let n = Self::shrink_expr(name);
                let out = Self::shrink_all(args);
                Expr { data: ExprData::Call { name: Box::new(n), args: out }, range }
            },
            ExprData::Condition { condition, then, else_ } => {
                let c = Self::shrink_expr(condition);
                let t = Self::shrink_expr(then);
                let f = Self::shrink_expr(else_);
                Expr {
                    data: ExprData::Condition {
                        condition: Box::new(c),
                        then: Box::new(t),
                        else_: Box::new(f),
                    },
                    range,
                }
            },
            ExprData::Block { body, result } => {
                let out = Self::shrink_body(body);
                let res = match result {
                    Some(x) => Some(Box::new(Self::shrink_expr(x))),
                    None => None,
                };
                Expr { data: ExprData::Block { body: out, result: res }, range }
            },
            ExprData::Int(x) => Expr { data: ExprData::Int(*x), range },
            ExprData::Bool(x) => Expr { data: ExprData::Bool(*x), range },
            ExprData::Float(x) => Expr { data: ExprData::Float(x.clone()), range },
            ExprData::Name(x) => Expr { data: ExprData::Name(x.duplicate()), range },
        }
    }
}

} // verus!
