use vstd::prelude::*;
use vstd::string::StringExecFns;
use crate::ast::{Expr, ExprData, Stmt, StmtData, is_atom_spec, same_expr};
use crate::token::{Kind, Token};

verus! {

/// Every operand of an operator or a call is an atom, throughout.
pub open spec fn flat(e: Expr) -> bool
    decreases e,
{
    match e.data {
        ExprData::Prim { op, operands } => forall|i: int|
            0 <= i < operands@.len() ==> is_atom_spec(#[trigger] operands@[i]),
        ExprData::Call { name, args } => flat(*name) && forall|i: int|
            0 <= i < args@.len() ==> is_atom_spec(#[trigger] args@[i]),
        ExprData::Condition { condition, then, else_ } => flat(*condition) && flat(*then) && flat(
            *else_,
        ),
        ExprData::Block { body, result } => (forall|i: int|
            0 <= i < body@.len() ==> flat_stmt(#[trigger] body@[i])) && (result is Some ==> flat(
            *result->0,
        )),
        _ => true,
    }
}

pub open spec fn flat_stmt(s: Stmt) -> bool
    decreases s,
{
    match s.stmt {
        StmtData::Expr(e) => flat(e),
        StmtData::Assign { name, binding } => flat(binding),
        StmtData::If { condition, then, else_ } => flat(condition) && flat(then) && flat(else_),
    }
}

pub open spec fn all_flat(s: Seq<Stmt>) -> bool {
    forall|i: int| 0 <= i < s.len() ==> flat_stmt(#[trigger] s[i])
}

pub open spec fn digit_chars() -> Seq<char> {
    seq!['0', '1', '2', '3', '4', '5', '6', '7', '8', '9']
}

/// `n` written in decimal.
pub open spec fn decimal(n: nat) -> Seq<char>
    decreases n,
{
    if n < 10 {
        seq![digit_chars()[n as int]]
    } else {
        decimal(n / 10).push(digit_chars()[(n % 10) as int])
    }
}

/// Some statement of `pre` assigns to the name token `t`.
pub open spec fn binds(pre: Seq<Stmt>, t: Token) -> bool {
    exists|j: int| 0 <= j < pre.len() && (#[trigger] pre[j]).stmt is Assign && pre[j].stmt->Assign_name == t
}

/// `a` is a temporary that `pre` assigns.
pub open spec fn temp_bound_in(a: Expr, pre: Seq<Stmt>) -> bool {
    a.data is Name && a.data->Name_0.text().take(4) == seq!['%', 't', 'm', 'p'] && binds(pre, a.data->Name_0)
}

/// Some statement of `pre` assigns to `t` the flat form of `e`, computed by the
/// statements before it.
pub open spec fn binds_to(pre: Seq<Stmt>, t: Token, e: Expr) -> bool
    decreases e, 1nat,
{
    exists|j: int|
        0 <= j < pre.len() && (#[trigger] pre[j]).stmt is Assign && pre[j].stmt->Assign_name == t && flat(
            pre[j].stmt->Assign_binding,
        ) && rco_rel(e, pre[j].stmt->Assign_binding, pre.take(j))
}

/// `rco_rel` stays true when more flat statements run first.
proof fn lemma_rco_rel_after(e: Expr, x: Expr, pre: Seq<Stmt>, first: Seq<Stmt>)
    requires
        rco_rel(e, x, pre),
        all_flat(first),
        !is_atom_spec(e),
    ensures
        rco_rel(e, x, first + pre),
    decreases e, 0nat,
{
    let all = first + pre;
    assert(all_flat(all)) by {
        assert forall|k: int| 0 <= k < all.len() implies flat_stmt(#[trigger] all[k]) by {
            if k < first.len() {
                assert(all[k] == first[k]);
            } else {
                assert(all[k] == pre[k - first.len()]);
            }
        }
    }
    assert forall|t: Token| binds(pre, t) implies binds(all, t) by {
        let j = choose|j: int| 0 <= j < pre.len() && (#[trigger] pre[j]).stmt is Assign && pre[j].stmt->Assign_name == t;
        assert(all[first.len() + j] == pre[j]);
    }
    if e.data is Prim {
        let ops = e.data->Prim_operands@;
        assert forall|i: int| 0 <= i < ops.len() && !is_atom_spec(#[trigger] ops[i]) implies binds_to(
            all,
            x.data->Prim_operands@[i].data->Name_0,
            ops[i],
        ) by {
            lemma_binds_to_after(pre, x.data->Prim_operands@[i].data->Name_0, ops[i], first);
        }
    }
    if e.data is Call {
        let ops = e.data->Call_args@;
        assert forall|i: int| 0 <= i < ops.len() && !is_atom_spec(#[trigger] ops[i]) implies binds_to(
            all,
            x.data->Call_args@[i].data->Name_0,
            ops[i],
        ) by {
            lemma_binds_to_after(pre, x.data->Call_args@[i].data->Name_0, ops[i], first);
        }
    }
}

proof fn lemma_binds_to_after(pre: Seq<Stmt>, t: Token, e: Expr, first: Seq<Stmt>)
    requires
        binds_to(pre, t, e),
        all_flat(first),
        !is_atom_spec(e),
    ensures
        binds_to(first + pre, t, e),
    decreases e, 1nat,
{
    let j = choose|j: int|
        0 <= j < pre.len() && (#[trigger] pre[j]).stmt is Assign && pre[j].stmt->Assign_name == t && flat(
            pre[j].stmt->Assign_binding,
        ) && rco_rel(e, pre[j].stmt->Assign_binding, pre.take(j));
    let all = first + pre;
    lemma_rco_rel_after(e, pre[j].stmt->Assign_binding, pre.take(j), first);
    assert(all.take(first.len() + j) =~= first + pre.take(j));
    assert(all[first.len() + j] == pre[j]);
}

/// `x`, after the statements `pre`, is the flat form of `e`: an atom stays as it
/// is with nothing before it; an operator or call keeps its operator and atomic
/// operands, and each complex operand becomes a temporary that `pre` assigns.
pub open spec fn rco_rel(e: Expr, x: Expr, pre: Seq<Stmt>) -> bool
    decreases e, 0nat,
{
    &&& flat(x)
    &&& all_flat(pre)
    &&& is_atom_spec(e) ==> same_expr(x, e) && pre.len() == 0
    &&& e.data is Prim ==> x.data is Prim && x.data->Prim_op == e.data->Prim_op && x.data->Prim_operands@.len()
        == e.data->Prim_operands@.len() && forall|i: int|
        0 <= i < e.data->Prim_operands@.len() ==> (is_atom_spec(#[trigger] e.data->Prim_operands@[i]) ==> same_expr(
            x.data->Prim_operands@[i],
            e.data->Prim_operands@[i],
        )) && (!is_atom_spec(e.data->Prim_operands@[i]) ==> temp_bound_in(x.data->Prim_operands@[i], pre) && binds_to(
            pre,
            x.data->Prim_operands@[i].data->Name_0,
            e.data->Prim_operands@[i],
        ))
    &&& e.data is Call ==> x.data is Call && x.data->Call_args@.len() == e.data->Call_args@.len() && forall|i: int|
        0 <= i < e.data->Call_args@.len() ==> (is_atom_spec(#[trigger] e.data->Call_args@[i]) ==> same_expr(
            x.data->Call_args@[i],
            e.data->Call_args@[i],
        )) && (!is_atom_spec(e.data->Call_args@[i]) ==> temp_bound_in(x.data->Call_args@[i], pre) && binds_to(
            pre,
            x.data->Call_args@[i].data->Name_0,
            e.data->Call_args@[i],
        ))
}

/// `out` is what one statement `s` becomes: its preludes, then `s` with flat
/// operands, of the same kind and, for an assignment, the same name.
pub open spec fn stmt_result(s: Stmt, out: Seq<Stmt>) -> bool {
    &&& all_flat(out)
    &&& out.len() >= 1
    &&& out.last().range == s.range
    &&& s.stmt is Expr ==> out.last().stmt is Expr && rco_rel(s.stmt->Expr_0, out.last().stmt->Expr_0, out.drop_last())
    &&& s.stmt is Assign ==> out.last().stmt is Assign && out.last().stmt->Assign_name == s.stmt->Assign_name && rco_rel(
        s.stmt->Assign_binding,
        out.last().stmt->Assign_binding,
        out.drop_last(),
    )
    &&& s.stmt is If ==> out.last().stmt is If
}

/// The statement sequences of `segs`, one after another.
pub open spec fn concat_all(segs: Seq<Seq<Stmt>>) -> Seq<Stmt>
    decreases segs.len(),
{
    if segs.len() == 0 {
        Seq::empty()
    } else {
        concat_all(segs.drop_last()) + segs.last()
    }
}

/// Relies on `ToString` of `usize` (its `Display`): decimal digits, without sign or padding.
#[verifier::external_body]
pub(crate) fn usize_text(n: usize) -> (r: String)
    ensures
        r@ == decimal(n as nat),
{
    n.to_string()
}

/// `%tmp` followed by `n` in decimal.
fn temp_name(n: usize) -> (r: String)
    ensures
        r@ == seq!['%', 't', 'm', 'p'] + decimal(n as nat),
{
    let mut s = String::from_str("%tmp");
    let d = usize_text(n);
    s.append(d.as_str());
    proof {
        reveal_strlit("%tmp");
    }
    s
}

/// Makes every operand atomic by binding complex operands to fresh temporaries.
pub struct RemoveComplexOperands {
    temp: usize,
}

impl RemoveComplexOperands {
    pub fn new() -> Self {
        Self { temp: 0 }
    }

    /// A fresh name `%tmpN`; the counter wraps only after 2^64 temporaries.
    fn next_temp(&mut self) -> (r: Token)
        ensures
            r.kind_spec() == Kind::Name,
            r.text() == seq!['%', 't', 'm', 'p'] + decimal(old(self).temp as nat),
    {
        let tmp = temp_name(self.temp);
        self.temp = self.temp.wrapping_add(1);
        Token::new(Kind::Name, tmp, 0, 0)
    }

    /// The statements with every complex operand bound to a temporary first.
    pub fn rco_stmts(&mut self, stmts: Vec<Stmt>) -> (r: Vec<Stmt>)
        ensures
            all_flat(r@),
            stmts@.len() <= r@.len(),
            exists|segs: Seq<Seq<Stmt>>|
                #![trigger concat_all(segs)]
                segs.len() == stmts@.len() && r@ == concat_all(segs) && forall|i: int|
                    0 <= i < stmts@.len() ==> stmt_result(#[trigger] stmts@[i], segs[i]),
    {
        let mut res: Vec<Stmt> = Vec::new();
        let mut i: usize = 0;
        let ghost mut segs: Seq<Seq<Stmt>> = Seq::empty();
        while i < stmts.len()
            invariant
                i <= stmts@.len(),
                i <= res@.len(),
                all_flat(res@),
                segs.len() == i,
                res@ == concat_all(segs),
                forall|k: int| 0 <= k < i ==> stmt_result(#[trigger] stmts@[k], segs[k]),
            decreases stmts.len() - i,
        {
            let mut more = self.rco_stmt(&stmts[i]);
            let ghost mv = more@;
            let ghost old_res = res@;
            res.append(&mut more);
            proof {
                let old_segs = segs;
                segs = segs.push(mv);
                assert(segs.drop_last() =~= old_segs);
                assert(res@ =~= old_res + mv);
                assert forall|k: int| 0 <= k < i + 1 implies stmt_result(#[trigger] stmts@[k], segs[k]) by {
                    if k < i {
                        assert(segs[k] == old_segs[k]);
                    }
                }
            }
            i = i + 1;
        }
        res
    }

    fn rco_body(&mut self, stmts: &Vec<Stmt>) -> (r: Vec<Stmt>)
        ensures
            all_flat(r@),
        decreases stmts,
    {
        let mut res: Vec<Stmt> = Vec::new();
        let mut i: usize = 0;
        while i < stmts.len()
            invariant
                i <= stmts@.len(),
                all_flat(res@),
            decreases stmts.len() - i,
        {
            let mut more = self.rco_stmt(&stmts[i]);
            res.append(&mut more);
            i = i + 1;
        }
        res
    }

    /// One statement becomes its preludes followed by its flattened form.
    fn rco_stmt(&mut self, stmt: &Stmt) -> (r: Vec<Stmt>)
        ensures
            all_flat(r@),
            r@.len() >= 1,
            r@.last().range == stmt.range,
            stmt.stmt is Expr ==> r@.last().stmt is Expr && rco_rel(stmt.stmt->Expr_0, r@.last().stmt->Expr_0, r@.drop_last()),
            stmt.stmt is Assign ==> r@.last().stmt is Assign && r@.last().stmt->Assign_name == stmt.stmt->Assign_name
                && rco_rel(stmt.stmt->Assign_binding, r@.last().stmt->Assign_binding, r@.drop_last()),
            stmt.stmt is If ==> r@.last().stmt is If,
            stmt_result(*stmt, r@),
        decreases stmt,
    {
        let range = stmt.range;
        match &stmt.stmt {
            StmtData::Expr(exp) => {
                let (exp, mut stmts) = self.rco_exp(exp);
                let ghost pre = stmts@;
                stmts.push(Stmt { stmt: StmtData::Expr(exp), range });
                assert(stmts@.drop_last() =~= pre);
                stmts
            },
            StmtData::Assign { name, binding } => {
                let (binding, mut stmts) = self.rco_exp(binding);
                let ghost pre = stmts@;
                stmts.push(Stmt { stmt: StmtData::Assign { name: name.duplicate(), binding }, range });
                assert(stmts@.drop_last() =~= pre);
                stmts
            },
            StmtData::If { condition, then, else_ } => {
                let (condition, mut stmts) = self.rco_exp(condition);
                let then = self.rco_branch(then);
                let else_ = self.rco_branch(else_);
                stmts.push(Stmt { stmt: StmtData::If { condition, then, else_ }, range });
                stmts
            },
        }
    }

    /// A branch of a conditional, with its prelude kept inside it.
    fn rco_branch(&mut self, e: &Expr) -> (r: Expr)
        ensures
            flat(r),
            is_atom_spec(*e) ==> same_expr(r, *e),
        decreases e, 2nat,
    {
        let range = e.range;
        let (x, pre) = self.rco_exp(e);
        if pre.len() == 0 {
            x
        } else {
            Expr { data: ExprData::Block { body: pre, result: Some(Box::new(x)) }, range }
        }
    }

    /// A copy of an atom.
    fn copy_atom(e: &Expr) -> (r: Expr)
        requires
            is_atom_spec(*e),
        ensures
            same_expr(r, *e),
            is_atom_spec(r),
    {
        let range = e.range;
        match &e.data {
            ExprData::Int(x) => Expr { data: ExprData::Int(*x), range },
            ExprData::Bool(x) => Expr { data: ExprData::Bool(*x), range },
            ExprData::Float(x) => Expr { data: ExprData::Float(x.clone()), range },
            ExprData::Name(x) => Expr { data: ExprData::Name(x.duplicate()), range },
            _ => Expr { data: ExprData::Bool(false), range },
        }
    }

    /// The flat form of an expression and the statements that must run before it.
    /// An atom comes back unchanged with no statements; an operator or call keeps
    /// its operator or callee and its atomic operands in place.
    fn rco_exp(&mut self, exp: &Expr) -> (r: (Expr, Vec<Stmt>))
        ensures
            rco_rel(*exp, r.0, r.1@),
            flat(r.0),
            all_flat(r.1@),
            is_atom_spec(*exp) ==> same_expr(r.0, *exp) && r.1@.len() == 0,
            exp.data is Prim ==> r.0.data is Prim && r.0.data->Prim_op == exp.data->Prim_op
                && r.0.data->Prim_operands@.len() == exp.data->Prim_operands@.len() && forall|i: int|
                0 <= i < exp.data->Prim_operands@.len() && is_atom_spec(
                    #[trigger] exp.data->Prim_operands@[i],
                ) ==> same_expr(r.0.data->Prim_operands@[i], exp.data->Prim_operands@[i]),
            exp.data is Prim ==> forall|i: int|
                0 <= i < exp.data->Prim_operands@.len() && !is_atom_spec(
                    #[trigger] exp.data->Prim_operands@[i],
                ) ==> temp_bound_in(r.0.data->Prim_operands@[i], r.1@),
            exp.data is Prim ==> forall|i: int|
                0 <= i < exp.data->Prim_operands@.len() && !is_atom_spec(
                    #[trigger] exp.data->Prim_operands@[i],
                ) ==> binds_to(r.1@, r.0.data->Prim_operands@[i].data->Name_0, exp.data->Prim_operands@[i]),
            exp.data is Call ==> forall|i: int|
                0 <= i < exp.data->Call_args@.len() && !is_atom_spec(
                    #[trigger] exp.data->Call_args@[i],
                ) ==> binds_to(r.1@, r.0.data->Call_args@[i].data->Name_0, exp.data->Call_args@[i]),
            exp.data is Call ==> r.0.data is Call && r.0.data->Call_args@.len()
                == exp.data->Call_args@.len() && forall|i: int|
                0 <= i < exp.data->Call_args@.len() ==> (is_atom_spec(#[trigger] exp.data->Call_args@[i])
                    ==> same_expr(r.0.data->Call_args@[i], exp.data->Call_args@[i])) && (!is_atom_spec(
                    exp.data->Call_args@[i],
                ) ==> temp_bound_in(r.0.data->Call_args@[i], r.1@)),
        decreases exp, 1nat,
    {
        let r = self.rco_exp_inner(exp);
        proof {
            assert(rco_rel(*exp, r.0, r.1@));
        }
        r
    }

    fn rco_exp_inner(&mut self, exp: &Expr) -> (r: (Expr, Vec<Stmt>))
        ensures
            flat(r.0),
            all_flat(r.1@),
            is_atom_spec(*exp) ==> same_expr(r.0, *exp) && r.1@.len() == 0,
            exp.data is Prim ==> r.0.data is Prim && r.0.data->Prim_op == exp.data->Prim_op
                && r.0.data->Prim_operands@.len() == exp.data->Prim_operands@.len() && forall|i: int|
                0 <= i < exp.data->Prim_operands@.len() && is_atom_spec(
                    #[trigger] exp.data->Prim_operands@[i],
                ) ==> same_expr(r.0.data->Prim_operands@[i], exp.data->Prim_operands@[i]),
            exp.data is Prim ==> forall|i: int|
                0 <= i < exp.data->Prim_operands@.len() && !is_atom_spec(
                    #[trigger] exp.data->Prim_operands@[i],
                ) ==> temp_bound_in(r.0.data->Prim_operands@[i], r.1@),
            exp.data is Prim ==> forall|i: int|
                0 <= i < exp.data->Prim_operands@.len() && !is_atom_spec(
                    #[trigger] exp.data->Prim_operands@[i],
                ) ==> binds_to(r.1@, r.0.data->Prim_operands@[i].data->Name_0, exp.data->Prim_operands@[i]),
            exp.data is Call ==> forall|i: int|
                0 <= i < exp.data->Call_args@.len() && !is_atom_spec(
                    #[trigger] exp.data->Call_args@[i],
                ) ==> binds_to(r.1@, r.0.data->Call_args@[i].data->Name_0, exp.data->Call_args@[i]),
            exp.data is Call ==> r.0.data is Call && r.0.data->Call_args@.len()
                == exp.data->Call_args@.len() && forall|i: int|
                0 <= i < exp.data->Call_args@.len() ==> (is_atom_spec(#[trigger] exp.data->Call_args@[i])
                    ==> same_expr(r.0.data->Call_args@[i], exp.data->Call_args@[i])) && (!is_atom_spec(
                    exp.data->Call_args@[i],
                ) ==> temp_bound_in(r.0.data->Call_args@[i], r.1@)),
        decreases exp, 0nat,
    {
        if exp.is_atom() {
            return (Self::copy_atom(exp), Vec::new());
        }
        let range = exp.range;
        match &exp.data {
            ExprData::Call { name, args } => {
                let (args, stmts) = self.rco_operands(args);
                let callee = self.rco_branch(name);
                (Expr { data: ExprData::Call { name: Box::new(callee), args }, range }, stmts)
            },
            ExprData::Prim { op, operands } => {
                let (operands, stmts) = self.rco_operands(operands);
                (Expr { data: ExprData::Prim { op: op.duplicate(), operands }, range }, stmts)
            },
            ExprData::Condition { condition, then, else_ } => {
                let (c, stmts) = self.rco_exp(condition);
                let t = self.rco_branch(then);
                let f = self.rco_branch(else_);
                (
                    Expr {
                        data: ExprData::Condition {
                            condition: Box::new(c),
                            then: Box::new(t),
                            else_: Box::new(f),
                        },
                        range,
                    },
                    stmts,
                )
            },
            ExprData::Block { body, result } => {
                let mut body = self.rco_body(body);
                let result = match result {
                    Some(r) => {
                        let (r, mut st) = self.rco_exp(r);
                        body.append(&mut st);
                        Some(Box::new(r))
                    },
                    None => None,
                };
                (Expr { data: ExprData::Block { body, result }, range }, Vec::new())
            },
            _ => (Self::copy_atom(exp), Vec::new()),
        }
    }

    /// Atomic operands stay; each other operand is flattened and bound to a temporary.
    fn rco_operands(&mut self, exprs: &Vec<Expr>) -> (r: (Vec<Expr>, Vec<Stmt>))
        ensures
            r.0@.len() == exprs@.len(),
            forall|i: int| 0 <= i < r.0@.len() ==> is_atom_spec(#[trigger] r.0@[i]),
            forall|i: int|
                0 <= i < exprs@.len() && is_atom_spec(#[trigger] exprs@[i]) ==> same_expr(r.0@[i], exprs@[i]),
            forall|i: int|
                0 <= i < exprs@.len() && !is_atom_spec(#[trigger] exprs@[i]) ==> temp_bound_in(r.0@[i], r.1@),
            forall|i: int|
                0 <= i < exprs@.len() && !is_atom_spec(#[trigger] exprs@[i]) ==> binds_to(r.1@, r.0@[i].data->Name_0, exprs@[i]),
            all_flat(r.1@),
        decreases exprs,
    {
        let mut new_args: Vec<Expr> = Vec::new();
        let mut stmts: Vec<Stmt> = Vec::new();
        let mut i: usize = 0;
        while i < exprs.len()
            invariant
                i <= exprs@.len(),
                new_args@.len() == i,
                forall|k: int| 0 <= k < i ==> is_atom_spec(#[trigger] new_args@[k]),
                forall|k: int|
                    0 <= k < i && is_atom_spec(#[trigger] exprs@[k]) ==> same_expr(new_args@[k], exprs@[k]),
                forall|k: int|
                    0 <= k < i && !is_atom_spec(#[trigger] exprs@[k]) ==> temp_bound_in(new_args@[k], stmts@),
                forall|k: int|
                    0 <= k < i && !is_atom_spec(#[trigger] exprs@[k]) ==> binds_to(stmts@, new_args@[k].data->Name_0, exprs@[k]),
                all_flat(stmts@),
            decreases exprs.len() - i,
        {
            let ghost before = stmts@;
            let a = &exprs[i];
            if a.is_atom() {
                new_args.push(Self::copy_atom(a));
            } else {
                let range = a.range;
                let (flat_a, mut tempdefs) = self.rco_exp(a);
                let ghost td = tempdefs@;
                let ghost fa = flat_a;
                stmts.append(&mut tempdefs);
                let tmp = self.next_temp();
                let use_tmp = Expr { data: ExprData::Name(tmp.duplicate()), range };
                let ghost mid = stmts@;
                stmts.push(Stmt { stmt: StmtData::Assign { name: tmp, binding: flat_a }, range });
                new_args.push(use_tmp);
                proof {
                    let last = stmts@.len() - 1;
                    assert(stmts@[last].stmt->Assign_name == new_args@[i as int].data->Name_0);
                    assert(binds(stmts@, new_args@[i as int].data->Name_0));
                    assert(new_args@[i as int].data->Name_0.text().take(4) =~= seq!['%', 't', 'm', 'p']);
                    assert(mid =~= before + td);
                    lemma_rco_rel_after(*a, fa, td, before);
                    assert(stmts@.take(last) =~= mid);
                    assert(stmts@[last].stmt->Assign_binding == fa);
                    assert(binds_to(stmts@, new_args@[i as int].data->Name_0, exprs@[i as int]));
                }
            }
            proof {
                assert forall|k: int| 0 <= k < i && !is_atom_spec(#[trigger] exprs@[k]) implies temp_bound_in(new_args@[k], stmts@) by {
                    let j = choose|j: int| 0 <= j < before.len() && (#[trigger] before[j]).stmt is Assign && before[j].stmt->Assign_name == new_args@[k].data->Name_0;
                    assert(stmts@[j] == before[j]);
                }
                assert forall|k: int| 0 <= k < i && !is_atom_spec(#[trigger] exprs@[k]) implies binds_to(stmts@, new_args@[k].data->Name_0, exprs@[k]) by {
                    let j = choose|j: int|
                        0 <= j < before.len() && (#[trigger] before[j]).stmt is Assign && before[j].stmt->Assign_name == new_args@[k].data->Name_0
                            && flat(before[j].stmt->Assign_binding) && rco_rel(exprs@[k], before[j].stmt->Assign_binding, before.take(j));
                    assert(stmts@[j] == before[j]);
                    assert(stmts@.take(j) =~= before.take(j));
                }
            }
            i = i + 1;
        }
        (new_args, stmts)
    }
}

} // verus!
