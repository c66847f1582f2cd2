use vstd::prelude::*;
use vstd::string::StringExecFns;
use crate::ast;
use crate::ast::{ExprData, StmtData};
use crate::clike::{
    Atom, CProgrom, ClikeError, Expr, Label, Stmt, atom_matches, closed_block, expr_matches, has_label,
    is_flat_expr, targets_in, wf_block,
};
use crate::rco::{decimal, usize_text};
use crate::token::Kind;

verus! {

pub open spec fn is_comparison(k: Kind) -> bool {
    k == Kind::EqualEqual || k == Kind::BangEqual || k == Kind::Less || k == Kind::LessEqual || k
        == Kind::Greater || k == Kind::GreaterEqual
}

/// The condition can be lowered: literals, `not`, comparisons of atoms,
/// conditionals of such conditions, and atoms tested against `true`.
pub open spec fn pred_ok(c: ast::Expr) -> bool
    decreases c,
{
    match c.data {
        ExprData::Bool(_) => true,
        ExprData::Prim { op, operands } => if op.kind_spec() == Kind::Bang && operands@.len() == 1 {
            pred_ok(operands@[0])
        } else if is_comparison(op.kind_spec()) {
            is_flat_expr(c)
        } else {
            ast::is_atom_spec(c)
        },
        ExprData::Condition { condition, then, else_ } => pred_ok(*condition) && pred_ok(*then) && pred_ok(
            *else_,
        ),
        _ => ast::is_atom_spec(c),
    }
}

/// The right-hand side of an assignment can be lowered.
pub open spec fn assign_ok(rhs: ast::Expr) -> bool
    decreases rhs,
{
    match rhs.data {
        ExprData::Condition { condition, then, else_ } => pred_ok(*condition) && assign_ok(*then) && assign_ok(
            *else_,
        ),
        ExprData::Block { body, result } => (forall|i: int| 0 <= i < body@.len() ==> stmt_ok(#[trigger] body@[i]))
            && (result is Some ==> assign_ok(*result->0)),
        _ => is_flat_expr(rhs),
    }
}

/// An expression evaluated for its effects can be lowered.
pub open spec fn effect_ok(e: ast::Expr) -> bool
    decreases e,
{
    match e.data {
        ExprData::Condition { condition, then, else_ } => pred_ok(*condition) && effect_ok(*then) && effect_ok(
            *else_,
        ),
        ExprData::Call { .. } => is_flat_expr(e),
        ExprData::Block { body, result } => (forall|i: int| 0 <= i < body@.len() ==> stmt_ok(#[trigger] body@[i]))
            && (result is Some ==> effect_ok(*result->0)),
        _ => true,
    }
}

/// A statement can be lowered.
pub open spec fn stmt_ok(s: ast::Stmt) -> bool
    decreases s,
{
    match s.stmt {
        StmtData::Expr(e) => effect_ok(e),
        StmtData::Assign { name, binding } => assign_ok(binding),
        StmtData::If { condition, then, else_ } => pred_ok(condition) && effect_ok(then) && effect_ok(else_),
    }
}

/// Names the witnesses of a lowering step, to key the quantifiers on.
/// The continuations `cs` end with `c2`.
pub open spec fn runs_to(cs: Seq<Seq<Stmt>>, c2: Seq<Stmt>) -> bool {
    cs.len() > 0 && cs.last() == c2
}

/// A block that only jumps to `l`.
pub open spec fn goto_seq(l: Label) -> Seq<Stmt> {
    seq![Stmt::Goto(l)]
}

/// Jumping to `l` runs `b`: `b` is that jump itself, or the block labelled `l`.
pub open spec fn leads_to(bs: Seq<(Label, Vec<Stmt>)>, l: Label, b: Seq<Stmt>) -> bool {
    b == goto_seq(l) || exists|k: int| 0 <= k < bs.len() && #[trigger] bs[k].0 == l && bs[k].1@ == b
}

/// `r` is one `if` whose branches lead to `thn` and `els`.
pub open spec fn branches_to(bs: Seq<(Label, Vec<Stmt>)>, r: Seq<Stmt>, thn: Seq<Stmt>, els: Seq<Stmt>) -> bool {
    r.len() == 1 && r[0] is If && leads_to(bs, r[0]->If_then, thn) && leads_to(bs, r[0]->If_else_, els)
}

/// `r` tests the atom `c` against `true`.
pub open spec fn tests_true(bs: Seq<(Label, Vec<Stmt>)>, c: ast::Expr, thn: Seq<Stmt>, els: Seq<Stmt>, r: Seq<Stmt>) -> bool {
    branches_to(bs, r, thn, els) && r[0]->If_cond is Prim && r[0]->If_cond->Prim_op == Kind::EqualEqual
        && r[0]->If_cond->Prim_operands@.len() == 2 && atom_matches(r[0]->If_cond->Prim_operands@[0], c)
        && r[0]->If_cond->Prim_operands@[1] == Atom::Bool(true)
}

/// `r` evaluates `c` and continues with `thn` when it holds, `els` otherwise: a
/// literal picks one, `not` swaps them, a comparison becomes an `if`, a
/// conditional tests its own branches, and anything else is compared with `true`.
pub open spec fn pred_shape(bs: Seq<(Label, Vec<Stmt>)>, c: ast::Expr, thn: Seq<Stmt>, els: Seq<Stmt>, r: Seq<Stmt>) -> bool
    decreases c,
{
    match c.data {
        ExprData::Bool(b) => r == (if b {
            thn
        } else {
            els
        }),
        ExprData::Prim { op, operands } => if op.kind_spec() == Kind::Bang && operands@.len() == 1 {
            pred_shape(bs, operands@[0], els, thn, r)
        } else if is_comparison(op.kind_spec()) {
            branches_to(bs, r, thn, els) && expr_matches(r[0]->If_cond, c)
        } else {
            tests_true(bs, c, thn, els, r)
        },
        ExprData::Condition { condition, then, else_ } => exists|lt: Label, le: Label, lit: Label, lie: Label, rt: Seq<Stmt>, re: Seq<Stmt>|
            #![trigger leads_to(bs, lt, thn), leads_to(bs, le, els), leads_to(bs, lit, rt), leads_to(bs, lie, re)]
            leads_to(bs, lt, thn) && leads_to(bs, le, els) && pred_shape(bs, *then, goto_seq(lt), goto_seq(le), rt)
                && pred_shape(bs, *else_, goto_seq(lt), goto_seq(le), re) && leads_to(bs, lit, rt) && leads_to(bs, lie, re)
                && pred_shape(bs, *condition, goto_seq(lit), goto_seq(lie), r),
        _ => tests_true(bs, c, thn, els, r),
    }
}

/// `r` is `s` followed by `cont`, where `s` assigns to `lhs`.
pub open spec fn assigns_then(r: Seq<Stmt>, lhs: Seq<char>, cont: Seq<Stmt>) -> bool {
    r.len() == cont.len() + 1 && r[0] is Assign && r[0]->Assign_name is Name && r[0]->Assign_name->Name_0@ == lhs
        && r.skip(1) == cont
}

/// `r` leaves the value of `rhs` in `lhs`, then continues with `cont`; a
/// conditional assigns in each branch and both branches jump to one join.
pub open spec fn assign_shape(bs: Seq<(Label, Vec<Stmt>)>, rhs: ast::Expr, lhs: Seq<char>, cont: Seq<Stmt>, r: Seq<Stmt>) -> bool
    decreases rhs,
{
    match rhs.data {
        ExprData::Condition { condition, then, else_ } => exists|j: Label, lt: Label, le: Label, rt: Seq<Stmt>, re: Seq<Stmt>|
            #![trigger leads_to(bs, j, cont), leads_to(bs, lt, rt), leads_to(bs, le, re)]
            leads_to(bs, j, cont) && assign_shape(bs, *then, lhs, goto_seq(j), rt) && assign_shape(bs, *else_, lhs, goto_seq(j), re)
                && leads_to(bs, lt, rt) && leads_to(bs, le, re) && pred_shape(bs, *condition, goto_seq(lt), goto_seq(le), r),
        ExprData::Block { body, result } => exists|c2: Seq<Stmt>, cs: Seq<Seq<Stmt>>|
            #![trigger runs_to(cs, c2)]
            runs_to(cs, c2) && (if result is Some {
                assign_shape(bs, *result->0, lhs, cont, c2)
            } else {
                assigns_then(c2, lhs, cont) && c2[0]->Assign_binding == Expr::Atom(Atom::Int(0))
            }) && runs(bs, body@, c2, r, cs),
        _ => assigns_then(r, lhs, cont) && expr_matches(r[0]->Assign_binding, rhs),
    }
}

/// `r` evaluates `e` for its effects, then continues with `cont`.
pub open spec fn effect_shape(bs: Seq<(Label, Vec<Stmt>)>, e: ast::Expr, cont: Seq<Stmt>, r: Seq<Stmt>) -> bool
    decreases e,
{
    match e.data {
        ExprData::Condition { condition, then, else_ } => exists|j: Label, lt: Label, le: Label, rt: Seq<Stmt>, re: Seq<Stmt>|
            #![trigger leads_to(bs, j, cont), leads_to(bs, lt, rt), leads_to(bs, le, re)]
            leads_to(bs, j, cont) && effect_shape(bs, *then, goto_seq(j), rt) && effect_shape(bs, *else_, goto_seq(j), re)
                && leads_to(bs, lt, rt) && leads_to(bs, le, re) && pred_shape(bs, *condition, goto_seq(lt), goto_seq(le), r),
        ExprData::Call { .. } => r.len() == cont.len() + 1 && r[0] is Exp && expr_matches(r[0]->Exp_0, e) && r.skip(1)
            == cont,
        ExprData::Block { body, result } => exists|c2: Seq<Stmt>, cs: Seq<Seq<Stmt>>|
            #![trigger runs_to(cs, c2)]
            runs_to(cs, c2) && (if result is Some {
                effect_shape(bs, *result->0, cont, c2)
            } else {
                c2 == cont
            }) && runs(bs, body@, c2, r, cs),
        _ => r == cont,
    }
}

/// `r` runs the statement `s`, then continues with `cont`.
pub open spec fn stmt_shape(bs: Seq<(Label, Vec<Stmt>)>, s: ast::Stmt, cont: Seq<Stmt>, r: Seq<Stmt>) -> bool
    decreases s,
{
    match s.stmt {
        StmtData::Expr(e) => effect_shape(bs, e, cont, r),
        StmtData::Assign { name, binding } => assign_shape(bs, binding, name.text(), cont, r),
        StmtData::If { condition, then, else_ } => exists|j: Label, lt: Label, le: Label, rt: Seq<Stmt>, re: Seq<Stmt>|
            #![trigger leads_to(bs, j, cont), leads_to(bs, lt, rt), leads_to(bs, le, re)]
            leads_to(bs, j, cont) && effect_shape(bs, then, goto_seq(j), rt) && effect_shape(bs, else_, goto_seq(j), re)
                && leads_to(bs, lt, rt) && leads_to(bs, le, re) && pred_shape(bs, condition, goto_seq(lt), goto_seq(le), r),
    }
}

/// `r` runs the statements of `body` in order, then continues with `cont`;
/// `cs[i]` is what runs from statement `i` on.
pub open spec fn runs(bs: Seq<(Label, Vec<Stmt>)>, body: Seq<ast::Stmt>, cont: Seq<Stmt>, r: Seq<Stmt>, cs: Seq<Seq<Stmt>>) -> bool
    decreases body,
{
    cs.len() == body.len() + 1 && cs[0] == r && cs[body.len() as int] == cont && forall|i: int|
        0 <= i < body.len() ==> stmt_shape(bs, #[trigger] body[i], cs[i + 1], cs[i])
}

/// The block labelled `start` runs `stmts` in order and then returns 0.
pub open spec fn start_runs(bs: Seq<(Label, Vec<Stmt>)>, stmts: Seq<ast::Stmt>) -> bool {
    exists|k: int, cs: Seq<Seq<Stmt>>|
        #![trigger runs(bs, stmts, seq![Stmt::Return(Expr::Atom(Atom::Int(0)))], bs[k].1@, cs)]
        0 <= k < bs.len() && bs[k].0@ == seq!['s', 't', 'a', 'r', 't'] && runs(
            bs,
            stmts,
            seq![Stmt::Return(Expr::Atom(Atom::Int(0)))],
            bs[k].1@,
            cs,
        )
}

proof fn lemma_leads_grows(a: Seq<(Label, Vec<Stmt>)>, b: Seq<(Label, Vec<Stmt>)>, l: Label, s: Seq<Stmt>)
    requires
        extends_blocks(b, a),
        leads_to(a, l, s),
    ensures
        leads_to(b, l, s),
{
    if s != goto_seq(l) {
        let k = choose|k: int| 0 <= k < a.len() && #[trigger] a[k].0 == l && a[k].1@ == s;
        assert(b[k] == a[k]);
    }
}

proof fn lemma_pred_grows(a: Seq<(Label, Vec<Stmt>)>, b: Seq<(Label, Vec<Stmt>)>, c: ast::Expr, thn: Seq<Stmt>, els: Seq<Stmt>, r: Seq<Stmt>)
    requires
        extends_blocks(b, a),
        pred_shape(a, c, thn, els, r),
    ensures
        pred_shape(b, c, thn, els, r),
    decreases c,
{
    match c.data {
        ExprData::Bool(_) => {},
        ExprData::Prim { op, operands } => {
            if op.kind_spec() == Kind::Bang && operands@.len() == 1 {
                lemma_pred_grows(a, b, operands@[0], els, thn, r);
            } else {
                lemma_leads_grows(a, b, r[0]->If_then, thn);
                lemma_leads_grows(a, b, r[0]->If_else_, els);
            }
        },
        ExprData::Condition { condition, then, else_ } => {
            let (lt, le, lit, lie, rt, re) = choose|lt: Label, le: Label, lit: Label, lie: Label, rt: Seq<Stmt>, re: Seq<Stmt>|
                #![trigger leads_to(a, lt, thn), leads_to(a, le, els), leads_to(a, lit, rt), leads_to(a, lie, re)]
                leads_to(a, lt, thn) && leads_to(a, le, els) && pred_shape(a, *then, goto_seq(lt), goto_seq(le), rt)
                    && pred_shape(a, *else_, goto_seq(lt), goto_seq(le), re) && leads_to(a, lit, rt) && leads_to(a, lie, re)
                    && pred_shape(a, *condition, goto_seq(lit), goto_seq(lie), r);
            lemma_leads_grows(a, b, lt, thn);
            lemma_leads_grows(a, b, le, els);
            lemma_leads_grows(a, b, lit, rt);
            lemma_leads_grows(a, b, lie, re);
            lemma_pred_grows(a, b, *then, goto_seq(lt), goto_seq(le), rt);
            lemma_pred_grows(a, b, *else_, goto_seq(lt), goto_seq(le), re);
            lemma_pred_grows(a, b, *condition, goto_seq(lit), goto_seq(lie), r);
        },
        _ => {
            lemma_leads_grows(a, b, r[0]->If_then, thn);
            lemma_leads_grows(a, b, r[0]->If_else_, els);
        },
    }
}

proof fn lemma_assign_grows(a: Seq<(Label, Vec<Stmt>)>, b: Seq<(Label, Vec<Stmt>)>, rhs: ast::Expr, lhs: Seq<char>, cont: Seq<Stmt>, r: Seq<Stmt>)
    requires
        extends_blocks(b, a),
        assign_shape(a, rhs, lhs, cont, r),
    ensures
        assign_shape(b, rhs, lhs, cont, r),
    decreases rhs,
{
    match rhs.data {
        ExprData::Condition { condition, then, else_ } => {
            let (j, lt, le, rt, re) = choose|j: Label, lt: Label, le: Label, rt: Seq<Stmt>, re: Seq<Stmt>|
                #![trigger leads_to(a, j, cont), leads_to(a, lt, rt), leads_to(a, le, re)]
                leads_to(a, j, cont) && assign_shape(a, *then, lhs, goto_seq(j), rt) && assign_shape(a, *else_, lhs, goto_seq(j), re)
                    && leads_to(a, lt, rt) && leads_to(a, le, re) && pred_shape(a, *condition, goto_seq(lt), goto_seq(le), r);
            lemma_leads_grows(a, b, j, cont);
            lemma_leads_grows(a, b, lt, rt);
            lemma_leads_grows(a, b, le, re);
            lemma_assign_grows(a, b, *then, lhs, goto_seq(j), rt);
            lemma_assign_grows(a, b, *else_, lhs, goto_seq(j), re);
            lemma_pred_grows(a, b, *condition, goto_seq(lt), goto_seq(le), r);
        },
        ExprData::Block { body, result } => {
            let (c2, cs) = choose|c2: Seq<Stmt>, cs: Seq<Seq<Stmt>>|
                #![trigger runs_to(cs, c2)]
                runs_to(cs, c2) && (if result is Some {
                    assign_shape(a, *result->0, lhs, cont, c2)
                } else {
                    assigns_then(c2, lhs, cont) && c2[0]->Assign_binding == Expr::Atom(Atom::Int(0))
                }) && runs(a, body@, c2, r, cs);
            if result is Some {
                lemma_assign_grows(a, b, *result->0, lhs, cont, c2);
            }
            lemma_runs_grows(a, b, body@, c2, r, cs);
        },
        _ => {},
    }
}

proof fn lemma_effect_grows(a: Seq<(Label, Vec<Stmt>)>, b: Seq<(Label, Vec<Stmt>)>, e: ast::Expr, cont: Seq<Stmt>, r: Seq<Stmt>)
    requires
        extends_blocks(b, a),
        effect_shape(a, e, cont, r),
    ensures
        effect_shape(b, e, cont, r),
    decreases e,
{
    match e.data {
        ExprData::Condition { condition, then, else_ } => {
            let (j, lt, le, rt, re) = choose|j: Label, lt: Label, le: Label, rt: Seq<Stmt>, re: Seq<Stmt>|
                #![trigger leads_to(a, j, cont), leads_to(a, lt, rt), leads_to(a, le, re)]
                leads_to(a, j, cont) && effect_shape(a, *then, goto_seq(j), rt) && effect_shape(a, *else_, goto_seq(j), re)
                    && leads_to(a, lt, rt) && leads_to(a, le, re) && pred_shape(a, *condition, goto_seq(lt), goto_seq(le), r);
            lemma_leads_grows(a, b, j, cont);
            lemma_leads_grows(a, b, lt, rt);
            lemma_leads_grows(a, b, le, re);
            lemma_effect_grows(a, b, *then, goto_seq(j), rt);
            lemma_effect_grows(a, b, *else_, goto_seq(j), re);
            lemma_pred_grows(a, b, *condition, goto_seq(lt), goto_seq(le), r);
        },
        ExprData::Block { body, result } => {
            let (c2, cs) = choose|c2: Seq<Stmt>, cs: Seq<Seq<Stmt>>|
                #![trigger runs_to(cs, c2)]
                runs_to(cs, c2) && (if result is Some {
                    effect_shape(a, *result->0, cont, c2)
                } else {
                    c2 == cont
                }) && runs(a, body@, c2, r, cs);
            if result is Some {
                lemma_effect_grows(a, b, *result->0, cont, c2);
            }
            lemma_runs_grows(a, b, body@, c2, r, cs);
        },
        _ => {},
    }
}

proof fn lemma_stmt_grows(a: Seq<(Label, Vec<Stmt>)>, b: Seq<(Label, Vec<Stmt>)>, s: ast::Stmt, cont: Seq<Stmt>, r: Seq<Stmt>)
    requires
        extends_blocks(b, a),
        stmt_shape(a, s, cont, r),
    ensures
        stmt_shape(b, s, cont, r),
    decreases s,
{
    match s.stmt {
        StmtData::Expr(e) => lemma_effect_grows(a, b, e, cont, r),
        StmtData::Assign { name, binding } => lemma_assign_grows(a, b, binding, name.text(), cont, r),
        StmtData::If { condition, then, else_ } => {
            let (j, lt, le, rt, re) = choose|j: Label, lt: Label, le: Label, rt: Seq<Stmt>, re: Seq<Stmt>|
                #![trigger leads_to(a, j, cont), leads_to(a, lt, rt), leads_to(a, le, re)]
                leads_to(a, j, cont) && effect_shape(a, then, goto_seq(j), rt) && effect_shape(a, else_, goto_seq(j), re)
                    && leads_to(a, lt, rt) && leads_to(a, le, re) && pred_shape(a, condition, goto_seq(lt), goto_seq(le), r);
            lemma_leads_grows(a, b, j, cont);
            lemma_leads_grows(a, b, lt, rt);
            lemma_leads_grows(a, b, le, re);
            lemma_effect_grows(a, b, then, goto_seq(j), rt);
            lemma_effect_grows(a, b, else_, goto_seq(j), re);
            lemma_pred_grows(a, b, condition, goto_seq(lt), goto_seq(le), r);
        },
    }
}

proof fn lemma_runs_grows(a: Seq<(Label, Vec<Stmt>)>, b: Seq<(Label, Vec<Stmt>)>, body: Seq<ast::Stmt>, cont: Seq<Stmt>, r: Seq<Stmt>, cs: Seq<Seq<Stmt>>)
    requires
        extends_blocks(b, a),
        runs(a, body, cont, r, cs),
    ensures
        runs(b, body, cont, r, cs),
    decreases body,
{
    assert forall|i: int| 0 <= i < body.len() implies stmt_shape(b, #[trigger] body[i], cs[i + 1], cs[i]) by {
        lemma_stmt_grows(a, b, body[i], cs[i + 1], cs[i]);
    }
}

/// `new` keeps every block of `old`, at the same place.
pub open spec fn extends_blocks(new: Seq<(Label, Vec<Stmt>)>, old: Seq<(Label, Vec<Stmt>)>) -> bool {
    old.len() <= new.len() && forall|i: int| 0 <= i < old.len() ==> #[trigger] new[i] == old[i]
}

proof fn lemma_closed_grows(b: Seq<Stmt>, old: Seq<(Label, Vec<Stmt>)>, new: Seq<(Label, Vec<Stmt>)>)
    requires
        closed_block(b, old),
        extends_blocks(new, old),
    ensures
        closed_block(b, new),
{
    assert forall|i: int| 0 <= i < b.len() implies targets_in(#[trigger] b[i], new) by {
        assert(targets_in(b[i], old));
        match b[i] {
            Stmt::Goto(l) => {
                let k = choose|k: int| 0 <= k < old.len() && #[trigger] old[k].0@ == l@;
                assert(new[k] == old[k]);
            },
            Stmt::If { cond, then, else_ } => {
                let k = choose|k: int| 0 <= k < old.len() && #[trigger] old[k].0@ == then@;
                assert(new[k] == old[k]);
                let j = choose|j: int| 0 <= j < old.len() && #[trigger] old[j].0@ == else_@;
                assert(new[j] == old[j]);
            },
            _ => {},
        }
    }
}

/// `block_` followed by `n` in decimal.
fn block_name(n: usize) -> (r: String)
    ensures
        r@ == seq!['b', 'l', 'o', 'c', 'k', '_'] + decimal(n as nat),
{
    let mut s = String::from_str("block_");
    let d = usize_text(n);
    s.append(d.as_str());
    proof {
        reveal_strlit("block_");
    }
    s
}

/// Lowers nested conditional expressions into labelled basic blocks.
pub struct ExplicateControl {
    basic_blocks: Vec<(Label, Vec<Stmt>)>,
    block_num: usize,
}

impl ExplicateControl {
    pub closed spec fn blocks(&self) -> Seq<(Label, Vec<Stmt>)> {
        self.basic_blocks@
    }

    pub closed spec fn wf(&self) -> bool {
        forall|i: int| 0 <= i < self.basic_blocks@.len() ==> closed_block(
            (#[trigger] self.basic_blocks@[i]).1@,
            self.basic_blocks@,
        )
    }

    pub fn new() -> (r: Self)
        ensures
            r.wf(),
            r.blocks().len() == 0,
    {
        Self { basic_blocks: Vec::new(), block_num: 0 }
    }

    /// Lowers a program; its entry block, labelled `start`, runs the statements
    /// in order and then returns 0.
    pub fn explicate_control(stmts: &Vec<ast::Stmt>) -> (r: Result<CProgrom, ClikeError>)
        ensures
            r is Ok <==> forall|i: int| 0 <= i < stmts@.len() ==> stmt_ok(#[trigger] stmts@[i]),
            r is Ok ==> r->Ok_0.wf() && has_label(r->Ok_0.blocks@, seq!['s', 't', 'a', 'r', 't']),
            r is Ok ==> start_runs(r->Ok_0.blocks@, stmts@),
    {
        let mut me = Self::new();
        let ret = vec![Stmt::Return(Expr::Atom(Atom::Int(0)))];
        assert(closed_block(ret@, me.basic_blocks@));
        assert(ret@ =~= seq![Stmt::Return(Expr::Atom(Atom::Int(0)))]);
        let ghost retv = ret@;
        let body = me.explicate_body(stmts, ret)?;
        let ghost old_blocks = me.basic_blocks@;
        let ghost bodyv = body@;
        let start = "start".to_owned();
        proof {
            reveal_strlit("start");
        }
        me.basic_blocks.push((start, body));
        proof {
            let new = me.basic_blocks@;
            assert(extends_blocks(new, old_blocks));
            assert forall|i: int| 0 <= i < new.len() implies closed_block((#[trigger] new[i]).1@, new) by {
                lemma_closed_grows(new[i].1@, old_blocks, new);
            }
            let k = new.len() - 1;
            assert(new[k].0@ == seq!['s', 't', 'a', 'r', 't']);
            let cs = choose|cs: Seq<Seq<Stmt>>| runs_to(cs, retv) && runs(old_blocks, stmts@, retv, bodyv, cs);
            lemma_runs_grows(old_blocks, new, stmts@, retv, bodyv, cs);
            assert(new[k].1@ == bodyv);
            assert(runs(new, stmts@, seq![Stmt::Return(Expr::Atom(Atom::Int(0)))], new[k].1@, cs));
        }
        Ok(CProgrom { blocks: me.basic_blocks })
    }

    /// A block that jumps to `label`.
    fn goto_block(label: &Label) -> (r: Vec<Stmt>)
        ensures
            r@ == goto_seq(*label),
            r@.len() == 1,
            r@[0] is Goto,
            r@[0]->Goto_0@ == label@,
    {
        let r = vec![Stmt::Goto(label.clone())];
        assert(r@ =~= goto_seq(*label));
        r
    }

    /// Stores `stmts` as a block of its own, unless it is a jump already, and
    /// returns the label to jump to.
    fn create_block(&mut self, stmts: Vec<Stmt>) -> (r: Label)
        requires
            old(self).wf(),
            closed_block(stmts@, old(self).basic_blocks@),
        ensures
            final(self).wf(),
            extends_blocks(final(self).basic_blocks@, old(self).basic_blocks@),
            has_label(final(self).basic_blocks@, r@),
            leads_to(final(self).basic_blocks@, r, stmts@),
    {
        if let Stmt::Goto(label) = &stmts[0] {
            assert(targets_in(stmts@[0], self.basic_blocks@));
            proof {
                if stmts@.len() > 1 {
                    assert(!crate::clike::is_tail_spec(stmts@[0]));
                }
            }
            assert(stmts@ =~= goto_seq(*label));
            return label.clone();
        }
        let label = block_name(self.block_num);
        self.block_num = self.block_num.wrapping_add(1);
        let ghost old_blocks = self.basic_blocks@;
        let ghost sv = stmts@;
        self.basic_blocks.push((label.clone(), stmts));
        proof {
            let new = self.basic_blocks@;
            assert(extends_blocks(new, old_blocks));
            assert forall|i: int| 0 <= i < new.len() implies closed_block((#[trigger] new[i]).1@, new) by {
                lemma_closed_grows(new[i].1@, old_blocks, new);
            }
            assert(new[new.len() - 1].0@ == label@);
            assert(new[new.len() - 1].0 == label && new[new.len() - 1].1@ == sv);
        }
        label
    }

    /// Code that evaluates the condition and continues with `thn` or `els`.
    fn explicate_pred(&mut self, cond: &ast::Expr, thn: Vec<Stmt>, els: Vec<Stmt>) -> (r: Result<
        Vec<Stmt>,
        ClikeError,
    >)
        requires
            old(self).wf(),
            closed_block(thn@, old(self).basic_blocks@),
            closed_block(els@, old(self).basic_blocks@),
        ensures
            final(self).wf(),
            extends_blocks(final(self).basic_blocks@, old(self).basic_blocks@),
            r is Ok <==> pred_ok(*cond),
            r is Ok ==> closed_block(r->Ok_0@, final(self).basic_blocks@),
            r is Ok ==> pred_shape(final(self).basic_blocks@, *cond, thn@, els@, r->Ok_0@),
        decreases cond,
    {
        let ghost tv = thn@;
        let ghost ev = els@;
        match &cond.data {
            ExprData::Bool(b) => {
                if *b {
                    Ok(thn)
                } else {
                    Ok(els)
                }
            },
            ExprData::Prim { op, operands } if op.kind() == Kind::Bang && operands.len() == 1 => {
                self.explicate_pred(&operands[0], els, thn)
            },
            ExprData::Prim { op, operands } if op.kind() == Kind::EqualEqual || op.kind()
                == Kind::BangEqual || op.kind() == Kind::Less || op.kind() == Kind::LessEqual
                || op.kind() == Kind::Greater || op.kind() == Kind::GreaterEqual => {
                let c = Expr::from_expr(cond)?;
                let ghost b0 = self.basic_blocks@;
                let lt = self.create_block(thn);
                proof {
                    lemma_closed_grows(els@, b0, self.basic_blocks@);
                }
                let ghost b1 = self.basic_blocks@;
                let le = self.create_block(els);
                let ghost ltv = lt;
                let ghost lev = le;
                let ghost cv = c;
                let r = vec![Stmt::If { cond: c, then: lt, else_: le }];
                proof {
                    let k = choose|k: int| 0 <= k < b1.len() && #[trigger] b1[k].0@ == ltv@;
                    assert(self.basic_blocks@[k] == b1[k]);
                    assert(targets_in(r@[0], self.basic_blocks@));
                    lemma_leads_grows(b1, self.basic_blocks@, ltv, tv);
                    assert(r@[0]->If_then == ltv && r@[0]->If_else_ == lev && r@[0]->If_cond == cv);
                }
                Ok(r)
            },
            ExprData::Condition { condition, then, else_ } => {
                let ghost b0 = self.basic_blocks@;
                let lt = self.create_block(thn);
                proof {
                    lemma_closed_grows(els@, b0, self.basic_blocks@);
                }
                let ghost b1 = self.basic_blocks@;
                let le = self.create_block(els);
                let ghost b2 = self.basic_blocks@;
                proof {
                    let k = choose|k: int| 0 <= k < b1.len() && #[trigger] b1[k].0@ == lt@;
                    assert(b2[k] == b1[k]);
                    lemma_leads_grows(b1, b2, lt, tv);
                }
                let g1 = Self::goto_block(&lt);
                let g2 = Self::goto_block(&le);
                assert(closed_block(g1@, b2));
                assert(closed_block(g2@, b2));
                let inner_then = self.explicate_pred(then, g1, g2)?;
                let ghost b3 = self.basic_blocks@;
                let ghost itv = inner_then@;
                let g3 = Self::goto_block(&lt);
                let g4 = Self::goto_block(&le);
                proof {
                    lemma_closed_grows(g1@, b2, b3);
                    lemma_closed_grows(g2@, b2, b3);
                    assert(closed_block(g3@, b3));
                    assert(closed_block(g4@, b3));
                }
                let inner_else = self.explicate_pred(else_, g3, g4)?;
                let ghost b4 = self.basic_blocks@;
                let ghost iev = inner_else@;
                proof {
                    lemma_closed_grows(inner_then@, b3, self.basic_blocks@);
                }
                let lit = self.create_block(inner_then);
                let ghost b5 = self.basic_blocks@;
                proof {
                    lemma_closed_grows(iev, b4, b5);
                }
                let lie = self.create_block(inner_else);
                let ghost b6 = self.basic_blocks@;
                let gt = Self::goto_block(&lit);
                let ge = Self::goto_block(&lie);
                proof {
                    lemma_leads_grows(b5, b6, lit, itv);
                    let k = choose|k: int| 0 <= k < b5.len() && #[trigger] b5[k].0@ == lit@;
                    assert(b6[k] == b5[k]);
                    assert(closed_block(gt@, b6));
                    assert(closed_block(ge@, b6));
                }
                let r = self.explicate_pred(condition, gt, ge);
                proof {
                    if r is Ok {
                        let b7 = self.basic_blocks@;
                        lemma_leads_grows(b2, b7, lt, tv);
                        lemma_leads_grows(b2, b7, le, ev);
                        lemma_leads_grows(b6, b7, lit, itv);
                        lemma_leads_grows(b6, b7, lie, iev);
                        lemma_pred_grows(b3, b7, **then, goto_seq(lt), goto_seq(le), itv);
                        lemma_pred_grows(b4, b7, **else_, goto_seq(lt), goto_seq(le), iev);
                        assert(leads_to(b7, lt, tv) && leads_to(b7, le, ev) && leads_to(b7, lit, itv) && leads_to(b7, lie, iev));
                    }
                }
                r
            },
            _ => {
                let a = Atom::from_expr(cond)?;
                let ghost b0 = self.basic_blocks@;
                let lt = self.create_block(thn);
                proof {
                    lemma_closed_grows(els@, b0, self.basic_blocks@);
                }
                let ghost b1 = self.basic_blocks@;
                let le = self.create_block(els);
                let ghost ltv = lt;
                let ghost lev = le;
                let ghost av = a;
                let ops = vec![a, Atom::Bool(true)];
                let c = Expr::Prim { op: Kind::EqualEqual, operands: ops };
                let r = vec![Stmt::If { cond: c, then: lt, else_: le }];
                proof {
                    let k = choose|k: int| 0 <= k < b1.len() && #[trigger] b1[k].0@ == ltv@;
                    assert(self.basic_blocks@[k] == b1[k]);
                    assert(targets_in(r@[0], self.basic_blocks@));
                    lemma_leads_grows(b1, self.basic_blocks@, ltv, tv);
                    assert(r@[0]->If_then == ltv && r@[0]->If_else_ == lev);
                    assert(r@[0]->If_cond->Prim_operands@[0] == av);
                }
                Ok(r)
            },
        }
    }

    /// `s` followed by `cont`.
    fn prepend(s: Stmt, cont: Vec<Stmt>, blocks: Ghost<Seq<(Label, Vec<Stmt>)>>) -> (r: Vec<Stmt>)
        requires
            !(s is Return || s is Goto || s is If),
            closed_block(cont@, blocks@),
        ensures
            closed_block(r@, blocks@),
            r@ == seq![s] + cont@,
    {
        let mut r = vec![s];
        let mut c = cont;
        r.append(&mut c);
        proof {
            assert(r@ =~= seq![s] + cont@);
            assert forall|i: int| 0 <= i < r@.len() implies targets_in(#[trigger] r@[i], blocks@) by {
                if i > 0 {
                    assert(r@[i] == cont@[i - 1]);
                }
            }
            assert forall|i: int| 0 <= i < r@.len() - 1 implies !crate::clike::is_tail_spec(#[trigger] r@[i]) by {
                if i > 0 {
                    assert(r@[i] == cont@[i - 1]);
                }
            }
            assert(r@.last() == cont@.last());
        }
        r
    }

    /// Code after which `lhs` holds the value of `rhs`, followed by `cont`.
    fn explicate_assign(&mut self, rhs: &ast::Expr, lhs: &Label, cont: Vec<Stmt>) -> (r: Result<
        Vec<Stmt>,
        ClikeError,
    >)
        requires
            old(self).wf(),
            closed_block(cont@, old(self).basic_blocks@),
        ensures
            final(self).wf(),
            extends_blocks(final(self).basic_blocks@, old(self).basic_blocks@),
            r is Ok <==> assign_ok(*rhs),
            r is Ok ==> closed_block(r->Ok_0@, final(self).basic_blocks@),
            r is Ok ==> assign_shape(final(self).basic_blocks@, *rhs, lhs@, cont@, r->Ok_0@),
        decreases rhs,
    {
        let ghost cv = cont@;
        match &rhs.data {
            ExprData::Condition { condition, then, else_ } => {
                let l = self.create_block(cont);
                let ghost b1 = self.basic_blocks@;
                let g1 = Self::goto_block(&l);
                assert(closed_block(g1@, self.basic_blocks@));
                let t = self.explicate_assign(then, lhs, g1)?;
                let ghost b2 = self.basic_blocks@;
                let ghost tv = t@;
                let g2 = Self::goto_block(&l);
                proof {
                    let k = choose|k: int| 0 <= k < b1.len() && #[trigger] b1[k].0@ == l@;
                    assert(self.basic_blocks@[k] == b1[k]);
                    assert(closed_block(g2@, self.basic_blocks@));
                }
                let f = self.explicate_assign(else_, lhs, g2)?;
                let ghost b3 = self.basic_blocks@;
                let ghost fv = f@;
                proof {
                    lemma_closed_grows(t@, b2, self.basic_blocks@);
                }
                let lt = self.create_block(t);
                let ghost b3a = self.basic_blocks@;
                proof {
                    lemma_closed_grows(fv, b3, b3a);
                }
                let le = self.create_block(f);
                let ghost b3b = self.basic_blocks@;
                let gt = Self::goto_block(&lt);
                let ge = Self::goto_block(&le);
                proof {
                    lemma_leads_grows(b3a, b3b, lt, tv);
                    let k = choose|k: int| 0 <= k < b3a.len() && #[trigger] b3a[k].0@ == lt@;
                    assert(b3b[k] == b3a[k]);
                    assert(closed_block(gt@, b3b));
                    assert(closed_block(ge@, b3b));
                }
                let r = self.explicate_pred(condition, gt, ge);
                proof {
                    if r is Ok {
                        let b4 = self.basic_blocks@;
                        lemma_leads_grows(b3b, b4, lt, tv);
                        lemma_leads_grows(b3b, b4, le, fv);
                        lemma_leads_grows(b1, b4, l, cv);
                        lemma_assign_grows(b2, b4, **then, lhs@, goto_seq(l), tv);
                        lemma_assign_grows(b3, b4, **else_, lhs@, goto_seq(l), fv);
                        assert(leads_to(b4, l, cv) && leads_to(b4, lt, tv) && leads_to(b4, le, fv));
                    }
                }
                r
            },
            ExprData::Block { body, result } => {
                let ghost b0 = self.basic_blocks@;
                let c2 = match result {
                    Some(res) => self.explicate_assign(res, lhs, cont)?,
                    None => {
                        let s = Stmt::Assign {
                            name: Atom::Name(lhs.clone()),
                            binding: Expr::Atom(Atom::Int(0)),
                        };
                        let r = Self::prepend(s, cont, Ghost(self.basic_blocks@));
                        proof {
                            assert(r@.skip(1) =~= cv);
                        }
                        r
                    },
                };
                let ghost b1 = self.basic_blocks@;
                let ghost c2v = c2@;
                let r = self.explicate_body(body, c2);
                proof {
                    if r is Ok {
                        let b2 = self.basic_blocks@;
                        let cs = choose|cs: Seq<Seq<Stmt>>| runs_to(cs, c2v) && runs(b2, body@, c2v, r->Ok_0@, cs);
                        if result is Some {
                            lemma_assign_grows(b1, b2, *result->0, lhs@, cv, c2v);
                        }
                        assert(runs_to(cs, c2v));
                    }
                }
                r
            },
            _ => {
                let b = Expr::from_expr(rhs)?;
                let s = Stmt::Assign { name: Atom::Name(lhs.clone()), binding: b };
                let r = Self::prepend(s, cont, Ghost(self.basic_blocks@));
                proof {
                    assert(r@.skip(1) =~= cv);
                }
                Ok(r)
            },
        }
    }

    /// Code that evaluates `e` for its effects only, followed by `cont`.
    fn explicate_effect(&mut self, e: &ast::Expr, cont: Vec<Stmt>) -> (r: Result<Vec<Stmt>, ClikeError>)
        requires
            old(self).wf(),
            closed_block(cont@, old(self).basic_blocks@),
        ensures
            final(self).wf(),
            extends_blocks(final(self).basic_blocks@, old(self).basic_blocks@),
            r is Ok <==> effect_ok(*e),
            r is Ok ==> closed_block(r->Ok_0@, final(self).basic_blocks@),
            r is Ok ==> effect_shape(final(self).basic_blocks@, *e, cont@, r->Ok_0@),
        decreases e,
    {
        let ghost cv = cont@;
        match &e.data {
            ExprData::Condition { condition, then, else_ } => {
                let l = self.create_block(cont);
                let ghost b1 = self.basic_blocks@;
                let g1 = Self::goto_block(&l);
                assert(closed_block(g1@, self.basic_blocks@));
                let t = self.explicate_effect(then, g1)?;
                let ghost b2 = self.basic_blocks@;
                let ghost tv = t@;
                let g2 = Self::goto_block(&l);
                proof {
                    let k = choose|k: int| 0 <= k < b1.len() && #[trigger] b1[k].0@ == l@;
                    assert(self.basic_blocks@[k] == b1[k]);
                    assert(closed_block(g2@, self.basic_blocks@));
                }
                let f = self.explicate_effect(else_, g2)?;
                let ghost b3 = self.basic_blocks@;
                let ghost fv = f@;
                proof {
                    lemma_closed_grows(t@, b2, self.basic_blocks@);
                }
                let lt = self.create_block(t);
                let ghost b3a = self.basic_blocks@;
                proof {
                    lemma_closed_grows(fv, b3, b3a);
                }
                let le = self.create_block(f);
                let ghost b3b = self.basic_blocks@;
                let gt = Self::goto_block(&lt);
                let ge = Self::goto_block(&le);
                proof {
                    lemma_leads_grows(b3a, b3b, lt, tv);
                    let k = choose|k: int| 0 <= k < b3a.len() && #[trigger] b3a[k].0@ == lt@;
                    assert(b3b[k] == b3a[k]);
                    assert(closed_block(gt@, b3b));
                    assert(closed_block(ge@, b3b));
                }
                let r = self.explicate_pred(condition, gt, ge);
                proof {
                    if r is Ok {
                        let b4 = self.basic_blocks@;
                        lemma_leads_grows(b3b, b4, lt, tv);
                        lemma_leads_grows(b3b, b4, le, fv);
                        lemma_leads_grows(b1, b4, l, cv);
                        lemma_effect_grows(b2, b4, **then, goto_seq(l), tv);
                        lemma_effect_grows(b3, b4, **else_, goto_seq(l), fv);
                        assert(leads_to(b4, l, cv) && leads_to(b4, lt, tv) && leads_to(b4, le, fv));
                    }
                }
                r
            },
            ExprData::Call { .. } => {
                let c = Expr::from_expr(e)?;
                let r = Self::prepend(Stmt::Exp(c), cont, Ghost(self.basic_blocks@));
                proof {
                    assert(r@.skip(1) =~= cv);
                }
                Ok(r)
            },
            ExprData::Block { body, result } => {
                let c2 = match result {
                    Some(res) => self.explicate_effect(res, cont)?,
                    None => cont,
                };
                let ghost b1 = self.basic_blocks@;
                let ghost c2v = c2@;
                let r = self.explicate_body(body, c2);
                proof {
                    if r is Ok {
                        let b2 = self.basic_blocks@;
                        let cs = choose|cs: Seq<Seq<Stmt>>| runs_to(cs, c2v) && runs(b2, body@, c2v, r->Ok_0@, cs);
                        if result is Some {
                            lemma_effect_grows(b1, b2, *result->0, cv, c2v);
                        }
                        assert(runs_to(cs, c2v));
                    }
                }
                r
            },
            _ => Ok(cont),
        }
    }

    /// Code for a sequence of statements, followed by `cont`.
    fn explicate_body(&mut self, body: &Vec<ast::Stmt>, cont: Vec<Stmt>) -> (r: Result<Vec<Stmt>, ClikeError>)
        requires
            old(self).wf(),
            closed_block(cont@, old(self).basic_blocks@),
        ensures
            final(self).wf(),
            extends_blocks(final(self).basic_blocks@, old(self).basic_blocks@),
            r is Ok <==> forall|i: int| 0 <= i < body@.len() ==> stmt_ok(#[trigger] body@[i]),
            r is Ok ==> closed_block(r->Ok_0@, final(self).basic_blocks@),
            r is Ok ==> exists|cs: Seq<Seq<Stmt>>| #![trigger runs_to(cs, cont@)] runs_to(cs, cont@) && runs(final(self).basic_blocks@, body@, cont@, r->Ok_0@, cs),
        decreases body,
    {
        let ghost cv = cont@;
        let mut c = cont;
        let mut i: usize = body.len();
        let ghost mut tail: Seq<Seq<Stmt>> = seq![cv];
        while i > 0
            invariant
                i <= body@.len(),
                self.wf(),
                extends_blocks(self.basic_blocks@, old(self).basic_blocks@),
                closed_block(c@, self.basic_blocks@),
                forall|k: int| i <= k < body@.len() ==> stmt_ok(#[trigger] body@[k]),
                tail.len() == body@.len() - i + 1,
                tail[0] == c@,
                tail[tail.len() - 1] == cv,
                forall|k: int|
                    i <= k < body@.len() ==> stmt_shape(self.basic_blocks@, #[trigger] body@[k], tail[k - i + 1], tail[k - i]),
            decreases i,
        {
            i = i - 1;
            let ghost before = self.basic_blocks@;
            let ghost prev = c@;
            c = self.explicate_stmt(&body[i], c)?;
            proof {
                let now = self.basic_blocks@;
                let old_tail = tail;
                tail = seq![c@] + old_tail;
                assert forall|k: int|
                    i <= k < body@.len() implies stmt_shape(now, #[trigger] body@[k], tail[k - i + 1], tail[k - i]) by {
                    if k > i {
                        assert(tail[k - i + 1] == old_tail[k - (i + 1) + 1]);
                        assert(tail[k - i] == old_tail[k - (i + 1)]);
                        lemma_stmt_grows(before, now, body@[k], old_tail[k - (i + 1) + 1], old_tail[k - (i + 1)]);
                    } else {
                        assert(tail[1] == prev);
                    }
                }
            }
        }
        proof {
            assert(runs(self.basic_blocks@, body@, cv, c@, tail));
            assert(runs_to(tail, cv));
        }
        Ok(c)
    }

    /// Code for one statement, followed by `cont`.
    fn explicate_stmt(&mut self, s: &ast::Stmt, cont: Vec<Stmt>) -> (r: Result<Vec<Stmt>, ClikeError>)
        requires
            old(self).wf(),
            closed_block(cont@, old(self).basic_blocks@),
        ensures
            final(self).wf(),
            extends_blocks(final(self).basic_blocks@, old(self).basic_blocks@),
            r is Ok <==> stmt_ok(*s),
            r is Ok ==> closed_block(r->Ok_0@, final(self).basic_blocks@),
            r is Ok ==> stmt_shape(final(self).basic_blocks@, *s, cont@, r->Ok_0@),
        decreases s,
    {
        let ghost cv = cont@;
        match &s.stmt {
            StmtData::Expr(e) => self.explicate_effect(e, cont),
            StmtData::Assign { name, binding } => {
                let lhs = name.lexeme().to_owned();
                self.explicate_assign(binding, &lhs, cont)
            },
            StmtData::If { condition, then, else_ } => {
                let l = self.create_block(cont);
                let ghost b1 = self.basic_blocks@;
                let g1 = Self::goto_block(&l);
                assert(closed_block(g1@, self.basic_blocks@));
                let t = self.explicate_effect(then, g1)?;
                let ghost b2 = self.basic_blocks@;
                let ghost tv = t@;
                let g2 = Self::goto_block(&l);
                proof {
                    let k = choose|k: int| 0 <= k < b1.len() && #[trigger] b1[k].0@ == l@;
                    assert(self.basic_blocks@[k] == b1[k]);
                    assert(closed_block(g2@, self.basic_blocks@));
                }
                let f = self.explicate_effect(else_, g2)?;
                let ghost b3 = self.basic_blocks@;
                let ghost fv = f@;
                proof {
                    lemma_closed_grows(t@, b2, self.basic_blocks@);
                }
                let lt = self.create_block(t);
                let ghost b3a = self.basic_blocks@;
                proof {
                    lemma_closed_grows(fv, b3, b3a);
                }
                let le = self.create_block(f);
                let ghost b3b = self.basic_blocks@;
                let gt = Self::goto_block(&lt);
                let ge = Self::goto_block(&le);
                proof {
                    lemma_leads_grows(b3a, b3b, lt, tv);
                    let k = choose|k: int| 0 <= k < b3a.len() && #[trigger] b3a[k].0@ == lt@;
                    assert(b3b[k] == b3a[k]);
                    assert(closed_block(gt@, b3b));
                    assert(closed_block(ge@, b3b));
                }
                let r = self.explicate_pred(condition, gt, ge);
                proof {
                    if r is Ok {
                        let b4 = self.basic_blocks@;
                        lemma_leads_grows(b3b, b4, lt, tv);
                        lemma_leads_grows(b3b, b4, le, fv);
                        lemma_leads_grows(b1, b4, l, cv);
                        lemma_effect_grows(b2, b4, *then, goto_seq(l), tv);
                        lemma_effect_grows(b3, b4, *else_, goto_seq(l), fv);
                        assert(leads_to(b4, l, cv) && leads_to(b4, lt, tv) && leads_to(b4, le, fv));
                    }
                }
                r
            },
        }
    }
}

} // verus!
