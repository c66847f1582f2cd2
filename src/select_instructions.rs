use vstd::prelude::*;
use crate::ast::{Expr, ExprData, Stmt, StmtData};
use crate::token::{Kind, Token};
use crate::x86::{Arg, ArgView, Instr, InstrView, Reg, arg_regs_spec, instr_views};

verus! {

/// Names, integers and booleans become operands.
pub open spec fn is_operand(e: Expr) -> bool {
    e.data is Name || e.data is Int || e.data is Bool
}

/// The operand an atom stands for; `true` is 1 and `false` is 0.
pub open spec fn atom_arg(e: Expr) -> ArgView {
    match e.data {
        ExprData::Name(t) => ArgView::Var(t.text()),
        ExprData::Int(i) => ArgView::Imm(i),
        ExprData::Bool(b) => ArgView::Imm(
            if b {
                1
            } else {
                0
            },
        ),
        _ => ArgView::Imm(0),
    }
}

/// A right-hand side that instruction selection handles: an operand, a negation,
/// a sum or difference of two operands, or a call of a named function on operands
/// (few enough that the stack adjustment after it fits a 32-bit immediate).
pub open spec fn selectable(e: Expr) -> bool {
    match e.data {
        ExprData::Name(_) | ExprData::Int(_) | ExprData::Bool(_) => true,
        ExprData::Prim { op, operands } => (operands@.len() == 1 && op.kind_spec() == Kind::Minus
            && is_operand(operands@[0])) || (operands@.len() == 2 && (op.kind_spec() == Kind::Plus
            || op.kind_spec() == Kind::Minus) && is_operand(operands@[0]) && is_operand(operands@[1])),
        ExprData::Call { name, args } => name.data is Name && args@.len() <= 0x0fff_ffff
            && forall|i: int| 0 <= i < args@.len() ==> is_operand(#[trigger] args@[i]),
        _ => false,
    }
}

pub open spec fn selectable_stmt(s: Stmt) -> bool {
    match s.stmt {
        StmtData::Assign { name, binding } => selectable(binding),
        StmtData::Expr(e) => selectable(e),
        _ => false,
    }
}

/// The instructions of a call: the first six arguments into the argument
/// registers, the rest pushed right to left, the call, then the stack restored.
pub open spec fn call_spec(f: Seq<char>, args: Seq<Expr>) -> Seq<InstrView> {
    let n = args.len();
    let in_regs: nat = if n < 6 {
        n
    } else {
        6
    };
    let on_stack: nat = (n - in_regs) as nat;
    Seq::new(in_regs, |i: int| InstrView::Movq(atom_arg(args[i]), ArgView::Reg(arg_regs_spec()[i])))
        + Seq::new(on_stack, |k: int| InstrView::Pushq(atom_arg(args[n - 1 - k]))) + seq![
        InstrView::Callq(f, n),
    ] + if on_stack > 0 {
        seq![InstrView::Addq(ArgView::Imm((8 * on_stack) as i64), ArgView::Reg(Reg::Rsp))]
    } else {
        Seq::empty()
    }
}

/// The instructions that put the value of `e` into `dest`.
pub open spec fn select_into(e: Expr, dest: ArgView, in_place: bool) -> Seq<InstrView> {
    match e.data {
        ExprData::Prim { op, operands } => if operands@.len() == 1 {
            seq![InstrView::Movq(atom_arg(operands@[0]), dest), InstrView::Negq(dest)]
        } else {
            let a0 = atom_arg(operands@[0]);
            let a1 = atom_arg(operands@[1]);
            if op.kind_spec() == Kind::Plus {
                if in_place && a0 == dest {
                    seq![InstrView::Addq(a1, a0)]
                } else if in_place && a1 == dest {
                    seq![InstrView::Addq(a0, a1)]
                } else {
                    seq![InstrView::Movq(a0, dest), InstrView::Addq(a1, dest)]
                }
            } else {
                if in_place && a0 == dest {
                    seq![InstrView::Subq(a1, a0)]
                } else {
                    seq![InstrView::Movq(a0, dest), InstrView::Subq(a1, dest)]
                }
            }
        },
        ExprData::Call { name, args } => call_spec(name.data->Name_0.text(), args@) + if in_place {
            seq![InstrView::Movq(ArgView::Reg(Reg::Rax), dest)]
        } else {
            Seq::empty()
        },
        _ => seq![InstrView::Movq(atom_arg(e), dest)],
    }
}

/// The instructions of one statement: an assignment writes its variable, an
/// expression statement writes `%rax`.
pub open spec fn select_spec(s: Stmt) -> Seq<InstrView> {
    match s.stmt {
        StmtData::Assign { name, binding } => select_into(binding, ArgView::Var(name.text()), true),
        StmtData::Expr(e) => select_into(e, ArgView::Reg(Reg::Rax), false),
        _ => Seq::empty(),
    }
}

pub open spec fn select_all(s: Seq<Stmt>) -> Seq<InstrView>
    decreases s.len(),
{
    if s.len() == 0 {
        Seq::empty()
    } else {
        select_all(s.drop_last()) + select_spec(s.last())
    }
}

pub struct SelectInstructions {}

fn is_operand_expr(e: &Expr) -> (r: bool)
    ensures
        r == is_operand(*e),
{
    match &e.data {
        ExprData::Name(_) | ExprData::Int(_) | ExprData::Bool(_) => true,
        _ => false,
    }
}

/// Whether instruction selection handles the right-hand side `e`.
pub fn is_selectable(e: &Expr) -> (r: bool)
    ensures
        r == selectable(*e),
{
    match &e.data {
        ExprData::Name(_) | ExprData::Int(_) | ExprData::Bool(_) => true,
        ExprData::Prim { op, operands } => {
            let k = op.kind();
            (operands.len() == 1 && k == Kind::Minus && is_operand_expr(&operands[0])) || (operands.len() == 2
                && (k == Kind::Plus || k == Kind::Minus) && is_operand_expr(&operands[0]) && is_operand_expr(
                &operands[1],
            ))
        },
        ExprData::Call { name, args } => {
            let named = match &name.data {
                ExprData::Name(_) => true,
                _ => false,
            };
            if !named || args.len() > 0x0fff_ffff {
                return false;
            }
            let mut i: usize = 0;
            while i < args.len()
                invariant
                    i <= args@.len(),
                    e.data is Call,
                    args@ == e.data->Call_args@,
                    forall|k: int| 0 <= k < i ==> is_operand(#[trigger] args@[k]),
                decreases args.len() - i,
            {
                if !is_operand_expr(&args[i]) {
                    return false;
                }
                i = i + 1;
            }
            true
        },
        _ => false,
    }
}

/// Whether instruction selection handles the statement.
pub fn is_selectable_stmt(s: &Stmt) -> (r: bool)
    ensures
        r == selectable_stmt(*s),
{
    match &s.stmt {
        StmtData::Assign { binding, .. } => is_selectable(binding),
        StmtData::Expr(e) => is_selectable(e),
        _ => false,
    }
}

fn push_all(out: &mut Vec<Instr>, more: Vec<Instr>)
    ensures
        instr_views(final(out)@) == instr_views(old(out)@) + instr_views(more@),
{
    let mut more = more;
    let ghost m = more@;
    let ghost o = out@;
    out.append(&mut more);
    assert(instr_views(out@) =~= instr_views(o) + instr_views(m));
}

impl SelectInstructions {
    pub fn new() -> Self {
        Self {}
    }

    /// The x86 instructions of each statement, in order.
    pub fn select_stmts(&self, stmts: Vec<Stmt>) -> (r: Vec<Instr>)
        requires
            forall|i: int| 0 <= i < stmts@.len() ==> selectable_stmt(#[trigger] stmts@[i]),
        ensures
            instr_views(r@) == select_all(stmts@),
    {
        let mut res: Vec<Instr> = Vec::new();
        let mut i: usize = 0;
        assert(instr_views(res@) =~= select_all(stmts@.take(0)));
        while i < stmts.len()
            invariant
                i <= stmts@.len(),
                forall|k: int| 0 <= k < stmts@.len() ==> selectable_stmt(#[trigger] stmts@[k]),
                instr_views(res@) == select_all(stmts@.take(i as int)),
            decreases stmts.len() - i,
        {
            let more = self.select_stmt(&stmts[i]);
            push_all(&mut res, more);
            assert(stmts@.take(i + 1).drop_last() =~= stmts@.take(i as int));
            i = i + 1;
        }
        assert(stmts@.take(i as int) =~= stmts@);
        res
    }

    fn select_stmt(&self, s: &Stmt) -> (r: Vec<Instr>)
        requires
            selectable_stmt(*s),
        ensures
            instr_views(r@) == select_spec(*s),
    {
        match &s.stmt {
            StmtData::Assign { name, binding } => {
                let dest = Arg::Var(name.lexeme().to_owned());
                self.select_into(binding, dest, true)
            },
            StmtData::Expr(e) => self.select_into(e, Arg::Reg(Reg::Rax), false),
            StmtData::If { .. } => Vec::new(),
        }
    }

    fn select_into(&self, e: &Expr, dest: Arg, in_place: bool) -> (r: Vec<Instr>)
        requires
            selectable(*e),
        ensures
            instr_views(r@) == select_into(*e, dest@, in_place),
    {
        let mut instrs: Vec<Instr> = Vec::new();
        match &e.data {
            ExprData::Prim { op, operands } => {
                if operands.len() == 1 {
                    let arg = self.select_atom(&operands[0]);
                    instrs.push(Instr::Movq(arg, dest.duplicate()));
                    instrs.push(Instr::Negq(dest));
                } else {
                    let arg0 = self.select_atom(&operands[0]);
                    let arg1 = self.select_atom(&operands[1]);
                    if op.kind() == Kind::Plus {
                        if in_place && arg0.eq(&dest) {
                            instrs.push(Instr::Addq(arg1, arg0));
                        } else if in_place && arg1.eq(&dest) {
                            instrs.push(Instr::Addq(arg0, arg1));
                        } else {
                            instrs.push(Instr::Movq(arg0, dest.duplicate()));
                            instrs.push(Instr::Addq(arg1, dest));
                        }
                    } else {
                        if in_place && arg0.eq(&dest) {
                            instrs.push(Instr::Subq(arg1, arg0));
                        } else {
                            instrs.push(Instr::Movq(arg0, dest.duplicate()));
                            instrs.push(Instr::Subq(arg1, dest));
                        }
                    }
                }
            },
            ExprData::Call { name, args } => {
                let call = self.select_function_call(name, args);
                push_all(&mut instrs, call);
                if in_place {
                    instrs.push(Instr::Movq(Arg::Reg(Reg::Rax), dest));
                }
            },
            _ => {
                let src = self.select_atom(e);
                instrs.push(Instr::Movq(src, dest));
            },
        }
        assert(instr_views(instrs@) =~= select_into(*e, dest@, in_place));
        instrs
    }

    fn select_atom(&self, e: &Expr) -> (r: Arg)
        ensures
            r@ == atom_arg(*e),
    {
        match &e.data {
            ExprData::Name(v) => Arg::Var(v.lexeme().to_owned()),
            ExprData::Int(i) => Arg::Imm(*i),
            ExprData::Bool(b) => Arg::Imm(
                if *b {
                    1
                } else {
                    0
                },
            ),
            _ => Arg::Imm(0),
        }
    }

    fn select_function_call(&self, func: &Expr, args: &Vec<Expr>) -> (r: Vec<Instr>)
        requires
            func.data is Name,
            args@.len() <= 0x0fff_ffff,
        ensures
            instr_views(r@) == call_spec(func.data->Name_0.text(), args@),
    {
        let mut instrs: Vec<Instr> = Vec::new();
        let arity = args.len();
        let in_regs: usize = if arity < 6 {
            arity
        } else {
            6
        };
        let regs = Reg::args_passing();
        let ghost n = arity as nat;
        let mut i: usize = 0;
        while i < in_regs
            invariant
                in_regs <= 6,
                in_regs <= args@.len(),
                regs@ == arg_regs_spec(),
                i <= in_regs,
                instr_views(instrs@) == Seq::new(
                    i as nat,
                    |j: int| InstrView::Movq(atom_arg(args@[j]), ArgView::Reg(arg_regs_spec()[j])),
                ),
            decreases in_regs - i,
        {
            let a = self.select_atom(&args[i]);
            let ghost prev = instr_views(instrs@);
            instrs.push(Instr::Movq(a, Arg::Reg(regs[i])));
            assert(instr_views(instrs@) =~= prev.push(
                InstrView::Movq(atom_arg(args@[i as int]), ArgView::Reg(arg_regs_spec()[i as int])),
            ));
            i = i + 1;
            assert(instr_views(instrs@) =~= Seq::new(
                i as nat,
                |j: int| InstrView::Movq(atom_arg(args@[j]), ArgView::Reg(arg_regs_spec()[j])),
            ));
        }
        let ghost moves = instr_views(instrs@);
        let on_stack = arity - in_regs;
        let mut k: usize = 0;
        while k < on_stack
            invariant
                on_stack == arity - in_regs,
                arity == args@.len(),
                k <= on_stack,
                instr_views(instrs@) == moves + Seq::new(
                    k as nat,
                    |q: int| InstrView::Pushq(atom_arg(args@[arity - 1 - q])),
                ),
            decreases on_stack - k,
        {
            let a = self.select_atom(&args[arity - 1 - k]);
            let ghost prev = instr_views(instrs@);
            instrs.push(Instr::Pushq(a));
            assert(instr_views(instrs@) =~= prev.push(InstrView::Pushq(atom_arg(args@[arity - 1 - k]))));
            k = k + 1;
            assert(instr_views(instrs@) =~= moves + Seq::new(
                k as nat,
                |q: int| InstrView::Pushq(atom_arg(args@[arity - 1 - q])),
            ));
        }
        let name = match func.get_ident() {
            Some(f) => f.to_owned(),
            None => String::new(),
        };
        instrs.push(Instr::Callq(name, arity));
        if on_stack > 0 {
            let size = (on_stack as i64) * 8;
            instrs.push(Instr::Addq(Arg::Imm(size), Arg::Reg(Reg::Rsp)));
        }
        assert(instr_views(instrs@) =~= call_spec(func.data->Name_0.text(), args@));
        instrs
    }
}

} // verus!
