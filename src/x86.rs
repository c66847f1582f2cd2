use vstd::prelude::*;
use vstd::string::StringExecFns;
use crate::rco::decimal;

verus! {

/// General-purpose registers of x86-64.
#[derive(Clone, Copy, Debug, Hash, PartialEq, Eq, Structural)]
pub enum Reg {
    Rsp,
    Rbp,
    Rax,
    Rbx,
    Rcx,
    Rdx,
    Rsi,
    Rdi,
    R8,
    R9,
    R10,
    R11,
    R12,
    R13,
    R14,
    R15,
}

pub type Label = String;

/// An instruction operand.
#[derive(Clone, Debug, Hash)]
pub enum Arg {
    Imm(i64),
    Reg(Reg),
    Deref(Reg, i64),
    Var(String),
}

/// The mathematical value of an operand: a variable is its name as characters.
pub enum ArgView {
    Imm(i64),
    Reg(Reg),
    Deref(Reg, i64),
    Var(Seq<char>),
}

impl View for Arg {
    type V = ArgView;

    open spec fn view(&self) -> ArgView {
        match self {
            Arg::Imm(i) => ArgView::Imm(*i),
            Arg::Reg(r) => ArgView::Reg(*r),
            Arg::Deref(r, o) => ArgView::Deref(*r, *o),
            Arg::Var(v) => ArgView::Var(v@),
        }
    }
}

impl PartialEq for Arg {
    fn eq(&self, o: &Arg) -> (r: bool)
        ensures
            r == (self@ == o@),
    {
        match (self, o) {
            (Arg::Imm(a), Arg::Imm(b)) => *a == *b,
            (Arg::Reg(a), Arg::Reg(b)) => *a == *b,
            (Arg::Deref(a, x), Arg::Deref(b, y)) => *a == *b && *x == *y,
            (Arg::Var(a), Arg::Var(b)) => *a == *b,
            _ => false,
        }
    }
}

impl vstd::std_specs::cmp::PartialEqSpecImpl for Arg {
    open spec fn obeys_eq_spec() -> bool {
        true
    }

    open spec fn eq_spec(&self, o: &Arg) -> bool {
        self@ == o@
    }
}

impl Eq for Arg {

}

/// An x86-64 instruction; `Callq` records how many arguments travel in registers.
#[derive(Clone, Debug)]
pub enum Instr {
    Retq,
    Jump(Label),
    Callq(Label, usize),
    Pushq(Arg),
    Popq(Arg),
    Negq(Arg),
    Addq(Arg, Arg),
    Subq(Arg, Arg),
    Movq(Arg, Arg),
}

pub enum InstrView {
    Retq,
    Jump(Seq<char>),
    Callq(Seq<char>, nat),
    Pushq(ArgView),
    Popq(ArgView),
    Negq(ArgView),
    Addq(ArgView, ArgView),
    Subq(ArgView, ArgView),
    Movq(ArgView, ArgView),
}

impl View for Instr {
    type V = InstrView;

    open spec fn view(&self) -> InstrView {
        match self {
            Instr::Retq => InstrView::Retq,
            Instr::Jump(l) => InstrView::Jump(l@),
            Instr::Callq(l, n) => InstrView::Callq(l@, *n as nat),
            Instr::Pushq(a) => InstrView::Pushq(a@),
            Instr::Popq(a) => InstrView::Popq(a@),
            Instr::Negq(a) => InstrView::Negq(a@),
            Instr::Addq(s, d) => InstrView::Addq(s@, d@),
            Instr::Subq(s, d) => InstrView::Subq(s@, d@),
            Instr::Movq(s, d) => InstrView::Movq(s@, d@),
        }
    }
}

/// A register's name without the `%` sigil.
pub open spec fn reg_name(r: Reg) -> Seq<char> {
    match r {
        Reg::Rsp => seq!['r', 's', 'p'],
        Reg::Rbp => seq!['r', 'b', 'p'],
        Reg::Rax => seq!['r', 'a', 'x'],
        Reg::Rbx => seq!['r', 'b', 'x'],
        Reg::Rcx => seq!['r', 'c', 'x'],
        Reg::Rdx => seq!['r', 'd', 'x'],
        Reg::Rsi => seq!['r', 's', 'i'],
        Reg::Rdi => seq!['r', 'd', 'i'],
        Reg::R8 => seq!['r', '8'],
        Reg::R9 => seq!['r', '9'],
        Reg::R10 => seq!['r', '1', '0'],
        Reg::R11 => seq!['r', '1', '1'],
        Reg::R12 => seq!['r', '1', '2'],
        Reg::R13 => seq!['r', '1', '3'],
        Reg::R14 => seq!['r', '1', '4'],
        Reg::R15 => seq!['r', '1', '5'],
    }
}

/// The views of a sequence of operands.
pub open spec fn arg_views(s: Seq<Arg>) -> Seq<ArgView> {
    s.map_values(|a: Arg| a@)
}

/// The views of a sequence of instructions.
pub open spec fn instr_views(s: Seq<Instr>) -> Seq<InstrView> {
    s.map_values(|i: Instr| i@)
}

/// The set of operand values that a sequence holds.
pub open spec fn arg_set(s: Seq<Arg>) -> Set<ArgView> {
    arg_views(s).to_set()
}

/// Registers and variables have a home; immediates and memory operands do not.
pub open spec fn is_location(a: ArgView) -> bool {
    a is Reg || a is Var
}

pub open spec fn is_mem_view(a: ArgView) -> bool {
    a is Deref
}

/// The location an operand names, as a set of at most one element.
pub open spec fn loc_set(a: ArgView) -> Set<ArgView> {
    if is_location(a) {
        set![a]
    } else {
        Set::empty()
    }
}

/// The System V argument registers, in order.
pub open spec fn arg_regs_spec() -> Seq<Reg> {
    seq![Reg::Rdi, Reg::Rsi, Reg::Rdx, Reg::Rcx, Reg::R8, Reg::R9]
}

/// The registers a callee may clobber.
pub open spec fn caller_saved_spec() -> Seq<Reg> {
    seq![
        Reg::Rax,
        Reg::Rcx,
        Reg::Rdx,
        Reg::Rsi,
        Reg::Rdi,
        Reg::R8,
        Reg::R9,
        Reg::R10,
        Reg::R11,
    ]
}

pub open spec fn callee_saved_spec() -> Seq<Reg> {
    seq![Reg::Rsp, Reg::Rbp, Reg::Rbx, Reg::R12, Reg::R13, Reg::R14, Reg::R15]
}

pub open spec fn reg_set(s: Seq<Reg>) -> Set<ArgView> {
    s.map_values(|r: Reg| ArgView::Reg(r)).to_set()
}

pub open spec fn min_nat(a: nat, b: nat) -> nat {
    if a < b {
        a
    } else {
        b
    }
}

/// Locations an instruction reads.
pub open spec fn read_set_spec(i: InstrView) -> Set<ArgView> {
    match i {
        InstrView::Retq => Set::empty(),
        InstrView::Jump(_) => Set::empty(),
        InstrView::Callq(_, n) => reg_set(arg_regs_spec().take(min_nat(n, 6) as int)),
        InstrView::Pushq(a) => set![ArgView::Reg(Reg::Rsp)].union(loc_set(a)),
        InstrView::Popq(_) => set![ArgView::Reg(Reg::Rsp)],
        InstrView::Negq(a) => loc_set(a),
        InstrView::Addq(s, d) => loc_set(s).union(loc_set(d)),
        InstrView::Subq(s, d) => loc_set(s).union(loc_set(d)),
        InstrView::Movq(s, _) => loc_set(s),
    }
}

/// Locations an instruction writes.
pub open spec fn write_set_spec(i: InstrView) -> Set<ArgView> {
    match i {
        InstrView::Retq => Set::empty(),
        InstrView::Jump(_) => Set::empty(),
        InstrView::Callq(_, _) => reg_set(caller_saved_spec()),
        InstrView::Pushq(_) => set![ArgView::Reg(Reg::Rsp)],
        InstrView::Popq(a) => set![ArgView::Reg(Reg::Rsp)].union(loc_set(a)),
        InstrView::Negq(a) => loc_set(a),
        InstrView::Addq(_, d) => loc_set(d),
        InstrView::Subq(_, d) => loc_set(d),
        InstrView::Movq(_, d) => loc_set(d),
    }
}

impl Arg {
    pub fn is_mem(&self) -> (r: bool)
        ensures
            r == is_mem_view(self@),
    {
        match self {
            Arg::Deref(_, _) => true,
            _ => false,
        }
    }

    /// The operand itself when it is a register or a variable.
    pub fn get_location(&self) -> (r: Option<Arg>)
        ensures
            r is Some <==> is_location(self@),
            r is Some ==> r->0@ == self@,
    {
        match self {
            Arg::Var(v) => Some(Arg::Var(v.clone())),
            Arg::Reg(r) => Some(Arg::Reg(*r)),
            _ => None,
        }
    }

    /// A copy of the operand.
    pub fn duplicate(&self) -> (r: Arg)
        ensures
            r@ == self@,
    {
        match self {
            Arg::Imm(i) => Arg::Imm(*i),
            Arg::Reg(r) => Arg::Reg(*r),
            Arg::Deref(r, o) => Arg::Deref(*r, *o),
            Arg::Var(v) => Arg::Var(v.clone()),
        }
    }

    pub fn get_var(&self) -> (r: Option<&str>)
        ensures
            r is Some <==> self@ is Var,
            r is Some ==> self@ == ArgView::Var(r->0@),
    {
        match self {
            Arg::Var(id) => Some(id.as_str()),
            _ => None,
        }
    }

    /// AT&T text of the operand.
    pub fn to_text(&self) -> (r: String)
        ensures
            r@ == arg_text(self@),
    {
        proof {
            reveal_strlit("$");
            reveal_strlit("%");
            reveal_strlit("(%");
            reveal_strlit(")");
        }
        match self {
            Arg::Imm(i) => {
                let mut s = String::from_str("$");
                let n = i64_text(*i);
                s.append(n.as_str());
                s
            },
            Arg::Reg(r) => {
                let mut s = String::from_str("%");
                s.append(r.name());
                s
            },
            Arg::Deref(r, off) => {
                let mut s = i64_text(*off);
                s.append("(%");
                s.append(r.name());
                s.append(")");
                assert(s@ =~= arg_text(self@));
                s
            },
            Arg::Var(v) => v.clone(),
        }
    }
}

/// An integer in decimal, with a `-` when negative.
pub open spec fn int_text(n: int) -> Seq<char> {
    if n < 0 {
        seq!['-'] + decimal((-n) as nat)
    } else {
        decimal(n as nat)
    }
}

/// Relies on `ToString` of `i64` (its `Display`): decimal digits, with a `-` when negative.
#[verifier::external_body]
pub(crate) fn i64_text(i: i64) -> (r: String)
    ensures
        r@ == int_text(i as int),
{
    i.to_string()
}

/// AT&T text of an operand.
pub open spec fn arg_text(a: ArgView) -> Seq<char> {
    match a {
        ArgView::Imm(i) => seq!['$'] + int_text(i as int),
        ArgView::Reg(r) => seq!['%'] + reg_name(r),
        ArgView::Deref(r, off) => int_text(off as int) + seq!['(', '%'] + reg_name(r) + seq![')'],
        ArgView::Var(v) => v,
    }
}

/// A mnemonic followed by its operands, separated by commas.
pub open spec fn mnemonic_text(op: Seq<char>, args: Seq<Seq<char>>) -> Seq<char> {
    if args.len() == 1 {
        op + seq![' '] + args[0]
    } else {
        op + seq![' '] + args[0] + seq![',', ' '] + args[1]
    }
}

/// AT&T text of an instruction.
pub open spec fn instr_text(i: InstrView) -> Seq<char> {
    match i {
        InstrView::Retq => seq!['r', 'e', 't', 'q'],
        InstrView::Jump(l) => mnemonic_text(seq!['j', 'm', 'p', 'q'], seq![l]),
        InstrView::Callq(l, _) => mnemonic_text(seq!['c', 'a', 'l', 'l', 'q'], seq![l]),
        InstrView::Pushq(a) => mnemonic_text(seq!['p', 'u', 's', 'h', 'q'], seq![arg_text(a)]),
        InstrView::Popq(a) => mnemonic_text(seq!['p', 'o', 'p', 'q'], seq![arg_text(a)]),
        InstrView::Negq(a) => mnemonic_text(seq!['n', 'e', 'g', 'q'], seq![arg_text(a)]),
        InstrView::Addq(s, d) => mnemonic_text(seq!['a', 'd', 'd', 'q'], seq![arg_text(s), arg_text(d)]),
        InstrView::Subq(s, d) => mnemonic_text(seq!['s', 'u', 'b', 'q'], seq![arg_text(s), arg_text(d)]),
        InstrView::Movq(s, d) => mnemonic_text(seq!['m', 'o', 'v', 'q'], seq![arg_text(s), arg_text(d)]),
    }
}

fn join_text(op: &str, a: &String, b: Option<&String>) -> (r: String)
    ensures
        b is None ==> r@ == mnemonic_text(op@, seq![a@]),
        b is Some ==> r@ == mnemonic_text(op@, seq![a@, b->0@]),
{
    let mut s = String::from_str(op);
    s.append(" ");
    s.append(a.as_str());
    match b {
        Some(t) => {
            s.append(", ");
            s.append(t.as_str());
        },
        None => {},
    }
    proof {
        reveal_strlit(" ");
        reveal_strlit(", ");
    }
    assert(b is None ==> s@ =~= mnemonic_text(op@, seq![a@]));
    assert(b is Some ==> s@ =~= mnemonic_text(op@, seq![a@, b->0@]));
    s
}

impl Reg {
    /// The argument-passing registers, in order.
    pub fn args_passing() -> (r: Vec<Reg>)
        ensures
            r@ == arg_regs_spec(),
    {
        let r = vec![Reg::Rdi, Reg::Rsi, Reg::Rdx, Reg::Rcx, Reg::R8, Reg::R9];
        assert(r@ =~= arg_regs_spec());
        r
    }

    pub fn caller_saved() -> (r: Vec<Reg>)
        ensures
            r@ == caller_saved_spec(),
    {
        let r = vec![
            Reg::Rax,
            Reg::Rcx,
            Reg::Rdx,
            Reg::Rsi,
            Reg::Rdi,
            Reg::R8,
            Reg::R9,
            Reg::R10,
            Reg::R11,
        ];
        assert(r@ =~= caller_saved_spec());
        r
    }

    pub fn is_callee_saved(&self) -> (r: bool)
        ensures
            r == callee_saved_spec().contains(*self),
    {
        let r = match self {
            Reg::Rsp | Reg::Rbp | Reg::Rbx | Reg::R12 | Reg::R13 | Reg::R14 | Reg::R15 => true,
            _ => false,
        };
        proof {
            let s = callee_saved_spec();
            if r {
                assert(s[0] == Reg::Rsp && s[1] == Reg::Rbp && s[2] == Reg::Rbx && s[3] == Reg::R12
                    && s[4] == Reg::R13 && s[5] == Reg::R14 && s[6] == Reg::R15);
            }
        }
        r
    }

    pub fn callee_saved() -> (r: Vec<Reg>)
        ensures
            r@ == callee_saved_spec(),
    {
        let r = vec![Reg::Rsp, Reg::Rbp, Reg::Rbx, Reg::R12, Reg::R13, Reg::R14, Reg::R15];
        assert(r@ =~= callee_saved_spec());
        r
    }

    /// The register's name without the `%` sigil.
    pub fn name(&self) -> (r: &'static str)
        ensures
            r@ == reg_name(*self),
    {
        proof {
            reveal_strlit("rsp");
            reveal_strlit("rbp");
            reveal_strlit("rax");
            reveal_strlit("rbx");
            reveal_strlit("rcx");
            reveal_strlit("rdx");
            reveal_strlit("rsi");
            reveal_strlit("rdi");
            reveal_strlit("r8");
            reveal_strlit("r9");
            reveal_strlit("r10");
            reveal_strlit("r11");
            reveal_strlit("r12");
            reveal_strlit("r13");
            reveal_strlit("r14");
            reveal_strlit("r15");
        }
        match self {
            Reg::Rsp => "rsp",
            Reg::Rbp => "rbp",
            Reg::Rax => "rax",
            Reg::Rbx => "rbx",
            Reg::Rcx => "rcx",
            Reg::Rdx => "rdx",
            Reg::Rsi => "rsi",
            Reg::Rdi => "rdi",
            Reg::R8 => "r8",
            Reg::R9 => "r9",
            Reg::R10 => "r10",
            Reg::R11 => "r11",
            Reg::R12 => "r12",
            Reg::R13 => "r13",
            Reg::R14 => "r14",
            Reg::R15 => "r15",
        }
    }
}


/// Appends the location that `a` names, if any.
fn push_loc(v: &mut Vec<Arg>, a: &Arg)
    ensures
        arg_views(final(v)@) == arg_views(old(v)@) + (if is_location(a@) {
            seq![a@]
        } else {
            Seq::<ArgView>::empty()
        }),
        arg_set(final(v)@) == arg_set(old(v)@).union(loc_set(a@)),
{
    let ghost before = arg_views(v@);
    match a.get_location() {
        Some(l) => {
            v.push(l);
            proof {
                assert(arg_views(v@) =~= before.push(a@));
                assert(before.push(a@) =~= before + seq![a@]);
                before.lemma_push_to_set_commute(a@);
                assert(arg_set(v@) =~= arg_set(old(v)@).union(loc_set(a@)));
            }
        },
        None => {
            proof {
                assert(arg_views(v@) =~= before + Seq::<ArgView>::empty());
                assert(arg_set(v@) =~= arg_set(old(v)@).union(loc_set(a@)));
            }
        },
    }
}

/// Appends `Reg(r)` for each register of `regs` below `n`.
fn push_regs(v: &mut Vec<Arg>, regs: &Vec<Reg>, n: usize)
    requires
        old(v)@.len() == 0,
        n <= regs@.len(),
    ensures
        arg_set(final(v)@) == reg_set(regs@.take(n as int)),
{
    let mut i: usize = 0;
    while i < n
        invariant
            i <= n <= regs@.len(),
            arg_views(v@) =~= regs@.take(i as int).map_values(|r: Reg| ArgView::Reg(r)),
        decreases n - i,
    {
        let ghost prev = arg_views(v@);
        v.push(Arg::Reg(regs[i]));
        proof {
            assert(regs@.take(i + 1) =~= regs@.take(i as int).push(regs@[i as int]));
            assert(arg_views(v@) =~= prev.push(ArgView::Reg(regs@[i as int])));
        }
        i = i + 1;
        assert(arg_views(v@) =~= regs@.take(i as int).map_values(|r: Reg| ArgView::Reg(r)));
    }
}

fn sp_only() -> (r: Vec<Arg>)
    ensures
        arg_views(r@) == seq![ArgView::Reg(Reg::Rsp)],
        arg_set(r@) == set![ArgView::Reg(Reg::Rsp)],
{
    let r = vec![Arg::Reg(Reg::Rsp)];
    proof {
        assert(arg_views(r@) =~= seq![ArgView::Reg(Reg::Rsp)]);
        Seq::<ArgView>::empty().lemma_push_to_set_commute(ArgView::Reg(Reg::Rsp));
        assert(seq![ArgView::Reg(Reg::Rsp)] =~= Seq::<ArgView>::empty().push(ArgView::Reg(Reg::Rsp)));
        assert(arg_set(r@) =~= set![ArgView::Reg(Reg::Rsp)]);
    }
    r
}

proof fn lemma_empty_set()
    ensures
        arg_set(Seq::<Arg>::empty()) == Set::<ArgView>::empty(),
{
    assert(arg_set(Seq::<Arg>::empty()) =~= Set::<ArgView>::empty());
}

impl Instr {
    /// A copy of the instruction.
    pub fn duplicate(&self) -> (r: Instr)
        ensures
            r@ == self@,
    {
        match self {
            Instr::Retq => Instr::Retq,
            Instr::Jump(l) => Instr::Jump(l.clone()),
            Instr::Callq(l, n) => Instr::Callq(l.clone(), *n),
            Instr::Pushq(a) => Instr::Pushq(a.duplicate()),
            Instr::Popq(a) => Instr::Popq(a.duplicate()),
            Instr::Negq(a) => Instr::Negq(a.duplicate()),
            Instr::Addq(s, d) => Instr::Addq(s.duplicate(), d.duplicate()),
            Instr::Subq(s, d) => Instr::Subq(s.duplicate(), d.duplicate()),
            Instr::Movq(s, d) => Instr::Movq(s.duplicate(), d.duplicate()),
        }
    }

    /// AT&T text of the instruction.
    pub fn to_text(&self) -> (r: String)
        ensures
            r@ == instr_text(self@),
    {
        proof {
            reveal_strlit("retq");
            reveal_strlit("jmpq");
            reveal_strlit("callq");
            reveal_strlit("pushq");
            reveal_strlit("popq");
            reveal_strlit("negq");
            reveal_strlit("addq");
            reveal_strlit("subq");
            reveal_strlit("movq");
        }
        match self {
            Instr::Retq => String::from_str("retq"),
            Instr::Jump(l) => join_text("jmpq", l, None),
            Instr::Callq(l, _) => join_text("callq", l, None),
            Instr::Pushq(a) => join_text("pushq", &a.to_text(), None),
            Instr::Popq(a) => join_text("popq", &a.to_text(), None),
            Instr::Negq(a) => join_text("negq", &a.to_text(), None),
            Instr::Addq(s, d) => join_text("addq", &s.to_text(), Some(&d.to_text())),
            Instr::Subq(s, d) => join_text("subq", &s.to_text(), Some(&d.to_text())),
            Instr::Movq(s, d) => join_text("movq", &s.to_text(), Some(&d.to_text())),
        }
    }

    /// The locations this instruction reads.
    pub fn read_set(&self) -> (r: Vec<Arg>)
        ensures
            arg_set(r@) == read_set_spec(self@),
    {
        let mut v: Vec<Arg> = Vec::new();
        proof {
            lemma_empty_set();
        }
        match self {
            Instr::Retq => {},
            Instr::Jump(_) => {},
            Instr::Callq(_, n) => {
                let k: usize = if *n < 6 {
                    *n
                } else {
                    6
                };
                let regs = Reg::args_passing();
                push_regs(&mut v, &regs, k);
            },
            Instr::Pushq(a) => {
                v = sp_only();
                push_loc(&mut v, a);
            },
            Instr::Popq(_) => {
                v = sp_only();
            },
            Instr::Negq(a) => {
                push_loc(&mut v, a);
                assert(arg_set(v@) =~= read_set_spec(self@));
            },
            Instr::Addq(s, d) => {
                push_loc(&mut v, s);
                push_loc(&mut v, d);
                assert(arg_set(v@) =~= read_set_spec(self@));
            },
            Instr::Subq(s, d) => {
                push_loc(&mut v, s);
                push_loc(&mut v, d);
                assert(arg_set(v@) =~= read_set_spec(self@));
            },
            Instr::Movq(s, _) => {
                push_loc(&mut v, s);
                assert(arg_set(v@) =~= read_set_spec(self@));
            },
        }
        v
    }

    /// The locations this instruction writes.
    pub fn write_set(&self) -> (r: Vec<Arg>)
        ensures
            arg_set(r@) == write_set_spec(self@),
    {
        let mut v: Vec<Arg> = Vec::new();
        proof {
            lemma_empty_set();
        }
        match self {
            Instr::Retq => {},
            Instr::Jump(_) => {},
            Instr::Callq(_, _) => {
                let regs = Reg::caller_saved();
                push_regs(&mut v, &regs, 9);
                assert(regs@.take(9) =~= caller_saved_spec());
            },
            Instr::Pushq(_) => {
                v = sp_only();
            },
            Instr::Popq(a) => {
                v = sp_only();
                push_loc(&mut v, a);
            },
            Instr::Negq(a) => {
                push_loc(&mut v, a);
                assert(arg_set(v@) =~= write_set_spec(self@));
            },
            Instr::Addq(_, d) => {
                push_loc(&mut v, d);
                assert(arg_set(v@) =~= write_set_spec(self@));
            },
            Instr::Subq(_, d) => {
                push_loc(&mut v, d);
                assert(arg_set(v@) =~= write_set_spec(self@));
            },
            Instr::Movq(_, d) => {
                push_loc(&mut v, d);
                assert(arg_set(v@) =~= write_set_spec(self@));
            },
        }
        v
    }
}

pub proof fn lemma_arg_set_push(s: Seq<Arg>, x: Arg)
    ensures
        arg_set(s.push(x)) == arg_set(s).insert(x@),
{
    assert(arg_views(s.push(x)) =~= arg_views(s).push(x@));
    arg_views(s).lemma_push_to_set_commute(x@);
}

pub proof fn lemma_arg_set_take(s: Seq<Arg>, i: int)
    requires
        0 <= i < s.len(),
    ensures
        arg_set(s.take(i + 1)) == arg_set(s.take(i)).insert(s[i]@),
{
    assert(s.take(i + 1) =~= s.take(i).push(s[i]));
    lemma_arg_set_push(s.take(i), s[i]);
}

pub proof fn lemma_arg_set_full(s: Seq<Arg>)
    ensures
        arg_set(s.take(s.len() as int)) == arg_set(s),
{
    assert(s.take(s.len() as int) =~= s);
}

/// A copy of each operand of `v`, in order.
pub fn copy_args(v: &Vec<Arg>) -> (r: Vec<Arg>)
    ensures
        arg_views(r@) == arg_views(v@),
        arg_set(r@) == arg_set(v@),
{
    let mut r: Vec<Arg> = Vec::new();
    let mut i: usize = 0;
    while i < v.len()
        invariant
            i <= v@.len(),
            arg_views(r@) == arg_views(v@.take(i as int)),
        decreases v.len() - i,
    {
        let ghost prev = r@;
        r.push(v[i].duplicate());
        proof {
            assert(arg_views(r@) =~= arg_views(prev).push(v@[i as int]@));
            assert(v@.take(i + 1) =~= v@.take(i as int).push(v@[i as int]));
            assert(arg_views(v@.take(i + 1)) =~= arg_views(v@.take(i as int)).push(v@[i as int]@));
        }
        i = i + 1;
    }
    assert(v@.take(i as int) =~= v@);
    r
}

/// Adds to `out` each operand of `src` that it does not yet hold.
pub fn union_into(out: &mut Vec<Arg>, src: &Vec<Arg>)
    ensures
        arg_set(final(out)@) == arg_set(old(out)@).union(arg_set(src@)),
{
    let mut i: usize = 0;
    proof {
        lemma_empty_set();
        assert(src@.take(0) =~= Seq::<Arg>::empty());
    }
    while i < src.len()
        invariant
            i <= src@.len(),
            arg_set(out@) == arg_set(old(out)@).union(arg_set(src@.take(i as int))),
        decreases src.len() - i,
    {
        proof {
            lemma_arg_set_take(src@, i as int);
        }
        if !contains_arg(out, &src[i]) {
            let d = src[i].duplicate();
            let ghost prev = out@;
            let ghost dv = d;
            out.push(d);
            proof {
                lemma_arg_set_push(prev, dv);
            }
        }
        i = i + 1;
        assert(arg_set(out@) =~= arg_set(old(out)@).union(arg_set(src@.take(i as int))));
    }
    proof {
        lemma_arg_set_full(src@);
    }
}

/// The operands of `v` that `w` does not hold.
pub fn args_minus(v: &Vec<Arg>, w: &Vec<Arg>) -> (r: Vec<Arg>)
    ensures
        arg_set(r@) == arg_set(v@).difference(arg_set(w@)),
{
    let mut r: Vec<Arg> = Vec::new();
    let mut i: usize = 0;
    proof {
        lemma_empty_set();
        assert(v@.take(0) =~= Seq::<Arg>::empty());
        assert(arg_set(r@) =~= arg_set(v@.take(0)).difference(arg_set(w@)));
    }
    while i < v.len()
        invariant
            i <= v@.len(),
            arg_set(r@) == arg_set(v@.take(i as int)).difference(arg_set(w@)),
        decreases v.len() - i,
    {
        proof {
            lemma_arg_set_take(v@, i as int);
        }
        if !contains_arg(w, &v[i]) {
            let d = v[i].duplicate();
            let ghost prev = r@;
            let ghost dv = d;
            r.push(d);
            proof {
                lemma_arg_set_push(prev, dv);
            }
        }
        i = i + 1;
        assert(arg_set(r@) =~= arg_set(v@.take(i as int)).difference(arg_set(w@)));
    }
    proof {
        lemma_arg_set_full(v@);
    }
    r
}

/// Whether `v` holds an operand equal to `a`.
pub fn contains_arg(v: &Vec<Arg>, a: &Arg) -> (r: bool)
    ensures
        r == arg_set(v@).contains(a@),
{
    let mut i: usize = 0;
    while i < v.len()
        invariant
            i <= v@.len(),
            forall|k: int| 0 <= k < i ==> v@[k]@ != a@,
        decreases v.len() - i,
    {
        if v[i].eq(a) {
            assert(arg_views(v@)[i as int] == a@);
            return true;
        }
        i = i + 1;
    }
    proof {
        if arg_set(v@).contains(a@) {
            let k = choose|k: int| 0 <= k < arg_views(v@).len() && arg_views(v@)[k] == a@;
            assert(v@[k]@ == a@);
        }
    }
    false
}

} // verus!
