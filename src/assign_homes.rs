use vstd::prelude::*;
use crate::x86::{Arg, ArgView, Instr, InstrView, instr_views};

verus! {

/// The home that `m` gives to `a`: the partner of its first entry, or `a` itself.
pub open spec fn home_of(m: Seq<(Arg, Arg)>, a: ArgView) -> ArgView
    decreases m.len(),
{
    if m.len() == 0 {
        a
    } else if m[0].0@ == a {
        m[0].1@
    } else {
        home_of(m.skip(1), a)
    }
}

/// A variable is replaced by its home; registers, memory and immediates stay.
pub open spec fn home_arg(m: Seq<(Arg, Arg)>, a: ArgView) -> ArgView {
    if a is Var {
        home_of(m, a)
    } else {
        a
    }
}

/// An instruction with each variable operand replaced by its home.
pub open spec fn home_instr(m: Seq<(Arg, Arg)>, i: InstrView) -> InstrView {
    match i {
        InstrView::Pushq(a) => InstrView::Pushq(home_arg(m, a)),
        InstrView::Popq(a) => InstrView::Popq(home_arg(m, a)),
        InstrView::Negq(a) => InstrView::Negq(home_arg(m, a)),
        InstrView::Addq(s, d) => InstrView::Addq(home_arg(m, s), home_arg(m, d)),
        InstrView::Subq(s, d) => InstrView::Subq(home_arg(m, s), home_arg(m, d)),
        InstrView::Movq(s, d) => InstrView::Movq(home_arg(m, s), home_arg(m, d)),
        _ => i,
    }
}

/// Replaces variables by the homes that the allocator chose for them.
pub struct AssignHomes {
    instrs: Vec<Instr>,
    mapping: Vec<(Arg, Arg)>,
}

impl AssignHomes {
    pub closed spec fn instructions(&self) -> Seq<InstrView> {
        instr_views(self.instrs@)
    }

    pub closed spec fn mapping(&self) -> Seq<(Arg, Arg)> {
        self.mapping@
    }

    pub fn new(instrs: Vec<Instr>, mapping: Vec<(Arg, Arg)>) -> (r: Self)
        ensures
            r.instructions() == instr_views(instrs@),
            r.mapping() == mapping@,
    {
        Self { instrs, mapping }
    }

    fn replace_arg(&self, a: &Arg) -> (r: Arg)
        ensures
            r@ == home_arg(self.mapping@, a@),
    {
        if a.get_var().is_none() {
            return a.duplicate();
        }
        let mut i: usize = 0;
        assert(self.mapping@.skip(0) =~= self.mapping@);
        while i < self.mapping.len()
            invariant
                i <= self.mapping@.len(),
                a@ is Var,
                home_of(self.mapping@, a@) == home_of(self.mapping@.skip(i as int), a@),
            decreases self.mapping.len() - i,
        {
            let ghost rest = self.mapping@.skip(i as int);
            assert(rest[0] == self.mapping@[i as int]);
            assert(rest.skip(1) =~= self.mapping@.skip(i + 1));
            if self.mapping[i].0.eq(a) {
                return self.mapping[i].1.duplicate();
            }
            i = i + 1;
        }
        a.duplicate()
    }

    /// Each instruction, in order, with its operands replaced by their homes.
    pub fn assign_homes(self) -> (r: Vec<Instr>)
        ensures
            instr_views(r@) == self.instructions().map_values(
                |i: InstrView| home_instr(self.mapping(), i),
            ),
    {
        let mut out: Vec<Instr> = Vec::new();
        let mut k: usize = 0;
        while k < self.instrs.len()
            invariant
                k <= self.instrs@.len(),
                instr_views(out@) == instr_views(self.instrs@.take(k as int)).map_values(
                    |i: InstrView| home_instr(self.mapping@, i),
                ),
            decreases self.instrs.len() - k,
        {
            let inst = &self.instrs[k];
            let n = match inst {
                Instr::Pushq(a) => Instr::Pushq(self.replace_arg(a)),
                Instr::Popq(a) => Instr::Popq(self.replace_arg(a)),
                Instr::Negq(a) => Instr::Negq(self.replace_arg(a)),
                Instr::Addq(s, d) => Instr::Addq(self.replace_arg(s), self.replace_arg(d)),
                Instr::Subq(s, d) => Instr::Subq(self.replace_arg(s), self.replace_arg(d)),
                Instr::Movq(s, d) => Instr::Movq(self.replace_arg(s), self.replace_arg(d)),
                o => o.duplicate(),
            };
            let ghost prev = instr_views(out@);
            out.push(n);
            proof {
                assert(instr_views(out@) =~= prev.push(home_instr(self.mapping@, inst@)));
                assert(self.instrs@.take(k + 1) =~= self.instrs@.take(k as int).push(*inst));
                assert(instr_views(self.instrs@.take(k + 1)).map_values(
                    |i: InstrView| home_instr(self.mapping@, i),
                ) =~= instr_views(self.instrs@.take(k as int)).map_values(
                    |i: InstrView| home_instr(self.mapping@, i),
                ).push(home_instr(self.mapping@, inst@)));
            }
            k = k + 1;
        }
        assert(self.instrs@.take(k as int) =~= self.instrs@);
        out
    }
}

} // verus!
