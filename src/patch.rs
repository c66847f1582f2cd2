use vstd::prelude::*;
use crate::x86::{Arg, ArgView, Instr, InstrView, Reg, instr_views, is_mem_view};

verus! {

/// What patching turns one instruction into.
pub open spec fn patch_spec(i: InstrView) -> Seq<InstrView> {
    let rax = ArgView::Reg(Reg::Rax);
    match i {
        InstrView::Addq(s, d) => if is_mem_view(s) && is_mem_view(d) {
            seq![InstrView::Movq(d, rax), InstrView::Addq(s, rax), InstrView::Movq(rax, d)]
        } else {
            seq![i]
        },
        InstrView::Subq(s, d) => if is_mem_view(s) && is_mem_view(d) {
            seq![InstrView::Movq(d, rax), InstrView::Subq(s, rax), InstrView::Movq(rax, d)]
        } else {
            seq![i]
        },
        InstrView::Movq(s, d) => if s == d {
            Seq::empty()
        } else if is_mem_view(s) && is_mem_view(d) {
            seq![InstrView::Movq(s, rax), InstrView::Movq(rax, d)]
        } else {
            seq![i]
        },
        _ => seq![i],
    }
}

/// Patching a whole sequence: the patched instructions, in order.
pub open spec fn patch_all(s: Seq<InstrView>) -> Seq<InstrView>
    decreases s.len(),
{
    if s.len() == 0 {
        Seq::empty()
    } else {
        patch_all(s.drop_last()) + patch_spec(s.last())
    }
}

/// An instruction that x86-64 accepts as to its operands, and that is no self-move.
pub open spec fn is_legal(i: InstrView) -> bool {
    match i {
        InstrView::Addq(s, d) => !(is_mem_view(s) && is_mem_view(d)),
        InstrView::Subq(s, d) => !(is_mem_view(s) && is_mem_view(d)),
        InstrView::Movq(s, d) => !(is_mem_view(s) && is_mem_view(d)) && s != d,
        _ => true,
    }
}

proof fn lemma_patch_spec_legal(i: InstrView)
    ensures
        forall|k: int| 0 <= k < patch_spec(i).len() ==> is_legal(#[trigger] patch_spec(i)[k]),
{
}

/// After patching no `addq`, `subq` or `movq` has two memory operands and no
/// `movq` moves a value onto itself.
pub proof fn lemma_patch_all_legal(s: Seq<InstrView>)
    ensures
        forall|k: int| 0 <= k < patch_all(s).len() ==> is_legal(#[trigger] patch_all(s)[k]),
    decreases s.len(),
{
    if s.len() > 0 {
        lemma_patch_all_legal(s.drop_last());
        lemma_patch_spec_legal(s.last());
        let a = patch_all(s.drop_last());
        let b = patch_spec(s.last());
        assert forall|k: int| 0 <= k < patch_all(s).len() implies is_legal(#[trigger] patch_all(s)[k]) by {
            if k < a.len() {
                assert(patch_all(s)[k] == a[k]);
            } else {
                assert(patch_all(s)[k] == b[k - a.len()]);
            }
        }
    }
}

pub struct PatchInstructions {
    instrs: Vec<Instr>,
}

impl PatchInstructions {
    pub fn new(instrs: Vec<Instr>) -> (r: Self)
        ensures
            r.instructions() == instr_views(instrs@),
    {
        Self { instrs }
    }

    pub closed spec fn instructions(&self) -> Seq<InstrView> {
        instr_views(self.instrs@)
    }

    /// Rewrites each instruction into operand forms that x86-64 accepts.
    pub fn patch_instructions(self) -> (r: Vec<Instr>)
        ensures
            instr_views(r@) == patch_all(self.instructions()),
            forall|k: int| 0 <= k < r@.len() ==> is_legal(#[trigger] r@[k]@),
    {
        let ghost input = instr_views(self.instrs@);
        let mut res: Vec<Instr> = Vec::new();
        let mut i: usize = 0;
        let n = self.instrs.len();
        while i < n
            invariant
                n == self.instrs@.len(),
                input == instr_views(self.instrs@),
                i <= n,
                instr_views(res@) == patch_all(input.take(i as int)),
            decreases n - i,
        {
            let ghost prev = instr_views(res@);
            let out = Self::patch_instr(&self.instrs[i]);
            let mut j: usize = 0;
            while j < out.len()
                invariant
                    j <= out@.len(),
                    instr_views(res@) == prev + instr_views(out@).take(j as int),
                decreases out.len() - j,
            {
                let ghost before = instr_views(res@);
                res.push(out[j].duplicate());
                proof {
                    assert(instr_views(res@) =~= before.push(out@[j as int]@));
                    assert(instr_views(out@).take(j + 1) =~= instr_views(out@).take(j as int).push(
                        out@[j as int]@,
                    ));
                }
                j = j + 1;
                assert(instr_views(res@) =~= prev + instr_views(out@).take(j as int));
            }
            proof {
                assert(instr_views(out@).take(j as int) =~= instr_views(out@));
                assert(input.take(i + 1).drop_last() =~= input.take(i as int));
            }
            i = i + 1;
        }
        proof {
            assert(input.take(n as int) =~= input);
            lemma_patch_all_legal(input);
            assert forall|k: int| 0 <= k < res@.len() implies is_legal(#[trigger] res@[k]@) by {
                assert(instr_views(res@)[k] == res@[k]@);
            }
        }
        res
    }

    fn patch_instr(inst: &Instr) -> (r: Vec<Instr>)
        ensures
            instr_views(r@) == patch_spec(inst@),
    {
        let r = match inst {
            Instr::Addq(s, d) if s.is_mem() && d.is_mem() => {
                vec![
                    Instr::Movq(d.duplicate(), Arg::Reg(Reg::Rax)),
                    Instr::Addq(s.duplicate(), Arg::Reg(Reg::Rax)),
                    Instr::Movq(Arg::Reg(Reg::Rax), d.duplicate()),
                ]
            },
            Instr::Subq(s, d) if s.is_mem() && d.is_mem() => {
                vec![
                    Instr::Movq(d.duplicate(), Arg::Reg(Reg::Rax)),
                    Instr::Subq(s.duplicate(), Arg::Reg(Reg::Rax)),
                    Instr::Movq(Arg::Reg(Reg::Rax), d.duplicate()),
                ]
            },
            Instr::Movq(s, d) if s.eq(d) => vec![],
            Instr::Movq(s, d) if s.is_mem() && d.is_mem() => {
                vec![Instr::Movq(s.duplicate(), Arg::Reg(Reg::Rax)), Instr::Movq(Arg::Reg(Reg::Rax), d.duplicate())]
            },
            o => vec![o.duplicate()],
        };
        assert(instr_views(r@) =~= patch_spec(inst@));
        r
    }
}

} // verus!
