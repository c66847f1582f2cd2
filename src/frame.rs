use vstd::prelude::*;
use crate::x86::{Arg, ArgView, Instr, InstrView, Reg, instr_views};

verus! {

/// The smallest power of two from `p` on (doubling) that is at least `size`.
pub open spec fn pow2_from(p: nat, size: nat) -> nat
    decreases (if p < size {
        size - p
    } else {
        0
    }),
{
    if p == 0 || p >= size {
        p
    } else {
        pow2_from(2 * p, size)
    }
}

/// `x` rounded up to a multiple of 16.
pub open spec fn align16(x: nat) -> nat {
    if x % 16 != 0 {
        ((x / 16 + 1) * 16) as nat
    } else {
        x
    }
}

/// A displacement below the frame pointer must fit the 32-bit signed field of an x86-64 operand.
/// A function's stack frame: the callee-saved registers it preserves and the
/// bytes below the frame pointer that those and the spill slots take.
pub struct Frame {
    pub saved_callee: Vec<Reg>,
    pub real_size: usize,
}

impl Frame {
    pub open spec fn wf(&self) -> bool {
        self.real_size >= 8 * self.saved_callee@.len() && self.real_size + 15 <= i32::MAX
            && self.saved_callee@.no_duplicates()
    }

    /// The adjustment of `%rsp` after the callee-saved registers are pushed.
    pub open spec fn rsp_offset_spec(&self) -> int {
        align16(self.real_size as nat) - 8 * self.saved_callee@.len()
    }

    pub open spec fn alloc_frame_spec(&self) -> Seq<InstrView> {
        self.saved_callee@.map_values(|r: Reg| InstrView::Pushq(ArgView::Reg(r))) + seq![
            InstrView::Subq(ArgView::Imm(self.rsp_offset_spec() as i64), ArgView::Reg(Reg::Rsp)),
        ]
    }

    pub open spec fn free_frame_spec(&self) -> Seq<InstrView> {
        seq![InstrView::Addq(ArgView::Imm(self.rsp_offset_spec() as i64), ArgView::Reg(Reg::Rsp))]
            + self.saved_callee@.reverse().map_values(|r: Reg| InstrView::Popq(ArgView::Reg(r)))
    }

    pub fn new(saved_callee: Vec<Reg>) -> (r: Self)
        requires
            8 * saved_callee@.len() + 15 <= i32::MAX,
            saved_callee@.no_duplicates(),
        ensures
            r.wf(),
            r.saved_callee@ == saved_callee@,
            r.real_size == 8 * saved_callee@.len(),
    {
        let real_size = saved_callee.len() * 8;
        Self { saved_callee, real_size }
    }

    /// Reserves a slot of `size` bytes, rounded up to a power of two, and returns its address.
    pub fn alloc_local(&mut self, size: usize) -> (r: Arg)
        requires
            old(self).wf(),
            old(self).real_size + pow2_from(1, size as nat) + 15 <= i32::MAX,
        ensures
            final(self).wf(),
            final(self).saved_callee@ == old(self).saved_callee@,
            size == 0 ==> r@ == ArgView::Reg(Reg::Rbp) && final(self).real_size == old(self).real_size,
            size > 0 ==> final(self).real_size == old(self).real_size + pow2_from(1, size as nat)
                && r@ == ArgView::Deref(Reg::Rbp, (-(final(self).real_size as int)) as i64),
    {
        if size == 0 {
            return Arg::Reg(Reg::Rbp);
        }
        let mut res: usize = 1;
        proof {
            lemma_pow2_from_ge(1, size as nat);
        }
        while res < size
            invariant
                1 <= res <= pow2_from(res as nat, size as nat),
                pow2_from(res as nat, size as nat) == pow2_from(1, size as nat),
                pow2_from(1, size as nat) <= i32::MAX,
            decreases pow2_from(1, size as nat) - res,
        {
            assert(pow2_from(res as nat, size as nat) == pow2_from(2 * res as nat, size as nat));
            assert(2 * res <= pow2_from(2 * res as nat, size as nat)) by {
                lemma_pow2_from_ge(2 * res as nat, size as nat);
            }
            res = res * 2;
        }
        self.real_size = self.real_size + res;
        let off = self.real_size as i64;
        Arg::Deref(Reg::Rbp, -off)
    }

    /// The instructions that save the callee-saved registers and make room below them.
    pub fn alloc_frame(&self) -> (r: Vec<Instr>)
        requires
            self.wf(),
        ensures
            instr_views(r@) == self.alloc_frame_spec(),
            (16 + 8 * self.saved_callee@.len() + self.rsp_offset_spec()) % 16 == 0,
            self.real_size <= 8 * self.saved_callee@.len() + self.rsp_offset_spec() < self.real_size + 16,
    {
        proof {
            lemma_frame_alignment(*self);
        }
        let mut instrs: Vec<Instr> = Vec::new();
        let mut i: usize = 0;
        while i < self.saved_callee.len()
            invariant
                i <= self.saved_callee@.len(),
                instr_views(instrs@) == self.saved_callee@.take(i as int).map_values(
                    |r: Reg| InstrView::Pushq(ArgView::Reg(r)),
                ),
            decreases self.saved_callee.len() - i,
        {
            let ghost prev = instr_views(instrs@);
            instrs.push(Instr::Pushq(Arg::Reg(self.saved_callee[i])));
            proof {
                assert(instr_views(instrs@) =~= prev.push(
                    InstrView::Pushq(ArgView::Reg(self.saved_callee@[i as int])),
                ));
                assert(self.saved_callee@.take(i + 1) =~= self.saved_callee@.take(i as int).push(
                    self.saved_callee@[i as int],
                ));
            }
            i = i + 1;
            assert(instr_views(instrs@) =~= self.saved_callee@.take(i as int).map_values(
                |r: Reg| InstrView::Pushq(ArgView::Reg(r)),
            ));
        }
        let offset = self.rsp_offset() as i64;
        instrs.push(Instr::Subq(Arg::Imm(offset), Arg::Reg(Reg::Rsp)));
        assert(self.saved_callee@.take(i as int) =~= self.saved_callee@);
        assert(instr_views(instrs@) =~= self.alloc_frame_spec());
        instrs
    }

    fn rsp_offset(&self) -> (r: usize)
        requires
            self.wf(),
        ensures
            r == self.rsp_offset_spec(),
            r <= i32::MAX,
    {
        let align = if self.real_size % 16 != 0 {
            (self.real_size / 16 + 1) * 16
        } else {
            self.real_size
        };
        align - 8 * self.saved_callee.len()
    }

    /// The instructions that release the frame and restore the callee-saved
    /// registers in the reverse order of their saving.
    pub fn free_frame(&self) -> (r: Vec<Instr>)
        requires
            self.wf(),
        ensures
            instr_views(r@) == self.free_frame_spec(),
    {
        let mut instrs: Vec<Instr> = Vec::new();
        let offset = self.rsp_offset() as i64;
        instrs.push(Instr::Addq(Arg::Imm(offset), Arg::Reg(Reg::Rsp)));
        let ghost pops = self.saved_callee@.reverse().map_values(
            |r: Reg| InstrView::Popq(ArgView::Reg(r)),
        );
        let n = self.saved_callee.len();
        let mut i: usize = n;
        while i > 0
            invariant
                i <= n == self.saved_callee@.len(),
                pops == self.saved_callee@.reverse().map_values(
                    |r: Reg| InstrView::Popq(ArgView::Reg(r)),
                ),
                instr_views(instrs@) == seq![
                    InstrView::Addq(ArgView::Imm(offset), ArgView::Reg(Reg::Rsp)),
                ] + pops.take(n - i),
            decreases i,
        {
            i = i - 1;
            let ghost prev = instr_views(instrs@);
            instrs.push(Instr::Popq(Arg::Reg(self.saved_callee[i])));
            proof {
                assert(instr_views(instrs@) =~= prev.push(
                    InstrView::Popq(ArgView::Reg(self.saved_callee@[i as int])),
                ));
                assert(pops[(n - i - 1) as int] == InstrView::Popq(
                    ArgView::Reg(self.saved_callee@[i as int]),
                ));
                assert(pops.take(n - i) =~= pops.take(n - i - 1).push(
                    InstrView::Popq(ArgView::Reg(self.saved_callee@[i as int])),
                ));
            }
            assert(instr_views(instrs@) =~= seq![
                InstrView::Addq(ArgView::Imm(offset), ArgView::Reg(Reg::Rsp)),
            ] + pops.take(n - i));
        }
        assert(pops.take(n as int) =~= pops);
        instrs
    }
}

proof fn lemma_pow2_from_ge(p: nat, size: nat)
    ensures
        p <= pow2_from(p, size),
    decreases (if p < size {
        size - p
    } else {
        0
    }),
{
    if p != 0 && p < size {
        lemma_pow2_from_ge(2 * p, size);
    }
}

/// On entry to a function the return address and the saved frame pointer take
/// 16 bytes; the callee-saved pushes and the `%rsp` adjustment of the prologue
/// then bring the stack to a multiple of 16, and the adjustment covers the
/// spill area.
pub proof fn lemma_frame_alignment(f: Frame)
    requires
        f.wf(),
    ensures
        (16 + 8 * f.saved_callee@.len() + f.rsp_offset_spec()) % 16 == 0,
        8 * f.saved_callee@.len() + f.rsp_offset_spec() >= f.real_size,
        f.rsp_offset_spec() >= 0,
{
    let x = f.real_size as nat;
    assert(align16(x) % 16 == 0 && align16(x) >= x && align16(x) < x + 16) by (nonlinear_arith)
        requires
            align16(x) == (if x % 16 != 0 {
                ((x / 16 + 1) * 16) as nat
            } else {
                x
            }),
    {}
}

} // verus!
