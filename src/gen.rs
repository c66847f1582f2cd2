use vstd::prelude::*;
use crate::frame::Frame;
use crate::x86::{Arg, ArgView, Instr, InstrView, Reg, instr_views};

verus! {

/// The fixed head of every function: save and set the frame pointer.
pub open spec fn frame_pointer_setup() -> Seq<InstrView> {
    seq![
        InstrView::Pushq(ArgView::Reg(Reg::Rbp)),
        InstrView::Movq(ArgView::Reg(Reg::Rsp), ArgView::Reg(Reg::Rbp)),
    ]
}

/// The fixed tail of every function: restore the frame pointer and return.
pub open spec fn frame_pointer_teardown() -> Seq<InstrView> {
    seq![InstrView::Popq(ArgView::Reg(Reg::Rbp)), InstrView::Retq]
}

/// Wraps a function body in its prologue and epilogue.
pub struct CodeGen {
    frame: Frame,
    instrs: Vec<Instr>,
}

impl CodeGen {
    pub closed spec fn frame(&self) -> Frame {
        self.frame
    }

    pub closed spec fn body(&self) -> Seq<InstrView> {
        instr_views(self.instrs@)
    }

    pub fn new(instrs: Vec<Instr>, frame: Frame) -> (r: Self)
        ensures
            r.frame() == frame,
            r.body() == instr_views(instrs@),
    {
        Self { frame, instrs }
    }

    fn alloc_frame_pointer(out: &mut Vec<Instr>)
        ensures
            instr_views(final(out)@) == instr_views(old(out)@) + frame_pointer_setup(),
    {
        out.push(Instr::Pushq(Arg::Reg(Reg::Rbp)));
        out.push(Instr::Movq(Arg::Reg(Reg::Rsp), Arg::Reg(Reg::Rbp)));
        assert(instr_views(out@) =~= instr_views(old(out)@) + frame_pointer_setup());
    }

    fn restore_frame_pointer(out: &mut Vec<Instr>)
        ensures
            instr_views(final(out)@) == instr_views(old(out)@) + frame_pointer_teardown(),
    {
        out.push(Instr::Popq(Arg::Reg(Reg::Rbp)));
        out.push(Instr::Retq);
        assert(instr_views(out@) =~= instr_views(old(out)@) + frame_pointer_teardown());
    }

    fn append(out: &mut Vec<Instr>, more: &Vec<Instr>)
        ensures
            instr_views(final(out)@) == instr_views(old(out)@) + instr_views(more@),
    {
        let mut i: usize = 0;
        while i < more.len()
            invariant
                i <= more@.len(),
                instr_views(out@) == instr_views(old(out)@) + instr_views(more@.take(i as int)),
            decreases more.len() - i,
        {
            let ghost prev = instr_views(out@);
            out.push(more[i].duplicate());
            proof {
                assert(instr_views(out@) =~= prev.push(more@[i as int]@));
                assert(more@.take(i + 1) =~= more@.take(i as int).push(more@[i as int]));
                assert(instr_views(more@.take(i + 1)) =~= instr_views(more@.take(i as int)).push(
                    more@[i as int]@,
                ));
            }
            i = i + 1;
        }
        assert(more@.take(i as int) =~= more@);
    }

    fn gen_prelude(&self) -> (r: Vec<Instr>)
        requires
            self.frame.wf(),
        ensures
            instr_views(r@) == frame_pointer_setup() + self.frame.alloc_frame_spec(),
    {
        let mut out: Vec<Instr> = Vec::new();
        assert(instr_views(out@) =~= Seq::<InstrView>::empty());
        Self::alloc_frame_pointer(&mut out);
        let saves = self.frame.alloc_frame();
        Self::append(&mut out, &saves);
        assert(instr_views(out@) =~= frame_pointer_setup() + self.frame.alloc_frame_spec());
        out
    }

    fn gen_conclusion(&self) -> (r: Vec<Instr>)
        requires
            self.frame.wf(),
        ensures
            instr_views(r@) == self.frame.free_frame_spec() + frame_pointer_teardown(),
    {
        let mut out = self.frame.free_frame();
        Self::restore_frame_pointer(&mut out);
        out
    }

    /// Prologue, body and epilogue, in that order.
    pub fn code_gen(self) -> (r: Vec<Instr>)
        requires
            self.frame().wf(),
        ensures
            instr_views(r@) == frame_pointer_setup() + self.frame().alloc_frame_spec()
                + self.body() + self.frame().free_frame_spec() + frame_pointer_teardown(),
    {
        let mut out = self.gen_prelude();
        let tail = self.gen_conclusion();
        Self::append(&mut out, &self.instrs);
        Self::append(&mut out, &tail);
        out
    }
}

} // verus!
