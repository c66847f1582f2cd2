use vstd::prelude::*;
use crate::x86::{
    Arg, ArgView, Instr, InstrView, arg_set, args_minus, copy_args, instr_views, read_set_spec,
    union_into, write_set_spec,
};

verus! {

/// The locations live before instruction `i` of `s`; nothing is live past the end.
pub open spec fn live_before(s: Seq<InstrView>, i: int) -> Set<ArgView>
    decreases s.len() - i,
{
    if i < 0 || i >= s.len() {
        Set::empty()
    } else {
        live_before(s, i + 1).difference(write_set_spec(s[i])).union(read_set_spec(s[i]))
    }
}

/// The locations live right after instruction `i` of `s`.
pub open spec fn live_after(s: Seq<InstrView>, i: int) -> Set<ArgView> {
    live_before(s, i + 1)
}

/// The set of locations live after one instruction.
pub struct LiveAfter(pub Vec<Arg>);

impl LiveAfter {
    pub open spec fn set(&self) -> Set<ArgView> {
        arg_set(self.0@)
    }

    pub fn new() -> (r: Self)
        ensures
            r.set() == Set::<ArgView>::empty(),
    {
        let r = LiveAfter(Vec::new());
        assert(r.set() =~= Set::<ArgView>::empty());
        r
    }

    /// The live locations, each once at least.
    pub fn iter(&self) -> (r: &Vec<Arg>)
        ensures
            arg_set(r@) == self.set(),
    {
        &self.0
    }
}

pub struct UncoverLive {}

impl UncoverLive {
    /// Pairs each instruction with the set of locations live after it.
    pub fn uncover_live(instrs: Vec<Instr>) -> (r: Vec<(Instr, LiveAfter)>)
        ensures
            r@.len() == instrs@.len(),
            forall|k: int|
                0 <= k < r@.len() ==> (#[trigger] r@[k]).0@ == instrs@[k]@ && r@[k].1.set()
                    == live_after(instr_views(instrs@), k),
            r@.len() > 0 ==> r@[r@.len() - 1].1.set() == Set::<ArgView>::empty(),
            forall|k: int|
                0 < k < r@.len() ==> (#[trigger] r@[k]).1.set().difference(
                    write_set_spec(r@[k].0@),
                ).union(read_set_spec(r@[k].0@)).subset_of(r@[k - 1].1.set()),
    {
        let ghost s = instr_views(instrs@);
        let n = instrs.len();
        let mut rev: Vec<(Instr, LiveAfter)> = Vec::new();
        let mut live: Vec<Arg> = Vec::new();
        let mut i: usize = n;
        proof {
            assert(arg_set(live@) =~= Set::<ArgView>::empty());
        }
        while i > 0
            invariant
                n == instrs@.len(),
                s == instr_views(instrs@),
                i <= n,
                rev@.len() == n - i,
                arg_set(live@) == live_before(s, i as int),
                forall|j: int|
                    0 <= j < rev@.len() ==> (#[trigger] rev@[j]).0@ == instrs@[n - 1 - j]@
                        && rev@[j].1.set() == live_after(s, n - 1 - j),
            decreases i,
        {
            i = i - 1;
            let inst = &instrs[i];
            let after = copy_args(&live);
            rev.push((inst.duplicate(), LiveAfter(after)));
            let w = inst.write_set();
            let rd = inst.read_set();
            let mut next = args_minus(&live, &w);
            union_into(&mut next, &rd);
            live = next;
        }
        let mut r: Vec<(Instr, LiveAfter)> = Vec::new();
        while rev.len() > 0
            invariant
                n == instrs@.len(),
                s == instr_views(instrs@),
                rev@.len() + r@.len() == n,
                forall|j: int|
                    0 <= j < rev@.len() ==> (#[trigger] rev@[j]).0@ == instrs@[n - 1 - j]@
                        && rev@[j].1.set() == live_after(s, n - 1 - j),
                forall|k: int|
                    0 <= k < r@.len() ==> (#[trigger] r@[k]).0@ == instrs@[k]@ && r@[k].1.set()
                        == live_after(s, k),
            decreases rev.len(),
        {
            let item = rev.pop().unwrap();
            r.push(item);
        }
        proof {
            assert forall|k: int| 0 < k < r@.len() implies (#[trigger] r@[k]).1.set().difference(
                write_set_spec(r@[k].0@),
            ).union(read_set_spec(r@[k].0@)).subset_of(r@[k - 1].1.set()) by {
                assert(s[k] == instrs@[k]@);
            }
        }
        r
    }
}

} // verus!
