use vstd::prelude::*;
use crate::frame::{Frame, pow2_from};
use crate::interference::{Interference, graph_edges, graph_neighbors};
use crate::x86::{Arg, ArgView, Reg, callee_saved_spec};

verus! {

/// How many colors stand for registers that the allocator may hand out.
pub const NUM_REG_COLORS: i64 = 11;

/// The fixed color of each register: non-negative for the allocatable ones,
/// negative for those reserved for the stack, frame and scratch.
pub open spec fn reg_color(r: Reg) -> i64 {
    match r {
        Reg::Rax => -1i64,
        Reg::Rsp => -2i64,
        Reg::Rbp => -3i64,
        Reg::R11 => -4i64,
        Reg::R15 => -5i64,
        Reg::Rcx => 0i64,
        Reg::Rdx => 1i64,
        Reg::Rsi => 2i64,
        Reg::Rdi => 3i64,
        Reg::R8 => 4i64,
        Reg::R9 => 5i64,
        Reg::R10 => 6i64,
        Reg::Rbx => 7i64,
        Reg::R12 => 8i64,
        Reg::R13 => 9i64,
        Reg::R14 => 10i64,
    }
}

pub proof fn lemma_reg_color_injective(a: Reg, b: Reg)
    ensures
        reg_color(a) == reg_color(b) ==> a == b,
{
}

fn color_of_reg(r: Reg) -> (c: i64)
    ensures
        c == reg_color(r),
{
    match r {
        Reg::Rax => -1,
        Reg::Rsp => -2,
        Reg::Rbp => -3,
        Reg::R11 => -4,
        Reg::R15 => -5,
        Reg::Rcx => 0,
        Reg::Rdx => 1,
        Reg::Rsi => 2,
        Reg::Rdi => 3,
        Reg::R8 => 4,
        Reg::R9 => 5,
        Reg::R10 => 6,
        Reg::Rbx => 7,
        Reg::R12 => 8,
        Reg::R13 => 9,
        Reg::R14 => 10,
    }
}

/// The register of a color below `NUM_REG_COLORS`.
fn reg_of_color(c: i64) -> (r: Reg)
    requires
        -5 <= c < NUM_REG_COLORS,
    ensures
        reg_color(r) == c,
{
    match c {
        -1 => Reg::Rax,
        -2 => Reg::Rsp,
        -3 => Reg::Rbp,
        -4 => Reg::R11,
        -5 => Reg::R15,
        0 => Reg::Rcx,
        1 => Reg::Rdx,
        2 => Reg::Rsi,
        3 => Reg::Rdi,
        4 => Reg::R8,
        5 => Reg::R9,
        6 => Reg::R10,
        7 => Reg::Rbx,
        8 => Reg::R12,
        9 => Reg::R13,
        _ => Reg::R14,
    }
}

pub open spec fn slot_has(slots: Seq<(i64, Arg)>, c: i64) -> bool {
    exists|a: int| 0 <= a < slots.len() && #[trigger] slots[a].0 == c
}

pub open spec fn seen_color(colors: Seq<Option<i64>>, k: int, c: i64) -> bool {
    exists|q: int| 0 <= q < k && colors[q] == Some(c)
}

/// The colors beyond the registers that some node carries: one stack slot each.
pub open spec fn spilled_colors(colors: Seq<Option<i64>>) -> Set<i64> {
    Set::new(|c: i64| c >= NUM_REG_COLORS && colors.contains(Some(c)))
}

/// The register whose fixed color is `c`.
pub open spec fn reg_of_color_spec(c: i64) -> Reg {
    choose|r: Reg| reg_color(r) == c
}

/// The slot recorded for color `c`.
pub open spec fn slot_of(slots: Seq<(i64, Arg)>, c: i64) -> ArgView {
    slots[choose|a: int| 0 <= a < slots.len() && slots[a].0 == c].1@
}

proof fn lemma_color_has_reg(c: i64)
    requires
        -5 <= c < NUM_REG_COLORS,
    ensures
        reg_color(reg_of_color_spec(c)) == c,
{
    let r = if c == -1 {
        Reg::Rax
    } else if c == -2 {
        Reg::Rsp
    } else if c == -3 {
        Reg::Rbp
    } else if c == -4 {
        Reg::R11
    } else if c == -5 {
        Reg::R15
    } else if c == 0 {
        Reg::Rcx
    } else if c == 1 {
        Reg::Rdx
    } else if c == 2 {
        Reg::Rsi
    } else if c == 3 {
        Reg::Rdi
    } else if c == 4 {
        Reg::R8
    } else if c == 5 {
        Reg::R9
    } else if c == 6 {
        Reg::R10
    } else if c == 7 {
        Reg::Rbx
    } else if c == 8 {
        Reg::R12
    } else if c == 9 {
        Reg::R13
    } else {
        Reg::R14
    };
    assert(reg_color(r) == c);
}

/// How many elements of `s` are at least `c`.
pub open spec fn count_ge(s: Seq<i64>, c: int) -> nat
    decreases s.len(),
{
    if s.len() == 0 {
        0
    } else {
        count_ge(s.drop_last(), c) + (if s.last() >= c {
            1nat
        } else {
            0nat
        })
    }
}

proof fn lemma_count_ge_step(s: Seq<i64>, c: int)
    ensures
        count_ge(s, c + 1) <= count_ge(s, c),
        s.contains(c as i64) && c == c as i64 ==> count_ge(s, c + 1) < count_ge(s, c),
        count_ge(s, c) <= s.len(),
    decreases s.len(),
{
    if s.len() > 0 {
        lemma_count_ge_step(s.drop_last(), c);
        if s.contains(c as i64) && c == c as i64 && s.last() != c {
            let k = choose|k: int| 0 <= k < s.len() && s[k] == c as i64;
            assert(s.drop_last()[k] == s[k]);
        }
    }
}

/// Whether `v` holds `x`.
fn holds(v: &Vec<i64>, x: i64) -> (r: bool)
    ensures
        r == v@.contains(x),
{
    let mut i: usize = 0;
    while i < v.len()
        invariant
            i <= v@.len(),
            forall|k: int| 0 <= k < i ==> v@[k] != x,
        decreases v.len() - i,
    {
        if v[i] == x {
            return true;
        }
        i = i + 1;
    }
    false
}

fn copy_colors(v: &Vec<i64>) -> (r: Vec<i64>)
    ensures
        r@ == v@,
{
    let mut r: Vec<i64> = Vec::new();
    let mut i: usize = 0;
    while i < v.len()
        invariant
            i <= v@.len(),
            r@ == v@.take(i as int),
        decreases v.len() - i,
    {
        r.push(v[i]);
        i = i + 1;
        assert(r@ =~= v@.take(i as int));
    }
    assert(v@.take(i as int) =~= v@);
    r
}

fn holds_node(v: &Vec<usize>, x: usize) -> (r: bool)
    ensures
        r == v@.contains(x),
{
    let mut i: usize = 0;
    while i < v.len()
        invariant
            i <= v@.len(),
            forall|k: int| 0 <= k < i ==> v@[k] != x,
        decreases v.len() - i,
    {
        if v[i] == x {
            return true;
        }
        i = i + 1;
    }
    false
}

proof fn lemma_distinct_bounded(s: Seq<usize>, n: nat)
    requires
        forall|k: int| 0 <= k < s.len() ==> #[trigger] s[k] < n,
        forall|a: int, b: int| 0 <= a < s.len() && 0 <= b < s.len() && a != b ==> s[a] != s[b],
    ensures
        s.len() <= n,
    decreases n,
{
    if s.len() > 0 {
        assert(s[0] < n);
        let m: int = n - 1;
        if exists|k: int| 0 <= k < s.len() && s[k] as int == m {
            let k = choose|k: int| 0 <= k < s.len() && s[k] as int == m;
            let r = s.remove(k);
            assert forall|a: int| 0 <= a < r.len() implies #[trigger] r[a] < (n - 1) as nat by {
                let a2 = if a < k { a } else { a + 1 };
                assert(r[a] == s[a2]);
            }
            assert forall|a: int, b: int| 0 <= a < r.len() && 0 <= b < r.len() && a != b implies r[a] != r[b] by {
                let a2 = if a < k { a } else { a + 1 };
                let b2 = if b < k { b } else { b + 1 };
                assert(r[a] == s[a2]);
                assert(r[b] == s[b2]);
            }
            lemma_distinct_bounded(r, (n - 1) as nat);
        } else {
            assert forall|a: int| 0 <= a < s.len() implies #[trigger] s[a] < (n - 1) as nat by {
                assert(s[a] as int != m);
            }
            lemma_distinct_bounded(s, (n - 1) as nat);
        }
    }
}

proof fn lemma_offered_weaken(a: &Allocation, skip: int)
    requires
        a.offered(-1),
    ensures
        a.offered(skip),
{
    reveal(Allocation::offered);
}

/// The order reads only the graph, the colors and the ranks.
proof fn lemma_same_order(a: &Allocation, b: &Allocation)
    requires
        a.graph() == b.graph(),
        a.colors_seq() == b.colors_seq(),
        a.rank@ == b.rank@,
        a.ordered(),
    ensures
        b.ordered(),
{
    reveal(Allocation::ordered);
    let n = a.ig.len();
    assert forall|i: int, j: int|
        0 <= i < n && 0 <= j < n && b.colors@[i] is Some && !(b.ig.locs@[i]@ is Reg) && !(b.ig.locs@[j]@ is Reg)
            && (b.colors@[j] is None || b.rank@[i] < b.rank@[j]) implies #[trigger] b.picked_first(i, j) by {
        assert(a.picked_first(i, j));
        assert(b.sat_set(i, i) =~= a.sat_set(i, i));
        assert(b.sat_set(j, i) =~= a.sat_set(j, i));
    }
}

/// Just after node `node` is colored, the colors of neighbours of an uncolored
/// node `x` colored before it are its saturation, and their number its length.
proof fn lemma_sat_set_now(pre: &Allocation, now: &Allocation, node: int, x: int)
    requires
        pre.inv(),
        pre.justified(),
        pre.saturated(pre.ig.len() as int),
        pre.ranked(),
        0 <= node < pre.ig.len(),
        0 <= x < pre.ig.len(),
        pre.colors@[node] is None,
        pre.colors@[x] is None,
        now.ig == pre.ig,
        now.colors@ == pre.colors@.update(node, Some(now.colors@[node]->0)),
        now.rank@ == pre.rank@.update(node, pre.steps@),
    ensures
        now.sat_set(x, node) == pre.sat@[x]@.to_set(),
        now.sat_set(x, node).len() == pre.sat@[x]@.len(),
{
    reveal(Allocation::justified);
    reveal(Allocation::ranked);
    let n = pre.ig.len();
    let st = pre.sat@[x]@;
    assert forall|c: i64| #[trigger] now.sat_set(x, node).contains(c) == st.to_set().contains(c) by {
        if st.contains(c) {
            let k = choose|k: int| 0 <= k < st.len() && st[k] == c;
            assert(pre.nb_colored(x, st[k]));
            let j = choose|j: int|
                0 <= j < pre.graph().len() && #[trigger] pre.graph().edges().contains((x, j)) && pre.color(j) == Some(c);
            assert(j != node);
            assert(pre.rank@[j] < pre.steps@);
            assert(now.before(j, node));
            assert(now.graph().edges().contains((x, j)));
        }
        if now.sat_set(x, node).contains(c) {
            let k = choose|k: int|
                0 <= k < now.graph().len() && #[trigger] now.graph().edges().contains((x, k)) && now.before(k, node)
                    && now.color(k) == Some(c);
            assert(k != node);
            assert(pre.ig.edges().contains((x, k)));
            assert(pre.sat@[x]@.contains(pre.colors@[k]->0));
        }
    }
    assert(now.sat_set(x, node) =~= st.to_set());
    st.unique_seq_to_set();
}

/// Picking the node of highest priority keeps the order.
#[verifier::rlimit(100)]
proof fn lemma_ordered_after_color(pre: &Allocation, now: &Allocation, node: int, c: i64)
    requires
        pre.inv(),
        pre.justified(),
        pre.saturated(pre.ig.len() as int),
        pre.ranked(),
        pre.ordered(),
        pre.ig.len() <= i32::MAX,
        0 <= node < pre.ig.len(),
        pre.colors@[node] is None,
        !(pre.ig.locs@[node]@ is Reg),
        forall|q: int| 0 <= q < pre.worklist@.len() ==> !pre.priority_less(node as usize, #[trigger] pre.worklist@[q]),
        now.ig == pre.ig,
        now.colors@ == pre.colors@.update(node, Some(c)),
        now.rank@ == pre.rank@.update(node, pre.steps@),
    ensures
        now.ordered(),
{
    reveal(Allocation::ordered);
    reveal(Allocation::ranked);
    let n = pre.ig.len();
    assert forall|i: int, j: int|
        0 <= i < n && 0 <= j < n && now.colors@[i] is Some && !(now.ig.locs@[i]@ is Reg) && !(now.ig.locs@[j]@ is Reg)
            && (now.colors@[j] is None || now.rank@[i] < now.rank@[j]) implies #[trigger] now.picked_first(i, j) by {
        if i == node {
            assert(j != node);
            assert(pre.colors@[j] is None) by {
                if pre.colors@[j] is Some {
                    assert(pre.rank@[j] < pre.steps@);
                }
            }
            assert(pre.worklist@.contains(j as usize));
            let q = choose|q: int| 0 <= q < pre.worklist@.len() && pre.worklist@[q] == j as usize;
            assert(!pre.priority_less(node as usize, pre.worklist@[q]));
            assert((node as usize) as int == node);
            assert((j as usize) as int == j);
            lemma_sat_set_now(pre, now, node, node);
            lemma_sat_set_now(pre, now, node, j);
            assert(now.sat_set(node, node).len() == pre.sat@[node]@.len());
            assert(now.sat_set(j, node).len() == pre.sat@[j]@.len());
            assert(now.graph().moves@[node]@.len() == pre.ig.moves@[node]@.len());
        } else {
            assert(pre.colors@[i] is Some);
            assert(pre.rank@[i] < pre.steps@);
            if j != node {
                assert(now.colors@[j] == pre.colors@[j]);
                assert(now.rank@[j] == pre.rank@[j]);
            }
            assert(pre.colors@[j] is None || pre.rank@[i] < pre.rank@[j]);
            assert(pre.picked_first(i, j));
            assert forall|k: int| 0 <= k < n implies #[trigger] now.before(k, i) == pre.before(k, i) by {
                if k != node {
                    assert(now.colors@[k] == pre.colors@[k]);
                    assert(now.rank@[k] == pre.rank@[k]);
                }
            }
            assert forall|k: int| 0 <= k < n && pre.before(k, i) implies #[trigger] now.color(k) == pre.color(k) by {
                if k != node {
                    assert(now.colors@[k] == pre.colors@[k]);
                }
            }
            assert(now.sat_set(i, i) =~= pre.sat_set(i, i));
            assert(now.sat_set(j, i) =~= pre.sat_set(j, i));
        }
    }
}

/// Adding color `c` to the preferences of node `p`, a move partner of `node`
/// that has neither, taking `prev` to `now`.
spec fn prefer_step(prev: Allocation, now: Allocation, p: int, c: i64, node: int, t: int, partners: Seq<usize>) -> bool {
    &&& prev.inv()
    &&& prev.justified()
    &&& prev.ranked()
    &&& prev.offered(node)
    &&& 0 <= node < prev.ig.len()
    &&& prev.colors@[node] == Some(c)
    &&& c >= 0
    &&& 0 <= t < partners.len()
    &&& partners == prev.ig.moves@[node]@
    &&& p == partners[t] as int
    &&& 0 <= p < prev.ig.len()
    &&& prev.colors@[p] is None
    &&& !prev.sat@[p]@.contains(c)
    &&& !prev.prefer@[p]@.contains(c)
    &&& forall|q: int| 0 <= q < t && (#[trigger] partners[q]) < prev.colors@.len() && prev.colors@[partners[q] as int] is None ==> prev.sat@[partners[q] as int]@.contains(c) || prev.prefer@[partners[q] as int]@.contains(c)
    &&& now.ig == prev.ig
    &&& now.colors@ == prev.colors@
    &&& now.sat@ == prev.sat@
    &&& now.worklist@ == prev.worklist@
    &&& now.rank@ == prev.rank@
    &&& now.steps@ == prev.steps@
    &&& now.prefer@ == prev.prefer@.update(p, now.prefer@[p])
    &&& now.prefer@[p]@ == prev.prefer@[p]@.push(c)
}

#[verifier::rlimit(100)]
proof fn lemma_prefer_inv(prev: &Allocation, now: &Allocation, p: int, c: i64, node: int, t: int, partners: Seq<usize>)
    requires
        prefer_step(*prev, *now, p, c, node, t, partners),
    ensures
        now.inv(),

{
    let before = prev.prefer@;
    assert forall|i: int, k: int| 0 <= i < now.ig.len() && 0 <= k < now.prefer@[i]@.len() implies #[trigger] now.prefer@[i]@[k] >= 0 by {
        if i != p || k < before[i]@.len() {
            assert(now.prefer@[i]@[k] == before[i]@[k]);
        }
    }
}

#[verifier::rlimit(100)]
proof fn lemma_prefer_justified(prev: &Allocation, now: &Allocation, p: int, c: i64, node: int, t: int, partners: Seq<usize>)
    requires
        prefer_step(*prev, *now, p, c, node, t, partners),
    ensures
        now.justified(),
        now.ranked(),

{
    reveal(Allocation::justified);
    reveal(Allocation::ranked);
    let before = prev.prefer@;
    lemma_same_colors(prev, now);
    lemma_same_rule(prev, now);
    assert(now.prefer@[p]@[now.prefer@[p]@.len() - 1] == c);
    assert(now.graph().moves@[node]@.contains(p as usize));
    assert(now.move_colored(p, c));
    assert forall|i: int, kk: int| 0 <= i < now.ig.len() && 0 <= kk < now.prefer@[i]@.len() implies now.move_colored(i, #[trigger] now.prefer@[i]@[kk]) by {
        if i != p || kk < before[i]@.len() {
            assert(now.prefer@[i]@[kk] == before[i]@[kk]);
        }
    }
}

#[verifier::rlimit(100)]
proof fn lemma_prefer_offered(prev: &Allocation, now: &Allocation, p: int, c: i64, node: int, t: int, partners: Seq<usize>)
    requires
        prefer_step(*prev, *now, p, c, node, t, partners),
    ensures
        now.offered(node),
        forall|q: int| 0 <= q < t + 1 && (#[trigger] partners[q]) < now.colors@.len() && now.colors@[partners[q] as int] is None
            ==> now.sat@[partners[q] as int]@.contains(c) || now.prefer@[partners[q] as int]@.contains(c),

{
    reveal(Allocation::offered);
    let before = prev.prefer@;
    assert(now.prefer@[p]@[now.prefer@[p]@.len() - 1] == c);
    assert forall|i: int, pp: int|
        0 <= i < now.ig.len() && 0 <= pp < now.ig.len() && pp != node && now.colors@[i] is None && now.colors@[pp] is Some
            && #[trigger] now.ig.moves@[pp]@.contains(i as usize) && now.colors@[pp]->0 >= 0
            implies now.sat@[i]@.contains(now.colors@[pp]->0) || now.prefer@[i]@.contains(now.colors@[pp]->0) by {
        let x = now.colors@[pp]->0;
        assert(prev.sat@[i]@.contains(x) || prev.prefer@[i]@.contains(x));
        if before[i]@.contains(x) {
            let tt = choose|tt: int| 0 <= tt < before[i]@.len() && before[i]@[tt] == x;
            assert(now.prefer@[i]@[tt] == x);
        }
    }
    assert forall|q: int| 0 <= q < t + 1 && (#[trigger] partners[q]) < now.colors@.len() && now.colors@[partners[q] as int] is None
        implies now.sat@[partners[q] as int]@.contains(c) || now.prefer@[partners[q] as int]@.contains(c) by {
        let w = partners[q] as int;
        if q < t && w != p {
            assert(now.prefer@[w] == before[w]);
        } else if q < t {
            if before[w]@.contains(c) {
                let tt = choose|tt: int| 0 <= tt < before[w]@.len() && before[w]@[tt] == c;
                assert(now.prefer@[w]@[tt] == c);
            }
        }
    }
}

/// The rule reads only the graph, the colors and the ranks.
proof fn lemma_same_rule(a: &Allocation, b: &Allocation)
    requires
        a.graph() == b.graph(),
        a.colors_seq() == b.colors_seq(),
        a.rank@ == b.rank@,
    ensures
        forall|i: int| #[trigger] b.chose_by_rule(i) == a.chose_by_rule(i),
{
    assert forall|j: int| #[trigger] b.color(j) == a.color(j) by {}
    assert forall|j: int, i: int| #[trigger] b.before(j, i) == a.before(j, i) by {}
    assert forall|i: int, x: i64| #[trigger] b.nb_before(i, x) == a.nb_before(i, x) by {}
    assert forall|i: int| #[trigger] b.pref_avail(i) == a.pref_avail(i) by {}
    assert forall|i: int| #[trigger] b.chose_by_rule(i) == a.chose_by_rule(i) by {
        if a.chose_by_rule(i) {
            if !a.pref_avail(i) {
                assert forall|x: i64| 0 <= x < b.color(i)->0 implies #[trigger] b.nb_before(i, x) by {
                    assert(a.nb_before(i, x));
                }
            }
        }
        if b.chose_by_rule(i) {
            if !b.pref_avail(i) {
                assert forall|x: i64| 0 <= x < a.color(i)->0 implies #[trigger] a.nb_before(i, x) by {
                    assert(b.nb_before(i, x));
                }
            }
        }
    }
}

/// What the rule says of node `i` carries over to a state that agrees on which
/// nodes came before `i` and on their colors.
proof fn lemma_rule_transfer(a: &Allocation, b: &Allocation, i: int)
    requires
        a.graph() == b.graph(),
        forall|j: int| 0 <= j < a.graph().len() ==> #[trigger] b.before(j, i) == a.before(j, i),
        forall|j: int| 0 <= j < a.graph().len() && a.before(j, i) ==> #[trigger] b.color(j) == a.color(j),
        b.color(i) == a.color(i),
        a.chose_by_rule(i),
    ensures
        b.chose_by_rule(i),
{
    assert forall|x: i64| #[trigger] b.nb_before(i, x) == a.nb_before(i, x) by {
        if a.nb_before(i, x) {
            let j = choose|j: int|
                0 <= j < a.graph().len() && #[trigger] a.graph().edges().contains((i, j)) && a.before(j, i) && a.color(j) == Some(x);
            assert(b.graph().edges().contains((i, j)));
        }
        if b.nb_before(i, x) {
            let j = choose|j: int|
                0 <= j < b.graph().len() && #[trigger] b.graph().edges().contains((i, j)) && b.before(j, i) && b.color(j) == Some(x);
            assert(a.graph().edges().contains((i, j)));
        }
    }
    if b.pref_avail(i) {
        let p = choose|p: int|
            0 <= p < b.graph().len() && #[trigger] b.graph().moves@[p]@.contains(i as usize) && b.before(p, i)
                && b.color(p)->0 >= 0 && !b.nb_before(i, b.color(p)->0);
        assert(a.graph().moves@[p]@.contains(i as usize));
        assert(a.pref_avail(i));
        let q = choose|q: int|
            0 <= q < a.graph().len() && #[trigger] a.graph().moves@[q]@.contains(i as usize) && a.before(q, i)
                && a.color(q) == a.color(i);
        assert(b.graph().moves@[q]@.contains(i as usize));
    } else {
        if a.pref_avail(i) {
            let p = choose|p: int|
                0 <= p < a.graph().len() && #[trigger] a.graph().moves@[p]@.contains(i as usize) && a.before(p, i)
                    && a.color(p)->0 >= 0 && !a.nb_before(i, a.color(p)->0);
            assert(b.graph().moves@[p]@.contains(i as usize));
            assert(b.pref_avail(i));
        }
        assert forall|x: i64| 0 <= x < b.color(i)->0 implies #[trigger] b.nb_before(i, x) by {
            assert(a.nb_before(i, x));
        }
    }
}

/// The node colored last followed the rule.
#[verifier::rlimit(100)]
proof fn lemma_rule_for_new(pre: &Allocation, now: &Allocation, node: int, c: i64)
    requires
        pre.inv(),
        pre.justified(),
        pre.saturated(pre.ig.len() as int),
        pre.ranked(),
        pre.offered(-1),
        0 <= node < pre.ig.len(),
        pre.colors@[node] is None,
        !(pre.ig.locs@[node]@ is Reg),
        is_chosen_color(pre.prefer@[node]@, pre.sat@[node]@, c),
        now.ig == pre.ig,
        now.sat@ == pre.sat@,
        now.prefer@ == pre.prefer@,
        now.colors@ == pre.colors@.update(node, Some(c)),
        now.rank@ == pre.rank@.update(node, pre.steps@),
        now.steps@ == pre.steps@ + 1,
    ensures
        now.chose_by_rule(node),
{
    reveal(Allocation::justified);
    reveal(Allocation::ranked);
    reveal(Allocation::offered);
    let n = pre.ig.len();
    let st = pre.sat@[node]@;
    let pf = pre.prefer@[node]@;
    // which nodes come before `node`: exactly those colored already
    assert forall|j: int| 0 <= j < n implies (#[trigger] now.before(j, node)) == pre.colors@[j] is Some by {
        if j != node && pre.colors@[j] is Some {
            assert(pre.rank@[j] < pre.steps@);
        }
    }
    // the colors of earlier neighbours are the saturation
    assert forall|x: i64| #[trigger] now.nb_before(node, x) == st.contains(x) by {
        if st.contains(x) {
            let k = choose|k: int| 0 <= k < st.len() && st[k] == x;
            assert(pre.nb_colored(node, st[k]));
            let j = choose|j: int|
                0 <= j < pre.graph().len() && #[trigger] pre.graph().edges().contains((node, j)) && pre.color(j) == Some(x);
            assert(now.graph().edges().contains((node, j)));
            assert(now.before(j, node));
        }
        if now.nb_before(node, x) {
            let j = choose|j: int|
                0 <= j < now.graph().len() && #[trigger] now.graph().edges().contains((node, j)) && now.before(j, node)
                    && now.color(j) == Some(x);
            assert(pre.ig.edges().contains((node, j)));
            assert(j != node);
            assert(pre.sat@[node]@.contains(pre.colors@[j]->0));
        }
    }
    // the rule for `node`
    assert(now.color(node) == Some(c));
    if now.pref_avail(node) {
        let p = choose|p: int|
            0 <= p < now.graph().len() && #[trigger] now.graph().moves@[p]@.contains(node as usize) && now.before(p, node)
                && now.color(p)->0 >= 0 && !now.nb_before(node, now.color(p)->0);
        assert(p != node);
        let x = pre.colors@[p]->0;
        assert(pre.ig.moves@[p]@.contains(node as usize));
        assert(!st.contains(x));
        assert(pf.contains(x));
        if !(exists|k: int| 0 <= k < pf.len() && pf[k] == c && forall|q: int| 0 <= q < k ==> st.contains(#[trigger] pf[q])) {
            let k = choose|k: int| 0 <= k < pf.len() && pf[k] == x;
            assert(st.contains(pf[k]));
        }
        let k = choose|k: int| 0 <= k < pf.len() && pf[k] == c && forall|q: int| 0 <= q < k ==> st.contains(#[trigger] pf[q]);
        assert(pre.move_colored(node, pre.prefer@[node]@[k]));
        let q = choose|q: int|
            0 <= q < pre.graph().len() && #[trigger] pre.graph().moves@[q]@.contains(node as usize) && pre.color(q) == Some(c);
        assert(now.graph().moves@[q]@.contains(node as usize));
        assert(now.before(q, node));
    } else {
        if exists|k: int| 0 <= k < pf.len() && pf[k] == c && forall|q: int| 0 <= q < k ==> st.contains(#[trigger] pf[q]) {
            let k = choose|k: int| 0 <= k < pf.len() && pf[k] == c && forall|q: int| 0 <= q < k ==> st.contains(#[trigger] pf[q]);
            assert(pre.move_colored(node, pre.prefer@[node]@[k]));
            let q = choose|q: int|
                0 <= q < pre.graph().len() && #[trigger] pre.graph().moves@[q]@.contains(node as usize) && pre.color(q) == Some(c);
            assert(now.graph().moves@[q]@.contains(node as usize));
            assert(now.before(q, node));
            assert(!now.nb_before(node, c));
            assert(now.pref_avail(node));
        }
        assert forall|x: i64| 0 <= x < now.color(node)->0 implies #[trigger] now.nb_before(node, x) by {
            assert(st.contains(x));
        }
    }
    assert(now.chose_by_rule(node));
}

/// Coloring one more node by the rule keeps the ranks and the rule.
#[verifier::rlimit(100)]
proof fn lemma_rank_after_color(pre: &Allocation, now: &Allocation, node: int, c: i64)
    requires
        pre.inv(),
        pre.justified(),
        pre.saturated(pre.ig.len() as int),
        pre.ranked(),
        pre.offered(-1),
        0 <= node < pre.ig.len(),
        pre.colors@[node] is None,
        !(pre.ig.locs@[node]@ is Reg),
        is_chosen_color(pre.prefer@[node]@, pre.sat@[node]@, c),
        now.ig == pre.ig,
        now.sat@ == pre.sat@,
        now.prefer@ == pre.prefer@,
        now.colors@ == pre.colors@.update(node, Some(c)),
        now.rank@ == pre.rank@.update(node, pre.steps@),
        now.steps@ == pre.steps@ + 1,
    ensures
        now.ranked(),
        now.offered(node),
{
    reveal(Allocation::justified);
    reveal(Allocation::ranked);
    reveal(Allocation::offered);
    let n = pre.ig.len();
    let st = pre.sat@[node]@;
    let pf = pre.prefer@[node]@;
    lemma_rule_for_new(pre, now, node, c);
    // the rule for earlier nodes
    assert forall|i: int| 0 <= i < n && (#[trigger] now.colors@[i]) is Some && !(now.ig.locs@[i]@ is Reg) implies now.rank@[i] >= 0
        && now.chose_by_rule(i) by {
        if i != node {
            assert(pre.colors@[i] is Some);
            assert(pre.chose_by_rule(i));
            assert forall|j: int| 0 <= j < n implies #[trigger] now.before(j, i) == pre.before(j, i) by {
                assert(pre.rank@[i] < pre.steps@);
                if j != node {
                    assert(now.colors@[j] == pre.colors@[j]);
                    assert(now.rank@[j] == pre.rank@[j]);
                }
            }
            assert forall|j: int| 0 <= j < n && pre.before(j, i) implies #[trigger] now.color(j) == pre.color(j) by {
                if j != node {
                    assert(now.colors@[j] == pre.colors@[j]);
                }
            }
            lemma_rule_transfer(pre, now, i);
        }
    }
    assert forall|i: int| 0 <= i < n && (#[trigger] now.colors@[i]) is Some implies now.rank@[i] < now.steps@ by {
        if i != node {
            assert(pre.colors@[i] is Some);
        }
    }
    assert forall|i: int| 0 <= i < n && (#[trigger] now.ig.locs@[i]@) is Reg implies now.rank@[i] == -1 by {
        assert(i != node);
    }
}

/// Coloring one more node by the rule keeps the choices justified.
proof fn lemma_justified_after_color(pre: &Allocation, now: &Allocation, node: int, c: i64)
    requires
        pre.justified(),
        pre.colors@.len() == pre.ig.len(),
        pre.sat@.len() == pre.ig.len(),
        pre.prefer@.len() == pre.ig.len(),
        0 <= node < pre.ig.len(),
        pre.colors@[node] is None,
        now.ig == pre.ig,
        now.sat@ == pre.sat@,
        now.prefer@ == pre.prefer@,
        now.colors@ == pre.colors@.update(node, Some(c)),
        is_chosen_color(pre.prefer@[node]@, pre.sat@[node]@, c),
    ensures
        now.justified(),
{
    reveal(Allocation::justified);
    reveal(Allocation::ranked);
    reveal(Allocation::offered);
    let n = pre.ig.len();
    assert forall|j: int| 0 <= j < pre.graph().len() && (#[trigger] pre.color(j)) is Some implies now.color(j) == pre.color(j) by {
        assert(j != node);
    }
    assert forall|i: int, k: int| 0 <= i < n && 0 <= k < now.sat@[i]@.len() implies now.nb_colored(i, #[trigger] now.sat@[i]@[k]) by {
        lemma_colored_grows(pre, now, i, pre.sat@[i]@[k]);
    }
    assert forall|i: int, k: int| 0 <= i < n && 0 <= k < now.prefer@[i]@.len() implies now.move_colored(i, #[trigger] now.prefer@[i]@[k]) by {
        lemma_colored_grows(pre, now, i, pre.prefer@[i]@[k]);
    }
    assert forall|i: int| 0 <= i < n && (#[trigger] now.colors@[i]) is Some && !(now.ig.locs@[i]@ is Reg) implies now.colored_by_rule(i) by {
        if i == node {
            assert(now.color(i) == Some(c));
            let pf = pre.prefer@[node]@;
            let st = pre.sat@[node]@;
            if exists|k: int| 0 <= k < pf.len() && pf[k] == c && forall|q: int| 0 <= q < k ==> st.contains(#[trigger] pf[q]) {
                let k = choose|k: int| 0 <= k < pf.len() && pf[k] == c && forall|q: int| 0 <= q < k ==> st.contains(#[trigger] pf[q]);
                assert(pre.move_colored(node, pre.prefer@[node]@[k]));
                lemma_colored_grows(pre, now, node, c);
            } else {
                assert forall|x: i64| 0 <= x < now.color(i)->0 implies #[trigger] now.nb_colored(i, x) by {
                    assert(st.contains(x));
                    let k = choose|k: int| 0 <= k < st.len() && st[k] == x;
                    assert(pre.nb_colored(node, pre.sat@[node]@[k]));
                    lemma_colored_grows(pre, now, node, x);
                }
            }
        } else {
            assert(pre.colors@[i] is Some);
            assert(pre.colored_by_rule(i));
            assert(now.color(i) == pre.color(i));
            lemma_colored_grows(pre, now, i, pre.color(i)->0);
            if !pre.move_colored(i, pre.color(i)->0) {
                assert forall|x: i64| 0 <= x < now.color(i)->0 implies #[trigger] now.nb_colored(i, x) by {
                    assert(pre.nb_colored(i, x));
                    lemma_colored_grows(pre, now, i, x);
                }
            }
        }
    }
}

/// Once colored, a node keeps its color; so what was said of colored nodes stays true.
proof fn lemma_colored_grows(a: &Allocation, b: &Allocation, i: int, x: i64)
    requires
        a.graph() == b.graph(),
        a.colors_seq().len() == a.graph().len(),
        b.colors_seq().len() == b.graph().len(),
        forall|j: int| 0 <= j < a.graph().len() && (#[trigger] a.color(j)) is Some ==> b.color(j) == a.color(j),
    ensures
        a.nb_colored(i, x) ==> b.nb_colored(i, x),
        a.move_colored(i, x) ==> b.move_colored(i, x),
{
    if a.nb_colored(i, x) {
        let j = choose|j: int| 0 <= j < a.graph().len() && #[trigger] a.graph().edges().contains((i, j)) && a.color(j) == Some(x);
        assert(b.graph().edges().contains((i, j)));
    }
    if a.move_colored(i, x) {
        let p = choose|p: int| 0 <= p < a.graph().len() && #[trigger] a.graph().moves@[p]@.contains(i as usize) && a.color(p) == Some(x);
        assert(b.graph().moves@[p]@.contains(i as usize));
    }
}

/// The rule predicates read only the graph and the colors.
proof fn lemma_same_colors(a: &Allocation, b: &Allocation)
    requires
        a.graph() == b.graph(),
        a.colors_seq() == b.colors_seq(),
    ensures
        forall|i: int, x: i64| #[trigger] b.nb_colored(i, x) == a.nb_colored(i, x),
        forall|i: int, x: i64| #[trigger] b.move_colored(i, x) == a.move_colored(i, x),
        forall|i: int| #[trigger] b.colored_by_rule(i) == a.colored_by_rule(i),
{
    assert forall|j: int| #[trigger] b.color(j) == a.color(j) by {}
    assert forall|i: int, x: i64| #[trigger] b.nb_colored(i, x) == a.nb_colored(i, x) by {}
    assert forall|i: int, x: i64| #[trigger] b.move_colored(i, x) == a.move_colored(i, x) by {}
    assert forall|i: int| #[trigger] b.colored_by_rule(i) == a.colored_by_rule(i) by {
        assert(b.color(i) == a.color(i));
        assert(b.move_colored(i, b.color(i)->0) == a.move_colored(i, a.color(i)->0));
        if forall|x: i64| 0 <= x < b.color(i)->0 ==> #[trigger] b.nb_colored(i, x) {
            assert forall|x: i64| 0 <= x < a.color(i)->0 implies #[trigger] a.nb_colored(i, x) by {
                assert(b.nb_colored(i, x));
            }
        }
        if forall|x: i64| 0 <= x < a.color(i)->0 ==> #[trigger] a.nb_colored(i, x) {
            assert forall|x: i64| 0 <= x < b.color(i)->0 implies #[trigger] b.nb_colored(i, x) by {
                assert(a.nb_colored(i, x));
            }
        }
    }
}

fn copy_nodes(v: &Vec<usize>) -> (r: Vec<usize>)
    ensures
        r@ == v@,
{
    let mut r: Vec<usize> = Vec::new();
    let mut i: usize = 0;
    while i < v.len()
        invariant
            i <= v@.len(),
            r@ == v@.take(i as int),
        decreases v.len() - i,
    {
        r.push(v[i]);
        i = i + 1;
        assert(r@ =~= v@.take(i as int));
    }
    assert(v@.take(i as int) =~= v@);
    r
}

/// Whether `c` is the color a node takes: the first of its preferred colors that
/// no neighbour has, or else the least non-negative such color.
pub open spec fn is_chosen_color(prefer: Seq<i64>, sat: Seq<i64>, c: i64) -> bool {
    &&& !sat.contains(c)
    &&& c >= 0
    &&& (exists|k: int|
        0 <= k < prefer.len() && prefer[k] == c && forall|q: int| 0 <= q < k ==> sat.contains(#[trigger] prefer[q]))
        || ((forall|q: int| 0 <= q < prefer.len() ==> sat.contains(#[trigger] prefer[q])) && forall|x: i64|
        0 <= x < c ==> sat.contains(x))
}

/// Colors the nodes of an interference graph and maps each location to a home.
pub struct Allocation {
    ig: Interference,
    colors: Vec<Option<i64>>,
    /// For an uncolored node, the distinct colors of its colored neighbours.
    sat: Vec<Vec<i64>>,
    /// For an uncolored node, colors of move partners that it may still take.
    prefer: Vec<Vec<i64>>,
    /// The uncolored nodes.
    worklist: Vec<usize>,
    /// The step at which each node was colored; register nodes come first.
    rank: Ghost<Seq<int>>,
    /// How many nodes the coloring loop has colored.
    steps: Ghost<int>,
}

impl Allocation {
    pub closed spec fn graph(&self) -> Interference {
        self.ig
    }

    pub closed spec fn color(&self, i: int) -> Option<i64> {
        self.colors@[i]
    }

    /// The color of each node, in node order.
    pub closed spec fn colors_seq(&self) -> Seq<Option<i64>> {
        self.colors@
    }

    /// No two neighbours carry the same color.
    pub open spec fn proper(&self) -> bool {
        forall|i: int, j: int|
            #[trigger] self.graph().edges().contains((i, j)) && self.color(i) is Some && self.color(j) is Some
                ==> self.color(i) != self.color(j)
    }

    /// Every register node carries its register's fixed color.
    pub open spec fn precolored(&self) -> bool {
        forall|i: int|
            0 <= i < self.graph().len() && (#[trigger] self.graph().locs@[i]@) is Reg ==> self.color(i)
                == Some(reg_color(self.graph().locs@[i]@->Reg_0))
    }

    pub closed spec fn inv(&self) -> bool {
        let n = self.ig.len();
        &&& self.ig.wf()
        &&& self.colors@.len() == n
        &&& self.sat@.len() == n
        &&& self.prefer@.len() == n
        &&& forall|k: int| 0 <= k < self.worklist@.len() ==> #[trigger] self.worklist@[k] < n
        &&& forall|a: int, b: int|
            0 <= a < self.worklist@.len() && 0 <= b < self.worklist@.len() && a != b ==> self.worklist@[a]
                != self.worklist@[b]
        &&& forall|i: int| 0 <= i < n ==> ((#[trigger] self.colors@[i]) is None <==> self.worklist@.contains(i as usize))
        &&& self.proper()
        &&& self.precolored()
        &&& forall|i: int|
            0 <= i < n && #[trigger] self.colors@[i] is Some && !(self.ig.locs@[i]@ is Reg) ==> self.colors@[i]->0 >= 0
        &&& forall|i: int|
            0 <= i < n && #[trigger] self.colors@[i] is Some ==> -5 <= self.colors@[i]->0
        &&& forall|i: int, k: int| 0 <= i < n && 0 <= k < self.prefer@[i]@.len() ==> #[trigger] self.prefer@[i]@[k] >= 0
    }

    /// The worklist order: saturation first, then the number of move partners.
    pub closed spec fn priority_less(&self, a: usize, b: usize) -> bool {
        self.sat@[a as int]@.len() < self.sat@[b as int]@.len() || (self.sat@[a as int]@.len()
            == self.sat@[b as int]@.len() && self.ig.moves@[a as int]@.len() < self.ig.moves@[b as int]@.len())
    }

    /// The home that color `c` stands for, given where each spilled color lives.
    pub open spec fn home_of_color(c: i64, slots: Seq<(i64, Arg)>) -> ArgView {
        if c < NUM_REG_COLORS {
            ArgView::Reg(reg_of_color_spec(c))
        } else {
            slot_of(slots, c)
        }
    }

    /// The step at which node `i` was colored; register nodes have -1.
    pub closed spec fn rank(&self, i: int) -> int {
        self.rank@[i]
    }

    /// Node `j` was colored before node `i` was.
    pub open spec fn before(&self, j: int, i: int) -> bool {
        self.color(j) is Some && self.rank(j) < self.rank(i)
    }

    /// Some neighbour of node `i` colored before it carries color `x`.
    pub open spec fn nb_before(&self, i: int, x: i64) -> bool {
        exists|j: int|
            0 <= j < self.graph().len() && #[trigger] self.graph().edges().contains((i, j)) && self.before(j, i)
                && self.color(j) == Some(x)
    }

    /// When node `i` was colored, some node moved into it already had a
    /// non-negative color that no neighbour of `i` had.
    pub open spec fn pref_avail(&self, i: int) -> bool {
        exists|p: int|
            0 <= p < self.graph().len() && #[trigger] self.graph().moves@[p]@.contains(i as usize) && self.before(p, i)
                && self.color(p)->0 >= 0 && !self.nb_before(i, self.color(p)->0)
    }

    /// The move-biased rule, as it stood when node `i` was colored: a register
    /// color, non-negative; the color of an earlier move partner when one is free;
    /// otherwise the least color that no earlier neighbour has.
    pub open spec fn chose_by_rule(&self, i: int) -> bool {
        &&& self.color(i)->0 >= 0
        &&& self.pref_avail(i) ==> exists|p: int|
            0 <= p < self.graph().len() && #[trigger] self.graph().moves@[p]@.contains(i as usize) && self.before(p, i)
                && self.color(p) == self.color(i)
        &&& !self.pref_avail(i) ==> forall|x: i64| 0 <= x < self.color(i)->0 ==> #[trigger] self.nb_before(i, x)
    }

    /// The colors that neighbours of node `x` colored before node `i` carry.
    pub open spec fn sat_set(&self, x: int, i: int) -> Set<i64> {
        Set::new(
            |c: i64|
                exists|k: int|
                    0 <= k < self.graph().len() && #[trigger] self.graph().edges().contains((x, k)) && self.before(k, i)
                        && self.color(k) == Some(c),
        )
    }

    /// When node `i` was picked, node `j` did not rank above it: it had no more
    /// distinct neighbour colors, or as many and no more move partners.
    pub open spec fn picked_first(&self, i: int, j: int) -> bool {
        !(self.sat_set(i, i).len() < self.sat_set(j, i).len() || (self.sat_set(i, i).len() == self.sat_set(j, i).len()
            && self.graph().moves@[i]@.len() < self.graph().moves@[j]@.len()))
    }

    /// Every variable was picked ahead of every variable colored after it.
    #[verifier::opaque]
    pub closed spec fn ordered(&self) -> bool {
        let n = self.ig.len();
        forall|i: int, j: int|
            0 <= i < n && 0 <= j < n && self.colors@[i] is Some && !(self.ig.locs@[i]@ is Reg) && !(self.ig.locs@[j]@ is Reg)
                && (self.colors@[j] is None || self.rank@[i] < self.rank@[j]) ==> #[trigger] self.picked_first(i, j)
    }

    /// Ranks order the coloring, and every colored variable followed the rule.
    #[verifier::opaque]
    pub closed spec fn ranked(&self) -> bool {
        let n = self.ig.len();
        &&& self.rank@.len() == n
        &&& self.steps@ >= 0
        &&& forall|i: int| 0 <= i < n && (#[trigger] self.colors@[i]) is Some ==> self.rank@[i] < self.steps@
        &&& forall|i: int| 0 <= i < n && (#[trigger] self.ig.locs@[i]@) is Reg ==> self.rank@[i] == -1
        &&& forall|i: int| 0 <= i < n && (#[trigger] self.colors@[i]) is Some && !(self.ig.locs@[i]@ is Reg) ==> self.rank@[i] >= 0
            && self.chose_by_rule(i)
    }

    /// A colored node moved into an uncolored one leaves its color in that
    /// node's saturation or preferences (but for node `skip`).
    #[verifier::opaque]
    pub closed spec fn offered(&self, skip: int) -> bool {
        let n = self.ig.len();
        forall|i: int, p: int|
            0 <= i < n && 0 <= p < n && p != skip && self.colors@[i] is None && self.colors@[p] is Some
                && #[trigger] self.ig.moves@[p]@.contains(i as usize) && self.colors@[p]->0 >= 0
                ==> self.sat@[i]@.contains(self.colors@[p]->0) || self.prefer@[i]@.contains(self.colors@[p]->0)
    }

    /// Some neighbour of node `i` carries color `x`.
    pub open spec fn nb_colored(&self, i: int, x: i64) -> bool {
        exists|j: int| 0 <= j < self.graph().len() && #[trigger] self.graph().edges().contains((i, j)) && self.color(j) == Some(x)
    }

    /// Some node that is moved into node `i` carries color `x`.
    pub open spec fn move_colored(&self, i: int, x: i64) -> bool {
        exists|p: int| 0 <= p < self.graph().len() && #[trigger] self.graph().moves@[p]@.contains(i as usize) && self.color(p) == Some(x)
    }

    /// Node `i` took a color by the move-biased rule: the color of a move partner
    /// that no neighbour has, or else the least color that no neighbour had when it
    /// was chosen, so every smaller color is a neighbour's.
    pub open spec fn colored_by_rule(&self, i: int) -> bool {
        self.move_colored(i, self.color(i)->0) || forall|x: i64| 0 <= x < self.color(i)->0 ==> #[trigger] self.nb_colored(i, x)
    }

    /// Saturation entries are neighbours' colors, preferred colors are move
    /// partners' colors, and every colored variable followed the rule.
    #[verifier::opaque]
    pub closed spec fn justified(&self) -> bool {
        let n = self.ig.len();
        &&& forall|i: int, k: int| 0 <= i < n && 0 <= k < self.sat@[i]@.len() ==> self.nb_colored(i, #[trigger] self.sat@[i]@[k])
        &&& forall|i: int| 0 <= i < n ==> (#[trigger] self.sat@[i])@.no_duplicates()
        &&& forall|i: int, k: int| 0 <= i < n && 0 <= k < self.prefer@[i]@.len() ==> self.move_colored(i, #[trigger] self.prefer@[i]@[k])
        &&& forall|i: int| 0 <= i < n && (#[trigger] self.colors@[i]) is Some && !(self.ig.locs@[i]@ is Reg) ==> self.colored_by_rule(i)
    }

    /// For every edge whose second node is colored (and, during set-up, among
    /// the first `upto` nodes), the first node, if uncolored, knows that color.
    pub closed spec fn saturated(&self, upto: int) -> bool {
        forall|i: int, j: int|
            #[trigger] self.ig.edges().contains((i, j)) && self.colors@[i] is None && self.colors@[j] is Some
                && j < upto ==> self.sat@[i]@.contains(self.colors@[j]->0)
    }
}

impl Allocation {
    /// Sets up the coloring: every register node takes its fixed color, every
    /// other node waits in the worklist.
    pub fn new(ig: Interference) -> (r: Self)
        requires
            ig.wf(),
        ensures
            r.ready(),
            r.graph() == ig,
            r.precolored(),
            r.proper(),
    {
        proof {
            reveal(Allocation::justified);
            reveal(Allocation::ranked);
            reveal(Allocation::offered);
        }
        let n = ig.locs.len();
        let mut colors: Vec<Option<i64>> = Vec::new();
        let mut sat: Vec<Vec<i64>> = Vec::new();
        let mut prefer: Vec<Vec<i64>> = Vec::new();
        let mut worklist: Vec<usize> = Vec::new();
        let mut i: usize = 0;
        while i < n
            invariant
                n == ig.locs@.len(),
                i <= n,
                colors@.len() == i,
                sat@.len() == i,
                prefer@.len() == i,
                forall|k: int| 0 <= k < sat@.len() ==> (#[trigger] sat@[k])@.len() == 0,
                forall|k: int| 0 <= k < prefer@.len() ==> (#[trigger] prefer@[k])@.len() == 0,
                forall|k: int| 0 <= k < worklist@.len() ==> #[trigger] worklist@[k] < i,
                forall|a: int, b: int|
                    0 <= a < b < worklist@.len() ==> worklist@[a] < worklist@[b],
                forall|k: int| 0 <= k < i ==> ((#[trigger] colors@[k]) is None <==> worklist@.contains(k as usize)),
                forall|k: int|
                    0 <= k < i ==> ((ig.locs@[k]@ is Reg) ==> #[trigger] colors@[k] == Some(
                        reg_color(ig.locs@[k]@->Reg_0),
                    )) && (!(ig.locs@[k]@ is Reg) ==> colors@[k] is None),
            decreases n - i,
        {
            let ghost wl = worklist@;
            match &ig.locs[i] {
                Arg::Reg(r) => {
                    colors.push(Some(color_of_reg(*r)));
                },
                _ => {
                    colors.push(None);
                    worklist.push(i);
                },
            }
            sat.push(Vec::new());
            prefer.push(Vec::new());
            proof {
                reveal(Allocation::justified);
                reveal(Allocation::ranked);
                reveal(Allocation::offered);
                assert forall|k: int| 0 <= k < i + 1 implies ((#[trigger] colors@[k]) is None <==> worklist@.contains(k as usize)) by {
                    if k < i {
                        if worklist@.contains(k as usize) {
                            let q = choose|q: int| 0 <= q < worklist@.len() && worklist@[q] == k as usize;
                            if q < wl.len() {
                                assert(wl[q] == k as usize);
                            }
                        }
                        if wl.contains(k as usize) {
                            let q = choose|q: int| 0 <= q < wl.len() && wl[q] == k as usize;
                            assert(worklist@[q] == k as usize);
                        }
                    } else {
                        if worklist@.contains(k as usize) {
                            let q = choose|q: int| 0 <= q < worklist@.len() && worklist@[q] == k as usize;
                            if q < wl.len() {
                                assert(wl[q] < i);
                            }
                        }
                        if colors@[k] is None {
                            assert(worklist@[worklist@.len() - 1] == i);
                        }
                    }
                }
            }
            i = i + 1;
        }
        let ghost ranks = Seq::new(n as nat, |i: int| -1int);
        let mut me = Allocation { ig, colors, sat, prefer, worklist, rank: Ghost(ranks), steps: Ghost(0) };
        proof {
                reveal(Allocation::justified);
                reveal(Allocation::ranked);
                reveal(Allocation::offered);
            assert forall|a: int, b: int|
                #[trigger] me.ig.edges().contains((a, b)) && me.colors@[a] is Some && me.colors@[b] is Some implies me.colors@[a]
                != me.colors@[b] by {
                lemma_reg_color_injective(me.ig.locs@[a]@->Reg_0, me.ig.locs@[b]@->Reg_0);
            }
            assert forall|a: int, b: int|
                0 <= a < me.worklist@.len() && 0 <= b < me.worklist@.len() && a != b implies me.worklist@[a]
                != me.worklist@[b] by {
                if a < b {
                    assert(me.worklist@[a] < me.worklist@[b]);
                } else {
                    assert(me.worklist@[b] < me.worklist@[a]);
                }
            }
            assert(me.inv());
            assert forall|i: int| 0 <= i < n implies #[trigger] me.sat@[i]@.len() <= 0 by {
                assert(me.sat@[i]@.len() == 0);
            }
            assert forall|i: int| 0 <= i < n && (#[trigger] me.colors@[i]) is Some && !(me.ig.locs@[i]@ is Reg) implies me.colored_by_rule(i) by {
            }
            assert(me.justified());
            assert forall|i: int| 0 <= i < n && (#[trigger] me.colors@[i]) is Some implies me.rank@[i] < me.steps@ by {}
            assert forall|i: int| 0 <= i < n && (#[trigger] me.ig.locs@[i]@) is Reg implies me.rank@[i] == -1 by {}
            assert(me.ranked());
            assert forall|i: int, p: int|
                0 <= i < n && 0 <= p < n && p != -1 && me.colors@[i] is None && me.colors@[p] is Some
                    && #[trigger] me.ig.moves@[p]@.contains(i as usize) && me.colors@[p]->0 >= 0
                    implies me.sat@[i]@.contains(me.colors@[p]->0) || me.prefer@[i]@.contains(me.colors@[p]->0) by {
                assert(me.ig.moves@[p]@.len() > 0);
            }
            assert(me.offered(-1));
            reveal(Allocation::ordered);
            assert(me.ordered());
        }
        let mut j: usize = 0;
        while j < n
            invariant
                n == me.ig.locs@.len(),
                j <= n,
                me.inv(),
                me.ig == ig,
                me.saturated(j as int),
                forall|i: int| 0 <= i < n ==> #[trigger] me.sat@[i]@.len() <= j,
                me.justified(),
                me.ranked(),
                me.offered(-1),
                me.ordered(),
                me.rank@.len() == n,
            decreases n - j,
        {
            let ghost prev = me;
            match me.colors[j] {
                Some(c) => {
                    proof {
                        lemma_offered_weaken(&me, j as int);
                    }
                    let ghost before_update = me;
                    me.update_saturation(j, c);
                    proof {
                        lemma_same_order(&before_update, &me);
                    }
                },
                None => {},
            }
            proof {
                reveal(Allocation::justified);
                reveal(Allocation::ranked);
                reveal(Allocation::offered);
                assert forall|a: int, b: int|
                    #[trigger] me.ig.edges().contains((a, b)) && me.colors@[a] is None && me.colors@[b] is Some
                        && b < j + 1 implies me.sat@[a]@.contains(me.colors@[b]->0) by {
                    if b < j {
                        assert(prev.sat@[a]@.contains(prev.colors@[b]->0));
                    }
                }
            }
            j = j + 1;
        }
        me
    }

    /// Set up and ready to color.
    pub closed spec fn ready(&self) -> bool {
        &&& self.inv()
        &&& self.justified()
        &&& self.ranked()
        &&& self.offered(-1)
        &&& self.ordered()
        &&& self.saturated(self.ig.len() as int)
        &&& forall|i: int| 0 <= i < self.ig.len() ==> #[trigger] self.sat@[i]@.len() <= self.ig.len()
    }

    /// Colors the graph, then gives each location a home: the register of its
    /// color, or a stack slot shared by the locations of one spilled color.
    /// Returns the homes, node by node, and the frame with the callee-saved
    /// registers that were handed out and the spill slots.
    pub fn color_graph(&mut self) -> (r: (Vec<(Arg, Arg)>, Frame))
        requires
            old(self).ready(),
            8 * old(self).graph().len() + 64 <= i32::MAX,
        ensures
            final(self).graph() == old(self).graph(),
            forall|i: int| 0 <= i < final(self).graph().len() ==> #[trigger] final(self).color(i) is Some,
            final(self).proper(),
            final(self).precolored(),
            r.1.wf(),
            r.0@.len() == final(self).graph().len(),
            forall|k: int| 0 <= k < r.0@.len() ==> (#[trigger] r.0@[k]).0@ == final(self).graph().locs@[k]@,
            forall|k: int|
                0 <= k < r.0@.len() && final(self).color(k)->0 < NUM_REG_COLORS ==> (#[trigger] r.0@[k]).1@
                    == ArgView::Reg(reg_of_color_spec(final(self).color(k)->0)),
            forall|k: int|
                0 <= k < r.0@.len() && final(self).color(k)->0 >= NUM_REG_COLORS ==> (#[trigger] r.0@[k]).1@ is Deref,
            forall|i: int, j: int|
                #[trigger] final(self).graph().edges().contains((i, j)) ==> r.0@[i].1@ != r.0@[j].1@,
            forall|reg: Reg|
                r.1.saved_callee@.contains(reg) <==> (callee_saved_spec().contains(reg) && reg_color(reg) >= 0
                    && exists|i: int| 0 <= i < final(self).graph().len() && final(self).color(i) == Some(reg_color(reg))),
            r.1.real_size == 8 * r.1.saved_callee@.len() + 8 * spilled_colors(final(self).colors_seq()).len(),
            forall|i: int|
                0 <= i < final(self).graph().len() && !(final(self).graph().locs@[i]@ is Reg) ==> #[trigger] final(self).colored_by_rule(i),
            forall|i: int|
                0 <= i < final(self).graph().len() && !(final(self).graph().locs@[i]@ is Reg) ==> #[trigger] final(self).chose_by_rule(i)
                    && final(self).color(i)->0 >= 0,
            forall|i: int, j: int|
                0 <= i < final(self).graph().len() && 0 <= j < final(self).graph().len() && !(final(self).graph().locs@[i]@ is Reg)
                    && !(final(self).graph().locs@[j]@ is Reg) && final(self).before(i, j) ==> #[trigger] final(self).picked_first(i, j),
            forall|k: int|
                0 <= k < r.0@.len() && final(self).color(k)->0 >= NUM_REG_COLORS ==> (#[trigger] r.0@[k]).1@->Deref_0
                    == Reg::Rbp && r.0@[k].1@->Deref_1 < 0,
            forall|i: int, j: int|
                0 <= i < r.0@.len() && 0 <= j < r.0@.len() && final(self).color(i)->0 >= NUM_REG_COLORS
                    && final(self).color(j)->0 >= NUM_REG_COLORS ==> (#[trigger] r.0@[i].1@ == #[trigger] r.0@[j].1@
                    <==> final(self).color(i) == final(self).color(j)),
    {
        proof {
            reveal(Allocation::justified);
            reveal(Allocation::ranked);
            reveal(Allocation::offered);
        }
        self.color_nodes();
        let n = self.ig.locs.len();
        let candidates = vec![Reg::Rbx, Reg::R12, Reg::R13, Reg::R14];
        let mut used: Vec<Reg> = Vec::new();
        let mut t: usize = 0;
        assert(candidates@ =~= seq![Reg::Rbx, Reg::R12, Reg::R13, Reg::R14]);
        while t < candidates.len()
            invariant
                used@.len() <= t <= candidates@.len() == 4,
                candidates@ == seq![Reg::Rbx, Reg::R12, Reg::R13, Reg::R14],
                n == self.colors@.len(),
                used@.no_duplicates(),
                forall|reg: Reg|
                    used@.contains(reg) <==> (candidates@.take(t as int).contains(reg) && exists|i: int|
                        0 <= i < n && self.colors@[i] == Some(reg_color(reg))),
            decreases candidates.len() - t,
        {
            let want = color_of_reg(candidates[t]);
            let mut found = false;
            let mut i: usize = 0;
            while i < n
                invariant
                    n == self.colors@.len(),
                    i <= n,
                    found == exists|q: int| 0 <= q < i && self.colors@[q] == Some(want),
                decreases n - i,
            {
                if self.colors[i] == Some(want) {
                    found = true;
                }
                i = i + 1;
            }
            let ghost before = used@;
            if found {
                used.push(candidates[t]);
            }
            proof {
                reveal(Allocation::justified);
                reveal(Allocation::ranked);
                reveal(Allocation::offered);
                let c = candidates@[t as int];
                assert(candidates@.take(t + 1) =~= candidates@.take(t as int).push(c));
                assert(!candidates@.take(t as int).contains(c));
                if found {
                    assert forall|a: int, b: int| 0 <= a < b < used@.len() implies used@[a] != used@[b] by {
                        if b == before.len() {
                            assert(before.contains(used@[a]));
                        }
                    }
                }
                assert(used@.contains(c) <==> found) by {
                    if found {
                        assert(used@[used@.len() - 1] == c);
                    } else {
                        assert(!before.contains(c));
                    }
                }
                assert forall|reg: Reg| used@.contains(reg) <==> (candidates@.take(t + 1).contains(reg) && exists|i: int|
                    0 <= i < n && self.colors@[i] == Some(reg_color(reg))) by {
                    if reg == c {
                        assert(candidates@.take(t + 1)[t as int] == c);
                    } else {
                        assert(used@.contains(reg) <==> before.contains(reg)) by {
                            if before.contains(reg) {
                                let q = choose|q: int| 0 <= q < before.len() && before[q] == reg;
                                assert(used@[q] == reg);
                            }
                            if used@.contains(reg) {
                                let q = choose|q: int| 0 <= q < used@.len() && used@[q] == reg;
                                if q < before.len() {
                                    assert(before[q] == reg);
                                }
                            }
                        }
                        assert(candidates@.take(t + 1).contains(reg) <==> candidates@.take(t as int).contains(reg)) by {
                            if candidates@.take(t + 1).contains(reg) {
                                let q = choose|q: int| 0 <= q < t + 1 && #[trigger] candidates@.take(t + 1)[q] == reg;
                                assert(candidates@.take(t as int)[q] == reg);
                            }
                            if candidates@.take(t as int).contains(reg) {
                                let q = choose|q: int| 0 <= q < t && #[trigger] candidates@.take(t as int)[q] == reg;
                                assert(candidates@.take(t + 1)[q] == reg);
                            }
                        }
                    }
                }
            }
            t = t + 1;
        }
        proof {
                reveal(Allocation::justified);
                reveal(Allocation::ranked);
                reveal(Allocation::offered);
            assert(candidates@.take(4) =~= candidates@);
            assert forall|reg: Reg| used@.contains(reg) <==> (callee_saved_spec().contains(reg) && reg_color(reg) >= 0
                && exists|i: int| 0 <= i < n && self.colors@[i] == Some(reg_color(reg))) by {
                let cs = callee_saved_spec();
                if callee_saved_spec().contains(reg) && reg_color(reg) >= 0 {
                    let q = choose|q: int| 0 <= q < cs.len() && cs[q] == reg;
                    assert(candidates@.contains(reg)) by {
                        if reg == Reg::Rbx { assert(candidates@[0] == reg); }
                        else if reg == Reg::R12 { assert(candidates@[1] == reg); }
                        else if reg == Reg::R13 { assert(candidates@[2] == reg); }
                        else { assert(candidates@[3] == reg); }
                    }
                }
                if candidates@.contains(reg) {
                    let q = choose|q: int| 0 <= q < 4 && candidates@[q] == reg;
                    assert(cs[2] == Reg::Rbx && cs[3] == Reg::R12 && cs[4] == Reg::R13 && cs[5] == Reg::R14);
                }
            }
        }
        let ghost used_v = used@;
        let mut frame = Frame::new(used);
        let mut slots: Vec<(i64, Arg)> = Vec::new();
        let mut mapping: Vec<(Arg, Arg)> = Vec::new();
        let mut k: usize = 0;
        let ghost mut slot_for: Seq<int> = Seq::empty();
        while k < n
            invariant
                self.inv(),
                self.ig == old(self).ig,
                n == self.ig.len(),
                8 * n + 64 <= i32::MAX,
                forall|i: int| 0 <= i < n ==> (#[trigger] self.colors@[i]) is Some,
                k <= n,
                frame.wf(),
                frame.saved_callee@.len() <= 4,
                frame.real_size == 8 * frame.saved_callee@.len() + 8 * slots@.len(),
                slots@.len() <= k,
                mapping@.len() == k,
                forall|a: int, b: int|
                    0 <= a < slots@.len() && 0 <= b < slots@.len() && a != b ==> slots@[a].0 != slots@[b].0,
                forall|a: int|
                    0 <= a < slots@.len() ==> (#[trigger] slots@[a]).1@ is Deref && slots@[a].1@->Deref_0 == Reg::Rbp
                        && slots@[a].1@->Deref_1 >= -(frame.real_size as int) && slots@[a].0 >= NUM_REG_COLORS,
                forall|a: int, b: int|
                    0 <= a < slots@.len() && 0 <= b < slots@.len() && a != b ==> slots@[a].1@ != slots@[b].1@,
                forall|q: int| 0 <= q < k ==> (#[trigger] mapping@[q]).0@ == self.ig.locs@[q]@,
                forall|q: int|
                    0 <= q < k && self.colors@[q]->0 < NUM_REG_COLORS ==> (#[trigger] mapping@[q]).1@ == ArgView::Reg(
                        reg_of_color_spec(self.colors@[q]->0),
                    ),
                slot_for.len() == k,
                forall|q: int|
                    0 <= q < k && self.colors@[q]->0 >= NUM_REG_COLORS ==> 0 <= #[trigger] slot_for[q] < slots@.len()
                        && slots@[slot_for[q]].0 == self.colors@[q]->0 && mapping@[q].1@ == slots@[slot_for[q]].1@,
                frame.saved_callee@ == used_v,
                forall|a: int| 0 <= a < slots@.len() ==> (#[trigger] slots@[a]).1@->Deref_1 < 0,
                forall|c: i64| #[trigger] slot_has(slots@, c) <==> (c >= NUM_REG_COLORS && seen_color(self.colors@, k as int, c)),
            decreases n - k,
        {
            let c = match self.colors[k] {
                Some(c) => c,
                None => 0,
            };
            let ghost old_slots = slots@;
            let ghost old_size = frame.real_size;
            let ghost old_mapping = mapping@;
            let ghost mut slot_idx: int = 0;
            proof {
                reveal(Allocation::justified);
                reveal(Allocation::ranked);
                reveal(Allocation::offered);
                assert(self.colors@[k as int] is Some);
                assert(c == self.colors@[k as int]->0);
                assert(c >= -5);
            }
            let home = if c < NUM_REG_COLORS {
                let r = reg_of_color(c);
                proof {
                reveal(Allocation::justified);
                reveal(Allocation::ranked);
                reveal(Allocation::offered);
                    assert(reg_color(r) == c);
                    lemma_reg_color_injective(r, reg_of_color_spec(c));
                }
                Arg::Reg(r)
            } else {
                let mut a: usize = 0;
                let mut hit: Option<usize> = None;
                while a < slots.len()
                    invariant
                        a <= slots@.len(),
                        hit is Some ==> hit->0 < slots@.len() && slots@[hit->0 as int].0 == c,
                        hit is None ==> forall|b: int| 0 <= b < a ==> slots@[b].0 != c,
                    decreases slots.len() - a,
                {
                    if slots[a].0 == c {
                        hit = Some(a);
                    }
                    a = a + 1;
                }
                match hit {
                    Some(h) => {
                        proof {
                reveal(Allocation::justified);
                reveal(Allocation::ranked);
                reveal(Allocation::offered);
                            slot_idx = h as int;
                        }
                        slots[h].1.duplicate()
                    },
                    None => {
                        proof {
                reveal(Allocation::justified);
                reveal(Allocation::ranked);
                reveal(Allocation::offered);
                            assert(pow2_from(8, 8) == 8);
                            assert(pow2_from(4, 8) == pow2_from(8, 8));
                            assert(pow2_from(2, 8) == pow2_from(4, 8));
                            assert(pow2_from(1, 8) == pow2_from(2, 8));
                        }
                        let slot = frame.alloc_local(8);
                        slots.push((c, slot.duplicate()));
                        proof {
                reveal(Allocation::justified);
                reveal(Allocation::ranked);
                reveal(Allocation::offered);
                            assert(slots@[slots@.len() - 1].1@->Deref_1 < 0);
                            slot_idx = old_slots.len() as int;
                            assert(slots@[slots@.len() - 1].1@ == slot@);
                            assert forall|a: int| 0 <= a < old_slots.len() implies slots@[a].1@ != slot@ by {
                                assert(slots@[a] == old_slots[a]);
                            }
                        }
                        slot
                    },
                }
            };
            let ghost hv = home@;
            mapping.push((self.ig.locs[k].duplicate(), home));
            proof {
                reveal(Allocation::justified);
                reveal(Allocation::ranked);
                reveal(Allocation::offered);
                assert(mapping@[k as int].1@ == hv);
                assert forall|q: int| 0 <= q < k + 1 implies (#[trigger] mapping@[q]).0@ == self.ig.locs@[q]@ by {
                    if q < k {
                        assert(mapping@[q] == old_mapping[q]);
                    }
                }
                assert forall|q: int|
                    0 <= q < k + 1 && self.colors@[q]->0 < NUM_REG_COLORS implies (#[trigger] mapping@[q]).1@ == ArgView::Reg(
                        reg_of_color_spec(self.colors@[q]->0),
                    ) by {
                    if q < k {
                        assert(mapping@[q] == old_mapping[q]);
                    }
                }
                slot_for = slot_for.push(slot_idx);
                assert forall|q: int|
                    0 <= q < k + 1 && self.colors@[q]->0 >= NUM_REG_COLORS implies 0 <= #[trigger] slot_for[q]
                        < slots@.len() && slots@[slot_for[q]].0 == self.colors@[q]->0 && mapping@[q].1@
                        == slots@[slot_for[q]].1@ by {
                    if q < k {
                        assert(mapping@[q] == old_mapping[q]);
                        assert(slots@[slot_for[q]] == old_slots[slot_for[q]]);
                    } else {
                        assert(slots@[slot_idx].0 == c && slots@[slot_idx].1@ == hv);
                    }
                }
                if slots@.len() > old_slots.len() {
                    assert forall|a: int, b: int|
                        0 <= a < slots@.len() && 0 <= b < slots@.len() && a != b implies slots@[a].0 != slots@[b].0 by {
                        if a < old_slots.len() {
                            assert(slots@[a] == old_slots[a]);
                        }
                        if b < old_slots.len() {
                            assert(slots@[b] == old_slots[b]);
                        }
                    }
                    assert forall|a: int|
                        0 <= a < slots@.len() implies (#[trigger] slots@[a]).1@ is Deref && slots@[a].1@->Deref_0 == Reg::Rbp
                            && slots@[a].1@->Deref_1 >= -(frame.real_size as int) && slots@[a].0 >= NUM_REG_COLORS by {
                        if a < old_slots.len() {
                            assert(slots@[a] == old_slots[a]);
                        }
                    }
                    assert forall|a: int, b: int|
                        0 <= a < slots@.len() && 0 <= b < slots@.len() && a != b implies slots@[a].1@ != slots@[b].1@ by {
                        if a < old_slots.len() && b < old_slots.len() {
                            assert(slots@[a] == old_slots[a]);
                            assert(slots@[b] == old_slots[b]);
                        } else if a < old_slots.len() {
                            assert(slots@[a] == old_slots[a]);
                            assert(slots@[a].1@->Deref_1 >= -(old_size as int));
                        } else {
                            assert(slots@[b] == old_slots[b]);
                            assert(slots@[b].1@->Deref_1 >= -(old_size as int));
                        }
                    }
                }
                assert forall|a: int| 0 <= a < slots@.len() implies (#[trigger] slots@[a]).1@->Deref_1 < 0 by {
                    if a < old_slots.len() {
                        assert(slots@[a] == old_slots[a]);
                    }
                }
                assert forall|cc: i64| #[trigger] slot_has(slots@, cc) <==> (cc >= NUM_REG_COLORS && seen_color(self.colors@, k + 1, cc)) by {
                    if slot_has(slots@, cc) {
                        let a = choose|a: int| 0 <= a < slots@.len() && #[trigger] slots@[a].0 == cc;
                        if a < old_slots.len() {
                            assert(old_slots[a].0 == cc);
                            assert(slot_has(old_slots, cc));
                            let q = choose|q: int| 0 <= q < k && self.colors@[q] == Some(cc);
                        } else {
                            assert(self.colors@[k as int] == Some(cc));
                        }
                    }
                    if cc >= NUM_REG_COLORS && seen_color(self.colors@, k + 1, cc) {
                        let q = choose|q: int| 0 <= q < k + 1 && self.colors@[q] == Some(cc);
                        if q < k {
                            assert(seen_color(self.colors@, k as int, cc));
                            assert(slot_has(old_slots, cc));
                            let a = choose|a: int| 0 <= a < old_slots.len() && #[trigger] old_slots[a].0 == cc;
                            assert(slots@[a] == old_slots[a]);
                        } else {
                            assert(slots@[slot_idx].0 == cc);
                        }
                    }
                }
            }
            k = k + 1;
        }
        proof {
                reveal(Allocation::justified);
                reveal(Allocation::ranked);
                reveal(Allocation::offered);
            assert forall|q: int|
                0 <= q < mapping@.len() && self.colors@[q]->0 >= NUM_REG_COLORS implies (#[trigger] mapping@[q]).1@ is Deref by {
                assert(slots@[slot_for[q]].1@ is Deref);
            }
            assert forall|i: int, j: int|
                #[trigger] self.ig.edges().contains((i, j)) implies mapping@[i].1@ != mapping@[j].1@ by {
                let ci = self.colors@[i]->0;
                let cj = self.colors@[j]->0;
                assert(ci != cj);
                if ci < NUM_REG_COLORS && cj < NUM_REG_COLORS {
                    lemma_color_has_reg(ci);
                    lemma_color_has_reg(cj);
                } else if ci >= NUM_REG_COLORS && cj >= NUM_REG_COLORS {
                    assert(slot_for[i] != slot_for[j]);
                } else if ci >= NUM_REG_COLORS {
                    assert(slots@[slot_for[i]].1@ is Deref);
                } else {
                    assert(slots@[slot_for[j]].1@ is Deref);
                }
            }
        }
        proof {
                reveal(Allocation::justified);
                reveal(Allocation::ranked);
                reveal(Allocation::offered);
            assert forall|i: int| 0 <= i < self.ig.len() && !(self.ig.locs@[i]@ is Reg) implies #[trigger] self.colored_by_rule(i) by {
                assert(self.colors@[i] is Some);
            }
            assert forall|i: int| 0 <= i < self.ig.len() && !(self.ig.locs@[i]@ is Reg) implies #[trigger] self.chose_by_rule(i)
                && self.color(i)->0 >= 0 by {
                assert(self.colors@[i] is Some);
            }
            reveal(Allocation::ordered);
            assert forall|i: int, j: int|
                0 <= i < self.ig.len() && 0 <= j < self.ig.len() && !(self.ig.locs@[i]@ is Reg)
                    && !(self.ig.locs@[j]@ is Reg) && self.before(i, j) implies #[trigger] self.picked_first(i, j) by {
                assert(self.colors@[i] is Some);
            }
            let cs = slots@.map_values(|x: (i64, Arg)| x.0);
            assert(cs.no_duplicates()) by {
                assert forall|a: int, b: int| 0 <= a < b < cs.len() implies cs[a] != cs[b] by {
                    assert(slots@[a].0 != slots@[b].0);
                }
            }
            cs.unique_seq_to_set();
            assert forall|cc: i64| spilled_colors(self.colors@).contains(cc) <==> cs.to_set().contains(cc) by {
                if cs.to_set().contains(cc) {
                    let a = choose|a: int| 0 <= a < cs.len() && cs[a] == cc;
                    assert(slots@[a].0 == cc);
                }
                if spilled_colors(self.colors@).contains(cc) {
                    let q = choose|q: int| 0 <= q < self.colors@.len() && self.colors@[q] == Some(cc);
                    assert(seen_color(self.colors@, n as int, cc));
                    assert(slot_has(slots@, cc));
                    let a = choose|a: int| 0 <= a < slots@.len() && #[trigger] slots@[a].0 == cc;
                    assert(cs[a] == cc);
                }
                if cs.to_set().contains(cc) {
                    let a = choose|a: int| 0 <= a < cs.len() && cs[a] == cc;
                    assert(slot_has(slots@, cc));
                    let q = choose|q: int| 0 <= q < n && self.colors@[q] == Some(cc);
                    assert(self.colors@[q] == Some(cc));
                }
            }
            assert(spilled_colors(self.colors@) =~= cs.to_set());
            assert forall|i: int, j: int|
                0 <= i < mapping@.len() && 0 <= j < mapping@.len() && self.colors@[i]->0 >= NUM_REG_COLORS
                    && self.colors@[j]->0 >= NUM_REG_COLORS implies (#[trigger] mapping@[i].1@ == #[trigger] mapping@[j].1@
                    <==> self.colors@[i] == self.colors@[j]) by {
                let a = slot_for[i];
                let b = slot_for[j];
                if a != b {
                    assert(slots@[a].1@ != slots@[b].1@);
                    assert(slots@[a].0 != slots@[b].0);
                }
            }
            assert forall|q: int|
                0 <= q < mapping@.len() && self.colors@[q]->0 >= NUM_REG_COLORS implies (#[trigger] mapping@[q]).1@->Deref_0
                    == Reg::Rbp && mapping@[q].1@->Deref_1 < 0 by {
                assert(slots@[slot_for[q]].1@->Deref_1 < 0);
            }
        }
        (mapping, frame)
    }

    /// Colors every node of the worklist, most saturated first.
    #[verifier::rlimit(100)]
    fn color_nodes(&mut self)
        requires
            old(self).inv(),
            old(self).saturated(old(self).ig.len() as int),
            forall|i: int| 0 <= i < old(self).ig.len() ==> #[trigger] old(self).sat@[i]@.len() <= old(self).ig.len(),
            old(self).ig.len() <= i32::MAX,
            old(self).justified(),
            old(self).ranked(),
            old(self).offered(-1),
            old(self).ordered(),
        ensures
            final(self).inv(),
            final(self).justified(),
            final(self).ranked(),
            final(self).offered(-1),
            final(self).ordered(),
            final(self).ig == old(self).ig,
            final(self).worklist@.len() == 0,
            forall|i: int| 0 <= i < final(self).ig.len() ==> (#[trigger] final(self).colors@[i]) is Some,
    {
        let ghost n = self.ig.len();
        let ghost w0 = self.worklist@.len();
        proof {
            assert(self.worklist@.len() <= n) by {
                lemma_distinct_bounded(self.worklist@, n);
            }
        }
        while self.worklist.len() > 0
            invariant
                self.inv(),
                self.ig == old(self).ig,
                n == self.ig.len(),
                n <= i32::MAX,
                w0 <= n,
                self.worklist@.len() <= w0,
                self.saturated(n as int),
                forall|i: int| 0 <= i < n ==> #[trigger] self.sat@[i]@.len() <= n + (w0 - self.worklist@.len()),
                self.justified(),
                self.ranked(),
                self.offered(-1),
                self.ordered(),
            decreases self.worklist.len(),
        {
            let p = self.pick_max();
            let ghost wl = self.worklist@;
            let node = self.worklist[p];
            let c = self.choose_color(node);
            let ghost st0 = *self;
            let _ = self.worklist.remove(p);
            let ghost pre = *self;
            self.colors.set(node, Some(c));
            self.rank = Ghost(self.rank@.update(node as int, self.steps@));
            self.steps = Ghost(self.steps@ + 1);
            proof {
                assert(st0.colors@[node as int] is None) by {
                    assert(wl[p as int] == node);
                    assert(wl.contains(node));
                }
                lemma_justified_after_color(&st0, self, node as int, c);
                assert(!(st0.ig.locs@[node as int]@ is Reg)) by {
                    if st0.ig.locs@[node as int]@ is Reg {
                        assert(st0.precolored());
                    }
                }
                lemma_rank_after_color(&st0, self, node as int, c);
                lemma_ordered_after_color(&st0, self, node as int, c);
                assert(wl[p as int] == node);
                assert(pre.colors@[node as int] is None) by {
                    assert(wl.contains(node));
                }
                assert forall|a: int, b: int|
                    0 <= a < self.worklist@.len() && 0 <= b < self.worklist@.len() && a != b implies self.worklist@[a]
                    != self.worklist@[b] by {
                    let a2 = if a < p { a } else { a + 1 };
                    let b2 = if b < p { b } else { b + 1 };
                    assert(self.worklist@[a] == wl[a2]);
                    assert(self.worklist@[b] == wl[b2]);
                }
                assert forall|k: int| 0 <= k < self.worklist@.len() implies #[trigger] self.worklist@[k] < n by {
                    let k2 = if k < p { k } else { k + 1 };
                    assert(self.worklist@[k] == wl[k2]);
                }
                assert forall|i: int| 0 <= i < n implies ((#[trigger] self.colors@[i]) is None <==> self.worklist@.contains(i as usize)) by {
                    if i == node {
                        if self.worklist@.contains(i as usize) {
                            let q = choose|q: int| 0 <= q < self.worklist@.len() && self.worklist@[q] == i as usize;
                            let q2 = if q < p { q } else { q + 1 };
                            assert(wl[q2] == node);
                        }
                    } else {
                        if self.worklist@.contains(i as usize) {
                            let q = choose|q: int| 0 <= q < self.worklist@.len() && self.worklist@[q] == i as usize;
                            let q2 = if q < p { q } else { q + 1 };
                            assert(wl[q2] == i as usize);
                        }
                        if wl.contains(i as usize) {
                            let q = choose|q: int| 0 <= q < wl.len() && wl[q] == i as usize;
                            assert(q != p);
                            let q2 = if q < p { q } else { q - 1 };
                            assert(self.worklist@[q2] == i as usize);
                        }
                    }
                }
                assert forall|a: int, b: int|
                    #[trigger] self.ig.edges().contains((a, b)) && self.colors@[a] is Some && self.colors@[b] is Some implies self.colors@[a]
                    != self.colors@[b] by {
                    if a == node && b != node {
                        assert(pre.sat@[a]@.contains(pre.colors@[b]->0));
                    } else if b == node && a != node {
                        assert(self.ig.edges().contains((b, a)));
                        assert(pre.sat@[b]@.contains(pre.colors@[a]->0));
                    }
                }
                assert(self.proper());
                assert forall|i: int|
                    0 <= i < self.graph().len() && (#[trigger] self.graph().locs@[i]@) is Reg implies self.color(i)
                        == Some(reg_color(self.graph().locs@[i]@->Reg_0)) by {
                    assert(pre.precolored());
                    if i == node {
                        assert(pre.colors@[i] is None);
                    }
                }
                assert(self.inv());
            }
            let ghost mid_state = *self;
            self.update_saturation(node, c);
            proof {
                lemma_same_order(&mid_state, self);
            }
            proof {
                assert forall|a: int, b: int|
                    #[trigger] self.ig.edges().contains((a, b)) && self.colors@[a] is None && self.colors@[b] is Some
                        && b < n implies self.sat@[a]@.contains(self.colors@[b]->0) by {
                    if b != node {
                        assert(pre.sat@[a]@.contains(pre.colors@[b]->0));
                    }
                }
            }
        }
        proof {
            assert forall|i: int| 0 <= i < self.ig.len() implies (#[trigger] self.colors@[i]) is Some by {
                if self.colors@[i] is None {
                    assert(self.worklist@.contains(i as usize));
                }
            }
        }
    }

    fn pick_max(&self) -> (p: usize)
        requires
            self.inv(),
            self.worklist@.len() > 0,
        ensures
            p < self.worklist@.len(),
            forall|q: int| 0 <= q < self.worklist@.len() ==> !self.priority_less(self.worklist@[p as int], #[trigger] self.worklist@[q]),
    {
        let mut best: usize = 0;
        let mut k: usize = 1;
        while k < self.worklist.len()
            invariant
                self.inv(),
                1 <= k <= self.worklist@.len(),
                best < k,
                forall|q: int| 0 <= q < k ==> !self.priority_less(self.worklist@[best as int], #[trigger] self.worklist@[q]),
            decreases self.worklist.len() - k,
        {
            let w = self.worklist[k];
            let b = self.worklist[best];
            let sw = self.sat[w].len();
            let sb = self.sat[b].len();
            if sw > sb || (sw == sb && self.ig.moves[w].len() > self.ig.moves[b].len()) {
                best = k;
            }
            k = k + 1;
        }
        best
    }

    fn choose_color(&self, node: usize) -> (c: i64)
        requires
            self.inv(),
            node < self.ig.len(),
            self.sat@[node as int]@.len() < i64::MAX,
        ensures
            is_chosen_color(self.prefer@[node as int]@, self.sat@[node as int]@, c),
    {
        let pref = &self.prefer[node];
        let sat = &self.sat[node];
        let mut k: usize = 0;
        while k < pref.len()
            invariant
                self.inv(),
                node < self.ig.len(),
                pref@ == self.prefer@[node as int]@,
                sat@ == self.sat@[node as int]@,
                k <= pref@.len(),
                forall|q: int| 0 <= q < k ==> sat@.contains(#[trigger] pref@[q]),
            decreases pref.len() - k,
        {
            if !holds(sat, pref[k]) {
                assert(pref@[k as int] >= 0);
                return pref[k];
            }
            k = k + 1;
        }
        let mut c: i64 = 0;
        proof {
            lemma_count_ge_step(sat@, 0);
        }
        while holds(sat, c)
            invariant
                c >= 0,
                forall|x: i64| 0 <= x < c ==> sat@.contains(x),
                c + count_ge(sat@, c as int) <= sat@.len(),
                sat@.len() < i64::MAX,
            decreases count_ge(sat@, c as int),
        {
            proof {
                lemma_count_ge_step(sat@, c as int);
            }
            c = c + 1;
        }
        c
    }

    #[verifier::rlimit(100)]
    fn update_saturation(&mut self, node: usize, color: i64)
        requires
            old(self).inv(),
            old(self).justified(),
            old(self).ranked(),
            old(self).offered(node as int),
            node < old(self).ig.len(),
            old(self).colors@[node as int] == Some(color),
        ensures
            final(self).inv(),
            final(self).justified(),
            final(self).ranked(),
            final(self).offered(-1),
            final(self).rank@ == old(self).rank@,
            final(self).steps@ == old(self).steps@,
            forall|i: int| 0 <= i < old(self).ig.len() ==> #[trigger] final(self).sat@[i]@.len() <= old(self).sat@[i]@.len() + 1,
            final(self).ig == old(self).ig,
            final(self).colors@ == old(self).colors@,
            final(self).worklist@ == old(self).worklist@,
            forall|i: int, x: i64|
                0 <= i < old(self).ig.len() && old(self).sat@[i]@.contains(x) ==> #[trigger] final(self).sat@[i]@.contains(x),
            forall|i: int|
                #[trigger] old(self).ig.edges().contains((i, node as int)) && old(self).colors@[i] is None
                    ==> final(self).sat@[i]@.contains(color),
    {
        proof {
            reveal(Allocation::justified);
            reveal(Allocation::ranked);
            reveal(Allocation::offered);
        }
        let nb = graph_neighbors(&self.ig.graph, node);
        let node_count = self.ig.locs.len();
        let mut k: usize = 0;
        while k < self.worklist.len()
            invariant
                self.inv(),
                self.ig == old(self).ig,
                self.colors@ == old(self).colors@,
                self.worklist@ == old(self).worklist@,
                self.prefer@ == old(self).prefer@,
                node < self.ig.len(),
                k <= self.worklist@.len(),
                forall|a: int, b: int| 0 <= a < b < self.worklist@.len() ==> self.worklist@[a] != self.worklist@[b],
                forall|i: int| 0 <= i < self.ig.len() ==> #[trigger] self.sat@[i]@.len() <= old(self).sat@[i]@.len() + (if exists|q: int| 0 <= q < k && self.worklist@[q] == i { 1int } else { 0int }),
                forall|j: usize| nb@.contains(j) <==> graph_edges(self.ig.graph).contains((node as int, j as int)),
                forall|i: int, x: i64|
                    0 <= i < old(self).ig.len() && old(self).sat@[i]@.contains(x) ==> #[trigger] self.sat@[i]@.contains(x),
                forall|q: int|
                    0 <= q < k && nb@.contains(#[trigger] self.worklist@[q]) ==> self.sat@[self.worklist@[q] as int]@.contains(color),
                self.justified(),
                self.colors@[node as int] == Some(color),
                self.ranked(),
                self.offered(node as int),
                self.rank@ == old(self).rank@,
                self.steps@ == old(self).steps@,
                self.ig.moves@ == old(self).ig.moves@,
            decreases self.worklist.len() - k,
        {
            let w = self.worklist[k];
            if holds_node(&nb, w) && !holds(&self.sat[w], color) {
                let mut s = copy_colors(&self.sat[w]);
                s.push(color);
                let ghost before = self.sat@;
                let ghost prev = *self;
                self.sat.set(w, s);
                proof {
                reveal(Allocation::justified);
                reveal(Allocation::ranked);
                reveal(Allocation::offered);
                    lemma_same_colors(&prev, self);
                    lemma_same_rule(&prev, self);
                    assert forall|i: int, pp: int|
                        0 <= i < self.ig.len() && 0 <= pp < self.ig.len() && pp != node && self.colors@[i] is None && self.colors@[pp] is Some
                            && #[trigger] self.ig.moves@[pp]@.contains(i as usize) && self.colors@[pp]->0 >= 0
                            implies self.sat@[i]@.contains(self.colors@[pp]->0) || self.prefer@[i]@.contains(self.colors@[pp]->0) by {
                        let x = self.colors@[pp]->0;
                        if before[i]@.contains(x) {
                            let t = choose|t: int| 0 <= t < before[i]@.len() && before[i]@[t] == x;
                            assert(self.sat@[i]@[t] == x);
                        }
                    }
                    assert forall|i: int, x: i64|
                        0 <= i < old(self).ig.len() && old(self).sat@[i]@.contains(x) implies #[trigger] self.sat@[i]@.contains(x) by {
                        if i == w {
                            assert(before[i]@.contains(x));
                            let t = choose|t: int| 0 <= t < before[i]@.len() && before[i]@[t] == x;
                            assert(self.sat@[i]@[t] == x);
                        }
                    }
                    assert(self.sat@[w as int]@[self.sat@[w as int]@.len() - 1] == color);
                    assert(self.graph().edges().contains((node as int, w as int)));
                    assert(self.graph().edges().contains((w as int, node as int)));
                    assert(self.nb_colored(w as int, color));
                    assert forall|i: int, kk: int| 0 <= i < self.ig.len() && 0 <= kk < self.sat@[i]@.len() implies self.nb_colored(i, #[trigger] self.sat@[i]@[kk]) by {
                        if i != w || kk < before[i]@.len() {
                            assert(self.sat@[i]@[kk] == before[i]@[kk]);
                        }
                    }
                    assert forall|q: int|
                        0 <= q < k + 1 && nb@.contains(#[trigger] self.worklist@[q]) implies self.sat@[self.worklist@[q] as int]@.contains(color) by {
                        if q < k && self.worklist@[q] != w {
                            assert(self.sat@[self.worklist@[q] as int] == before[self.worklist@[q] as int]);
                        } else if q < k {
                            assert(self.sat@[w as int]@[self.sat@[w as int]@.len() - 1] == color);
                        }
                    }
                }
            }
            k = k + 1;
        }
        let ghost mid_sat = self.sat@;
        proof {
                reveal(Allocation::justified);
                reveal(Allocation::ranked);
                reveal(Allocation::offered);
            assert forall|i: int| 0 <= i < self.ig.len() implies #[trigger] self.sat@[i]@.len() <= old(self).sat@[i]@.len() + 1 by {
                if exists|q: int| 0 <= q < k && self.worklist@[q] == i {
                }
            }
        }
        if color >= 0 {
            let partners = copy_nodes(&self.ig.moves[node]);
            let mut t: usize = 0;
            while t < partners.len()
                invariant
                    self.inv(),
                    color >= 0,
                    node < self.ig.len(),
                    forall|j: usize| nb@.contains(j) <==> graph_edges(self.ig.graph).contains((node as int, j as int)),
                    self.ig == old(self).ig,
                    self.colors@ == old(self).colors@,
                    self.worklist@ == old(self).worklist@,
                    self.sat@ == mid_sat,
                    forall|i: int, x: i64|
                        0 <= i < old(self).ig.len() && old(self).sat@[i]@.contains(x) ==> #[trigger] self.sat@[i]@.contains(x),
                    forall|q: int|
                        0 <= q < self.worklist@.len() && nb@.contains(#[trigger] self.worklist@[q]) ==> self.sat@[self.worklist@[q] as int]@.contains(color),
                    self.justified(),
                    self.colors@[node as int] == Some(color),
                    partners@ == self.ig.moves@[node as int]@,
                    self.ranked(),
                    self.offered(node as int),
                    self.rank@ == old(self).rank@,
                    self.steps@ == old(self).steps@,
                    t <= partners@.len(),
                    forall|q: int| 0 <= q < t && (#[trigger] partners@[q]) < self.colors@.len() && self.colors@[partners@[q] as int] is None
                        ==> self.sat@[partners@[q] as int]@.contains(color) || self.prefer@[partners@[q] as int]@.contains(color),
                decreases partners.len() - t,
            {
                let p = partners[t];
                if p < self.colors.len() && self.colors[p].is_none() && !holds(&self.sat[p], color) && !holds(
                    &self.prefer[p],
                    color,
                ) {
                    let mut s = copy_colors(&self.prefer[p]);
                    s.push(color);
                    let ghost before = self.prefer@;
                    let ghost prev = *self;
                    self.prefer.set(p, s);
                    proof {
                        assert(prefer_step(prev, *self, p as int, color, node as int, t as int, partners@));
                        lemma_prefer_inv(&prev, self, p as int, color, node as int, t as int, partners@);
                        lemma_prefer_justified(&prev, self, p as int, color, node as int, t as int, partners@);
                        lemma_prefer_offered(&prev, self, p as int, color, node as int, t as int, partners@);
                    }
                }
                t = t + 1;
            }
        }
        proof {
                reveal(Allocation::justified);
                reveal(Allocation::ranked);
                reveal(Allocation::offered);
            assert forall|i: int|
                #[trigger] old(self).ig.edges().contains((i, node as int)) && old(self).colors@[i] is None implies self.sat@[i]@.contains(color) by {
                assert(self.ig.edges().contains((node as int, i)));
                assert(0 <= i < self.ig.len());
                assert(self.ig.len() == node_count);
                assert(graph_edges(self.ig.graph).contains((node as int, (i as usize) as int)));
                assert(nb@.contains(i as usize));
                assert(self.worklist@.contains(i as usize));
                let q = choose|q: int| 0 <= q < self.worklist@.len() && self.worklist@[q] == i as usize;
                assert(nb@.contains(self.worklist@[q]));
            }
        }
    }
}

} // verus!

