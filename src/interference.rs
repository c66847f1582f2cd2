use vstd::prelude::*;
use petgraph::graph::{Graph, NodeIndex};
use petgraph::Undirected;
use crate::liveness::LiveAfter;
use crate::x86::{Arg, ArgView, Instr, InstrView, arg_set, arg_views, contains_arg, read_set_spec, write_set_spec};

verus! {

/// petgraph's `Graph`, held opaquely; what it holds is named by `graph_edges`
/// and `graph_node_count` below.
#[verifier::external_type_specification]
#[verifier::external_body]
#[verifier::reject_recursive_types(N)]
#[verifier::reject_recursive_types(E)]
#[verifier::reject_recursive_types(Ty)]
#[verifier::reject_recursive_types(Ix)]
pub struct ExGraph<N, E, Ty, Ix>(Graph<N, E, Ty, Ix>);

/// petgraph's marker for undirected edges.
#[verifier::external_type_specification]
#[verifier::external_body]
pub struct ExUndirected(Undirected);

/// The petgraph graph that holds interference edges; node `i` stands for the
/// `i`-th location of the owning structure.
pub type UnGraph = Graph<(), (), Undirected, usize>;

/// The edges of an undirected petgraph graph, each in both directions.
pub uninterp spec fn graph_edges(g: UnGraph) -> Set<(int, int)>;

/// The number of nodes of a petgraph graph.
pub uninterp spec fn graph_node_count(g: UnGraph) -> nat;

/// Relies on `Graph::with_capacity`: a graph with no nodes and no edges.
#[verifier::external_body]
fn graph_empty() -> (g: UnGraph)
    ensures
        graph_edges(g) == Set::<(int, int)>::empty(),
        graph_node_count(g) == 0,
{
    Graph::with_capacity(0, 0)
}

/// Relies on `Graph::add_node`: the new node's index is the old node count, and
/// edges are untouched (with `usize` indices it never panics).
#[verifier::external_body]
fn graph_add_node(g: &mut UnGraph) -> (r: usize)
    ensures
        r == graph_node_count(*old(g)),
        graph_node_count(*final(g)) == graph_node_count(*old(g)) + 1,
        graph_edges(*final(g)) == graph_edges(*old(g)),
{
    g.add_node(()).index()
}

/// Relies on `Graph::update_edge`: adds the edge between `a` and `b` unless it is
/// there already; it panics on a node that does not exist.
#[verifier::external_body]
fn graph_update_edge(g: &mut UnGraph, a: usize, b: usize)
    requires
        a < graph_node_count(*old(g)),
        b < graph_node_count(*old(g)),
    ensures
        graph_edges(*final(g)) == graph_edges(*old(g)).insert((a as int, b as int)).insert(
            (b as int, a as int),
        ),
        graph_node_count(*final(g)) == graph_node_count(*old(g)),
{
    g.update_edge(NodeIndex::new(a), NodeIndex::new(b), ());
}

/// Relies on `Graph::neighbors`: on an undirected graph, every node that shares an
/// edge with `a`.
#[verifier::external_body]
pub(crate) fn graph_neighbors(g: &UnGraph, a: usize) -> (r: Vec<usize>)
    ensures
        forall|j: usize| r@.contains(j) <==> graph_edges(*g).contains((a as int, j as int)),
{
    g.neighbors(NodeIndex::new(a)).map(|n| n.index()).collect()
}

fn copy_indices(v: &Vec<usize>) -> (r: Vec<usize>)
    ensures
        r@ == v@,
{
    let mut r: Vec<usize> = Vec::new();
    let mut i: usize = 0;
    while i < v.len()
        invariant
            i <= v@.len(),
            r@ == v@.take(i as int),
        decreases v.len() - i,
    {
        r.push(v[i]);
        i = i + 1;
        assert(r@ =~= v@.take(i as int));
    }
    assert(v@.take(i as int) =~= v@);
    r
}

/// An interference graph over locations together with the move relation.
pub struct Interference {
    pub graph: UnGraph,
    /// Node `i` of `graph` is `locs[i]`.
    pub locs: Vec<Arg>,
    /// `moves[i]` lists the nodes that node `i` is moved into.
    pub moves: Vec<Vec<usize>>,
}

impl Interference {
    pub open spec fn len(&self) -> nat {
        self.locs@.len()
    }

    pub open spec fn edges(&self) -> Set<(int, int)> {
        graph_edges(self.graph)
    }

    pub open spec fn wf(&self) -> bool {
        &&& graph_node_count(self.graph) == self.locs@.len()
        &&& self.moves@.len() == self.locs@.len()
        &&& forall|i: int, j: int|
            0 <= i < self.locs@.len() && 0 <= j < self.locs@.len() && i != j ==> self.locs@[i]@
                != self.locs@[j]@
        &&& forall|i: int, j: int|
            #[trigger] self.edges().contains((i, j)) ==> 0 <= i < self.len() && 0 <= j < self.len()
                && i != j && self.edges().contains((j, i))
        &&& forall|i: int, k: int|
            0 <= i < self.moves@.len() && 0 <= k < self.moves@[i]@.len() ==> #[trigger] self.moves@[i]@[k]
                < self.len()
        &&& forall|i: int| 0 <= i < self.moves@.len() && #[trigger] self.moves@[i]@.len() > 0 ==> self.locs@[i]@ is Var
    }

    /// Whether locations `x` and `y` interfere.
    pub open spec fn interferes(&self, x: ArgView, y: ArgView) -> bool {
        exists|i: int, j: int|
            0 <= i < self.len() && 0 <= j < self.len() && #[trigger] self.locs@[i]@ == x
                && #[trigger] self.locs@[j]@ == y && self.edges().contains((i, j))
    }

    /// Whether `x` is recorded as moved into `y`.
    pub open spec fn move_pair(&self, x: ArgView, y: ArgView) -> bool {
        exists|i: int, j: int|
            0 <= i < self.len() && 0 <= j < self.len() && #[trigger] self.locs@[i]@ == x
                && #[trigger] self.locs@[j]@ == y && self.moves@[i]@.contains(j as usize)
    }

    /// Whether location `x` is a node.
    pub open spec fn has_node(&self, x: ArgView) -> bool {
        exists|i: int| 0 <= i < self.len() && #[trigger] self.locs@[i]@ == x
    }

    /// `self` holds everything that `o` holds, at the same indices.
    pub open spec fn extends(&self, o: &Interference) -> bool {
        &&& o.len() <= self.len()
        &&& forall|i: int| 0 <= i < o.len() ==> #[trigger] self.locs@[i]@ == o.locs@[i]@
        &&& o.edges().subset_of(self.edges())
    }
}

pub proof fn lemma_extends_keeps(a: &Interference, b: &Interference, x: ArgView, y: ArgView)
    requires
        b.extends(a),
    ensures
        a.interferes(x, y) ==> b.interferes(x, y),
        a.has_node(x) ==> b.has_node(x),
{
    if a.interferes(x, y) {
        let (i, j) = choose|i: int, j: int|
            0 <= i < a.len() && 0 <= j < a.len() && #[trigger] a.locs@[i]@ == x
                && #[trigger] a.locs@[j]@ == y && a.edges().contains((i, j));
        assert(b.locs@[i]@ == x && b.locs@[j]@ == y);
    }
    if a.has_node(x) {
        let i = choose|i: int| 0 <= i < a.len() && #[trigger] a.locs@[i]@ == x;
        assert(b.locs@[i]@ == x);
    }
}

proof fn lemma_extends_trans(a: &Interference, b: &Interference)
    ensures
        forall|c: Interference| a.extends(b) && b.extends(&c) ==> #[trigger] a.extends(&c),
{
}

/// Instruction `i`, with live-after set `live`, demands an edge from `x` to `y`.
pub open spec fn instr_edge(i: InstrView, live: Set<ArgView>, x: ArgView, y: ArgView) -> bool {
    match i {
        InstrView::Movq(s, d) => x == d && live.contains(y) && y != s && y != d,
        _ => write_set_spec(i).contains(x) && live.contains(y) && y != x,
    }
}

/// Some instruction before position `k` demands an edge between `x` and `y`.
pub open spec fn edge_demanded(instrs: Seq<(Instr, LiveAfter)>, k: int, x: ArgView, y: ArgView) -> bool {
    exists|q: int|
        0 <= q < k && (instr_edge((#[trigger] instrs[q]).0@, instrs[q].1.set(), x, y) || instr_edge(
            instrs[q].0@,
            instrs[q].1.set(),
            y,
            x,
        ))
}

/// Some instruction before position `k` moves `x` into `y`.
pub open spec fn moved_in(instrs: Seq<(Instr, LiveAfter)>, k: int, x: ArgView, y: ArgView) -> bool {
    exists|q: int| 0 <= q < k && #[trigger] instrs[q].0@ == InstrView::Movq(x, y)
}

/// The edges that an instruction with its live-after set demands: a move
/// interferes its target with everything live but its two operands; any other
/// instruction interferes each location it writes with everything live but itself.
pub open spec fn demanded(ig: &Interference, i: InstrView, live: Set<ArgView>) -> bool {
    match i {
        InstrView::Movq(s, d) => forall|l: ArgView|
            #[trigger] live.contains(l) && l != s && l != d ==> ig.interferes(d, l),
        _ => forall|w: ArgView, l: ArgView|
            #[trigger] write_set_spec(i).contains(w) && #[trigger] live.contains(l) && l != w
                ==> ig.interferes(w, l),
    }
}

pub proof fn lemma_demanded_keeps(a: &Interference, b: &Interference, i: InstrView, live: Set<ArgView>)
    requires
        b.extends(a),
        demanded(a, i, live),
    ensures
        demanded(b, i, live),
{
    match i {
        InstrView::Movq(s, d) => {
            assert forall|l: ArgView| #[trigger] live.contains(l) && l != s && l != d implies b.interferes(d, l) by {
                lemma_extends_keeps(a, b, d, l);
            }
        },
        _ => {
            assert forall|w: ArgView, l: ArgView|
                #[trigger] write_set_spec(i).contains(w) && #[trigger] live.contains(l) && l != w implies b.interferes(w, l) by {
                lemma_extends_keeps(a, b, w, l);
            }
        },
    }
}

pub struct BuildInterference {
    ig: Interference,
}

impl BuildInterference {
    pub closed spec fn wf(&self) -> bool {
        self.ig.wf()
    }

    /// Nothing is recorded yet.
    pub closed spec fn is_fresh(&self) -> bool {
        self.ig.len() == 0
    }

    pub fn new() -> (r: Self)
        ensures
            r.wf(),
            r.is_fresh(),
    {
        Self { ig: Interference { graph: graph_empty(), locs: Vec::new(), moves: Vec::new() } }
    }

    fn add_location(&mut self, loc: &Arg) -> (r: usize)
        requires
            old(self).ig.wf(),
        ensures
            final(self).ig.wf(),
            final(self).ig.extends(&old(self).ig),
            final(self).ig.edges() == old(self).ig.edges(),
            r < final(self).ig.len(),
            final(self).ig.locs@[r as int]@ == loc@,
            forall|i: int| 0 <= i < old(self).ig.len() ==> #[trigger] final(self).ig.moves@[i] == old(self).ig.moves@[i],
            forall|x: ArgView, y: ArgView| #[trigger] final(self).ig.move_pair(x, y) == old(self).ig.move_pair(x, y),
            forall|x: ArgView, y: ArgView| #[trigger] final(self).ig.interferes(x, y) ==> old(self).ig.interferes(x, y),
    {
        let mut i: usize = 0;
        while i < self.ig.locs.len()
            invariant
                self.ig == old(self).ig,
                self.ig.wf(),
                i <= self.ig.locs@.len(),
                forall|k: int| 0 <= k < i ==> self.ig.locs@[k]@ != loc@,
            decreases self.ig.locs.len() - i,
        {
            if self.ig.locs[i].eq(loc) {
                return i;
            }
            i = i + 1;
        }
        let idx = graph_add_node(&mut self.ig.graph);
        self.ig.locs.push(loc.duplicate());
        self.ig.moves.push(Vec::new());
        proof {
            let n = old(self).ig.len();
            assert(self.ig.locs@[n as int]@ == loc@);
            assert forall|i: int, j: int|
                0 <= i < self.ig.locs@.len() && 0 <= j < self.ig.locs@.len() && i != j implies self.ig.locs@[i]@
                    != self.ig.locs@[j]@ by {
                if i < n && j < n {
                    assert(self.ig.locs@[i] == old(self).ig.locs@[i]);
                    assert(self.ig.locs@[j] == old(self).ig.locs@[j]);
                } else if i < n {
                    assert(self.ig.locs@[i] == old(self).ig.locs@[i]);
                } else {
                    assert(self.ig.locs@[j] == old(self).ig.locs@[j]);
                }
            }
            assert forall|i: int| 0 <= i < old(self).ig.len() implies #[trigger] self.ig.locs@[i]@
                == old(self).ig.locs@[i]@ by {
                assert(self.ig.locs@[i] == old(self).ig.locs@[i]);
            }
            assert forall|i: int, k: int|
                0 <= i < self.ig.moves@.len() && 0 <= k < self.ig.moves@[i]@.len() implies #[trigger] self.ig.moves@[i]@[k]
                    < self.ig.len() by {
                if i < old(self).ig.moves@.len() {
                    assert(self.ig.moves@[i] == old(self).ig.moves@[i]);
                }
            }
            assert forall|i: int, j: int| #[trigger] self.ig.edges().contains((i, j)) implies 0 <= i
                < self.ig.len() && 0 <= j < self.ig.len() && i != j && self.ig.edges().contains(
                (j, i),
            ) by {
                assert(old(self).ig.edges().contains((i, j)));
            }
            assert(graph_node_count(self.ig.graph) == self.ig.locs@.len());
            assert(self.ig.moves@.len() == self.ig.locs@.len());
            assert forall|x: ArgView, y: ArgView| #[trigger] self.ig.move_pair(x, y) == old(self).ig.move_pair(x, y) by {
                if self.ig.move_pair(x, y) {
                    let (i, j) = choose|i: int, j: int|
                        0 <= i < self.ig.len() && 0 <= j < self.ig.len() && #[trigger] self.ig.locs@[i]@ == x
                            && #[trigger] self.ig.locs@[j]@ == y && self.ig.moves@[i]@.contains(j as usize);
                    if i == n {
                        assert(self.ig.moves@[i]@.len() == 0);
                    }
                    assert(i < n);
                    assert(self.ig.moves@[i] == old(self).ig.moves@[i]);
                    let q = choose|q: int| 0 <= q < old(self).ig.moves@[i]@.len() && old(self).ig.moves@[i]@[q] == j as usize;
                    assert(old(self).ig.moves@[i]@[q] < n);
                    assert(old(self).ig.locs@[i]@ == x && old(self).ig.locs@[j]@ == y);
                }
                if old(self).ig.move_pair(x, y) {
                    let (i, j) = choose|i: int, j: int|
                        0 <= i < old(self).ig.len() && 0 <= j < old(self).ig.len() && #[trigger] old(self).ig.locs@[i]@ == x
                            && #[trigger] old(self).ig.locs@[j]@ == y && old(self).ig.moves@[i]@.contains(j as usize);
                    assert(self.ig.locs@[i]@ == x && self.ig.locs@[j]@ == y);
                    assert(self.ig.moves@[i] == old(self).ig.moves@[i]);
                }
            }
            assert forall|x: ArgView, y: ArgView| #[trigger] self.ig.interferes(x, y) implies old(self).ig.interferes(x, y) by {
                let (i, j) = choose|i: int, j: int|
                    0 <= i < self.ig.len() && 0 <= j < self.ig.len() && #[trigger] self.ig.locs@[i]@ == x
                        && #[trigger] self.ig.locs@[j]@ == y && self.ig.edges().contains((i, j));
                assert(old(self).ig.edges().contains((i, j)));
                assert(i < n && j < n);
                assert(old(self).ig.locs@[i]@ == x && old(self).ig.locs@[j]@ == y);
            }
        }
        idx
    }

    /// Adds each operand of `v` as a node.
    fn add_all(&mut self, v: &Vec<Arg>)
        requires
            old(self).ig.wf(),
        ensures
            final(self).ig.wf(),
            final(self).ig.extends(&old(self).ig),
            forall|q: int| 0 <= q < v@.len() ==> final(self).ig.has_node(#[trigger] v@[q]@),
            forall|x: ArgView, y: ArgView| #[trigger] final(self).ig.move_pair(x, y) == old(self).ig.move_pair(x, y),
            forall|x: ArgView, y: ArgView| #[trigger] final(self).ig.interferes(x, y) ==> old(self).ig.interferes(x, y),
    {
        let mut i: usize = 0;
        while i < v.len()
            invariant
                i <= v@.len(),
                self.ig.wf(),
                self.ig.extends(&old(self).ig),
                forall|x: ArgView, y: ArgView| #[trigger] self.ig.move_pair(x, y) == old(self).ig.move_pair(x, y),
                forall|x: ArgView, y: ArgView| #[trigger] self.ig.interferes(x, y) ==> old(self).ig.interferes(x, y),
                forall|q: int| 0 <= q < i ==> self.ig.has_node(#[trigger] v@[q]@),
            decreases v.len() - i,
        {
            let ghost prev = self.ig;
            let idx = self.add_location(&v[i]);
            proof {
                assert forall|x: ArgView, y: ArgView| #[trigger] self.ig.interferes(x, y) implies old(self).ig.interferes(x, y) by {
                    assert(prev.interferes(x, y));
                }
                assert(self.ig.locs@[idx as int]@ == v@[i as int]@);
                assert forall|q: int| 0 <= q < i + 1 implies self.ig.has_node(#[trigger] v@[q]@) by {
                    lemma_extends_keeps(&prev, &self.ig, v@[q]@, v@[q]@);
                }
                lemma_extends_trans(&self.ig, &prev);
            }
            i = i + 1;
        }
    }

    /// Records that `a` is moved into `b`, when both are variables.
    fn add_move_rel(&mut self, a: &Arg, b: &Arg)
        requires
            old(self).ig.wf(),
        ensures
            final(self).ig.wf(),
            final(self).ig.extends(&old(self).ig),
            final(self).ig.edges() == old(self).ig.edges(),
            forall|x: ArgView, y: ArgView| #[trigger] final(self).ig.move_pair(x, y) == (old(self).ig.move_pair(x, y) || (
            a@ is Var && b@ is Var && x == a@ && y == b@)),
            forall|x: ArgView, y: ArgView| #[trigger] final(self).ig.interferes(x, y) ==> old(self).ig.interferes(x, y),
    {
        if a.get_var().is_none() || b.get_var().is_none() {
            return;
        }
        let si = self.add_location(a);
        let ghost after_a = self.ig;
        let di = self.add_location(b);
        assert(self.ig.locs@[si as int]@ == a@) by {
            assert(after_a.locs@[si as int]@ == a@);
        }
        let ghost mid = self.ig.moves@;
        let ghost mig = self.ig;
        let mut partners = copy_indices(&self.ig.moves[si]);
        let mut k: usize = 0;
        let mut found = false;
        while k < partners.len()
            invariant
                k <= partners@.len(),
                found == partners@.take(k as int).contains(di),
            decreases partners.len() - k,
        {
            let ghost t0 = partners@.take(k as int);
            let ghost t1 = partners@.take(k + 1);
            proof {
                assert(t1 =~= t0.push(partners@[k as int]));
            }
            if partners[k] == di {
                found = true;
            }
            proof {
                if t1.contains(di) && partners@[k as int] != di {
                    let q = choose|q: int| 0 <= q < t1.len() && t1[q] == di;
                    assert(t0[q] == di);
                }
                if t0.contains(di) {
                    let q = choose|q: int| 0 <= q < t0.len() && t0[q] == di;
                    assert(t1[q] == di);
                }
                if partners@[k as int] == di {
                    assert(t1[k as int] == di);
                }
            }
            k = k + 1;
        }
        assert(partners@.take(k as int) =~= partners@);
        let ghost old_partners = partners@;
        if !found {
            partners.push(di);
        }
        proof {
            assert forall|j: usize| partners@.contains(j) == (old_partners.contains(j) || j == di) by {
                if partners@.contains(j) && !found {
                    let q = choose|q: int| 0 <= q < partners@.len() && partners@[q] == j;
                    if q < old_partners.len() {
                        assert(old_partners[q] == j);
                    }
                }
                if old_partners.contains(j) && !found {
                    let q = choose|q: int| 0 <= q < old_partners.len() && old_partners[q] == j;
                    assert(partners@[q] == j);
                }
                if j == di && !found {
                    assert(partners@[partners@.len() - 1] == j);
                }
            }
        }
        self.ig.moves.set(si, partners);
        let count = self.ig.locs.len();
        proof {
            assert forall|x: ArgView, y: ArgView| #[trigger] self.ig.move_pair(x, y) == (old(self).ig.move_pair(x, y) || (
                a@ is Var && b@ is Var && x == a@ && y == b@)) by {
                assert(mig.move_pair(x, y) == old(self).ig.move_pair(x, y));
                if self.ig.move_pair(x, y) {
                    let (i, j) = choose|i: int, j: int|
                        0 <= i < self.ig.len() && 0 <= j < self.ig.len() && #[trigger] self.ig.locs@[i]@ == x
                            && #[trigger] self.ig.locs@[j]@ == y && self.ig.moves@[i]@.contains(j as usize);
                    if i != si {
                        assert(self.ig.moves@[i] == mid[i]);
                        assert(mig.move_pair(x, y));
                    } else if j as usize != di {
                        assert(mid[i]@.contains(j as usize));
                        assert(mig.move_pair(x, y));
                    } else {
                        assert(i == si);
                        assert(j < count);
                        assert(j == di as int);
                        assert(x == a@ && y == b@);
                    }
                }
                if mig.move_pair(x, y) {
                    let (i, j) = choose|i: int, j: int|
                        0 <= i < mig.len() && 0 <= j < mig.len() && #[trigger] mig.locs@[i]@ == x
                            && #[trigger] mig.locs@[j]@ == y && mig.moves@[i]@.contains(j as usize);
                    if i != si {
                        assert(self.ig.moves@[i] == mid[i]);
                    }
                    assert(self.ig.moves@[i]@.contains(j as usize));
                }
                if a@ is Var && b@ is Var && x == a@ && y == b@ {
                    assert(self.ig.moves@[si as int]@.contains(di));
                    assert(self.ig.locs@[si as int]@ == x && self.ig.locs@[di as int]@ == y);
                }
            }
            assert forall|i: int, k: int|
                0 <= i < self.ig.moves@.len() && 0 <= k < self.ig.moves@[i]@.len() implies #[trigger] self.ig.moves@[i]@[k]
                    < self.ig.len() by {
                if i != si {
                    assert(self.ig.moves@[i] == mid[i]);
                }
            }
        }
    }

    /// Adds the edge between `a` and `b`, and both as nodes.
    fn interfere_with(&mut self, a: &Arg, b: &Arg)
        requires
            old(self).ig.wf(),
            a@ != b@,
        ensures
            final(self).ig.wf(),
            final(self).ig.extends(&old(self).ig),
            final(self).ig.interferes(a@, b@),
            forall|x: ArgView, y: ArgView| #[trigger] final(self).ig.move_pair(x, y) == old(self).ig.move_pair(x, y),
            forall|x: ArgView, y: ArgView|
                #[trigger] final(self).ig.interferes(x, y) ==> old(self).ig.interferes(x, y) || (x == a@ && y == b@) || (x
                    == b@ && y == a@),
    {
        let ia = self.add_location(a);
        let ghost mid = self.ig;
        let ib = self.add_location(b);
        assert(self.ig.locs@[ia as int]@ == a@);
        let ghost before = self.ig;
        graph_update_edge(&mut self.ig.graph, ia, ib);
        assert(self.ig.edges().contains((ia as int, ib as int)));
        assert forall|x: ArgView, y: ArgView| #[trigger] self.ig.move_pair(x, y) == before.move_pair(x, y) by {
            assert(self.ig.locs == before.locs && self.ig.moves == before.moves);
        }
        assert forall|x: ArgView, y: ArgView|
            #[trigger] self.ig.interferes(x, y) implies old(self).ig.interferes(x, y) || (x == a@ && y == b@) || (x == b@ && y
                == a@) by {
            let (i, j) = choose|i: int, j: int|
                0 <= i < self.ig.len() && 0 <= j < self.ig.len() && #[trigger] self.ig.locs@[i]@ == x
                    && #[trigger] self.ig.locs@[j]@ == y && self.ig.edges().contains((i, j));
            if !((i == ia as int && j == ib as int) || (i == ib as int && j == ia as int)) {
                assert(before.edges().contains((i, j)));
                assert(before.interferes(x, y));
                assert(mid.interferes(x, y));
            } else if i == ia as int {
                assert(x == a@);
            } else {
                assert(y == a@);
            }
        }
    }

    /// Builds the interference graph and the move relation of a sequence of
    /// instructions paired with their live-after sets.
    pub fn build_graph(self, instrs: Vec<(Instr, LiveAfter)>) -> (r: Interference)
        requires
            self.wf(),
            self.is_fresh(),
        ensures
            r.wf(),
            forall|k: int| 0 <= k < instrs@.len() ==> demanded(&r, (#[trigger] instrs@[k]).0@, instrs@[k].1.set()),
            forall|k: int, l: ArgView|
                #![trigger instrs@[k], r.has_node(l)]
                0 <= k < instrs@.len() && (read_set_spec(instrs@[k].0@).contains(l)
                    || write_set_spec(instrs@[k].0@).contains(l)) ==> r.has_node(l),
            forall|x: ArgView, y: ArgView|
                #[trigger] r.move_pair(x, y) <==> (x is Var && y is Var && moved_in(instrs@, instrs@.len() as int, x, y)),
            forall|x: ArgView, y: ArgView|
                #[trigger] r.interferes(x, y) ==> edge_demanded(instrs@, instrs@.len() as int, x, y),
    {
        let mut me = self;
        let mut k: usize = 0;
        proof {
            assert forall|x: ArgView, y: ArgView|
                #[trigger] me.ig.move_pair(x, y) <==> (x is Var && y is Var && moved_in(instrs@, 0, x, y)) by {
            }
        }
        while k < instrs.len()
            invariant
                k <= instrs@.len(),
                me.ig.wf(),
                forall|j: int| 0 <= j < k ==> demanded(&me.ig, (#[trigger] instrs@[j]).0@, instrs@[j].1.set()),
                forall|j: int, l: ArgView|
                #![trigger instrs@[j], me.ig.has_node(l)]
                    0 <= j < k && (read_set_spec(instrs@[j].0@).contains(l)
                        || write_set_spec(instrs@[j].0@).contains(l)) ==> me.ig.has_node(l),
                forall|x: ArgView, y: ArgView|
                    #[trigger] me.ig.move_pair(x, y) <==> (x is Var && y is Var && moved_in(instrs@, k as int, x, y)),
                forall|x: ArgView, y: ArgView| #[trigger] me.ig.interferes(x, y) ==> edge_demanded(instrs@, k as int, x, y),
            decreases instrs.len() - k,
        {
            let ghost entry = me.ig;
            let ghost first = me.ig;
            let inst = &instrs[k].0;
            let rs = inst.read_set();
            let ws0 = inst.write_set();
            me.add_all(&rs);
            let ghost mid = me.ig;
            me.add_all(&ws0);
            let ghost before = me.ig;
            proof {
                assert forall|q: int| 0 <= q < rs@.len() implies before.has_node(#[trigger] rs@[q]@) by {
                    lemma_extends_keeps(&mid, &before, rs@[q]@, rs@[q]@);
                }
                lemma_extends_trans(&before, &first);
                assert forall|j: int, l: ArgView|
                #![trigger instrs@[j], before.has_node(l)]
                    0 <= j < k && (read_set_spec(instrs@[j].0@).contains(l)
                        || write_set_spec(instrs@[j].0@).contains(l)) implies before.has_node(l) by {
                    lemma_extends_keeps(&first, &before, l, l);
                }
                assert forall|j: int| 0 <= j < k implies demanded(&before, (#[trigger] instrs@[j]).0@, instrs@[j].1.set()) by {
                    lemma_demanded_keeps(&first, &before, instrs@[j].0@, instrs@[j].1.set());
                }
            }
            let live = instrs[k].1.iter();
            proof {
                assert forall|x: ArgView, y: ArgView| #[trigger] me.ig.interferes(x, y) implies edge_demanded(instrs@, k + 1, x, y) by {
                    assert(mid.interferes(x, y));
                    assert(entry.interferes(x, y));
                    assert(edge_demanded(instrs@, k as int, x, y));
                    let q = choose|q: int|
                        0 <= q < k && (instr_edge((#[trigger] instrs@[q]).0@, instrs@[q].1.set(), x, y) || instr_edge(
                            instrs@[q].0@,
                            instrs@[q].1.set(),
                            y,
                            x,
                        ));
                }
            }
            match inst {
                Instr::Movq(s, d) => {
                    let ghost before_move = me.ig;
                    me.add_move_rel(s, d);
                    let ghost start = me.ig;
                    proof {
                        assert forall|x: ArgView, y: ArgView| #[trigger] me.ig.interferes(x, y) implies edge_demanded(instrs@, k + 1, x, y) by {
                            assert(before_move.interferes(x, y));
                        }
                    }
                    let mut t: usize = 0;
                    while t < live.len()
                        invariant
                            t <= live@.len(),
                            me.ig.wf(),
                            me.ig.extends(&before),
                            forall|q: int| 0 <= q < t && live@[q]@ != s@ && live@[q]@ != d@ ==> me.ig.interferes(d@, #[trigger] live@[q]@),
                            forall|x: ArgView, y: ArgView| #[trigger] me.ig.move_pair(x, y) == start.move_pair(x, y),
                            forall|x: ArgView, y: ArgView| #[trigger] me.ig.interferes(x, y) ==> edge_demanded(instrs@, k + 1, x, y),
                            k < instrs@.len(),
                            *inst == instrs@[k as int].0,
                            arg_set(live@) == instrs@[k as int].1.set(),
                            inst@ == InstrView::Movq(s@, d@),
                        decreases live.len() - t,
                    {
                        let ghost prev = me.ig;
                        if !live[t].eq(s) && !live[t].eq(d) {
                            me.interfere_with(d, &live[t]);
                            proof {
                                assert(arg_views(live@)[t as int] == live@[t as int]@);
                                assert(instr_edge(instrs@[k as int].0@, instrs@[k as int].1.set(), d@, live@[t as int]@));
                            }
                        }
                        proof {
                            assert forall|q: int| 0 <= q < t + 1 && live@[q]@ != s@ && live@[q]@ != d@ implies me.ig.interferes(d@, #[trigger] live@[q]@) by {
                                lemma_extends_keeps(&prev, &me.ig, d@, live@[q]@);
                            }
                            assert forall|x: ArgView, y: ArgView| #[trigger] me.ig.interferes(x, y) implies edge_demanded(instrs@, k + 1, x, y) by {
                                if !prev.interferes(x, y) {
                                    assert(instr_edge(instrs@[k as int].0@, instrs@[k as int].1.set(), d@, live@[t as int]@));
                                }
                            }
                        }
                        t = t + 1;
                    }
                    proof {
                        assert forall|l: ArgView| #[trigger] arg_set(live@).contains(l) && l != s@ && l != d@ implies me.ig.interferes(d@, l) by {
                            let q = choose|q: int| 0 <= q < live@.len() && #[trigger] arg_views(live@)[q] == l;
                            assert(live@[q]@ == l);
                        }
                    }
                },
                _ => {
                    let ws = inst.write_set();
                    let mut u: usize = 0;
                    while u < ws.len()
                        invariant
                            u <= ws@.len(),
                            me.ig.wf(),
                            me.ig.extends(&before),
                            forall|p: int, q: int| 0 <= p < u && 0 <= q < live@.len() && live@[q]@ != ws@[p]@ ==> me.ig.interferes(#[trigger] ws@[p]@, #[trigger] live@[q]@),
                            forall|x: ArgView, y: ArgView| #[trigger] me.ig.move_pair(x, y) == before.move_pair(x, y),
                            forall|x: ArgView, y: ArgView| #[trigger] me.ig.interferes(x, y) ==> edge_demanded(instrs@, k + 1, x, y),
                            k < instrs@.len(),
                            *inst == instrs@[k as int].0,
                            arg_set(live@) == instrs@[k as int].1.set(),
                            arg_set(ws@) == write_set_spec(inst@),
                            !(inst@ is Movq),
                        decreases ws.len() - u,
                    {
                        let ghost upper = me.ig;
                        let mut t: usize = 0;
                        while t < live.len()
                            invariant
                                t <= live@.len(),
                                u < ws@.len(),
                                me.ig.wf(),
                                me.ig.extends(&before),
                                me.ig.extends(&upper),
                                forall|x: ArgView, y: ArgView| #[trigger] me.ig.move_pair(x, y) == before.move_pair(x, y),
                                forall|x: ArgView, y: ArgView| #[trigger] me.ig.interferes(x, y) ==> edge_demanded(instrs@, k + 1, x, y),
                                k < instrs@.len(),
                                *inst == instrs@[k as int].0,
                                arg_set(live@) == instrs@[k as int].1.set(),
                                arg_set(ws@) == write_set_spec(inst@),
                                !(inst@ is Movq),
                                forall|p: int, q: int| 0 <= p < u && 0 <= q < live@.len() && live@[q]@ != ws@[p]@ ==> me.ig.interferes(#[trigger] ws@[p]@, #[trigger] live@[q]@),
                                forall|q: int| 0 <= q < t && live@[q]@ != ws@[u as int]@ ==> me.ig.interferes(ws@[u as int]@, #[trigger] live@[q]@),
                            decreases live.len() - t,
                        {
                            let ghost prev = me.ig;
                            if !live[t].eq(&ws[u]) {
                                me.interfere_with(&ws[u], &live[t]);
                                proof {
                                    assert(arg_views(live@)[t as int] == live@[t as int]@);
                                    assert(arg_views(ws@)[u as int] == ws@[u as int]@);
                                    assert(instr_edge(instrs@[k as int].0@, instrs@[k as int].1.set(), ws@[u as int]@, live@[t as int]@));
                                }
                            }
                            proof {
                                assert forall|p: int, q: int| 0 <= p < u && 0 <= q < live@.len() && live@[q]@ != ws@[p]@ implies me.ig.interferes(#[trigger] ws@[p]@, #[trigger] live@[q]@) by {
                                    lemma_extends_keeps(&prev, &me.ig, ws@[p]@, live@[q]@);
                                }
                                assert forall|x: ArgView, y: ArgView| #[trigger] me.ig.interferes(x, y) implies edge_demanded(instrs@, k + 1, x, y) by {
                                    if !prev.interferes(x, y) {
                                        assert(instr_edge(instrs@[k as int].0@, instrs@[k as int].1.set(), ws@[u as int]@, live@[t as int]@));
                                    }
                                }
                                assert forall|q: int| 0 <= q < t + 1 && live@[q]@ != ws@[u as int]@ implies me.ig.interferes(ws@[u as int]@, #[trigger] live@[q]@) by {
                                    lemma_extends_keeps(&prev, &me.ig, ws@[u as int]@, live@[q]@);
                                }
                            }
                            t = t + 1;
                        }
                        u = u + 1;
                    }
                    proof {
                        assert forall|w: ArgView, l: ArgView|
                            #[trigger] write_set_spec(inst@).contains(w) && #[trigger] arg_set(live@).contains(l) && l != w implies me.ig.interferes(w, l) by {
                            let p = choose|p: int| 0 <= p < ws@.len() && #[trigger] arg_views(ws@)[p] == w;
                            let q = choose|q: int| 0 <= q < live@.len() && #[trigger] arg_views(live@)[q] == l;
                            assert(ws@[p]@ == w);
                            assert(live@[q]@ == l);
                        }
                    }
                },
            }
            proof {
                assert forall|j: int| 0 <= j < k + 1 implies demanded(&me.ig, (#[trigger] instrs@[j]).0@, instrs@[j].1.set()) by {
                    if j < k {
                        lemma_demanded_keeps(&before, &me.ig, instrs@[j].0@, instrs@[j].1.set());
                    }
                }
                assert forall|j: int, l: ArgView|
                #![trigger instrs@[j], me.ig.has_node(l)]
                    0 <= j < k + 1 && (read_set_spec(instrs@[j].0@).contains(l)
                        || write_set_spec(instrs@[j].0@).contains(l)) implies me.ig.has_node(l) by {
                    lemma_extends_keeps(&before, &me.ig, l, l);
                    if j == k {
                        if read_set_spec(instrs@[j].0@).contains(l) {
                            let q = choose|q: int| 0 <= q < rs@.len() && #[trigger] arg_views(rs@)[q] == l;
                            assert(rs@[q]@ == l);
                            assert(before.has_node(rs@[q]@));
                        } else {
                            let q = choose|q: int| 0 <= q < ws0@.len() && #[trigger] arg_views(ws0@)[q] == l;
                            assert(ws0@[q]@ == l);
                            assert(before.has_node(ws0@[q]@));
                        }
                    } else {
                        assert(before.has_node(l));
                    }
                }
            }
            proof {
                assert forall|x: ArgView, y: ArgView|
                    #[trigger] me.ig.move_pair(x, y) <==> (x is Var && y is Var && moved_in(instrs@, k + 1, x, y)) by {
                    assert(entry.move_pair(x, y) == before.move_pair(x, y));
                    if moved_in(instrs@, k + 1, x, y) && !moved_in(instrs@, k as int, x, y) {
                        let q = choose|q: int| 0 <= q < k + 1 && #[trigger] instrs@[q].0@ == InstrView::Movq(x, y);
                        assert(q == k);
                    }
                    if moved_in(instrs@, k as int, x, y) {
                        let q = choose|q: int| 0 <= q < k && #[trigger] instrs@[q].0@ == InstrView::Movq(x, y);
                        assert(moved_in(instrs@, k + 1, x, y));
                    }
                    if instrs@[k as int].0@ == InstrView::Movq(x, y) {
                        assert(moved_in(instrs@, k + 1, x, y));
                    }
                }
            }
            k = k + 1;
        }
        me.ig
    }
}

} // verus!
