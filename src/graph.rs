use vstd::prelude::*;

verus! {

/// A directed edge.
#[derive(Clone, Copy, Debug, PartialEq, Eq, Hash, Structural)]
pub struct Edge {
    pub source: usize,
    pub target: usize,
}

impl Edge {
    pub fn new(src: usize, target: usize) -> (r: Self)
        ensures
            r == (Edge { source: src, target }),
    {
        Self { source: src, target }
    }
}

/// The edge ends at `x`: at its source when `by_source`, else at its target.
pub open spec fn at_end(e: Edge, x: usize, by_source: bool) -> bool {
    if by_source {
        e.source == x
    } else {
        e.target == x
    }
}

/// Whether `v` holds `x`.
fn has_node(v: &Vec<usize>, x: usize) -> (r: bool)
    ensures
        r == v@.contains(x),
{
    let mut i: usize = 0;
    while i < v.len()
        invariant
            i <= v@.len(),
            forall|k: int| 0 <= k < i ==> v@[k] != x,
        decreases v.len() - i,
    {
        if v[i] == x {
            return true;
        }
        i = i + 1;
    }
    false
}

fn has_edge_in(v: &Vec<Edge>, e: Edge) -> (r: bool)
    ensures
        r == v@.contains(e),
{
    let mut i: usize = 0;
    while i < v.len()
        invariant
            i <= v@.len(),
            forall|k: int| 0 <= k < i ==> v@[k] != e,
        decreases v.len() - i,
    {
        if v[i] == e {
            return true;
        }
        i = i + 1;
    }
    false
}

/// A directed graph over numbered vertices, held as a vertex list and an edge list.
pub struct DirectedAdjList {
    verts: Vec<usize>,
    edge_list: Vec<Edge>,
    vertex_label: Option<Vec<(usize, String)>>,
    edge_label: Option<Vec<(Edge, String)>>,
    edge_color: Option<Vec<(Edge, String)>>,
}

impl DirectedAdjList {
    pub closed spec fn vertex_set(&self) -> Set<usize> {
        self.verts@.to_set()
    }

    pub closed spec fn edge_set(&self) -> Set<Edge> {
        self.edge_list@.to_set()
    }

    /// No vertex or edge is held twice, and every edge joins vertices of the graph.
    pub closed spec fn wf(&self) -> bool {
        &&& self.verts@.no_duplicates()
        &&& self.edge_list@.no_duplicates()
        &&& forall|i: int|
            0 <= i < self.edge_list@.len() ==> self.verts@.contains((#[trigger] self.edge_list@[i]).source)
                && self.verts@.contains(self.edge_list@[i].target)
    }

    pub fn empty() -> (r: Self)
        ensures
            r.wf(),
            r.vertex_set() == Set::<usize>::empty(),
            r.edge_set() == Set::<Edge>::empty(),
    {
        let r = Self {
            verts: Vec::new(),
            edge_list: Vec::new(),
            vertex_label: None,
            edge_label: None,
            edge_color: None,
        };
        assert(r.vertex_set() =~= Set::<usize>::empty());
        assert(r.edge_set() =~= Set::<Edge>::empty());
        r
    }

    /// The graph of the given edges, with optional labels and colors kept alongside.
    pub fn new(
        edge_list: Vec<Edge>,
        vertex_label: Option<Vec<(usize, String)>>,
        edge_label: Option<Vec<(Edge, String)>>,
        edge_color: Option<Vec<(Edge, String)>>,
    ) -> (r: Self)
        ensures
            r.wf(),
            r.edge_set() == edge_list@.to_set(),
            forall|v: usize|
                r.vertex_set().contains(v) <==> exists|i: int|
                    0 <= i < edge_list@.len() && ((#[trigger] edge_list@[i]).source == v || edge_list@[i].target == v),
    {
        let mut list = Self::empty();
        list.vertex_label = vertex_label;
        list.edge_label = edge_label;
        list.edge_color = edge_color;
        let mut i: usize = 0;
        while i < edge_list.len()
            invariant
                i <= edge_list@.len(),
                list.wf(),
                list.edge_set() == edge_list@.take(i as int).to_set(),
                forall|v: usize|
                    list.vertex_set().contains(v) <==> exists|k: int|
                        0 <= k < i && ((#[trigger] edge_list@[k]).source == v || edge_list@[k].target == v),
            decreases edge_list.len() - i,
        {
            let e = edge_list[i];
            list.add_edge(e.source, e.target);
            proof {
                assert(edge_list@.take(i + 1) =~= edge_list@.take(i as int).push(e));
                edge_list@.take(i as int).lemma_push_to_set_commute(e);
                assert forall|v: usize| list.vertex_set().contains(v) <==> exists|k: int|
                    0 <= k < i + 1 && ((#[trigger] edge_list@[k]).source == v || edge_list@[k].target == v) by {
                    if list.vertex_set().contains(v) && v != e.source && v != e.target {
                    }
                    if exists|k: int| 0 <= k < i + 1 && ((#[trigger] edge_list@[k]).source == v || edge_list@[k].target == v) {
                        let k = choose|k: int| 0 <= k < i + 1 && ((#[trigger] edge_list@[k]).source == v || edge_list@[k].target == v);
                        if k < i {
                        }
                    }
                }
            }
            i = i + 1;
        }
        assert(edge_list@.take(i as int) =~= edge_list@);
        list
    }

    pub fn add_vertex(&mut self, v: usize)
        requires
            old(self).wf(),
        ensures
            final(self).wf(),
            final(self).vertex_set() == old(self).vertex_set().insert(v),
            final(self).edge_set() == old(self).edge_set(),
    {
        if !has_node(&self.verts, v) {
            let ghost before = self.verts@;
            self.verts.push(v);
            proof {
                before.lemma_push_to_set_commute(v);
                assert forall|i: int, j: int| 0 <= i < j < self.verts@.len() implies self.verts@[i] != self.verts@[j] by {
                    if j == before.len() {
                        assert(before.contains(self.verts@[i]));
                    }
                }
                assert forall|i: int| 0 <= i < self.edge_list@.len() implies self.verts@.contains((#[trigger] self.edge_list@[i]).source)
                    && self.verts@.contains(self.edge_list@[i].target) by {
                    let a = choose|a: int| 0 <= a < before.len() && before[a] == self.edge_list@[i].source;
                    let b = choose|b: int| 0 <= b < before.len() && before[b] == self.edge_list@[i].target;
                    assert(self.verts@[a] == before[a]);
                    assert(self.verts@[b] == before[b]);
                }
            }
        } else {
            assert(self.vertex_set() =~= old(self).vertex_set().insert(v));
        }
    }

    /// Adds the edge from `s` to `d`, and both vertices.
    pub fn add_edge(&mut self, s: usize, d: usize) -> (r: Edge)
        requires
            old(self).wf(),
        ensures
            final(self).wf(),
            r == (Edge { source: s, target: d }),
            final(self).vertex_set() == old(self).vertex_set().insert(s).insert(d),
            final(self).edge_set() == old(self).edge_set().insert(r),
    {
        self.add_vertex(s);
        self.add_vertex(d);
        let edge = Edge::new(s, d);
        if !has_edge_in(&self.edge_list, edge) {
            let ghost before = self.edge_list@;
            self.edge_list.push(edge);
            proof {
                before.lemma_push_to_set_commute(edge);
                assert(self.verts@.to_set().contains(s));
                assert(self.verts@.to_set().contains(d));
                assert forall|i: int, j: int| 0 <= i < j < self.edge_list@.len() implies self.edge_list@[i] != self.edge_list@[j] by {
                    if j == before.len() {
                        assert(before.contains(self.edge_list@[i]));
                    }
                }
                assert forall|i: int| 0 <= i < self.edge_list@.len() implies self.verts@.contains((#[trigger] self.edge_list@[i]).source)
                    && self.verts@.contains(self.edge_list@[i].target) by {
                    if i < before.len() {
                        assert(self.edge_list@[i] == before[i]);
                    }
                }
            }
        } else {
            assert(self.edge_set() =~= old(self).edge_set().insert(edge));
        }
        edge
    }

    /// Every edge joins two vertices of the graph.
    pub proof fn lemma_edge_ends(&self)
        requires
            self.wf(),
        ensures
            forall|e: Edge| #[trigger] self.edge_set().contains(e) ==> self.vertex_set().contains(e.source)
                && self.vertex_set().contains(e.target),
    {
        assert forall|e: Edge| #[trigger] self.edge_set().contains(e) implies self.vertex_set().contains(e.source)
            && self.vertex_set().contains(e.target) by {
            let k = choose|k: int| 0 <= k < self.edge_list@.len() && self.edge_list@[k] == e;
        }
    }

    /// Every edge, once each.
    pub fn edges(&self) -> (r: Vec<Edge>)
        ensures
            r@.to_set() == self.edge_set(),
    {
        self.edge_list.clone()
    }

    /// Every vertex, once each.
    pub fn vertices(&self) -> (r: Vec<usize>)
        ensures
            r@.to_set() == self.vertex_set(),
    {
        self.verts.clone()
    }

    /// The targets of the edges from `v`, or `None` when `v` is no vertex.
    pub fn adjacent(&self, v: &usize) -> (r: Option<Vec<usize>>)
        requires
            self.wf(),
        ensures
            r is None <==> !self.vertex_set().contains(*v),
            r is Some ==> forall|d: usize| r->0@.contains(d) <==> self.edge_set().contains(Edge { source: *v, target: d }),
    {
        if !has_node(&self.verts, *v) {
            return None;
        }
        let mut out: Vec<usize> = Vec::new();
        let mut i: usize = 0;
        while i < self.edge_list.len()
            invariant
                i <= self.edge_list@.len(),
                forall|d: usize| out@.contains(d) <==> exists|k: int|
                    0 <= k < i && #[trigger] self.edge_list@[k] == (Edge { source: *v, target: d }),
            decreases self.edge_list.len() - i,
        {
            let e = self.edge_list[i];
            let ghost prev = out@;
            if e.source == *v {
                out.push(e.target);
            }
            proof {
                assert forall|d: usize| out@.contains(d) <==> exists|k: int|
                    0 <= k < i + 1 && #[trigger] self.edge_list@[k] == (Edge { source: *v, target: d }) by {
                    if out@.contains(d) {
                        let q = choose|q: int| 0 <= q < out@.len() && out@[q] == d;
                        if q < prev.len() {
                            assert(prev[q] == d);
                            assert(prev.contains(d));
                        } else {
                            assert(self.edge_list@[i as int] == (Edge { source: *v, target: d }));
                        }
                    }
                    if exists|k: int| 0 <= k < i + 1 && #[trigger] self.edge_list@[k] == (Edge { source: *v, target: d }) {
                        let k = choose|k: int| 0 <= k < i + 1 && #[trigger] self.edge_list@[k] == (Edge { source: *v, target: d });
                        if k < i {
                            assert(prev.contains(d));
                            let q = choose|q: int| 0 <= q < prev.len() && prev[q] == d;
                            assert(out@[q] == d);
                        } else {
                            assert(out@[out@.len() - 1] == d);
                        }
                    }
                }
            }
            i = i + 1;
        }
        proof {
            assert forall|d: usize| out@.contains(d) <==> self.edge_set().contains(Edge { source: *v, target: d }) by {
                if self.edge_set().contains(Edge { source: *v, target: d }) {
                    let k = choose|k: int| 0 <= k < self.edge_list@.len() && self.edge_list@[k] == (Edge { source: *v, target: d });
                }
            }
        }
        Some(out)
    }

    /// The edges with the given source (or, when `by_source` is false, target).
    fn edges_at(&self, x: usize, by_source: bool) -> (r: Vec<Edge>)
        requires
            self.wf(),
        ensures
            r@.no_duplicates(),
            forall|e: Edge| r@.contains(e) <==> self.edge_list@.contains(e) && at_end(e, x, by_source),
    {
        let mut out: Vec<Edge> = Vec::new();
        let mut i: usize = 0;
        while i < self.edge_list.len()
            invariant
                i <= self.edge_list@.len(),
                forall|e: Edge| out@.contains(e) <==> self.edge_list@.take(i as int).contains(e) && at_end(e, x, by_source),
                self.wf(),
                out@.no_duplicates(),
            decreases self.edge_list.len() - i,
        {
            let e = self.edge_list[i];
            let ghost prev = out@;
            if (by_source && e.source == x) || (!by_source && e.target == x) {
                proof {
                    if prev.contains(e) {
                        assert(self.edge_list@.take(i as int).contains(e));
                        let q = choose|q: int| 0 <= q < i && self.edge_list@.take(i as int)[q] == e;
                        assert(self.edge_list@[q] == self.edge_list@[i as int]);
                    }
                }
                out.push(e);
                proof {
                    assert forall|a: int, b: int| 0 <= a < b < out@.len() implies out@[a] != out@[b] by {
                        if b == prev.len() {
                            assert(prev.contains(out@[a]));
                        }
                    }
                }
            }
            let ghost t = self.edge_list@.take(i + 1);
            proof {
                assert(t =~= self.edge_list@.take(i as int).push(e));
                assert forall|f: Edge| out@.contains(f) <==> t.contains(f) && at_end(f, x, by_source) by {
                    if out@.contains(f) {
                        let q = choose|q: int| 0 <= q < out@.len() && out@[q] == f;
                        if q < prev.len() {
                            assert(prev[q] == f);
                            assert(prev.contains(f));
                            assert(self.edge_list@.take(i as int).contains(f));
                            let k = choose|k: int| 0 <= k < i && self.edge_list@.take(i as int)[k] == f;
                            assert(t[k] == f);
                        } else {
                            assert(t[i as int] == f);
                        }
                    }
                    if t.contains(f) && at_end(f, x, by_source) {
                        let k = choose|k: int| 0 <= k < t.len() && t[k] == f;
                        if k < i {
                            assert(self.edge_list@.take(i as int)[k] == f);
                            assert(prev.contains(f));
                            let q = choose|q: int| 0 <= q < prev.len() && prev[q] == f;
                            assert(out@[q] == f);
                        } else {
                            assert(out@[out@.len() - 1] == f);
                        }
                    }
                }
            }
            i = i + 1;
            assert(t == self.edge_list@.take(i as int));
        }
        assert(self.edge_list@.take(i as int) =~= self.edge_list@);
        out
    }

    /// The edges leaving `s`, once each.
    pub fn out_edges(&self, s: usize) -> (r: Vec<Edge>)
        requires
            self.wf(),
        ensures
            r@.no_duplicates(),
            forall|e: Edge| r@.contains(e) <==> self.edge_set().contains(e) && e.source == s,
    {
        self.edges_at(s, true)
    }

    /// The edges entering `d`, once each.
    pub fn in_edges(&self, d: usize) -> (r: Vec<Edge>)
        requires
            self.wf(),
        ensures
            r@.no_duplicates(),
            forall|e: Edge| r@.contains(e) <==> self.edge_set().contains(e) && e.target == d,
    {
        self.edges_at(d, false)
    }

    pub fn has_edge(&self, s: usize, d: usize) -> (r: bool)
        ensures
            r == self.edge_set().contains(Edge { source: s, target: d }),
    {
        has_edge_in(&self.edge_list, Edge::new(s, d))
    }

    /// Removes the edge from `s` to `d`, if there is one; vertices stay.
    pub fn remove_edge(&mut self, s: usize, d: usize)
        requires
            old(self).wf(),
        ensures
            final(self).wf(),
            final(self).vertex_set() == old(self).vertex_set(),
            final(self).edge_set() == old(self).edge_set().remove(Edge { source: s, target: d }),
    {
        let e = Edge::new(s, d);
        let mut i: usize = 0;
        while i < self.edge_list.len()
            invariant
                *self == *old(self),
                self.wf(),
                e == (Edge { source: s, target: d }),
                i <= self.edge_list@.len(),
                forall|k: int| 0 <= k < i ==> self.edge_list@[k] != e,
            decreases self.edge_list.len() - i,
        {
            if self.edge_list[i] == e {
                let ghost before = self.edge_list@;
                self.edge_list.remove(i);
                proof {
                    let after = self.edge_list@;
                    assert(after =~= before.remove(i as int));
                    assert forall|f: Edge| after.contains(f) <==> before.contains(f) && f != e by {
                        if after.contains(f) {
                            let q = choose|q: int| 0 <= q < after.len() && after[q] == f;
                            let q2 = if q < i { q } else { q + 1 };
                            assert(before[q2] == f);
                            assert(q2 != i);
                        }
                        if before.contains(f) && f != e {
                            let q = choose|q: int| 0 <= q < before.len() && before[q] == f;
                            assert(q != i);
                            let q2 = if q < i { q } else { q - 1 };
                            assert(after[q2] == f);
                        }
                    }
                    assert forall|f: Edge| after.to_set().contains(f) <==> before.to_set().remove(e).contains(f) by {
                        assert(after.to_set().contains(f) == after.contains(f));
                        assert(before.to_set().contains(f) == before.contains(f));
                    }
                    assert(after.to_set() =~= before.to_set().remove(e));
                    assert(before == old(self).edge_list@);
                    assert(self.edge_set() == old(self).edge_set().remove(e));
                    assert forall|a: int, b: int| 0 <= a < b < after.len() implies after[a] != after[b] by {
                        let a2 = if a < i { a } else { a + 1 };
                        let b2 = if b < i { b } else { b + 1 };
                        assert(after[a] == before[a2]);
                        assert(after[b] == before[b2]);
                    }
                    assert forall|k: int| 0 <= k < after.len() implies self.verts@.contains((#[trigger] after[k]).source)
                        && self.verts@.contains(after[k].target) by {
                        let k2 = if k < i { k } else { k + 1 };
                        assert(after[k] == before[k2]);
                    }
                }
                return;
            }
            i = i + 1;
        }
        assert(self.edge_set() =~= old(self).edge_set().remove(e));
    }

    /// The same vertices with every edge reversed.
    pub fn transpose(&self) -> (r: Self)
        requires
            self.wf(),
        ensures
            r.wf(),
            r.vertex_set() == self.vertex_set(),
            forall|e: Edge| r.edge_set().contains(e) <==> self.edge_set().contains(Edge { source: e.target, target: e.source }),
    {
        let mut g = Self::empty();
        let mut i: usize = 0;
        while i < self.verts.len()
            invariant
                i <= self.verts@.len(),
                g.wf(),
                g.vertex_set() == self.verts@.take(i as int).to_set(),
                g.edge_set() == Set::<Edge>::empty(),
            decreases self.verts.len() - i,
        {
            g.add_vertex(self.verts[i]);
            proof {
                assert(self.verts@.take(i + 1) =~= self.verts@.take(i as int).push(self.verts@[i as int]));
                self.verts@.take(i as int).lemma_push_to_set_commute(self.verts@[i as int]);
            }
            i = i + 1;
        }
        assert(self.verts@.take(i as int) =~= self.verts@);
        let mut k: usize = 0;
        while k < self.edge_list.len()
            invariant
                self.wf(),
                k <= self.edge_list@.len(),
                g.wf(),
                g.vertex_set() == self.vertex_set(),
                forall|e: Edge| g.edge_set().contains(e) <==> self.edge_list@.take(k as int).contains(Edge { source: e.target, target: e.source }),
            decreases self.edge_list.len() - k,
        {
            let e = self.edge_list[k];
            let ghost t = self.edge_list@.take(k + 1);
            let ghost gold = g.edge_set();
            g.add_edge(e.target, e.source);
            proof {
                assert(self.verts@.contains(e.source));
                assert(self.verts@.contains(e.target));
                assert(g.vertex_set() =~= self.vertex_set());
                assert(t =~= self.edge_list@.take(k as int).push(e));
                assert forall|f: Edge| g.edge_set().contains(f) <==> t.contains(Edge { source: f.target, target: f.source }) by {
                    let rf = Edge { source: f.target, target: f.source };
                    assert(gold.contains(f) <==> self.edge_list@.take(k as int).contains(rf));
                    if f == (Edge { source: e.target, target: e.source }) {
                        assert(t[k as int] == e);
                    }
                    if self.edge_list@.take(k as int).contains(rf) {
                        let q = choose|q: int| 0 <= q < k && self.edge_list@.take(k as int)[q] == rf;
                        assert(t[q] == rf);
                    }
                    if t.contains(rf) {
                        let q = choose|q: int| 0 <= q < t.len() && t[q] == rf;
                        if q < k {
                            assert(self.edge_list@.take(k as int)[q] == rf);
                        }
                    }
                }
            }
            k = k + 1;
            assert(t == self.edge_list@.take(k as int));
        }
        assert(self.edge_list@.take(k as int) =~= self.edge_list@);
        g
    }

    /// Whether every source of an edge into `v` is in `listed`.
    fn preds_listed(&self, v: usize, listed: &Vec<usize>) -> (r: bool)
        ensures
            r == forall|e: Edge| #[trigger] self.edge_list@.contains(e) && e.target == v ==> listed@.contains(e.source),
    {
        let mut i: usize = 0;
        while i < self.edge_list.len()
            invariant
                i <= self.edge_list@.len(),
                forall|k: int| 0 <= k < i && self.edge_list@[k].target == v ==> listed@.contains(#[trigger] self.edge_list@[k].source),
            decreases self.edge_list.len() - i,
        {
            let e = self.edge_list[i];
            if e.target == v && !has_node(listed, e.source) {
                assert(self.edge_list@.contains(e));
                return false;
            }
            i = i + 1;
        }
        proof {
            assert forall|e: Edge| #[trigger] self.edge_list@.contains(e) && e.target == v implies listed@.contains(e.source) by {
                let k = choose|k: int| 0 <= k < self.edge_list@.len() && self.edge_list@[k] == e;
            }
        }
        true
    }

    /// A topological order of the vertices that no cycle reaches: each listed
    /// vertex comes after every vertex with an edge into it.
    pub fn topological_sort(&self) -> (r: Vec<usize>)
        requires
            self.wf(),
        ensures
            r@.no_duplicates(),
            forall|i: int| 0 <= i < r@.len() ==> self.vertex_set().contains(#[trigger] r@[i]),
            forall|j: int, e: Edge|
                0 <= j < r@.len() && #[trigger] self.edge_set().contains(e) && e.target == #[trigger] r@[j]
                    ==> exists|i: int| 0 <= i < j && r@[i] == e.source,
            forall|v: usize|
                #[trigger] self.vertex_set().contains(v) && !r@.contains(v) ==> exists|e: Edge|
                    #[trigger] self.edge_set().contains(e) && e.target == v && !r@.contains(e.source),
    {
        let mut topo: Vec<usize> = Vec::new();
        let mut progress = true;
        while progress
            invariant
                self.wf(),
                topo@.no_duplicates(),
                topo@.len() <= self.verts@.len(),
                forall|i: int| 0 <= i < topo@.len() ==> self.verts@.contains(#[trigger] topo@[i]),
                forall|j: int, e: Edge|
                    0 <= j < topo@.len() && #[trigger] self.edge_list@.contains(e) && e.target == #[trigger] topo@[j]
                        ==> exists|i: int| 0 <= i < j && topo@[i] == e.source,
                !progress ==> forall|q: int|
                    0 <= q < self.verts@.len() ==> topo@.contains(#[trigger] self.verts@[q]) || exists|e: Edge|
                        #[trigger] self.edge_list@.contains(e) && e.target == self.verts@[q] && !topo@.contains(e.source),
            decreases self.verts@.len() - topo@.len() + (if progress { 1int } else { 0int }),
        {
            progress = false;
            let ghost start_len = topo@.len();
            let mut v: usize = 0;
            while v < self.verts.len()
                invariant_except_break
                    !progress,
                    topo@.len() == start_len,
                invariant
                    self.wf(),
                    v <= self.verts@.len(),
                    topo@.no_duplicates(),
                    topo@.len() <= self.verts@.len(),
                    forall|i: int| 0 <= i < topo@.len() ==> self.verts@.contains(#[trigger] topo@[i]),
                    forall|j: int, e: Edge|
                        0 <= j < topo@.len() && #[trigger] self.edge_list@.contains(e) && e.target == #[trigger] topo@[j]
                            ==> exists|i: int| 0 <= i < j && topo@[i] == e.source,
                    forall|q: int|
                        0 <= q < v && !progress ==> topo@.contains(#[trigger] self.verts@[q]) || exists|e: Edge|
                            #[trigger] self.edge_list@.contains(e) && e.target == self.verts@[q] && !topo@.contains(e.source),
                ensures
                    !progress ==> forall|q: int|
                        0 <= q < self.verts@.len() ==> topo@.contains(#[trigger] self.verts@[q]) || exists|e: Edge|
                            #[trigger] self.edge_list@.contains(e) && e.target == self.verts@[q] && !topo@.contains(e.source),
                    progress ==> topo@.len() == start_len + 1,
                    !progress ==> topo@.len() == start_len,
                decreases self.verts.len() - v,
            {
                let cand = self.verts[v];
                if !has_node(&topo, cand) && self.preds_listed(cand, &topo) {
                    let ghost before = topo@;
                    proof {
                        lemma_listed_bound(before, self.verts@, cand);
                    }
                    topo.push(cand);
                    proof {
                        assert forall|a: int, b: int| 0 <= a < b < topo@.len() implies topo@[a] != topo@[b] by {
                            if b == before.len() {
                                assert(before.contains(topo@[a]));
                            }
                        }
                        assert forall|i: int| 0 <= i < topo@.len() implies self.verts@.contains(#[trigger] topo@[i]) by {
                            if i < before.len() {
                                assert(topo@[i] == before[i]);
                            }
                        }
                        assert forall|j: int, e: Edge|
                            0 <= j < topo@.len() && #[trigger] self.edge_list@.contains(e) && e.target == #[trigger] topo@[j]
                                implies exists|i: int| 0 <= i < j && topo@[i] == e.source by {
                            if j < before.len() {
                                assert(before[j] == topo@[j]);
                                let i = choose|i: int| 0 <= i < j && before[i] == e.source;
                                assert(topo@[i] == e.source);
                            } else {
                                assert(before.contains(e.source));
                                let i = choose|i: int| 0 <= i < before.len() && before[i] == e.source;
                                assert(topo@[i] == e.source);
                            }
                        }
                    }
                    progress = true;
                    break;
                }
                v = v + 1;
            }
        }
        proof {
            assert forall|w: usize| #[trigger] self.vertex_set().contains(w) && !topo@.contains(w) implies exists|e: Edge|
                #[trigger] self.edge_set().contains(e) && e.target == w && !topo@.contains(e.source) by {
                let q = choose|q: int| 0 <= q < self.verts@.len() && self.verts@[q] == w;
                assert(topo@.contains(self.verts@[q]) || exists|e: Edge|
                    #[trigger] self.edge_list@.contains(e) && e.target == self.verts@[q] && !topo@.contains(e.source));
                let e = choose|e: Edge| #[trigger] self.edge_list@.contains(e) && e.target == self.verts@[q] && !topo@.contains(e.source);
                assert(self.edge_set().contains(e));
            }
            assert forall|i: int| 0 <= i < topo@.len() implies self.vertex_set().contains(#[trigger] topo@[i]) by {
                assert(self.verts@.contains(topo@[i]));
            }
        }
        topo
    }
}

/// Distinct vertices of `verts` that leave out `cand`, itself in `verts`, are fewer than `verts`.
proof fn lemma_listed_bound(listed: Seq<usize>, verts: Seq<usize>, cand: usize)
    requires
        listed.no_duplicates(),
        verts.no_duplicates(),
        forall|i: int| 0 <= i < listed.len() ==> verts.contains(#[trigger] listed[i]),
        verts.contains(cand),
        !listed.contains(cand),
    ensures
        listed.len() < verts.len(),
{
    let with = listed.push(cand);
    assert(with.no_duplicates()) by {
        assert forall|a: int, b: int| 0 <= a < b < with.len() implies with[a] != with[b] by {
            if b == listed.len() {
                assert(listed.contains(with[a]));
            }
        }
    }
    assert forall|x: usize| with.to_set().contains(x) implies verts.to_set().contains(x) by {
        let k = choose|k: int| 0 <= k < with.len() && with[k] == x;
        if k < listed.len() {
            assert(verts.contains(listed[k]));
        }
    }
    with.unique_seq_to_set();
    verts.unique_seq_to_set();
    vstd::set_lib::lemma_len_subset(with.to_set(), verts.to_set());
}

/// An undirected edge; `UEdge(a, b)` and `UEdge(b, a)` are the same edge.
#[derive(Clone, Copy, Debug)]
pub struct UEdge(pub usize, pub usize);

impl PartialEq for UEdge {
    fn eq(&self, other: &Self) -> (r: bool) {
        (self.0 == other.0 && self.1 == other.1) || (self.1 == other.0 && self.0 == other.1)
    }
}

impl vstd::std_specs::cmp::PartialEqSpecImpl for UEdge {
    open spec fn obeys_eq_spec() -> bool {
        true
    }

    open spec fn eq_spec(&self, other: &UEdge) -> bool {
        (self.0 == other.0 && self.1 == other.1) || (self.1 == other.0 && self.0 == other.1)
    }
}

/// An undirected graph over numbered vertices; each edge is kept in both directions.
pub struct UndirectedAdjList {
    inner: DirectedAdjList,
    vertex_label: Option<Vec<(usize, String)>>,
    edge_label: Option<Vec<(UEdge, String)>>,
    edge_color: Option<Vec<(UEdge, String)>>,
}

impl UndirectedAdjList {
    pub closed spec fn vertex_set(&self) -> Set<usize> {
        self.inner.vertex_set()
    }

    /// Whether an edge joins `a` and `b`.
    pub closed spec fn linked(&self, a: usize, b: usize) -> bool {
        self.inner.edge_set().contains(Edge { source: a, target: b })
    }

    pub closed spec fn wf(&self) -> bool {
        &&& self.inner.wf()
        &&& forall|e: Edge| #[trigger] self.inner.edge_set().contains(e) ==> self.inner.edge_set().contains(
            Edge { source: e.target, target: e.source },
        )
    }

    pub fn empty() -> (r: Self)
        ensures
            r.wf(),
            r.vertex_set() == Set::<usize>::empty(),
            forall|a: usize, b: usize| !r.linked(a, b),
    {
        Self { inner: DirectedAdjList::empty(), vertex_label: None, edge_label: None, edge_color: None }
    }

    /// The graph of the given edges, with optional labels and colors kept alongside.
    pub fn new(
        edge_list: Vec<UEdge>,
        vertex_label: Option<Vec<(usize, String)>>,
        edge_label: Option<Vec<(UEdge, String)>>,
        edge_color: Option<Vec<(UEdge, String)>>,
    ) -> (r: Self)
        ensures
            r.wf(),
            forall|a: usize, b: usize| r.linked(a, b) <==> exists|i: int|
                0 <= i < edge_list@.len() && ((#[trigger] edge_list@[i]).0 == a && edge_list@[i].1 == b
                    || edge_list@[i].0 == b && edge_list@[i].1 == a),
            forall|v: usize| r.vertex_set().contains(v) <==> exists|i: int|
                0 <= i < edge_list@.len() && ((#[trigger] edge_list@[i]).0 == v || edge_list@[i].1 == v),
    {
        let mut list = Self { inner: DirectedAdjList::empty(), vertex_label, edge_label, edge_color };
        let mut i: usize = 0;
        while i < edge_list.len()
            invariant
                i <= edge_list@.len(),
                list.wf(),
                forall|a: usize, b: usize| list.linked(a, b) <==> exists|k: int|
                    0 <= k < i && ((#[trigger] edge_list@[k]).0 == a && edge_list@[k].1 == b
                        || edge_list@[k].0 == b && edge_list@[k].1 == a),
                forall|v: usize| list.vertex_set().contains(v) <==> exists|k: int|
                    0 <= k < i && ((#[trigger] edge_list@[k]).0 == v || edge_list@[k].1 == v),
            decreases edge_list.len() - i,
        {
            let e = edge_list[i];
            let ghost before = list;
            list.add_edge(e.0, e.1);
            proof {
                assert forall|a: usize, b: usize| list.linked(a, b) <==> exists|k: int|
                    0 <= k < i + 1 && ((#[trigger] edge_list@[k]).0 == a && edge_list@[k].1 == b
                        || edge_list@[k].0 == b && edge_list@[k].1 == a) by {
                    if before.linked(a, b) {
                        let k = choose|k: int| 0 <= k < i && ((#[trigger] edge_list@[k]).0 == a && edge_list@[k].1 == b
                            || edge_list@[k].0 == b && edge_list@[k].1 == a);
                    }
                    if (e.0 == a && e.1 == b) || (e.0 == b && e.1 == a) {
                        assert(edge_list@[i as int] == e);
                    }
                    if exists|k: int| 0 <= k < i + 1 && ((#[trigger] edge_list@[k]).0 == a && edge_list@[k].1 == b
                        || edge_list@[k].0 == b && edge_list@[k].1 == a) {
                        assert(true);
                        let k = choose|k: int| 0 <= k < i + 1 && ((#[trigger] edge_list@[k]).0 == a && edge_list@[k].1 == b
                            || edge_list@[k].0 == b && edge_list@[k].1 == a);
                        if k < i {
                            assert(before.linked(a, b));
                        }
                    }
                }
            }
            proof {
                assert forall|v: usize| list.vertex_set().contains(v) <==> exists|k: int|
                    0 <= k < i + 1 && ((#[trigger] edge_list@[k]).0 == v || edge_list@[k].1 == v) by {
                    if (e.0 == v || e.1 == v) {
                        assert(edge_list@[i as int] == e);
                    }
                    if before.vertex_set().contains(v) {
                        let k = choose|k: int| 0 <= k < i && ((#[trigger] edge_list@[k]).0 == v || edge_list@[k].1 == v);
                    }
                    if exists|k: int| 0 <= k < i + 1 && ((#[trigger] edge_list@[k]).0 == v || edge_list@[k].1 == v) {
                        let k = choose|k: int| 0 <= k < i + 1 && ((#[trigger] edge_list@[k]).0 == v || edge_list@[k].1 == v);
                        if k < i {
                            assert(before.vertex_set().contains(v));
                        }
                    }
                }
            }
            i = i + 1;
        }
        list
    }

    pub fn add_vertex(&mut self, v: usize)
        requires
            old(self).wf(),
        ensures
            final(self).wf(),
            final(self).vertex_set() == old(self).vertex_set().insert(v),
            forall|a: usize, b: usize| final(self).linked(a, b) == old(self).linked(a, b),
    {
        self.inner.add_vertex(v);
    }

    /// Links are symmetric and join vertices of the graph.
    pub proof fn lemma_linked(&self)
        requires
            self.wf(),
        ensures
            forall|a: usize, b: usize| #[trigger] self.linked(a, b) ==> self.linked(b, a) && self.vertex_set().contains(a)
                && self.vertex_set().contains(b),
    {
        self.inner.lemma_edge_ends();
        assert forall|a: usize, b: usize| #[trigger] self.linked(a, b) implies self.linked(b, a) && self.vertex_set().contains(a)
            && self.vertex_set().contains(b) by {
            assert(self.inner.edge_set().contains(Edge { source: a, target: b }));
        }
    }

    /// Joins `s` and `d`, adding both vertices.
    pub fn add_edge(&mut self, s: usize, d: usize) -> (r: UEdge)
        requires
            old(self).wf(),
        ensures
            final(self).wf(),
            r.0 == s && r.1 == d,
            final(self).vertex_set() == old(self).vertex_set().insert(s).insert(d),
            forall|a: usize, b: usize| final(self).linked(a, b) == (old(self).linked(a, b) || (a == s && b == d) || (a == d && b == s)),
    {
        self.inner.add_edge(s, d);
        self.inner.add_edge(d, s);
        assert(self.vertex_set() =~= old(self).vertex_set().insert(s).insert(d));
        UEdge(s, d)
    }

    /// Each edge once, as `UEdge(a, b)` with `a <= b`.
    pub fn edges(&self) -> (r: Vec<UEdge>)
        requires
            self.wf(),
        ensures
            forall|k: int| 0 <= k < r@.len() ==> (#[trigger] r@[k]).0 <= r@[k].1 && self.linked(r@[k].0, r@[k].1),
            forall|a: usize, b: usize| a <= b && self.linked(a, b) ==> exists|k: int|
                0 <= k < r@.len() && (#[trigger] r@[k]).0 == a && r@[k].1 == b,
    {
        let all = self.inner.edges();
        let mut out: Vec<UEdge> = Vec::new();
        let mut i: usize = 0;
        while i < all.len()
            invariant
                i <= all@.len(),
                all@.to_set() == self.inner.edge_set(),
                forall|k: int| 0 <= k < out@.len() ==> (#[trigger] out@[k]).0 <= out@[k].1 && self.linked(out@[k].0, out@[k].1),
                forall|q: int| 0 <= q < i && (#[trigger] all@[q]).source <= all@[q].target ==> exists|k: int|
                    0 <= k < out@.len() && out@[k].0 == all@[q].source && out@[k].1 == all@[q].target,
            decreases all.len() - i,
        {
            let e = all[i];
            let ghost prev = out@;
            if e.source <= e.target {
                assert(all@.to_set().contains(e));
                out.push(UEdge(e.source, e.target));
            }
            proof {
                assert forall|q: int| 0 <= q < i + 1 && (#[trigger] all@[q]).source <= all@[q].target implies exists|k: int|
                    0 <= k < out@.len() && out@[k].0 == all@[q].source && out@[k].1 == all@[q].target by {
                    if q < i {
                        let k = choose|k: int| 0 <= k < prev.len() && prev[k].0 == all@[q].source && prev[k].1 == all@[q].target;
                        assert(out@[k] == prev[k]);
                    } else {
                        assert(out@[out@.len() - 1].0 == all@[q].source);
                    }
                }
            }
            i = i + 1;
        }
        proof {
            assert forall|a: usize, b: usize| a <= b && self.linked(a, b) implies exists|k: int|
                0 <= k < out@.len() && (#[trigger] out@[k]).0 == a && out@[k].1 == b by {
                let e = Edge { source: a, target: b };
                assert(all@.to_set().contains(e));
                let q = choose|q: int| 0 <= q < all@.len() && all@[q] == e;
                let k = choose|k: int| 0 <= k < out@.len() && out@[k].0 == all@[q].source && out@[k].1 == all@[q].target;
                assert(out@[k].0 == a);
            }
        }
        out
    }

    /// Every vertex, once each.
    pub fn vertices(&self) -> (r: Vec<usize>)
        ensures
            r@.to_set() == self.vertex_set(),
    {
        self.inner.vertices()
    }

    /// The neighbours of `v`, or `None` when `v` is no vertex.
    pub fn adjacent(&self, v: &usize) -> (r: Option<Vec<usize>>)
        requires
            self.wf(),
        ensures
            r is None <==> !self.vertex_set().contains(*v),
            r is Some ==> forall|d: usize| r->0@.contains(d) <==> self.linked(*v, d),
    {
        self.inner.adjacent(v)
    }

    /// The edges at `s`, as `UEdge(s, d)`, once each.
    pub fn out_edges(&self, s: usize) -> (r: Vec<UEdge>)
        requires
            self.wf(),
        ensures
            r@.no_duplicates(),
            forall|k: int| 0 <= k < r@.len() ==> (#[trigger] r@[k]).0 == s && self.linked(s, r@[k].1),
            forall|d: usize| self.linked(s, d) ==> exists|k: int| 0 <= k < r@.len() && (#[trigger] r@[k]).1 == d,
    {
        self.at_vertex(s, true)
    }

    /// The edges at `d`, as `UEdge(s, d)`, once each.
    pub fn in_edges(&self, d: usize) -> (r: Vec<UEdge>)
        requires
            self.wf(),
        ensures
            r@.no_duplicates(),
            forall|k: int| 0 <= k < r@.len() ==> (#[trigger] r@[k]).1 == d && self.linked(r@[k].0, d),
            forall|s: usize| self.linked(s, d) ==> exists|k: int| 0 <= k < r@.len() && (#[trigger] r@[k]).0 == s,
    {
        self.at_vertex(d, false)
    }

    fn at_vertex(&self, x: usize, first: bool) -> (r: Vec<UEdge>)
        requires
            self.wf(),
        ensures
            r@.no_duplicates(),
            first ==> forall|k: int| 0 <= k < r@.len() ==> (#[trigger] r@[k]).0 == x && self.linked(x, r@[k].1),
            first ==> forall|d: usize| self.linked(x, d) ==> exists|k: int| 0 <= k < r@.len() && (#[trigger] r@[k]).1 == d,
            !first ==> forall|k: int| 0 <= k < r@.len() ==> (#[trigger] r@[k]).1 == x && self.linked(r@[k].0, x),
            !first ==> forall|s: usize| self.linked(s, x) ==> exists|k: int| 0 <= k < r@.len() && (#[trigger] r@[k]).0 == s,
    {
        let es = self.inner.out_edges(x);
        let mut out: Vec<UEdge> = Vec::new();
        let mut i: usize = 0;
        while i < es.len()
            invariant
                self.wf(),
                i <= es@.len(),
                out@.len() == i,
                forall|e: Edge| es@.contains(e) <==> self.inner.edge_set().contains(e) && e.source == x,
                forall|k: int| 0 <= k < i ==> (first ==> (#[trigger] out@[k]).0 == x && out@[k].1 == es@[k].target)
                    && (!first ==> out@[k].1 == x && out@[k].0 == es@[k].target),
                es@.no_duplicates(),
            decreases es.len() - i,
        {
            let e = es[i];
            if first {
                out.push(UEdge(x, e.target));
            } else {
                out.push(UEdge(e.target, x));
            }
            i = i + 1;
        }
        proof {
            assert forall|a: int, b: int| 0 <= a < b < out@.len() implies out@[a] != out@[b] by {
                assert(es@.contains(es@[a]));
                assert(es@.contains(es@[b]));
                if out@[a] == out@[b] {
                    assert(es@[a] == es@[b]);
                }
            }
            assert forall|k: int| 0 <= k < out@.len() implies self.linked(x, es@[k].target) && self.linked(es@[k].target, x) by {
                assert(es@.contains(es@[k]));
                let e = es@[k];
                assert(self.inner.edge_set().contains(e));
                assert(self.inner.edge_set().contains(Edge { source: e.target, target: e.source }));
            }
            if first {
                assert forall|d: usize| self.linked(x, d) implies exists|k: int| 0 <= k < out@.len() && (#[trigger] out@[k]).1 == d by {
                    assert(es@.contains(Edge { source: x, target: d }));
                    let k = choose|k: int| 0 <= k < es@.len() && es@[k] == (Edge { source: x, target: d });
                    assert(out@[k].1 == d);
                }
            } else {
                assert forall|t: usize| self.linked(t, x) implies exists|k: int| 0 <= k < out@.len() && (#[trigger] out@[k]).0 == t by {
                    assert(self.inner.edge_set().contains(Edge { source: t, target: x }));
                    assert(self.inner.edge_set().contains(Edge { source: x, target: t }));
                    assert(es@.contains(Edge { source: x, target: t }));
                    let k = choose|k: int| 0 <= k < es@.len() && es@[k] == (Edge { source: x, target: t });
                    assert(out@[k].0 == t);
                }
            }
        }
        out
    }

    pub fn has_edge(&self, s: usize, d: usize) -> (r: bool)
        ensures
            r == self.linked(s, d),
    {
        self.inner.has_edge(s, d)
    }

    /// Removes the edge between `s` and `d`, if there is one; vertices stay.
    pub fn remove_edge(&mut self, s: usize, d: usize)
        requires
            old(self).wf(),
        ensures
            final(self).wf(),
            final(self).vertex_set() == old(self).vertex_set(),
            forall|a: usize, b: usize| final(self).linked(a, b) == (old(self).linked(a, b) && !(a == s && b == d) && !(a == d && b == s)),
    {
        self.inner.remove_edge(s, d);
        self.inner.remove_edge(d, s);
    }
}

} // verus!
