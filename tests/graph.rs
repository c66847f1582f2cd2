use pycompiler::graph::{DirectedAdjList, Edge, UEdge, UndirectedAdjList};

#[test]
fn directed_edges_and_adjacency() {
    let mut g = DirectedAdjList::new(vec![Edge::new(1, 2), Edge::new(2, 3), Edge::new(1, 2)], None, None, None);
    assert_eq!(g.edges().len(), 2);
    let mut vs = g.vertices();
    vs.sort();
    assert_eq!(vs, vec![1, 2, 3]);
    assert!(g.has_edge(1, 2));
    assert!(!g.has_edge(2, 1));
    assert_eq!(g.adjacent(&1), Some(vec![2]));
    assert_eq!(g.adjacent(&9), None);
    assert_eq!(g.out_edges(2), vec![Edge::new(2, 3)]);
    assert_eq!(g.in_edges(2), vec![Edge::new(1, 2)]);
    g.remove_edge(1, 2);
    assert!(!g.has_edge(1, 2));
    assert_eq!(g.vertices().len(), 3);
    g.add_vertex(7);
    assert_eq!(g.adjacent(&7), Some(vec![]));
}

#[test]
fn directed_transpose() {
    let g = DirectedAdjList::new(vec![Edge::new(1, 2), Edge::new(2, 3)], None, None, None);
    let t = g.transpose();
    assert!(t.has_edge(2, 1));
    assert!(t.has_edge(3, 2));
    assert!(!t.has_edge(1, 2));
}

#[test]
fn topological_order() {
    let g = DirectedAdjList::new(
        vec![Edge::new(5, 3), Edge::new(3, 1), Edge::new(5, 1), Edge::new(4, 3)],
        None,
        None,
        None,
    );
    let order = g.topological_sort();
    assert_eq!(order.len(), 4);
    let at = |v: usize| order.iter().position(|&x| x == v).unwrap();
    assert!(at(5) < at(3));
    assert!(at(4) < at(3));
    assert!(at(3) < at(1));
    let cyclic = DirectedAdjList::new(vec![Edge::new(1, 2), Edge::new(2, 1), Edge::new(3, 1)], None, None, None);
    assert_eq!(cyclic.topological_sort(), vec![3]);
}

#[test]
fn undirected_graph() {
    let mut g = UndirectedAdjList::new(vec![UEdge(1, 2), UEdge(3, 2)], None, None, None);
    assert!(g.has_edge(2, 1));
    assert!(g.has_edge(2, 3));
    assert_eq!(UEdge(1, 2), UEdge(2, 1));
    let mut es: Vec<(usize, usize)> = g.edges().iter().map(|e| (e.0, e.1)).collect();
    es.sort();
    assert_eq!(es, vec![(1, 2), (2, 3)]);
    let mut adj = g.adjacent(&2).unwrap();
    adj.sort();
    assert_eq!(adj, vec![1, 3]);
    assert_eq!(g.out_edges(1).len(), 1);
    assert_eq!(g.in_edges(1)[0].0, 2);
    g.remove_edge(2, 1);
    assert!(!g.has_edge(1, 2));
    let e = g.add_edge(4, 4);
    assert_eq!((e.0, e.1), (4, 4));
    assert!(g.has_edge(4, 4));
}
