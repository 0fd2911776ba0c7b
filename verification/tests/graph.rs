use asap_core::graph::FactorGraph;

fn snapshot(g: &FactorGraph) -> (Vec<(usize, usize)>, Vec<Vec<usize>>, Vec<Vec<usize>>) {
    let mut factors = Vec::new();
    for k in 0..g.num_factors() {
        factors.push(g.factor(k));
    }
    let mut side0 = Vec::new();
    let mut side1 = Vec::new();
    for p in 0..g.num_items() {
        side0.push(g.cmps0(p).clone());
        side1.push(g.cmps1(p).clone());
    }
    (factors, side0, side1)
}

#[test]
fn graph_push_registers_both_sides() {
    let mut g = FactorGraph::new(3);
    g.push_cmp(1, 0);
    g.push_cmp(2, 1);
    g.push_cmp(1, 2);
    assert_eq!(g.num_items(), 3);
    assert_eq!(g.num_factors(), 3);
    assert_eq!(g.factor(0), (1, 0));
    assert_eq!(g.factor(1), (2, 1));
    assert_eq!(g.factor(2), (1, 2));
    assert_eq!(g.cmps0(0).as_slice(), &[] as &[usize]);
    assert_eq!(g.cmps0(1).as_slice(), &[0, 2]);
    assert_eq!(g.cmps0(2).as_slice(), &[1]);
    assert_eq!(g.cmps1(0).as_slice(), &[0]);
    assert_eq!(g.cmps1(1).as_slice(), &[1]);
    assert_eq!(g.cmps1(2).as_slice(), &[2]);
}

#[test]
fn graph_pop_restores_push_exactly() {
    let mut g = FactorGraph::new(4);
    g.push_cmp(1, 0);
    g.push_cmp(3, 2);
    g.push_cmp(2, 1);
    let before = snapshot(&g);
    g.push_cmp(3, 1);
    g.pop_cmp(3, 1);
    let after = snapshot(&g);
    assert_eq!(before, after);
}

#[test]
fn graph_push_observations_appends_in_order() {
    let mut g = FactorGraph::new(3);
    g.push_cmp(1, 0);
    let obs = vec![(2, 1), (2, 0)];
    g.push_observations(&obs);
    assert_eq!(g.num_factors(), 3);
    assert_eq!(g.factor(0), (1, 0));
    assert_eq!(g.factor(1), (2, 1));
    assert_eq!(g.factor(2), (2, 0));
}

#[test]
fn graph_new_is_empty() {
    let g = FactorGraph::new(2);
    assert_eq!(g.num_factors(), 0);
    assert_eq!(g.cmps0(0).len(), 0);
    assert_eq!(g.cmps1(1).len(), 0);
}
