use masterblaster::graph::{AudioGraph, NodeType};
use masterblaster::graph_order::topological_sort;

fn effect_node(name: &str) -> NodeType {
    NodeType::BuzzMachine { machine_name: String::from(name) }
}

#[test]
fn master_only_graph() {
    let graph = AudioGraph::with_master();
    let order = topological_sort(&graph);
    assert_eq!(order, vec![0]);
}

#[test]
fn four_channels_to_master() {
    let mut graph = AudioGraph::with_master(); // node 0 = Master
    for i in 0..4u8 {
        let id = graph.add_node(effect_node(&format!("N{}", i)));
        graph.connect(id, 0);
    }
    let order = topological_sort(&graph);

    // All 4 channels must come before Master
    assert_eq!(order.len(), 5);
    let master_pos = order.iter().position(|&id| id == 0).unwrap();
    for &ch_id in &order[..master_pos] {
        assert_ne!(ch_id, 0);
    }
    assert_eq!(order[master_pos], 0);
}

#[test]
fn chain_topology() {
    // A → B → Master
    let mut graph = AudioGraph::with_master(); // 0 = Master
    let a = graph.add_node(effect_node("A")); // 1
    let b = graph.add_node(effect_node("A")); // 2
    graph.connect(a, b);
    graph.connect(b, 0);

    let order = topological_sort(&graph);
    assert_eq!(order.len(), 3);

    let pos_a = order.iter().position(|&id| id == a).unwrap();
    let pos_b = order.iter().position(|&id| id == b).unwrap();
    let pos_m = order.iter().position(|&id| id == 0).unwrap();
    assert!(pos_a < pos_b);
    assert!(pos_b < pos_m);
}

#[test]
fn topological_sort_empty_graph() {
    let graph = AudioGraph { nodes: Vec::new(), connections: Vec::new() };
    assert!(topological_sort(&graph).is_empty());
}

#[test]
fn topological_sort_leaves_out_cycle() {
    // 1 ⇄ 2 feed each other; 3 → 0 is acyclic
    let mut graph = AudioGraph::with_master();
    let a = graph.add_node(effect_node("A"));
    let b = graph.add_node(effect_node("B"));
    let c = graph.add_node(effect_node("C"));
    graph.connect(a, b);
    graph.connect(b, a);
    graph.connect(c, 0);
    let order = topological_sort(&graph);
    assert_eq!(order, vec![c, 0]);
}

#[test]
fn topological_sort_ignores_dangling_target() {
    // a connection to a node that does not exist is not counted
    let mut graph = AudioGraph::with_master();
    let a = graph.add_node(effect_node("A"));
    graph.connect(a, 0);
    graph.connect(a, 9);
    let order = topological_sort(&graph);
    assert_eq!(order, vec![a, 0]);
}

#[test]
fn topological_sort_dangling_source_blocks_target() {
    // a connection from a node that does not exist keeps its target waiting
    let mut graph = AudioGraph::with_master();
    graph.connect(7, 0);
    assert!(topological_sort(&graph).is_empty());
}

#[test]
fn topological_sort_parallel_connections() {
    // two wires from the same source: the target waits for both to be taken away
    let mut graph = AudioGraph::with_master();
    let a = graph.add_node(effect_node("A"));
    graph.connect(a, 0);
    graph.connect(a, 0);
    assert_eq!(topological_sort(&graph), vec![a, 0]);
}
