use canary::subsystem::{identify_subsystems, CallGraphView};

fn graph(nodes: &[u64], calls: &[(u64, u64)]) -> CallGraphView {
    let mut callees: Vec<(u64, Vec<u64>)> = Vec::new();
    let mut callers: Vec<(u64, Vec<u64>)> = Vec::new();
    for &(a, b) in calls {
        match callees.iter_mut().find(|(k, _)| *k == a) {
            Some((_, v)) => v.push(b),
            None => callees.push((a, vec![b])),
        }
        match callers.iter_mut().find(|(k, _)| *k == b) {
            Some((_, v)) => v.push(a),
            None => callers.push((b, vec![a])),
        }
    }
    CallGraphView { nodes: nodes.to_vec(), callees, callers }
}

#[test]
fn components_in_breadth_first_order() {
    let g = graph(
        &[1, 2, 3, 4, 5, 6, 7],
        &[(1, 2), (1, 3), (3, 4), (5, 4), (6, 7)],
    );
    let subs = identify_subsystems(&g);
    assert_eq!(subs.len(), 2);
    assert_eq!(subs[0].name, "Subsystem_0");
    assert_eq!(subs[0].functions, vec![1, 2, 3, 4, 5]);
    assert_eq!(subs[1].name, "Subsystem_1");
    assert_eq!(subs[1].functions, vec![6, 7]);
}

#[test]
fn isolated_functions_are_not_subsystems() {
    let g = graph(&[10, 20, 30], &[(20, 30)]);
    let subs = identify_subsystems(&g);
    assert_eq!(subs.len(), 1);
    assert_eq!(subs[0].name, "Subsystem_0");
    assert_eq!(subs[0].functions, vec![20, 30]);
}

#[test]
fn edges_reach_functions_outside_the_node_list() {
    let g = graph(&[1], &[(1, 99)]);
    let subs = identify_subsystems(&g);
    assert_eq!(subs.len(), 1);
    assert_eq!(subs[0].functions, vec![1, 99]);
    assert!(identify_subsystems(&graph(&[], &[])).is_empty());
}
