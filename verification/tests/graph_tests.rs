use gcmodule::graph::{external_counts, find_unreachable, mark_live, Node};

fn node(count: usize, edges: &[usize]) -> Node {
    Node { linked: true, count, edges: edges.to_vec() }
}

fn unused() -> Node {
    Node { linked: false, count: 0, edges: Vec::new() }
}

#[test]
fn empty_graph_has_no_garbage() {
    let g: Vec<Node> = Vec::new();
    assert_eq!(external_counts(&g), Vec::<usize>::new());
    assert_eq!(find_unreachable(&g), Vec::<bool>::new());
}

#[test]
fn external_counts_subtract_internal_references() {
    // 0 -> 1, 0 -> 1, 1 -> 2, 2 -> 1; object 0 has two handles outside.
    let g = vec![node(2, &[1, 1]), node(3, &[2]), node(1, &[1])];
    assert_eq!(external_counts(&g), vec![2, 0, 0]);
    let g = vec![node(5, &[0, 0]), node(4, &[0])];
    assert_eq!(external_counts(&g), vec![2, 4]);
}

#[test]
fn external_counts_never_go_below_zero() {
    // More references are reported than were counted.
    let g = vec![node(1, &[1, 1, 1]), node(2, &[])];
    assert_eq!(external_counts(&g), vec![1, 0]);
}

#[test]
fn external_counts_skip_unused_slots_and_strangers() {
    // Slot 1 is unused: what it lists does not count, nor do references to
    // it or to slots that do not exist.
    let g = vec![node(1, &[1, 7, 2]), Node { linked: false, count: 9, edges: vec![0, 2] }, node(2, &[])];
    assert_eq!(external_counts(&g), vec![1, 0, 1]);
}

#[test]
fn two_object_cycle_is_unreachable() {
    let g = vec![node(1, &[1]), node(1, &[0])];
    assert_eq!(external_counts(&g), vec![0, 0]);
    assert_eq!(find_unreachable(&g), vec![true, true]);
}

#[test]
fn self_reference_is_unreachable() {
    let g = vec![node(1, &[0])];
    assert_eq!(find_unreachable(&g), vec![true]);
    let g = vec![node(2, &[0])];
    assert_eq!(find_unreachable(&g), vec![false]);
}

#[test]
fn rooted_cycle_is_live() {
    // 0 <-> 1, and object 0 has a handle outside.
    let g = vec![node(2, &[1]), node(1, &[0])];
    let ext = external_counts(&g);
    assert_eq!(ext, vec![1, 0]);
    assert_eq!(mark_live(&g, &ext), vec![true, true]);
    assert_eq!(find_unreachable(&g), vec![false, false]);
}

#[test]
fn garbage_that_points_at_live_objects_is_still_garbage() {
    // 0 is a root; 1 <-> 2 is a cycle that refers to 0; 3 hangs off the root.
    let g = vec![node(2, &[3]), node(1, &[2, 0]), node(1, &[1]), node(1, &[])];
    assert_eq!(external_counts(&g), vec![1, 0, 0, 0]);
    assert_eq!(find_unreachable(&g), vec![false, true, true, false]);
}

#[test]
fn live_objects_are_found_through_long_chains() {
    // 4 -> 3 -> 2 -> 1 -> 0, root at 4; 5 <-> 6 apart.
    let g = vec![
        node(1, &[]),
        node(1, &[0]),
        node(1, &[1]),
        node(1, &[2]),
        node(1, &[3]),
        node(1, &[6]),
        node(1, &[5]),
    ];
    assert_eq!(find_unreachable(&g), vec![false, false, false, false, false, true, true]);
}

#[test]
fn unused_slots_are_never_garbage() {
    let g = vec![unused(), node(1, &[1]), unused()];
    assert_eq!(find_unreachable(&g), vec![false, true, false]);
}

#[test]
fn all_rooted_means_no_garbage() {
    let g = vec![node(2, &[1]), node(2, &[0]), node(1, &[])];
    assert_eq!(find_unreachable(&g), vec![false, false, false]);
    assert_eq!(find_unreachable(&g), vec![false, false, false]);
}
