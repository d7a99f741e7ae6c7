use scenegraph::hierarchy::build_tree;
use scenegraph::propagation::update_globals;

fn forest() -> (Vec<Vec<usize>>, Vec<usize>) {
    // 0 -> [2, 1], 2 -> [3], 4 -> [], 5 -> [0] is not a root
    let children = vec![vec![2, 1], vec![], vec![3], vec![], vec![], vec![]];
    let roots = vec![0, 4];
    (children, roots)
}

#[test]
fn traversal_order_is_depth_first() {
    let (children, roots) = forest();
    let order = build_tree(&children, &roots);
    assert_eq!(
        order,
        vec![(0, None), (2, Some(0)), (3, Some(2)), (1, Some(0)), (4, None)]
    );
}

#[test]
fn traversal_order_parent_first() {
    let children = vec![vec![], vec![0, 3], vec![1], vec![], vec![2]];
    let roots = vec![4];
    let order = build_tree(&children, &roots);
    assert_eq!(order.len(), 5);
    for (j, &(node, parent)) in order.iter().enumerate() {
        if let Some(p) = parent {
            assert!(order[..j].iter().any(|&(n, _)| n == p), "{} before {}", p, node);
            assert!(children[p].contains(&node));
        }
    }
}

#[test]
fn traversal_order_empty() {
    let order = build_tree(&vec![vec![1], vec![]], &vec![]);
    assert!(order.is_empty());
}

#[test]
fn globals_compose_down_the_tree() {
    let (children, roots) = forest();
    let order = build_tree(&children, &roots);
    let locals: Vec<i64> = vec![1, 2, 3, 4, 5, 6];
    let mut globals: Vec<i64> = vec![0; 6];
    update_globals(&order, &locals, &mut globals, 7, |parent: i64, local: i64| parent * 10 + local);
    assert_eq!(globals[0], 71);
    assert_eq!(globals[2], 713);
    assert_eq!(globals[3], 7134);
    assert_eq!(globals[1], 712);
    assert_eq!(globals[4], 75);
    assert_eq!(globals[5], 0);
}
