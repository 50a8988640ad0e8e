use ray_tracing_in_a_weekend::bvh::{build_nodes, CodedAabb};

fn boxed(lo: [u32; 3], hi: [u32; 3]) -> CodedAabb {
    CodedAabb { min: lo, max: hi }
}

#[test]
fn one_item_is_its_own_root() {
    let mut items = vec![(usize::MAX, boxed([1, 2, 3], [4, 5, 6]))];
    let (nodes, root) = build_nodes(&mut items);
    assert_eq!(nodes.len(), 0);
    assert_eq!(root, usize::MAX);
}

#[test]
fn two_items_merge_into_one_node() {
    let id0 = usize::MAX;
    let id1 = usize::MAX - 1;
    let b0 = boxed([10, 10, 10], [20, 20, 20]);
    let b1 = boxed([30, 15, 5], [40, 25, 15]);
    // Deliberately out of order along the first axis.
    let mut items = vec![(id1, b1), (id0, b0)];
    let (nodes, root) = build_nodes(&mut items);
    assert_eq!(nodes.len(), 1);
    assert_eq!(root, 0);
    // Children ordered by the low corner along the split axis.
    assert_eq!(nodes[0].axis_id, 0);
    assert_eq!(nodes[0].left, id0);
    assert_eq!(nodes[0].right, id1);
    // The root box is exactly the union of both boxes.
    assert_eq!(nodes[0].aabb, boxed([10, 10, 5], [40, 25, 20]));
}

#[test]
fn three_items_split_into_two_levels() {
    let id0 = usize::MAX;
    let id1 = usize::MAX - 1;
    let id2 = usize::MAX - 2;
    let b0 = boxed([10, 10, 10], [20, 20, 20]);
    let b1 = boxed([30, 10, 10], [40, 20, 20]);
    let b2 = boxed([50, 10, 10], [60, 20, 20]);
    let mut items = vec![(id0, b0), (id1, b1), (id2, b2)];
    let (nodes, root) = build_nodes(&mut items);
    assert_eq!(nodes.len(), 2);
    assert_eq!(root, 0);
    // The lone left item hangs directly off the root; the other two
    // share the second node, split along the advanced axis.
    assert_eq!(nodes[0].axis_id, 0);
    assert_eq!(nodes[0].left, id0);
    assert_eq!(nodes[0].right, 1);
    assert_eq!(nodes[1].axis_id, 2);
    assert_eq!(nodes[1].left, id1);
    assert_eq!(nodes[1].right, id2);
    // Each node's box is exactly the union of the boxes below it.
    assert_eq!(nodes[1].aabb, boxed([30, 10, 10], [60, 20, 20]));
    assert_eq!(nodes[0].aabb, boxed([10, 10, 10], [60, 20, 20]));
}

fn union(a: &CodedAabb, b: &CodedAabb) -> CodedAabb {
    let mut r = *a;
    for axis in 0..3 {
        r.min[axis] = r.min[axis].min(b.min[axis]);
        r.max[axis] = r.max[axis].max(b.max[axis]);
    }
    r
}

#[test]
fn root_box_is_the_union_of_every_leaf_box() {
    let boxes = [
        boxed([17, 40, 22], [18, 45, 90]),
        boxed([3, 60, 51], [9, 77, 60]),
        boxed([44, 2, 13], [70, 8, 14]),
        boxed([29, 30, 1], [33, 36, 100]),
        boxed([55, 12, 47], [58, 90, 48]),
    ];
    let mut items: Vec<(usize, CodedAabb)> = boxes
        .iter()
        .enumerate()
        .map(|(i, b)| (usize::MAX - i, *b))
        .collect();
    let (nodes, root) = build_nodes(&mut items);
    assert_eq!(nodes.len(), 4);
    assert_eq!(root, 0);
    assert_eq!(nodes[root].aabb, boxed([3, 2, 1], [70, 90, 100]));

    // The split axes follow the window sizes: five items split 2/3,
    // advancing the axis by the count placed on each side.
    let axes: Vec<usize> = nodes.iter().map(|n| n.axis_id).collect();
    assert_eq!(axes, vec![0, 2, 0, 2]);

    // The child slots name every item and every non-root node exactly
    // once, and every node's box is exactly the union of the boxes of
    // its two children.
    let mut slots: Vec<usize> = Vec::new();
    for node in &nodes {
        slots.push(node.left);
        slots.push(node.right);
        let box_of = |c: usize| {
            if c < nodes.len() {
                nodes[c].aabb
            } else {
                items.iter().find(|it| it.0 == c).unwrap().1
            }
        };
        assert_eq!(node.aabb, union(&box_of(node.left), &box_of(node.right)));
    }
    slots.sort_unstable();
    let mut expected: Vec<usize> = (1..nodes.len()).collect();
    expected.extend((0..boxes.len()).map(|i| usize::MAX - i));
    expected.sort_unstable();
    assert_eq!(slots, expected);
}
