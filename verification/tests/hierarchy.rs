use tracer::aabb::{triangle_bounds, Point3, AABB};
use tracer::bvh::{closer_child, BoundedPrim, BvhChild, BVHNode, CloserChild};

fn boxed(lo: (i64, i64, i64), hi: (i64, i64, i64)) -> AABB {
    AABB::new(Point3::new(lo.0, lo.1, lo.2), Point3::new(hi.0, hi.1, hi.2))
}

fn collect_prims(node: &BVHNode, out: &mut Vec<usize>) {
    for child in [node.left(), node.right()] {
        match child {
            BvhChild::Prim(p) => out.push(p.index),
            BvhChild::Node(n) => collect_prims(n, out),
        }
    }
}

#[test]
fn aabb_new_keeps_corners() {
    let b = boxed((1, 2, 3), (4, 5, 6));
    assert_eq!(b.min, Point3::new(1, 2, 3));
    assert_eq!(b.max, Point3::new(4, 5, 6));
}

#[test]
fn aabb_union_takes_componentwise_extremes() {
    let a = boxed((0, 10, -5), (4, 20, 5));
    let b = boxed((2, -10, 0), (3, 15, 30));
    let u = a.union(b);
    assert_eq!(u, boxed((0, -10, -5), (4, 20, 30)));
    // union with itself changes nothing
    assert_eq!(a.union(a), a);
}

#[test]
fn triangle_bounds_are_the_vertex_extremes() {
    let b = triangle_bounds(
        Point3::new(5, -1, 0),
        Point3::new(-3, 4, 2),
        Point3::new(1, 7, -9),
    );
    assert_eq!(b, boxed((-3, -1, -9), (5, 7, 2)));
}

#[test]
fn single_primitive_fills_both_children() {
    let p = BoundedPrim { index: 7, bbox: boxed((0, 0, 0), (1, 1, 1)) };
    let node = BVHNode::new(&vec![p]);
    assert_eq!(node.bounding_box(), p.bbox);
    match (node.left(), node.right()) {
        (BvhChild::Prim(l), BvhChild::Prim(r)) => {
            assert_eq!(l.index, 7);
            assert_eq!(r.index, 7);
        }
        _ => panic!("a single primitive must become both children"),
    }
}

#[test]
fn two_primitives_one_per_child() {
    let a = BoundedPrim { index: 0, bbox: boxed((0, 0, 0), (1, 1, 1)) };
    let b = BoundedPrim { index: 1, bbox: boxed((2, 2, 2), (3, 3, 3)) };
    let node = BVHNode::new(&vec![a, b]);
    assert_eq!(node.bounding_box(), boxed((0, 0, 0), (3, 3, 3)));
    let mut indices = Vec::new();
    collect_prims(&node, &mut indices);
    indices.sort();
    assert_eq!(indices, vec![0, 1]);
}

#[test]
fn tree_holds_every_primitive_and_union_box() {
    let prims: Vec<BoundedPrim> = (0..13)
        .map(|i| {
            let k = i as i64;
            BoundedPrim {
                index: i,
                bbox: boxed((k * 10 - 5, -k, k % 4), (k * 10, k + 1, k % 4 + 2)),
            }
        })
        .collect();
    let node = BVHNode::new(&prims);

    let mut expected = prims[0].bbox;
    for p in &prims[1..] {
        expected = expected.union(p.bbox);
    }
    assert_eq!(node.bounding_box(), expected);

    let mut indices = Vec::new();
    collect_prims(&node, &mut indices);
    indices.sort();
    indices.dedup();
    assert_eq!(indices, (0..13).collect::<Vec<usize>>());
}

#[test]
fn traversal_keeps_the_closer_hit() {
    assert_eq!(closer_child(None, None), None);
    assert_eq!(closer_child(Some(3), None), Some(CloserChild::Left));
    assert_eq!(closer_child(None, Some(3)), Some(CloserChild::Right));
    assert_eq!(closer_child(Some(2), Some(3)), Some(CloserChild::Left));
    assert_eq!(closer_child(Some(3), Some(2)), Some(CloserChild::Right));
    // a tie resolves deterministically to the right child
    assert_eq!(closer_child(Some(5), Some(5)), Some(CloserChild::Right));
}

#[test]
fn node_box_contains_each_primitive_box() {
    let prims: Vec<BoundedPrim> = (0..5)
        .map(|i| {
            let k = i as i64;
            BoundedPrim { index: i, bbox: boxed((-k, 2 * k, -3 * k), (k + 1, 2 * k + 1, 3 * k)) }
        })
        .collect();
    let node = BVHNode::new(&prims);
    let root = node.bounding_box();
    for p in &prims {
        for d in 0..3 {
            assert!(root.min.axis_value(d) <= p.bbox.min.axis_value(d));
            assert!(p.bbox.max.axis_value(d) <= root.max.axis_value(d));
        }
    }
}
