use jefscad::csg_canon::{
    collect_flattened_intersection, collect_flattened_union, is_identity_quantized, sort_ids,
    CanonChild, CanonShape,
};

const ID: [i64; 16] = [
    1_000_000, 0, 0, 0,
    0, 1_000_000, 0, 0,
    0, 0, 1_000_000, 0,
    0, 0, 0, 1_000_000,
];

fn translated(dx: i64) -> [i64; 16] {
    let mut q = ID;
    q[3] = dx;
    q
}

fn leaf(id: u64) -> CanonChild {
    CanonChild { geom_id: id, quantized_transform: ID, shape: CanonShape::Other }
}

fn union_node(id: u64, q: [i64; 16], children: Vec<CanonChild>) -> CanonChild {
    CanonChild { geom_id: id, quantized_transform: q, shape: CanonShape::Union(children) }
}

fn intersection_node(id: u64, q: [i64; 16], children: Vec<CanonChild>) -> CanonChild {
    CanonChild { geom_id: id, quantized_transform: q, shape: CanonShape::Intersection(children) }
}

fn canonical_union(children: &Vec<CanonChild>) -> Vec<u64> {
    sort_ids(collect_flattened_union(children))
}

#[test]
fn identity_lattice_is_recognised() {
    assert!(is_identity_quantized(&ID));
    assert!(!is_identity_quantized(&translated(1)));
    let mut scaled = ID;
    scaled[0] = 2_000_000;
    assert!(!is_identity_quantized(&scaled));
}

#[test]
fn flat_children_keep_their_order() {
    let ids = collect_flattened_union(&vec![leaf(3), leaf(1), leaf(2)]);
    assert_eq!(ids, vec![3, 1, 2]);
}

#[test]
fn geom_id_union_is_order_independent() {
    let a = canonical_union(&vec![leaf(10), leaf(20), leaf(30)]);
    let b = canonical_union(&vec![leaf(30), leaf(10), leaf(20)]);
    assert_eq!(a, b);
    assert_eq!(a, vec![10, 20, 30]);
}

#[test]
fn geom_id_union_flattens_nested_union_without_transform() {
    let nested = vec![leaf(1), union_node(99, ID, vec![leaf(2), leaf(3)])];
    let flat = vec![leaf(1), leaf(2), leaf(3)];
    assert_eq!(canonical_union(&nested), canonical_union(&flat));
}

#[test]
fn geom_id_union_does_not_flatten_when_inner_has_transform() {
    let nested = vec![leaf(1), union_node(99, translated(5), vec![leaf(2), leaf(3)])];
    assert_eq!(collect_flattened_union(&nested), vec![1, 99]);
}

#[test]
fn flattening_recurses_through_levels() {
    let deep = vec![union_node(7, ID, vec![union_node(8, ID, vec![leaf(4), leaf(5)]), leaf(6)])];
    assert_eq!(collect_flattened_union(&deep), vec![4, 5, 6]);
}

#[test]
fn geom_id_intersection_flattens_nested_intersection_without_transform() {
    let nested = vec![intersection_node(50, ID, vec![leaf(2), leaf(1)]), leaf(3)];
    assert_eq!(collect_flattened_intersection(&nested), vec![2, 1, 3]);
    // a nested union is not flattened into an intersection
    let mixed = vec![union_node(60, ID, vec![leaf(2), leaf(1)]), leaf(3)];
    assert_eq!(collect_flattened_intersection(&mixed), vec![60, 3]);
}

#[test]
fn sort_ids_sorts_with_duplicates() {
    assert_eq!(sort_ids(vec![5, 1, 5, 0, u64::MAX, 3]), vec![0, 1, 3, 5, 5, u64::MAX]);
    assert_eq!(sort_ids(vec![]), Vec::<u64>::new());
}
