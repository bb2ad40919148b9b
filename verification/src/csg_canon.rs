//! Canonical form of CSG operation nodes, used for geometry hashing.
//!
//! Two CSG trees that describe the same solid up to the order of the
//! children of a commutative operation must hash alike. For union and
//! intersection the children are flattened (a child that is the same
//! operation with an identity transform contributes its own children,
//! recursively) and their geometry ids sorted; for a difference the
//! subtracted ids are sorted while the base stays first.
//!
//! Transforms reach this module already quantised to an integer lattice
//! (each entry scaled by `1e6` and rounded), so "identity" is an exact test.

use vstd::prelude::*;
use vstd::relations::{sorted_by, total_ordering};

verus! {

/// The commutative operations whose nested children are flattened.
#[derive(Debug, Clone, Copy, PartialEq, Eq, Structural)]
pub enum FlattenOp {
    Union,
    Intersection,
}

/// What kind of node a child is, as far as flattening is concerned.
#[derive(Debug)]
pub enum CanonShape {
    /// A union node, with its children.
    Union(Vec<CanonChild>),
    /// An intersection node, with its children.
    Intersection(Vec<CanonChild>),
    /// Any other node (primitive, difference, selection).
    Other,
}

/// A child node of a CSG operation, as canonicalisation sees it.
#[derive(Debug)]
pub struct CanonChild {
    /// The child's geometry id.
    pub geom_id: u64,
    /// The child's flattened transform, quantised to the `1e-6` lattice.
    pub quantized_transform: [i64; 16],
    /// The child's own operation and children.
    pub shape: CanonShape,
}

/// The identity matrix on the quantisation lattice (`1.0` scales to
/// `1_000_000`).
pub open spec fn identity_lattice() -> Seq<i64> {
    seq![
        1_000_000i64, 0, 0, 0,
        0, 1_000_000, 0, 0,
        0, 0, 1_000_000, 0,
        0, 0, 0, 1_000_000,
    ]
}

/// Whether a quantised transform is the identity.
pub fn is_identity_quantized(q: &[i64; 16]) -> (r: bool)
    ensures
        r == (q@ == identity_lattice()),
{
    let id: [i64; 16] = [
        1_000_000, 0, 0, 0,
        0, 1_000_000, 0, 0,
        0, 0, 1_000_000, 0,
        0, 0, 0, 1_000_000,
    ];
    assert(id@ =~= identity_lattice());
    let mut i: usize = 0;
    while i < 16
        invariant
            i <= 16,
            id@ == identity_lattice(),
            forall|j: int| 0 <= j < i ==> q@[j] == id@[j],
        decreases 16 - i,
    {
        if q[i] != id[i] {
            assert(q@[i as int] != identity_lattice()[i as int]);
            return false;
        }
        i = i + 1;
    }
    assert(q@ =~= identity_lattice());
    true
}

/// The geometry ids a sequence of children contributes to a flattened
/// `op` node: a child that is itself an `op` node with identity transform
/// contributes its children's ids (recursively), any other child its own id.
pub open spec fn flat_ids(s: Seq<CanonChild>, op: FlattenOp) -> Seq<u64>
    decreases s,
{
    if s.len() == 0 {
        Seq::empty()
    } else {
        let init = flat_ids(s.subrange(0, s.len() - 1), op);
        let c = s[s.len() - 1];
        let own = seq![c.geom_id];
        init + match c.shape {
            CanonShape::Union(v) => if op == FlattenOp::Union && c.quantized_transform@
                == identity_lattice() {
                flat_ids(v@, op)
            } else {
                own
            },
            CanonShape::Intersection(v) => if op == FlattenOp::Intersection
                && c.quantized_transform@ == identity_lattice() {
                flat_ids(v@, op)
            } else {
                own
            },
            CanonShape::Other => own,
        }
    }
}

/// Whether flattening an `op` node inlines child `c`: `c` is itself an
/// `op` node (a union for a union, an intersection for an intersection)
/// and its transform is the identity.
pub open spec fn inlined_by(c: CanonChild, op: FlattenOp) -> bool {
    &&& (op == FlattenOp::Union && c.shape is Union) || (op == FlattenOp::Intersection
        && c.shape is Intersection)
    &&& c.quantized_transform@ == identity_lattice()
}

/// A child that flattening does not inline contributes exactly its own
/// geometry id, after those of the children before it. So a union keeps a
/// nested intersection (or a transformed union) as one id, and likewise an
/// intersection keeps a nested union.
pub proof fn lemma_flat_keeps_other_child(s: Seq<CanonChild>, c: CanonChild, op: FlattenOp)
    requires
        !inlined_by(c, op),
    ensures
        flat_ids(s.push(c), op) == flat_ids(s, op).push(c.geom_id),
{
    let t = s.push(c);
    assert(t.subrange(0, t.len() - 1) =~= s);
    assert(t[t.len() - 1] == c);
    assert(flat_ids(s, op) + seq![c.geom_id] =~= flat_ids(s, op).push(c.geom_id));
}

/// When no child is inlined, flattening yields the children's own ids, in
/// order.
pub proof fn lemma_flat_of_uninlined(s: Seq<CanonChild>, op: FlattenOp)
    requires
        forall|i: int| 0 <= i < s.len() ==> !inlined_by(#[trigger] s[i], op),
    ensures
        flat_ids(s, op) == s.map_values(|c: CanonChild| c.geom_id),
    decreases s.len(),
{
    if s.len() > 0 {
        let init = s.subrange(0, s.len() - 1);
        assert forall|i: int| 0 <= i < init.len() implies !inlined_by(#[trigger] init[i], op) by {
            assert(init[i] == s[i]);
        }
        lemma_flat_of_uninlined(init, op);
        lemma_flat_keeps_other_child(init, s[s.len() - 1], op);
        assert(init.push(s[s.len() - 1]) =~= s);
        assert(s.map_values(|c: CanonChild| c.geom_id) =~= init.map_values(|c: CanonChild| c.geom_id).push(
            s[s.len() - 1].geom_id,
        ));
    } else {
        assert(s.map_values(|c: CanonChild| c.geom_id) =~= Seq::<u64>::empty());
    }
}

/// Ascending order on ids.
pub open spec fn id_leq() -> spec_fn(u64, u64) -> bool {
    |a: u64, b: u64| a <= b
}

fn collect_flattened(children: &Vec<CanonChild>, op: FlattenOp) -> (r: Vec<u64>)
    ensures
        r@ == flat_ids(children@, op),
    decreases children@,
{
    let mut ids: Vec<u64> = Vec::new();
    let mut i: usize = 0;
    while i < children.len()
        invariant
            i <= children@.len(),
            ids@ == flat_ids(children@.subrange(0, i as int), op),
        decreases children@.len() - i,
    {
        let child = &children[i];
        let ghost pre = children@.subrange(0, i as int);
        let ghost post = children@.subrange(0, i as int + 1);
        proof {
            assert(post.subrange(0, post.len() - 1) =~= pre);
            assert(post[post.len() - 1] == children@[i as int]);
        }
        let ident = is_identity_quantized(&child.quantized_transform);
        let mut flattened = false;
        match &child.shape {
            CanonShape::Union(grand) => {
                if op == FlattenOp::Union && ident {
                    proof {
                        assert(decreases_to!(children@ => children@[i as int]));
                    }
                    let sub = collect_flattened(grand, op);
                    let ghost before = ids@;
                    let mut k: usize = 0;
                    while k < sub.len()
                        invariant
                            k <= sub@.len(),
                            ids@ == before + sub@.take(k as int),
                        decreases sub@.len() - k,
                    {
                        ids.push(sub[k]);
                        k = k + 1;
                        assert(ids@ =~= before + sub@.take(k as int));
                    }
                    assert(sub@.take(sub@.len() as int) =~= sub@);
                    flattened = true;
                }
            },
            CanonShape::Intersection(grand) => {
                if op == FlattenOp::Intersection && ident {
                    proof {
                        assert(decreases_to!(children@ => children@[i as int]));
                    }
                    let sub = collect_flattened(grand, op);
                    let ghost before = ids@;
                    let mut k: usize = 0;
                    while k < sub.len()
                        invariant
                            k <= sub@.len(),
                            ids@ == before + sub@.take(k as int),
                        decreases sub@.len() - k,
                    {
                        ids.push(sub[k]);
                        k = k + 1;
                        assert(ids@ =~= before + sub@.take(k as int));
                    }
                    assert(sub@.take(sub@.len() as int) =~= sub@);
                    flattened = true;
                }
            },
            CanonShape::Other => {},
        }
        if !flattened {
            ids.push(child.geom_id);
        }
        proof {
            assert(ids@ =~= flat_ids(post, op));
        }
        i = i + 1;
    }
    assert(children@.subrange(0, children@.len() as int) =~= children@);
    ids
}

/// The geometry ids of a union's children, with every child that is itself
/// a union with identity transform replaced by its own children,
/// recursively.
pub fn collect_flattened_union(children: &Vec<CanonChild>) -> (r: Vec<u64>)
    ensures
        r@ == flat_ids(children@, FlattenOp::Union),
        // children that are not identity unions keep their own ids
        (forall|i: int| 0 <= i < children@.len() ==> !inlined_by(#[trigger] children@[i], FlattenOp::Union))
            ==> r@ == children@.map_values(|c: CanonChild| c.geom_id),
{
    proof {
        if forall|i: int| 0 <= i < children@.len() ==> !inlined_by(#[trigger] children@[i], FlattenOp::Union) {
            lemma_flat_of_uninlined(children@, FlattenOp::Union);
        }
    }
    collect_flattened(children, FlattenOp::Union)
}

/// The geometry ids of an intersection's children, with every child that is
/// itself an intersection with identity transform replaced by its own
/// children, recursively.
pub fn collect_flattened_intersection(children: &Vec<CanonChild>) -> (r: Vec<u64>)
    ensures
        r@ == flat_ids(children@, FlattenOp::Intersection),
        // children that are not identity intersections keep their own ids
        (forall|i: int|
            0 <= i < children@.len() ==> !inlined_by(#[trigger] children@[i], FlattenOp::Intersection))
            ==> r@ == children@.map_values(|c: CanonChild| c.geom_id),
{
    proof {
        if forall|i: int|
            0 <= i < children@.len() ==> !inlined_by(#[trigger] children@[i], FlattenOp::Intersection) {
            lemma_flat_of_uninlined(children@, FlattenOp::Intersection);
        }
    }
    collect_flattened(children, FlattenOp::Intersection)
}

/// Sort ids in ascending order.
pub fn sort_ids(ids: Vec<u64>) -> (r: Vec<u64>)
    ensures
        r@ == ids@.sort_by(id_leq()),
        sorted_by(r@, id_leq()),
        r@.to_multiset() == ids@.to_multiset(),
{
    broadcast use vstd::seq_lib::group_to_multiset_ensures;

    let mut out: Vec<u64> = Vec::new();
    let mut i: usize = 0;
    while i < ids.len()
        invariant
            i <= ids@.len(),
            sorted_by(out@, id_leq()),
            out@.to_multiset() == ids@.take(i as int).to_multiset(),
        decreases ids@.len() - i,
    {
        let x = ids[i];
        let mut j: usize = out.len();
        while j > 0 && out[j - 1] > x
            invariant
                j <= out@.len(),
                i < ids@.len(),
                x == ids@[i as int],
                sorted_by(out@, id_leq()),
                out@.to_multiset() == ids@.take(i as int).to_multiset(),
                forall|k: int| j <= k < out@.len() ==> x < #[trigger] out@[k],
            decreases j,
        {
            j = j - 1;
        }
        let ghost before = out@;
        out.insert(j, x);
        proof {
            vstd::seq_lib::to_multiset_insert(before, j as int, x);
            assert(ids@.take(i as int + 1) =~= ids@.take(i as int).push(x));
            vstd::seq_lib::to_multiset_build(ids@.take(i as int), x);
            assert(out@.to_multiset() == ids@.take(i as int + 1).to_multiset());
            assert forall|a: int, b: int| 0 <= a < b < out@.len() implies (id_leq())(
                out@[a],
                out@[b],
            ) by {
                if a < j && b == j {
                    if a < j - 1 {
                        assert((id_leq())(before[a], before[j - 1]));
                    }
                } else if a == j && b > j {
                } else if a < j && b > j {
                    assert((id_leq())(before[a], before[b - 1]));
                } else if b < j {
                    assert((id_leq())(before[a], before[b]));
                } else {
                    assert((id_leq())(before[a - 1], before[b - 1]));
                }
            }
        }
        i = i + 1;
    }
    proof {
        assert(ids@.take(ids@.len() as int) =~= ids@);
        let leq = id_leq();
        assert(total_ordering(leq));
        ids@.lemma_sort_by_ensures(leq);
        vstd::seq_lib::lemma_sorted_unique(out@, ids@.sort_by(leq), leq);
    }
    out
}

/// The canonical id list of a flattened `op` node: its flattened ids in
/// ascending order.
pub open spec fn canonical_ids(s: Seq<CanonChild>, op: FlattenOp) -> Seq<u64> {
    flat_ids(s, op).sort_by(id_leq())
}

proof fn lemma_flat_last(s: Seq<CanonChild>, op: FlattenOp)
    requires
        s.len() > 0,
    ensures
        flat_ids(s, op) == flat_ids(s.subrange(0, s.len() - 1), op) + flat_ids(
            seq![s[s.len() - 1]],
            op,
        ),
{
    let one = seq![s[s.len() - 1]];
    assert(one.subrange(0, 0) =~= Seq::<CanonChild>::empty());
    assert(flat_ids(one.subrange(0, 0), op) =~= Seq::<u64>::empty());
    assert(flat_ids(one, op) =~= Seq::<u64>::empty() + flat_ids(one, op).subrange(0, flat_ids(one, op).len() as int));
}

/// Flattening distributes over concatenation of child lists.
pub proof fn lemma_flat_concat(a: Seq<CanonChild>, b: Seq<CanonChild>, op: FlattenOp)
    ensures
        flat_ids(a + b, op) == flat_ids(a, op) + flat_ids(b, op),
    decreases b.len(),
{
    if b.len() == 0 {
        assert(a + b =~= a);
        assert(flat_ids(b, op) =~= Seq::<u64>::empty());
        assert(flat_ids(a, op) + flat_ids(b, op) =~= flat_ids(a, op));
    } else {
        let b0 = b.subrange(0, b.len() - 1);
        let x = b[b.len() - 1];
        lemma_flat_concat(a, b0, op);
        lemma_flat_last(a + b, op);
        lemma_flat_last(b, op);
        assert((a + b).subrange(0, (a + b).len() - 1) =~= a + b0);
        assert((a + b)[(a + b).len() - 1] == x);
        assert(flat_ids(a + b, op) =~= flat_ids(a, op) + flat_ids(b, op));
    }
}

proof fn lemma_flat_multiset_remove(s: Seq<CanonChild>, k: int, op: FlattenOp)
    requires
        0 <= k < s.len(),
    ensures
        flat_ids(s, op).to_multiset() == flat_ids(s.remove(k), op).to_multiset().add(
            flat_ids(seq![s[k]], op).to_multiset(),
        ),
{
    broadcast use vstd::seq_lib::lemma_multiset_commutative;
    broadcast use vstd::multiset::group_multiset_axioms;

    let s0 = s.subrange(0, k);
    let s1 = s.subrange(k + 1, s.len() as int);
    let one = seq![s[k]];
    assert(s =~= s0 + one + s1);
    assert(s.remove(k) =~= s0 + s1);
    lemma_flat_concat(s0 + one, s1, op);
    lemma_flat_concat(s0, one, op);
    lemma_flat_concat(s0, s1, op);
    let f0 = flat_ids(s0, op);
    let f1 = flat_ids(s1, op);
    let fx = flat_ids(one, op);
    vstd::seq_lib::lemma_multiset_commutative(f0 + fx, f1);
    vstd::seq_lib::lemma_multiset_commutative(f0, fx);
    vstd::seq_lib::lemma_multiset_commutative(f0, f1);
    assert(flat_ids(s, op).to_multiset() =~= f0.to_multiset().add(fx.to_multiset()).add(
        f1.to_multiset(),
    ));
    assert(flat_ids(s.remove(k), op).to_multiset() =~= f0.to_multiset().add(f1.to_multiset()));
}

/// The ids a list of children contributes depend only on which children
/// there are (with multiplicity), not on their order.
pub proof fn lemma_flat_multiset_order_independent(
    a: Seq<CanonChild>,
    b: Seq<CanonChild>,
    op: FlattenOp,
)
    requires
        a.to_multiset() == b.to_multiset(),
    ensures
        flat_ids(a, op).to_multiset() == flat_ids(b, op).to_multiset(),
    decreases a.len(),
{
    broadcast use vstd::seq_lib::group_to_multiset_ensures;
    broadcast use vstd::multiset::group_multiset_axioms;

    if a.len() == 0 {
        vstd::seq_lib::to_multiset_len(a);
        vstd::seq_lib::to_multiset_len(b);
        assert(b.len() == 0);
        assert(b =~= a);
    } else {
        let x = a[a.len() - 1];
        assert(a.to_multiset().count(x) > 0);
        assert(b.contains(x));
        let k = choose|k: int| 0 <= k < b.len() && b[k] == x;
        let a0 = a.remove(a.len() - 1);
        let b0 = b.remove(k);
        assert(a0.to_multiset() == a.to_multiset().remove(x));
        assert(b0.to_multiset() == b.to_multiset().remove(x));
        lemma_flat_multiset_order_independent(a0, b0, op);
        lemma_flat_multiset_remove(a, a.len() - 1, op);
        lemma_flat_multiset_remove(b, k, op);
    }
}

/// Reordering the children of a union or intersection does not change its
/// canonical id list.
pub proof fn lemma_canonical_order_independent(a: Seq<CanonChild>, b: Seq<CanonChild>, op: FlattenOp)
    requires
        a.to_multiset() == b.to_multiset(),
    ensures
        canonical_ids(a, op) == canonical_ids(b, op),
{
    let leq = id_leq();
    assert(total_ordering(leq));
    lemma_flat_multiset_order_independent(a, b, op);
    flat_ids(a, op).lemma_sort_by_ensures(leq);
    flat_ids(b, op).lemma_sort_by_ensures(leq);
    vstd::seq_lib::lemma_sorted_unique(canonical_ids(a, op), canonical_ids(b, op), leq);
}

/// A nested node of the same operation with identity transform contributes
/// exactly its own children: wrapping children in such a node does not
/// change the canonical id list.
pub proof fn lemma_canonical_flattens_nested(
    a: Seq<CanonChild>,
    inner: CanonChild,
    b: Seq<CanonChild>,
    op: FlattenOp,
)
    requires
        inner.quantized_transform@ == identity_lattice(),
        (op == FlattenOp::Union && inner.shape is Union) || (op == FlattenOp::Intersection
            && inner.shape is Intersection),
    ensures
        canonical_ids(a + seq![inner] + b, op) == canonical_ids(
            a + match inner.shape {
                CanonShape::Union(v) => v@,
                CanonShape::Intersection(v) => v@,
                CanonShape::Other => Seq::empty(),
            } + b,
            op,
        ),
{
    let c = match inner.shape {
        CanonShape::Union(v) => v@,
        CanonShape::Intersection(v) => v@,
        CanonShape::Other => Seq::empty(),
    };
    let one = seq![inner];
    lemma_flat_concat(a + one, b, op);
    lemma_flat_concat(a, one, op);
    lemma_flat_concat(a + c, b, op);
    lemma_flat_concat(a, c, op);
    lemma_flat_last(one, op);
    assert(one.subrange(0, 0) =~= Seq::<CanonChild>::empty());
    assert(flat_ids(one.subrange(0, 0), op) =~= Seq::<u64>::empty());
    assert(flat_ids(one, op) =~= flat_ids(c, op));
    assert(flat_ids(a + one + b, op) =~= flat_ids(a + c + b, op));
}

} // verus!
