//! Per-frame propagation of global transforms along a traversal order,
//! generic over the transform type and its composition.
use vstd::prelude::*;

use crate::hierarchy::{
    forest_order, is_forest, lemma_forest_nodes_distinct, lemma_parent_precedes_child,
    nodes_distinct, order_in_bounds, parents_precede, well_formed, TreeEntry,
};

verus! {

/// No entry in `(j, end)` recomputes node `n`.
pub open spec fn not_rewritten(order: Seq<TreeEntry>, n: usize, j: int, end: int) -> bool {
    forall|k: int| j < k < end ==> (#[trigger] order[k]).0 != n
}

/// Nodes that no entry of `order[..end]` names keep their value.
pub open spec fn untouched_kept<M>(order: Seq<TreeEntry>, end: int, before: Seq<M>, after: Seq<M>) -> bool {
    forall|n: int|
        0 <= n < before.len() && (forall|k: int| 0 <= k < end ==> (#[trigger] order[k]).0 != n)
            ==> #[trigger] after[n] == before[n]
}

/// Each root recomputed last at entry `j` of `order[..end]` holds the
/// composition of the root transform with its local transform.
pub open spec fn roots_composed<M, F: Fn(M, M) -> M>(
    order: Seq<TreeEntry>,
    end: int,
    locals: Seq<M>,
    after: Seq<M>,
    root: M,
    compose: F,
) -> bool {
    forall|j: int|
        0 <= j < end && not_rewritten(order, (#[trigger] order[j]).0, j, end) && order[j].1 is None
            ==> compose.ensures((root, locals[order[j].0 as int]), after[order[j].0 as int])
}

/// Each child recomputed last at entry `j` of `order[..end]`, whose parent
/// was not recomputed after `j`, holds the composition of its parent's
/// value with its local transform.
pub open spec fn children_composed<M, F: Fn(M, M) -> M>(
    order: Seq<TreeEntry>,
    end: int,
    locals: Seq<M>,
    after: Seq<M>,
    compose: F,
) -> bool {
    forall|j: int|
        0 <= j < end && not_rewritten(order, (#[trigger] order[j]).0, j, end) && order[j].1 is Some
            && order[j].1->0 != order[j].0 && not_rewritten(order, order[j].1->0, j, end)
            ==> compose.ensures(
            (after[order[j].1->0 as int], locals[order[j].0 as int]),
            after[order[j].0 as int],
        )
}

/// The state after processing `order[..end]` from `before`.
pub open spec fn propagated<M, F: Fn(M, M) -> M>(
    order: Seq<TreeEntry>,
    end: int,
    locals: Seq<M>,
    before: Seq<M>,
    after: Seq<M>,
    root: M,
    compose: F,
) -> bool {
    &&& after.len() == before.len()
    &&& untouched_kept(order, end, before, after)
    &&& roots_composed(order, end, locals, after, root, compose)
    &&& children_composed(order, end, locals, after, compose)
}

proof fn lemma_untouched_step<M>(order: Seq<TreeEntry>, i: int, start: Seq<M>, prev: Seq<M>, after: Seq<M>)
    requires
        0 <= i < order.len(),
        order[i].0 < prev.len(),
        start.len() == prev.len(),
        untouched_kept(order, i, start, prev),
        after == prev.update(order[i].0 as int, after[order[i].0 as int]),
    ensures
        untouched_kept(order, i + 1, start, after),
{
    let end = i + 1;
    assert forall|n: int|
        0 <= n < start.len() && (forall|k: int| 0 <= k < end ==> (#[trigger] order[k]).0 != n)
            implies #[trigger] after[n] == start[n] by {
        assert(order[i].0 != n);
        assert forall|k: int| 0 <= k < i implies (#[trigger] order[k]).0 != n by {
            assert(0 <= k < end);
        }
    }
}

proof fn lemma_roots_step<M, F: Fn(M, M) -> M>(
    order: Seq<TreeEntry>,
    i: int,
    locals: Seq<M>,
    prev: Seq<M>,
    after: Seq<M>,
    root: M,
    compose: F,
)
    requires
        0 <= i < order.len(),
        order_in_bounds(order, prev.len()),
        roots_composed(order, i, locals, prev, root, compose),
        after == prev.update(order[i].0 as int, after[order[i].0 as int]),
        order[i].1 is None ==> compose.ensures(
            (root, locals[order[i].0 as int]),
            after[order[i].0 as int],
        ),
    ensures
        roots_composed(order, i + 1, locals, after, root, compose),
{
    let end = i + 1;
    assert forall|j: int|
        0 <= j < end && not_rewritten(order, (#[trigger] order[j]).0, j, end) && order[j].1 is None
            implies compose.ensures((root, locals[order[j].0 as int]), after[order[j].0 as int]) by {
        if j < i {
            assert(order[i].0 != order[j].0);
            assert(not_rewritten(order, order[j].0, j, i));
        }
    }
}

proof fn lemma_children_step<M, F: Fn(M, M) -> M>(
    order: Seq<TreeEntry>,
    i: int,
    locals: Seq<M>,
    prev: Seq<M>,
    after: Seq<M>,
    compose: F,
)
    requires
        0 <= i < order.len(),
        order_in_bounds(order, prev.len()),
        children_composed(order, i, locals, prev, compose),
        after == prev.update(order[i].0 as int, after[order[i].0 as int]),
        order[i].1 is Some ==> compose.ensures(
            (prev[order[i].1->0 as int], locals[order[i].0 as int]),
            after[order[i].0 as int],
        ),
    ensures
        children_composed(order, i + 1, locals, after, compose),
{
    let end = i + 1;
    assert forall|j: int|
        0 <= j < end && not_rewritten(order, (#[trigger] order[j]).0, j, end) && order[j].1 is Some
            && order[j].1->0 != order[j].0 && not_rewritten(order, order[j].1->0, j, end)
            implies compose.ensures(
        (after[order[j].1->0 as int], locals[order[j].0 as int]),
        after[order[j].0 as int],
    ) by {
        if j < i {
            assert(order[i].0 != order[j].0);
            assert(order[i].0 != order[j].1->0);
            assert(not_rewritten(order, order[j].0, j, i));
            assert(not_rewritten(order, order[j].1->0, j, i));
        } else {
            assert(order[j].1->0 < prev.len());
        }
    }
}

/// Recomputes global transforms along a traversal order: each listed node
/// gets `compose(parent_global, local)`, where `parent_global` is the current
/// global transform of its parent, or `root` for a root.
pub fn update_globals<M: Copy, F: Fn(M, M) -> M>(
    order: &Vec<TreeEntry>,
    locals: &Vec<M>,
    globals: &mut Vec<M>,
    root: M,
    compose: F,
)
    requires
        old(globals).len() == locals.len(),
        order_in_bounds(order@, locals.len() as nat),
        forall|a: M, b: M| compose.requires((a, b)),
    ensures
        propagated(order@, order@.len() as int, locals@, old(globals)@, final(globals)@, root, compose),
{
    let ghost start = globals@;
    let mut i: usize = 0;
    while i < order.len()
        invariant
            globals@.len() == locals@.len(),
            start.len() == locals@.len(),
            order_in_bounds(order@, locals.len() as nat),
            forall|a: M, b: M| compose.requires((a, b)),
            0 <= i <= order.len(),
            propagated(order@, i as int, locals@, start, globals@, root, compose),
        decreases order.len() - i,
    {
        let (node, parent) = order[i];
        assert(order@[i as int] == (node, parent));
        let parent_global = match parent {
            Some(p) => globals[p],
            None => root,
        };
        let g = compose(parent_global, locals[node]);
        let ghost prev = globals@;
        globals.set(node, g);
        proof {
            lemma_untouched_step(order@, i as int, start, prev, globals@);
            lemma_roots_step(order@, i as int, locals@, prev, globals@, root, compose);
            lemma_children_step(order@, i as int, locals@, prev, globals@, compose);
        }
        i = i + 1;
    }
}

/// Along an order in which every parent comes before its children and each
/// node appears once, propagation gives each root the composition of the
/// root transform with its local transform, and each other listed node the
/// composition of its parent's resulting global transform with its local
/// transform.
pub proof fn lemma_propagation_exact<M, F: Fn(M, M) -> M>(
    order: Seq<TreeEntry>,
    locals: Seq<M>,
    before: Seq<M>,
    after: Seq<M>,
    root: M,
    compose: F,
)
    requires
        parents_precede(order),
        nodes_distinct(order),
        propagated(order, order.len() as int, locals, before, after, root, compose),
    ensures
        forall|j: int|
            0 <= j < order.len() && (#[trigger] order[j]).1 is None ==> compose.ensures(
                (root, locals[order[j].0 as int]),
                after[order[j].0 as int],
            ),
        forall|j: int|
            0 <= j < order.len() && (#[trigger] order[j]).1 is Some ==> compose.ensures(
                (after[order[j].1->0 as int], locals[order[j].0 as int]),
                after[order[j].0 as int],
            ),
{
    let end = order.len() as int;
    assert forall|j: int| 0 <= j < end implies not_rewritten(order, (#[trigger] order[j]).0, j, end)
        by {
        assert forall|k: int| j < k < end implies (#[trigger] order[k]).0 != order[j].0 by {
            assert(order[k].0 != order[j].0);
        }
    }
    assert forall|j: int| 0 <= j < end && (#[trigger] order[j]).1 is Some implies order[j].1->0
        != order[j].0 && not_rewritten(order, order[j].1->0, j, end) by {
        let i = choose|i: int| 0 <= i < j && Some(order[i].0) == order[j].1;
        assert(order[i].0 != order[j].0);
        assert forall|k: int| j < k < end implies (#[trigger] order[k]).0 != order[j].1->0 by {
            assert(order[k].0 != order[i].0);
        }
    }
}

/// Propagating along the traversal order of a forest gives every root the
/// composition of the root transform with its local transform, and every
/// other listed node the composition of its parent's resulting global
/// transform with its own local transform.
pub proof fn lemma_forest_propagation<M, F: Fn(M, M) -> M>(
    g: Seq<Seq<usize>>,
    roots: Seq<usize>,
    locals: Seq<M>,
    before: Seq<M>,
    after: Seq<M>,
    root: M,
    compose: F,
)
    requires
        well_formed(g),
        is_forest(g, roots),
        forall|r: int| 0 <= r < roots.len() ==> #[trigger] roots[r] < g.len(),
        propagated(
            forest_order(g, roots, 0),
            forest_order(g, roots, 0).len() as int,
            locals,
            before,
            after,
            root,
            compose,
        ),
    ensures
        forall|j: int|
            0 <= j < forest_order(g, roots, 0).len() && (#[trigger] forest_order(g, roots, 0)[j]).1 is None
                ==> compose.ensures(
                (root, locals[forest_order(g, roots, 0)[j].0 as int]),
                after[forest_order(g, roots, 0)[j].0 as int],
            ),
        forall|j: int|
            0 <= j < forest_order(g, roots, 0).len() && (#[trigger] forest_order(g, roots, 0)[j]).1 is Some
                ==> compose.ensures(
                (
                    after[forest_order(g, roots, 0)[j].1->0 as int],
                    locals[forest_order(g, roots, 0)[j].0 as int],
                ),
                after[forest_order(g, roots, 0)[j].0 as int],
            ),
{
    lemma_parent_precedes_child(g, roots);
    lemma_forest_nodes_distinct(g, roots);
    lemma_propagation_exact(forest_order(g, roots, 0), locals, before, after, root, compose);
}

} // verus!
