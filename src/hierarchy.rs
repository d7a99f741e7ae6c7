//! Node hierarchy of a scene: child lists by arena index, and the
//! parent-before-child traversal order computed once at load time.
use vstd::prelude::*;

verus! {

/// One entry of a traversal order: a node and the node it hangs from
/// (`None` for a root).
pub type TreeEntry = (usize, Option<usize>);

/// The child lists of an arena of nodes, as mathematical sequences.
pub open spec fn graph_of(children: &Vec<Vec<usize>>) -> Seq<Seq<usize>> {
    children@.map_values(|c: Vec<usize>| c@)
}

/// Every child index names a node of the arena.
pub open spec fn children_in_bounds(g: Seq<Seq<usize>>) -> bool {
    forall|i: int, k: int|
        0 <= i < g.len() && 0 <= k < g[i].len() ==> (#[trigger] g[i][k]) < g.len()
}

/// `rank` strictly decreases from a node to each of its children.
pub open spec fn is_rank(g: Seq<Seq<usize>>, rank: spec_fn(int) -> nat) -> bool {
    forall|i: int, k: int|
        0 <= i < g.len() && 0 <= k < g[i].len() ==> rank(#[trigger] g[i][k] as int) < rank(i)
}

/// The child relation has no cycle: some rank decreases along every edge.
pub open spec fn acyclic(g: Seq<Seq<usize>>) -> bool {
    exists|rank: spec_fn(int) -> nat| is_rank(g, rank)
}

/// A well-formed hierarchy: child indices in bounds and no cycle.
pub open spec fn well_formed(g: Seq<Seq<usize>>) -> bool {
    children_in_bounds(g) && acyclic(g)
}

/// A rank witnessing that `g` is acyclic.
pub open spec fn rank_of(g: Seq<Seq<usize>>) -> spec_fn(int) -> nat {
    choose|rank: spec_fn(int) -> nat| is_rank(g, rank)
}

/// Depth-first order of the subtree below `node`: the node itself first,
/// then the subtrees of its children in the order they are listed.
pub open spec fn subtree_order(g: Seq<Seq<usize>>, node: usize, parent: Option<usize>) -> Seq<
    TreeEntry,
>
    decreases rank_of(g)(node as int), 1nat, 0nat,
    when well_formed(g) && node < g.len()
{
    seq![(node, parent)] + children_order(g, node, 0)
}

/// The subtrees of the children of `node`, from its `k`-th child on.
pub open spec fn children_order(g: Seq<Seq<usize>>, node: usize, k: nat) -> Seq<TreeEntry>
    decreases rank_of(g)(node as int), 0nat, g[node as int].len() - k,
    when well_formed(g) && node < g.len()
{
    if k >= g[node as int].len() {
        seq![]
    } else {
        let child = g[node as int][k as int];
        proof {
            lemma_rank_decreases(g, node as int, k as int);
        }
        subtree_order(g, child, Some(node)) + children_order(g, node, k + 1)
    }
}

/// The traversal order of a whole forest: the subtrees of `roots[k..]`.
pub open spec fn forest_order(g: Seq<Seq<usize>>, roots: Seq<usize>, k: nat) -> Seq<TreeEntry>
    decreases roots.len() - k,
{
    if k >= roots.len() {
        seq![]
    } else {
        subtree_order(g, roots[k as int], None) + forest_order(g, roots, k + 1)
    }
}

/// Every entry that names a parent comes after an entry of that parent.
pub open spec fn parents_precede(s: Seq<TreeEntry>) -> bool {
    forall|j: int|
        0 <= j < s.len() && (#[trigger] s[j]).1.is_some() ==> exists|i: int|
            0 <= i < j && Some(s[i].0) == s[j].1
}

/// Each child ranks below its parent under the chosen rank.
pub proof fn lemma_rank_decreases(g: Seq<Seq<usize>>, node: int, k: int)
    requires
        well_formed(g),
        0 <= node < g.len(),
        0 <= k < g[node].len(),
    ensures
        g[node][k] < g.len(),
        rank_of(g)(g[node][k] as int) < rank_of(g)(node),
{
    let rank = rank_of(g);
    assert(is_rank(g, rank));
    assert(rank(g[node][k] as int) < rank(node));
}

/// Every entry of a child list's walk names a parent that is either `node`
/// or listed earlier in the walk.
pub open spec fn parents_precede_below(s: Seq<TreeEntry>, node: usize) -> bool {
    forall|j: int|
        0 <= j < s.len() ==> (#[trigger] s[j]).1.is_some() && (s[j].1 == Some(node) || exists|
            i: int,
        |
            0 <= i < j && Some(s[i].0) == s[j].1)
}

proof fn lemma_children_parents(g: Seq<Seq<usize>>, node: usize, k: nat)
    requires
        well_formed(g),
        node < g.len(),
    ensures
        parents_precede_below(children_order(g, node, k), node),
    decreases rank_of(g)(node as int), 0nat, g[node as int].len() - k,
{
    if k < g[node as int].len() {
        let child = g[node as int][k as int];
        lemma_rank_decreases(g, node as int, k as int);
        lemma_subtree_parents(g, child, Some(node));
        lemma_children_parents(g, node, k + 1);
        let a = subtree_order(g, child, Some(node));
        let b = children_order(g, node, k + 1);
        let c = children_order(g, node, k);
        assert(c == a + b);
        assert forall|j: int| 0 <= j < c.len() implies (#[trigger] c[j]).1.is_some() && (c[j].1
            == Some(node) || exists|i: int| 0 <= i < j && Some(c[i].0) == c[j].1) by {
            if j == 0 {
                assert(c[j] == a[0]);
            } else if j < a.len() {
                assert(c[j] == a[j]);
                let i = choose|i: int| 0 <= i < j && Some(a[i].0) == a[j].1;
                assert(c[i] == a[i]);
            } else {
                let jb = j - a.len();
                assert(c[j] == b[jb]);
                if b[jb].1 != Some(node) {
                    let ib = choose|i: int| 0 <= i < jb && Some(b[i].0) == b[jb].1;
                    assert(c[ib + a.len()] == b[ib]);
                }
            }
        }
    }
}

proof fn lemma_subtree_parents(g: Seq<Seq<usize>>, node: usize, parent: Option<usize>)
    requires
        well_formed(g),
        node < g.len(),
    ensures
        subtree_order(g, node, parent).len() >= 1,
        subtree_order(g, node, parent)[0] == (node, parent),
        forall|j: int|
            1 <= j < subtree_order(g, node, parent).len() ==> (#[trigger] subtree_order(
                g,
                node,
                parent,
            )[j]).1.is_some() && exists|i: int|
                0 <= i < j && Some(subtree_order(g, node, parent)[i].0) == subtree_order(
                    g,
                    node,
                    parent,
                )[j].1,
    decreases rank_of(g)(node as int), 1nat, 0nat,
{
    lemma_children_parents(g, node, 0);
    let s = subtree_order(g, node, parent);
    let c = children_order(g, node, 0);
    assert(s == seq![(node, parent)] + c);
    assert forall|j: int| 1 <= j < s.len() implies (#[trigger] s[j]).1.is_some() && exists|i: int|
        0 <= i < j && Some(s[i].0) == s[j].1 by {
        assert(s[j] == c[j - 1]);
        if c[j - 1].1 == Some(node) {
            assert(s[0].0 == node);
        } else {
            let i = choose|i: int| 0 <= i < j - 1 && Some(c[i].0) == c[j - 1].1;
            assert(s[i + 1] == c[i]);
        }
    }
}

proof fn lemma_forest_parents(g: Seq<Seq<usize>>, roots: Seq<usize>, k: nat)
    requires
        well_formed(g),
        forall|r: int| 0 <= r < roots.len() ==> #[trigger] roots[r] < g.len(),
    ensures
        parents_precede(forest_order(g, roots, k)),
    decreases roots.len() - k,
{
    if k < roots.len() {
        lemma_subtree_parents(g, roots[k as int], None);
        lemma_forest_parents(g, roots, k + 1);
        let a = subtree_order(g, roots[k as int], None);
        let b = forest_order(g, roots, k + 1);
        let s = forest_order(g, roots, k);
        assert(s == a + b);
        assert forall|j: int| 0 <= j < s.len() && (#[trigger] s[j]).1.is_some() implies exists|
            i: int,
        | 0 <= i < j && Some(s[i].0) == s[j].1 by {
            if j < a.len() {
                assert(s[j] == a[j]);
                assert(j != 0);
                let i = choose|i: int| 0 <= i < j && Some(a[i].0) == a[j].1;
                assert(s[i] == a[i]);
            } else {
                let jb = j - a.len();
                assert(s[j] == b[jb]);
                let ib = choose|i: int| 0 <= i < jb && Some(b[i].0) == b[jb].1;
                assert(s[ib + a.len()] == b[ib]);
            }
        }
    }
}

/// In the traversal order of a well-formed forest, every node that has a
/// parent comes strictly after an entry of that parent.
pub proof fn lemma_parent_precedes_child(g: Seq<Seq<usize>>, roots: Seq<usize>)
    requires
        well_formed(g),
        forall|r: int| 0 <= r < roots.len() ==> #[trigger] roots[r] < g.len(),
    ensures
        parents_precede(forest_order(g, roots, 0)),
{
    lemma_forest_parents(g, roots, 0);
}

/// Every entry names a node of the arena, and every parent it names lists
/// that node among its children.
pub open spec fn entries_are_edges(s: Seq<TreeEntry>, g: Seq<Seq<usize>>) -> bool {
    forall|j: int|
        0 <= j < s.len() ==> (#[trigger] s[j]).0 < g.len() && (s[j].1 is Some ==> s[j].1->0
            < g.len() && g[s[j].1->0 as int].contains(s[j].0))
}

proof fn lemma_children_edges(g: Seq<Seq<usize>>, node: usize, k: nat)
    requires
        well_formed(g),
        node < g.len(),
    ensures
        entries_are_edges(children_order(g, node, k), g),
    decreases rank_of(g)(node as int), 0nat, g[node as int].len() - k,
{
    if k < g[node as int].len() {
        let child = g[node as int][k as int];
        lemma_rank_decreases(g, node as int, k as int);
        assert(g[node as int].contains(child));
        lemma_subtree_edges(g, child, Some(node));
        lemma_children_edges(g, node, k + 1);
        let a = subtree_order(g, child, Some(node));
        let b = children_order(g, node, k + 1);
        let c = children_order(g, node, k);
        assert(c == a + b);
        assert forall|j: int| 0 <= j < c.len() implies (#[trigger] c[j]).0 < g.len() && (c[j].1 is Some
            ==> c[j].1->0 < g.len() && g[c[j].1->0 as int].contains(c[j].0)) by {
            if j < a.len() {
                assert(c[j] == a[j]);
            } else {
                assert(c[j] == b[j - a.len()]);
            }
        }
    }
}

proof fn lemma_subtree_edges(g: Seq<Seq<usize>>, node: usize, parent: Option<usize>)
    requires
        well_formed(g),
        node < g.len(),
        parent is Some ==> parent->0 < g.len() && g[parent->0 as int].contains(node),
    ensures
        entries_are_edges(subtree_order(g, node, parent), g),
    decreases rank_of(g)(node as int), 1nat, 0nat,
{
    lemma_children_edges(g, node, 0);
    let s = subtree_order(g, node, parent);
    let c = children_order(g, node, 0);
    assert(s == seq![(node, parent)] + c);
    assert forall|j: int| 0 <= j < s.len() implies (#[trigger] s[j]).0 < g.len() && (s[j].1 is Some
        ==> s[j].1->0 < g.len() && g[s[j].1->0 as int].contains(s[j].0)) by {
        if j > 0 {
            assert(s[j] == c[j - 1]);
        }
    }
}

proof fn lemma_forest_edges(g: Seq<Seq<usize>>, roots: Seq<usize>, k: nat)
    requires
        well_formed(g),
        forall|r: int| 0 <= r < roots.len() ==> #[trigger] roots[r] < g.len(),
    ensures
        entries_are_edges(forest_order(g, roots, k), g),
    decreases roots.len() - k,
{
    if k < roots.len() {
        lemma_subtree_edges(g, roots[k as int], None);
        lemma_forest_edges(g, roots, k + 1);
        let a = subtree_order(g, roots[k as int], None);
        let b = forest_order(g, roots, k + 1);
        let s = forest_order(g, roots, k);
        assert(s == a + b);
        assert forall|j: int| 0 <= j < s.len() implies (#[trigger] s[j]).0 < g.len() && (s[j].1 is Some
            ==> s[j].1->0 < g.len() && g[s[j].1->0 as int].contains(s[j].0)) by {
            if j < a.len() {
                assert(s[j] == a[j]);
            } else {
                assert(s[j] == b[j - a.len()]);
            }
        }
    }
}

/// The traversal order of a well-formed forest lists only nodes of the
/// arena, each paired with a parent that has it as a child.
pub proof fn lemma_order_follows_edges(g: Seq<Seq<usize>>, roots: Seq<usize>)
    requires
        well_formed(g),
        forall|r: int| 0 <= r < roots.len() ==> #[trigger] roots[r] < g.len(),
    ensures
        entries_are_edges(forest_order(g, roots, 0), g),
        order_in_bounds(forest_order(g, roots, 0), g.len()),
{
    lemma_forest_edges(g, roots, 0);
    let s = forest_order(g, roots, 0);
    assert forall|j: int| 0 <= j < s.len() implies (#[trigger] s[j]).0 < g.len() && (s[j].1 is Some
        ==> s[j].1->0 < g.len()) by {
    }
}

fn build_tree_helper(
    children: &Vec<Vec<usize>>,
    current: usize,
    parent: Option<usize>,
    indices: &mut Vec<TreeEntry>,
)
    requires
        well_formed(graph_of(children)),
        current < children.len(),
    ensures
        final(indices)@ == old(indices)@ + subtree_order(graph_of(children), current, parent),
    decreases rank_of(graph_of(children))(current as int), 1nat, 0nat,
{
    let ghost g = graph_of(children);
    let ghost start = old(indices)@;
    indices.push((current, parent));
    let kids = &children[current];
    assert(kids@ == g[current as int]);
    let mut k: usize = 0;
    while k < kids.len()
        invariant
            g == graph_of(children),
            well_formed(g),
            current < children.len(),
            kids@ == g[current as int],
            0 <= k <= kids.len(),
            indices@ + children_order(g, current, k as nat) == start + subtree_order(
                g,
                current,
                parent,
            ),
        decreases kids.len() - k,
    {
        let child = kids[k];
        proof {
            lemma_rank_decreases(g, current as int, k as int);
        }
        let ghost before = indices@;
        build_tree_helper(children, child, Some(current), indices);
        assert(children_order(g, current, k as nat) == subtree_order(g, child, Some(current))
            + children_order(g, current, (k + 1) as nat));
        assert(indices@ + children_order(g, current, (k + 1) as nat) =~= before
            + children_order(g, current, k as nat));
        k = k + 1;
    }
    assert(children_order(g, current, k as nat) =~= Seq::<TreeEntry>::empty());
    assert(indices@ =~= indices@ + children_order(g, current, k as nat));
}

/// Computes the traversal order of a forest: a depth-first walk from each
/// root in turn that lists every node before the subtrees of its children,
/// paired with the node it hangs from.
pub fn build_tree(children: &Vec<Vec<usize>>, roots: &Vec<usize>) -> (order: Vec<TreeEntry>)
    requires
        well_formed(graph_of(children)),
        forall|k: int| 0 <= k < roots.len() ==> #[trigger] roots[k] < children.len(),
    ensures
        order@ == forest_order(graph_of(children), roots@, 0),
        order_in_bounds(order@, children.len() as nat),
{
    let ghost g = graph_of(children);
    let mut order: Vec<TreeEntry> = Vec::with_capacity(children.len());
    let mut k: usize = 0;
    while k < roots.len()
        invariant
            g == graph_of(children),
            well_formed(g),
            forall|j: int| 0 <= j < roots.len() ==> #[trigger] roots[j] < children.len(),
            0 <= k <= roots.len(),
            order@ + forest_order(g, roots@, k as nat) == forest_order(g, roots@, 0),
        decreases roots.len() - k,
    {
        let ghost before = order@;
        build_tree_helper(children, roots[k], None, &mut order);
        assert(forest_order(g, roots@, k as nat) == subtree_order(g, roots@[k as int], None)
            + forest_order(g, roots@, (k + 1) as nat));
        assert(order@ + forest_order(g, roots@, (k + 1) as nat) =~= before + forest_order(
            g,
            roots@,
            k as nat,
        ));
        k = k + 1;
    }
    assert(order@ =~= order@ + forest_order(g, roots@, k as nat));
    proof {
        lemma_order_follows_edges(g, roots@);
    }
    order
}

/// Every entry names nodes of an arena of `len` nodes.
pub open spec fn order_in_bounds(order: Seq<TreeEntry>, len: nat) -> bool {
    forall|j: int|
        0 <= j < order.len() ==> (#[trigger] order[j]).0 < len && (order[j].1 is Some
            ==> order[j].1->0 < len)
}

/// Each node appears in at most one entry.
pub open spec fn nodes_distinct(order: Seq<TreeEntry>) -> bool {
    forall|i: int, j: int|
        0 <= i < order.len() && 0 <= j < order.len() && i != j ==> (#[trigger] order[i]).0
            != (#[trigger] order[j]).0
}

/// `x` is the node of some entry of `s`.
pub open spec fn lists(s: Seq<TreeEntry>, x: usize) -> bool {
    exists|i: int| 0 <= i < s.len() && (#[trigger] s[i]).0 == x
}

/// A forest: no node is listed twice as a child, the roots are distinct,
/// and no root is a child.
pub open spec fn is_forest(g: Seq<Seq<usize>>, roots: Seq<usize>) -> bool {
    &&& forall|i1: int, k1: int, i2: int, k2: int|
        0 <= i1 < g.len() && 0 <= i2 < g.len() && 0 <= k1 < g[i1].len() && 0 <= k2 < g[i2].len()
            && #[trigger] g[i1][k1] == #[trigger] g[i2][k2] ==> i1 == i2 && k1 == k2
    &&& forall|a: int, b: int|
        0 <= a < roots.len() && 0 <= b < roots.len() && a != b ==> #[trigger] roots[a]
            != #[trigger] roots[b]
    &&& forall|i: int, k: int, r: int|
        0 <= i < g.len() && 0 <= k < g[i].len() && 0 <= r < roots.len() ==> #[trigger] g[i][k]
            != #[trigger] roots[r]
}

proof fn lemma_children_ranks(g: Seq<Seq<usize>>, node: usize, k: nat)
    requires
        well_formed(g),
        node < g.len(),
    ensures
        forall|j: int|
            0 <= j < children_order(g, node, k).len() ==> rank_of(g)(
                (#[trigger] children_order(g, node, k)[j]).0 as int,
            ) < rank_of(g)(node as int),
    decreases rank_of(g)(node as int), 0nat, g[node as int].len() - k,
{
    if k < g[node as int].len() {
        let child = g[node as int][k as int];
        lemma_rank_decreases(g, node as int, k as int);
        lemma_subtree_ranks(g, child, Some(node));
        lemma_children_ranks(g, node, k + 1);
        let a = subtree_order(g, child, Some(node));
        let b = children_order(g, node, k + 1);
        let c = children_order(g, node, k);
        assert(c == a + b);
        assert forall|j: int| 0 <= j < c.len() implies rank_of(g)((#[trigger] c[j]).0 as int)
            < rank_of(g)(node as int) by {
            if j < a.len() {
                assert(c[j] == a[j]);
            } else {
                assert(c[j] == b[j - a.len()]);
            }
        }
    }
}

proof fn lemma_subtree_ranks(g: Seq<Seq<usize>>, node: usize, parent: Option<usize>)
    requires
        well_formed(g),
        node < g.len(),
    ensures
        subtree_order(g, node, parent)[0].0 == node,
        forall|j: int|
            1 <= j < subtree_order(g, node, parent).len() ==> rank_of(g)(
                (#[trigger] subtree_order(g, node, parent)[j]).0 as int,
            ) < rank_of(g)(node as int),
    decreases rank_of(g)(node as int), 1nat, 0nat,
{
    lemma_children_ranks(g, node, 0);
    let s = subtree_order(g, node, parent);
    let c = children_order(g, node, 0);
    assert(s == seq![(node, parent)] + c);
    assert forall|j: int| 1 <= j < s.len() implies rank_of(g)((#[trigger] s[j]).0 as int)
        < rank_of(g)(node as int) by {
        assert(s[j] == c[j - 1]);
    }
}

proof fn lemma_subtree_inner_edges(g: Seq<Seq<usize>>, node: usize, parent: Option<usize>)
    requires
        well_formed(g),
        node < g.len(),
    ensures
        forall|j: int|
            1 <= j < subtree_order(g, node, parent).len() ==> (#[trigger] subtree_order(
                g,
                node,
                parent,
            )[j]).1 is Some && subtree_order(g, node, parent)[j].1->0 < g.len() && g[subtree_order(
                g,
                node,
                parent,
            )[j].1->0 as int].contains(subtree_order(g, node, parent)[j].0),
{
    lemma_children_edges(g, node, 0);
    lemma_children_parents(g, node, 0);
    let s = subtree_order(g, node, parent);
    let c = children_order(g, node, 0);
    assert(s == seq![(node, parent)] + c);
    assert forall|j: int| 1 <= j < s.len() implies (#[trigger] s[j]).1 is Some && s[j].1->0 < g.len()
        && g[s[j].1->0 as int].contains(s[j].0) by {
        assert(s[j] == c[j - 1]);
    }
}

/// A node listed below `top`, other than `top`, has a parent listed there.
proof fn lemma_parent_listed(g: Seq<Seq<usize>>, top: usize, par: Option<usize>, x: usize)
    requires
        well_formed(g),
        top < g.len(),
        lists(subtree_order(g, top, par), x),
        x != top,
    ensures
        exists|p: usize|
            p < g.len() && lists(subtree_order(g, top, par), p) && #[trigger] g[p as int].contains(
                x,
            ),
{
    let s = subtree_order(g, top, par);
    lemma_subtree_parents(g, top, par);
    lemma_subtree_inner_edges(g, top, par);
    let j = choose|j: int| 0 <= j < s.len() && (#[trigger] s[j]).0 == x;
    assert(j != 0);
    let i = choose|i: int| 0 <= i < j && Some(s[i].0) == s[j].1;
    let p = s[i].0;
    assert(lists(s, p));
    assert(g[p as int].contains(x));
}

/// Two subtrees whose tops differ, and whose tops have no parent listed in
/// the other subtree, share no node.
proof fn lemma_subtrees_disjoint(
    g: Seq<Seq<usize>>,
    roots: Seq<usize>,
    t1: usize,
    par1: Option<usize>,
    t2: usize,
    par2: Option<usize>,
    x: usize,
)
    requires
        well_formed(g),
        is_forest(g, roots),
        t1 < g.len(),
        t2 < g.len(),
        t1 != t2,
        forall|p: usize|
            p < g.len() && #[trigger] g[p as int].contains(t1) ==> !lists(
                subtree_order(g, t2, par2),
                p,
            ),
        forall|p: usize|
            p < g.len() && #[trigger] g[p as int].contains(t2) ==> !lists(
                subtree_order(g, t1, par1),
                p,
            ),
        lists(subtree_order(g, t1, par1), x),
    ensures
        !lists(subtree_order(g, t2, par2), x),
    decreases rank_of(g)(t1 as int) - rank_of(g)(x as int),
{
    let s1 = subtree_order(g, t1, par1);
    let s2 = subtree_order(g, t2, par2);
    lemma_subtree_ranks(g, t1, par1);
    if lists(s2, x) {
        if x == t1 {
            lemma_parent_listed(g, t2, par2, x);
        } else if x == t2 {
            lemma_parent_listed(g, t1, par1, x);
        } else {
            lemma_parent_listed(g, t1, par1, x);
            lemma_parent_listed(g, t2, par2, x);
            let p1 = choose|p: usize|
                p < g.len() && lists(s1, p) && #[trigger] g[p as int].contains(x);
            let p2 = choose|p: usize|
                p < g.len() && lists(s2, p) && #[trigger] g[p as int].contains(x);
            let k1 = choose|k: int| 0 <= k < g[p1 as int].len() && g[p1 as int][k] == x;
            let k2 = choose|k: int| 0 <= k < g[p2 as int].len() && g[p2 as int][k] == x;
            assert(g[p1 as int][k1] == g[p2 as int][k2]);
            assert(p1 == p2);
            lemma_rank_decreases(g, p1 as int, k1);
            let jx = choose|j: int| 0 <= j < s1.len() && (#[trigger] s1[j]).0 == x;
            let jp = choose|j: int| 0 <= j < s1.len() && (#[trigger] s1[j]).0 == p1;
            if jx > 0 {
                assert(rank_of(g)(s1[jx].0 as int) < rank_of(g)(t1 as int));
            }
            if jp > 0 {
                assert(rank_of(g)(s1[jp].0 as int) < rank_of(g)(t1 as int));
            }
            lemma_subtrees_disjoint(g, roots, t1, par1, t2, par2, p1);
        }
    }
}

proof fn lemma_concat_distinct(a: Seq<TreeEntry>, b: Seq<TreeEntry>)
    requires
        nodes_distinct(a),
        nodes_distinct(b),
        forall|x: usize| lists(a, x) ==> !lists(b, x),
    ensures
        nodes_distinct(a + b),
{
    let s = a + b;
    assert forall|i: int, j: int|
        0 <= i < s.len() && 0 <= j < s.len() && i != j implies (#[trigger] s[i]).0
        != (#[trigger] s[j]).0 by {
        if i < a.len() && j >= a.len() {
            assert(s[i] == a[i]);
            assert(s[j] == b[j - a.len()]);
            assert(lists(a, s[i].0));
            if s[i].0 == s[j].0 {
                assert(lists(b, s[j].0));
            }
        } else if j < a.len() && i >= a.len() {
            assert(s[j] == a[j]);
            assert(s[i] == b[i - a.len()]);
            assert(lists(a, s[j].0));
            if s[i].0 == s[j].0 {
                assert(lists(b, s[i].0));
            }
        } else if i < a.len() {
            assert(s[i] == a[i] && s[j] == a[j]);
        } else {
            assert(s[i] == b[i - a.len()] && s[j] == b[j - a.len()]);
        }
    }
}

proof fn lemma_sibling_not_parent(g: Seq<Seq<usize>>, roots: Seq<usize>, node: usize, a: int, b: int)
    requires
        well_formed(g),
        is_forest(g, roots),
        node < g.len(),
        0 <= a < g[node as int].len(),
        0 <= b < g[node as int].len(),
        a != b,
    ensures
        g[node as int][a] != g[node as int][b],
        forall|p: usize|
            p < g.len() && #[trigger] g[p as int].contains(g[node as int][a]) ==> !lists(
                subtree_order(g, g[node as int][b], Some(node)),
                p,
            ),
{
    let ca = g[node as int][a];
    let cb = g[node as int][b];
    lemma_rank_decreases(g, node as int, b);
    lemma_subtree_ranks(g, cb, Some(node));
    assert forall|p: usize| p < g.len() && #[trigger] g[p as int].contains(ca) implies !lists(
        subtree_order(g, cb, Some(node)),
        p,
    ) by {
        let k = choose|k: int| 0 <= k < g[p as int].len() && g[p as int][k] == ca;
        assert(g[p as int][k] == g[node as int][a]);
        assert(p == node);
        let s = subtree_order(g, cb, Some(node));
        if lists(s, p) {
            let j = choose|j: int| 0 <= j < s.len() && (#[trigger] s[j]).0 == p;
            if j > 0 {
                assert(rank_of(g)(s[j].0 as int) < rank_of(g)(cb as int));
            }
        }
    }
}

proof fn lemma_children_distinct(g: Seq<Seq<usize>>, roots: Seq<usize>, node: usize, k: nat)
    requires
        well_formed(g),
        is_forest(g, roots),
        node < g.len(),
    ensures
        nodes_distinct(children_order(g, node, k)),
        forall|x: usize|
            lists(children_order(g, node, k), x) ==> exists|m: int|
                k <= m < g[node as int].len() && lists(
                    #[trigger] subtree_order(g, g[node as int][m], Some(node)),
                    x,
                ),
    decreases rank_of(g)(node as int), 0nat, g[node as int].len() - k,
{
    if k < g[node as int].len() {
        let child = g[node as int][k as int];
        lemma_rank_decreases(g, node as int, k as int);
        lemma_subtree_distinct(g, roots, child, Some(node));
        lemma_children_distinct(g, roots, node, k + 1);
        let a = subtree_order(g, child, Some(node));
        let b = children_order(g, node, k + 1);
        let c = children_order(g, node, k);
        assert(c == a + b);
        assert forall|x: usize| lists(a, x) implies !lists(b, x) by {
            if lists(b, x) {
                let m = choose|m: int|
                    k + 1 <= m < g[node as int].len() && lists(
                        #[trigger] subtree_order(g, g[node as int][m], Some(node)),
                        x,
                    );
                lemma_rank_decreases(g, node as int, m);
                lemma_sibling_not_parent(g, roots, node, k as int, m);
                lemma_sibling_not_parent(g, roots, node, m, k as int);
                lemma_subtrees_disjoint(
                    g,
                    roots,
                    child,
                    Some(node),
                    g[node as int][m],
                    Some(node),
                    x,
                );
            }
        }
        lemma_concat_distinct(a, b);
        assert forall|x: usize| lists(c, x) implies exists|m: int|
            k <= m < g[node as int].len() && lists(
                #[trigger] subtree_order(g, g[node as int][m], Some(node)),
                x,
            ) by {
            let i = choose|i: int| 0 <= i < c.len() && (#[trigger] c[i]).0 == x;
            if i < a.len() {
                assert(a[i] == c[i]);
                assert(lists(subtree_order(g, g[node as int][k as int], Some(node)), x));
            } else {
                assert(b[i - a.len()] == c[i]);
                assert(lists(b, x));
            }
        }
    } else {
        assert(children_order(g, node, k).len() == 0);
    }
}

proof fn lemma_subtree_distinct(
    g: Seq<Seq<usize>>,
    roots: Seq<usize>,
    node: usize,
    parent: Option<usize>,
)
    requires
        well_formed(g),
        is_forest(g, roots),
        node < g.len(),
    ensures
        nodes_distinct(subtree_order(g, node, parent)),
    decreases rank_of(g)(node as int), 1nat, 0nat,
{
    lemma_children_distinct(g, roots, node, 0);
    lemma_children_ranks(g, node, 0);
    let head = seq![(node, parent)];
    let c = children_order(g, node, 0);
    assert(subtree_order(g, node, parent) == head + c);
    assert forall|x: usize| lists(head, x) implies !lists(c, x) by {
        assert(head[0].0 == x);
        if lists(c, x) {
            let j = choose|j: int| 0 <= j < c.len() && (#[trigger] c[j]).0 == x;
            assert(rank_of(g)(c[j].0 as int) < rank_of(g)(node as int));
        }
    }
    lemma_concat_distinct(head, c);
}

proof fn lemma_forest_distinct(g: Seq<Seq<usize>>, roots: Seq<usize>, k: nat)
    requires
        well_formed(g),
        is_forest(g, roots),
        forall|r: int| 0 <= r < roots.len() ==> #[trigger] roots[r] < g.len(),
    ensures
        nodes_distinct(forest_order(g, roots, k)),
        forall|x: usize|
            lists(forest_order(g, roots, k), x) ==> exists|m: int|
                k <= m < roots.len() && lists(#[trigger] subtree_order(g, roots[m], None), x),
    decreases roots.len() - k,
{
    if k < roots.len() {
        lemma_subtree_distinct(g, roots, roots[k as int], None);
        lemma_forest_distinct(g, roots, k + 1);
        let a = subtree_order(g, roots[k as int], None);
        let b = forest_order(g, roots, k + 1);
        let s = forest_order(g, roots, k);
        assert(s == a + b);
        assert forall|x: usize| lists(a, x) implies !lists(b, x) by {
            if lists(b, x) {
                let m = choose|m: int|
                    k + 1 <= m < roots.len() && lists(
                        #[trigger] subtree_order(g, roots[m], None),
                        x,
                    );
                assert(roots[k as int] != roots[m]);
                assert forall|p: usize|
                    p < g.len() && #[trigger] g[p as int].contains(roots[k as int]) implies !lists(
                    subtree_order(g, roots[m], None),
                    p,
                ) by {
                    let i = choose|i: int| 0 <= i < g[p as int].len() && g[p as int][i] == roots[k as int];
                    assert(g[p as int][i] != roots[k as int]);
                }
                assert forall|p: usize|
                    p < g.len() && #[trigger] g[p as int].contains(roots[m]) implies !lists(
                    subtree_order(g, roots[k as int], None),
                    p,
                ) by {
                    let i = choose|i: int| 0 <= i < g[p as int].len() && g[p as int][i] == roots[m];
                    assert(g[p as int][i] != roots[m]);
                }
                lemma_subtrees_disjoint(g, roots, roots[k as int], None, roots[m], None, x);
            }
        }
        lemma_concat_distinct(a, b);
        assert forall|x: usize| lists(s, x) implies exists|m: int|
            k <= m < roots.len() && lists(#[trigger] subtree_order(g, roots[m], None), x) by {
            let i = choose|i: int| 0 <= i < s.len() && (#[trigger] s[i]).0 == x;
            if i < a.len() {
                assert(a[i] == s[i]);
                assert(lists(subtree_order(g, roots[k as int], None), x));
            } else {
                assert(b[i - a.len()] == s[i]);
                assert(lists(b, x));
            }
        }
    } else {
        assert(forest_order(g, roots, k).len() == 0);
    }
}

/// In a forest the traversal order lists each node at most once.
pub proof fn lemma_forest_nodes_distinct(g: Seq<Seq<usize>>, roots: Seq<usize>)
    requires
        well_formed(g),
        is_forest(g, roots),
        forall|r: int| 0 <= r < roots.len() ==> #[trigger] roots[r] < g.len(),
    ensures
        nodes_distinct(forest_order(g, roots, 0)),
{
    lemma_forest_distinct(g, roots, 0);
}

} // verus!

