//! The syntax tree's storage: an `indextree` arena whose nodes carry the
//! index of their token in the token vector.

use vstd::prelude::*;

verus! {

#[verifier::external_type_specification]
#[verifier::external_body]
#[verifier::reject_recursive_types(T)]
pub struct ExArena<T>(indextree::Arena<T>);

#[verifier::external_type_specification]
#[verifier::external_body]
pub struct ExNodeId(indextree::NodeId);

/// The nodes of an arena in slot order: each node's data, its parent's
/// one-based id, its children's one-based ids in order, and whether the
/// node was removed.
pub uninterp spec fn arena_nodes(a: indextree::Arena<usize>) -> Seq<(usize, Option<usize>, Seq<usize>, bool)>;

/// The one-based slot index of a node id, as `usize::from` gives it.
pub uninterp spec fn node_index(n: indextree::NodeId) -> usize;

/// No node of the arena was ever removed.
pub open spec fn none_removed(nodes: Seq<(usize, Option<usize>, Seq<usize>, bool)>) -> bool {
    forall|i: int| 0 <= i < nodes.len() ==> !(#[trigger] nodes[i]).3
}

/// `n` names a live node of `nodes`.
pub open spec fn live(nodes: Seq<(usize, Option<usize>, Seq<usize>, bool)>, n: usize) -> bool {
    1 <= n <= nodes.len() && !nodes[n - 1].3
}

/// Every child id of every node names a live node.
pub open spec fn children_live(nodes: Seq<(usize, Option<usize>, Seq<usize>, bool)>) -> bool {
    forall|i: int, k: int| 0 <= i < nodes.len() && 0 <= k < nodes[i].2.len() ==> live(nodes, #[trigger] nodes[i].2[k])
}

/// `Arena::new`: an arena without nodes.
#[verifier::external_body]
pub(crate) fn arena_new() -> (a: indextree::Arena<usize>)
    ensures
        arena_nodes(a) == Seq::<(usize, Option<usize>, Seq<usize>, bool)>::empty(),
{
    indextree::Arena::new()
}

/// `Arena::new_node`: with no removed slot to reuse, the node is appended
/// as a new slot, detached and without children.
#[verifier::external_body]
pub(crate) fn arena_add(a: &mut indextree::Arena<usize>, data: usize) -> (n: indextree::NodeId)
    requires
        none_removed(arena_nodes(*old(a))),
        arena_nodes(*old(a)).len() + 1 < usize::MAX,
    ensures
        arena_nodes(*final(a)) == arena_nodes(*old(a)).push((data, None, Seq::empty(), false)),
        node_index(n) == arena_nodes(*old(a)).len() + 1,
{
    a.new_node(data)
}

/// `NodeId::append` of a detached node below a detached node: the child
/// becomes the parent's last child.  (The source panics when the child is
/// the parent, a node was removed, or the child is an ancestor of the
/// parent; a parent without a parent of its own has no ancestor.)
#[verifier::external_body]
pub(crate) fn arena_append(a: &mut indextree::Arena<usize>, parent: indextree::NodeId, child: indextree::NodeId)
    requires
        live(arena_nodes(*old(a)), node_index(parent)),
        live(arena_nodes(*old(a)), node_index(child)),
        node_index(parent) != node_index(child),
        arena_nodes(*old(a))[node_index(parent) - 1].1 is None,
        arena_nodes(*old(a))[node_index(child) - 1].1 is None,
    ensures
        ({
            let o = arena_nodes(*old(a));
            let p = node_index(parent) - 1;
            let c = node_index(child) - 1;
            arena_nodes(*final(a)) == o.update(p, (o[p].0, o[p].1, o[p].2.push(node_index(child)), o[p].3)).update(
                c,
                (o[c].0, Some(node_index(parent)), o[c].2, o[c].3),
            )
        }),
{
    parent.append(child, a)
}

/// `Node::get`: the data of a live node.
#[verifier::external_body]
pub(crate) fn arena_data(a: &indextree::Arena<usize>, n: indextree::NodeId) -> (d: usize)
    requires
        live(arena_nodes(*a), node_index(n)),
    ensures
        d == arena_nodes(*a)[node_index(n) - 1].0,
{
    *a[n].get()
}

/// `NodeId::children`, collected: the children of a node in order.
#[verifier::external_body]
pub(crate) fn arena_children(a: &indextree::Arena<usize>, n: indextree::NodeId) -> (v: Vec<indextree::NodeId>)
    requires
        live(arena_nodes(*a), node_index(n)),
    ensures
        v@.map_values(|c: indextree::NodeId| node_index(c)) == arena_nodes(*a)[node_index(n) - 1].2,
{
    n.children(a).collect()
}

} // verus!
