//! The container's laws: properties that relate several operations, stated
//! over the same spec-level views ([`Node::spec_children`], [`Node::subtree`])
//! that the operations' own contracts use, and proved once and for all.

use vstd::prelude::*;

use crate::node::Node;

verus! {

/// The child sequence left behind by attaching `attached` at the back, one
/// node after another, in order.
pub open spec fn pushed_all<T>(children: Seq<Node<T>>, attached: Seq<Node<T>>) -> Seq<Node<T>>
    decreases attached.len(),
{
    if attached.len() == 0 {
        children
    } else {
        pushed_all(children.push(attached[0]), attached.drop_first())
    }
}

/// Order preservation: a run of `push_back` calls appends exactly the
/// attached nodes, in call order, after the children that were already
/// there; so the node attached `i`-th stands at index `len + i`, which is
/// where `get` and the child iteration find it.
pub proof fn lemma_push_back_order<T>(children: Seq<Node<T>>, attached: Seq<Node<T>>)
    ensures
        pushed_all(children, attached) == children + attached,
        forall|i: int|
            0 <= i < attached.len() ==> #[trigger] pushed_all(children, attached)[children.len()
                + i] == attached[i],
    decreases attached.len(),
{
    if attached.len() == 0 {
        assert(pushed_all(children, attached) =~= children + attached);
    } else {
        lemma_push_back_order(children.push(attached[0]), attached.drop_first());
        assert(children.push(attached[0]) + attached.drop_first() =~= children + attached);
    }
}

/// Size invariant, one step at a time: every attach (`push_back`,
/// `push_front`, `insert`) grows the child sequence by exactly one, every
/// successful detach (`remove`, `pop_front`, `pop_back`) shrinks it by
/// exactly one, so after any run of calls `len()` is the number of
/// successful attachments minus the number of successful detachments.
pub proof fn lemma_size_steps<T>(children: Seq<Node<T>>, i: int, x: Node<T>)
    requires
        0 <= i <= children.len(),
    ensures
        children.push(x).len() == children.len() + 1,
        (seq![x] + children).len() == children.len() + 1,
        children.insert(i, x).len() == children.len() + 1,
        i < children.len() ==> children.remove(i).len() == children.len() - 1,
        children.len() > 0 ==> children.drop_first().len() == children.len() - 1,
        children.len() > 0 ==> children.drop_last().len() == children.len() - 1,
{
}

/// Front/back duality: on a node with no children, pushing `x` at the front
/// and popping at the back detaches exactly `x` and leaves the node without
/// children again; and the same with front and back exchanged.
pub proof fn lemma_front_back_duality<T>(n: Node<T>, x: Node<T>)
    requires
        n.spec_children().len() == 0,
    ensures
        (seq![x] + n.spec_children()).last() == x,
        (seq![x] + n.spec_children()).drop_last() == n.spec_children(),
        n.spec_children().push(x)[0] == x,
        n.spec_children().push(x).drop_first() == n.spec_children(),
{
    assert((seq![x] + n.spec_children()).drop_last() =~= n.spec_children());
    assert(n.spec_children().push(x).drop_first() =~= n.spec_children());
}

/// Insert/remove inverse: for any index `i <= len()`, inserting `x` at `i`
/// puts exactly `x` there, and removing at `i` right after gives `x` back
/// and restores the original children, same length, same nodes, same order.
pub proof fn lemma_insert_remove_inverse<T>(n: Node<T>, i: int, x: Node<T>)
    requires
        0 <= i <= n.spec_children().len(),
    ensures
        n.spec_children().insert(i, x)[i] == x,
        n.spec_children().insert(i, x).remove(i) == n.spec_children(),
{
    assert(n.spec_children().insert(i, x).remove(i) =~= n.spec_children());
}

/// Traversal completeness and order: the pre-order sequence of a subtree
/// opens with its root, continues with the pre-order of each child subtree
/// in child order, and counts every node of every child subtree exactly
/// once beyond the root itself.
pub proof fn lemma_preorder_decomposition<T>(n: Node<T>)
    ensures
        n.subtree().len() >= 1,
        n.subtree()[0] == n,
        n.subtree() == seq![n] + n.subtree_upto(n.spec_children().len() as int),
        n.subtree_upto(0) == Seq::<Node<T>>::empty(),
        forall|i: int|
            0 <= i < n.spec_children().len() ==> #[trigger] n.subtree_upto(i + 1)
                == n.subtree_upto(i) + n.spec_children()[i].subtree(),
        forall|i: int|
            0 <= i < n.spec_children().len() ==> #[trigger] n.subtree_upto(i + 1).len()
                == n.subtree_upto(i).len() + n.spec_children()[i].subtree().len(),
{
    assert(n.subtree()[0] == n);
    assert(n.subtree_upto(0) =~= Seq::<Node<T>>::empty());
}

/// Helper for [`lemma_mapped_preorder_values`], over the concatenated
/// pre-orders of the first `n` children.
proof fn lemma_mapped_subtree_upto<T, F: Fn(&T) -> T>(f: F, pre: Node<T>, post: Node<T>, n: int)
    requires
        Node::mapped(f, pre, post),
        0 <= n <= pre.spec_children().len(),
    ensures
        post.subtree_upto(n).len() == pre.subtree_upto(n).len(),
        forall|k: int|
            0 <= k < pre.subtree_upto(n).len() ==> call_ensures(
                f,
                (&pre.subtree_upto(n)[k].spec_value(),),
                #[trigger] post.subtree_upto(n)[k].spec_value(),
            ),
    decreases post, n,
{
    Node::lemma_mapped_unfold(f, pre, post);
    if 0 < n {
        lemma_mapped_subtree_upto(f, pre, post, n - 1);
        post.lemma_child_decreases(n - 1);
        lemma_mapped_subtree(f, pre.spec_children()[n - 1], post.spec_children()[n - 1]);
    }
}

/// Helper for [`lemma_mapped_preorder_values`]: under [`Node::mapped`], the
/// two pre-order node sequences have the same length and pointwise
/// visitor-related values.
proof fn lemma_mapped_subtree<T, F: Fn(&T) -> T>(f: F, pre: Node<T>, post: Node<T>)
    requires
        Node::mapped(f, pre, post),
    ensures
        post.subtree().len() == pre.subtree().len(),
        forall|k: int|
            0 <= k < pre.subtree().len() ==> call_ensures(
                f,
                (&pre.subtree()[k].spec_value(),),
                #[trigger] post.subtree()[k].spec_value(),
            ),
    decreases post, pre.spec_children().len() + 1,
{
    Node::lemma_mapped_unfold(f, pre, post);
    lemma_mapped_subtree_upto(f, pre, post, pre.spec_children().len() as int);
}

/// The mutating traversal rewrites the pre-order value sequence pointwise:
/// the result's `k`-th pre-order value is an output of the visitor on the
/// original's `k`-th pre-order value — so the visitor reaches every node
/// exactly once, in pre-order.
pub proof fn lemma_mapped_preorder_values<T, F: Fn(&T) -> T>(f: F, pre: Node<T>, post: Node<T>)
    requires
        Node::mapped(f, pre, post),
    ensures
        post.preorder_values().len() == pre.preorder_values().len(),
        forall|k: int|
            0 <= k < pre.preorder_values().len() ==> call_ensures(
                f,
                (&pre.preorder_values()[k],),
                #[trigger] post.preorder_values()[k],
            ),
{
    lemma_mapped_subtree(f, pre, post);
}

} // verus!
