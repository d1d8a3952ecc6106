//! The tree node: one value plus an ordered sequence of owned child subtrees.

use std::collections::vec_deque::Iter;
use std::collections::vec_deque::IterMut;
use std::collections::VecDeque;
use vstd::prelude::*;

use crate::deque::deque_get_mut;
use crate::deque::deque_iter_mut;
use vstd::std_specs::iter::IteratorSpec;
use vstd::std_specs::vecdeque::VecDequeAdditionalSpecFns;

verus! {

/// An owned node of an ordered multi-way tree.
///
/// A node carries a `value` and an ordered collection of child nodes, each of
/// which it owns exclusively. Detaching a child transfers ownership of that
/// entire subtree to the caller.
#[derive(Debug, Hash)]
pub struct Node<T> {
    value: T,
    children: VecDeque<Node<T>>,
}

impl<T> Node<T> {
    /// The payload carried by this node.
    pub closed spec fn spec_value(self) -> T {
        self.value
    }

    /// The direct children of this node, in order.
    pub closed spec fn spec_children(self) -> Seq<Node<T>> {
        self.children@
    }

    /// Every node of this subtree in pre-order: this node first, then each
    /// child's subtree, left to right. This sequence is the mathematical
    /// meaning of the traversal operations.
    pub open spec fn subtree(self) -> Seq<Node<T>>
        decreases self, self.spec_children().len() + 1,
    {
        seq![self] + self.subtree_upto(self.spec_children().len() as int)
    }

    /// The pre-order sequences of the first `n` children, concatenated.
    pub open spec fn subtree_upto(self, n: int) -> Seq<Node<T>>
        recommends
            n <= self.spec_children().len(),
        decreases self, n,
        via Self::subtree_upto_decreases
    {
        if 0 < n <= self.spec_children().len() {
            self.subtree_upto(n - 1) + self.spec_children()[n - 1].subtree()
        } else {
            Seq::empty()
        }
    }

    #[via_fn]
    proof fn subtree_upto_decreases(self, n: int) {
        if 0 < n <= self.spec_children().len() {
            assert(decreases_to!(self => self.children));
            assert(decreases_to!(self.children => self.children[n - 1]));
        }
    }

    /// The values of this subtree in pre-order.
    pub open spec fn preorder_values(self) -> Seq<T> {
        self.subtree().map_values(|n: Node<T>| n.spec_value())
    }

    /// Creates a node holding `value`, with no children.
    pub fn new(value: T) -> (node: Node<T>)
        ensures
            node.spec_value() == value,
            node.spec_children() == Seq::<Node<T>>::empty(),
    {
        Node { value, children: VecDeque::new() }
    }

    /// The number of direct children (not the recursive subtree size).
    pub fn len(&self) -> (n: usize)
        ensures
            n == self.spec_children().len(),
    {
        self.children.len()
    }

    /// Attaches `child` (a whole subtree) after the last child.
    pub fn push_back(&mut self, child: Node<T>)
        ensures
            final(self).spec_value() == old(self).spec_value(),
            final(self).spec_children() == old(self).spec_children().push(child),
    {
        self.children.push_back(child);
    }

    /// Attaches `child` (a whole subtree) before the first child.
    pub fn push_front(&mut self, child: Node<T>)
        ensures
            final(self).spec_value() == old(self).spec_value(),
            final(self).spec_children() == seq![child] + old(self).spec_children(),
    {
        self.children.push_front(child);
    }

    /// Attaches `child` (a whole subtree) at position `index`, shifting the
    /// children at `index` and after one place to the right.
    ///
    /// An index greater than `len()` is a caller error; it is excluded by the
    /// precondition, and the underlying collection would fail loudly on it.
    pub fn insert(&mut self, index: usize, child: Node<T>)
        requires
            index <= old(self).spec_children().len(),
        ensures
            final(self).spec_value() == old(self).spec_value(),
            final(self).spec_children() == old(self).spec_children().insert(
                index as int,
                child,
            ),
    {
        self.children.insert(index, child);
    }

    /// Detaches the first child and returns it, with everything it owns;
    /// reports absence if there are no children.
    pub fn pop_front(&mut self) -> (detached: Option<Node<T>>)
        ensures
            final(self).spec_value() == old(self).spec_value(),
            match detached {
                Some(child) => {
                    &&& old(self).spec_children().len() > 0
                    &&& child == old(self).spec_children()[0]
                    &&& final(self).spec_children() == old(self).spec_children().drop_first()
                },
                None => {
                    &&& old(self).spec_children().len() == 0
                    &&& final(self).spec_children() == old(self).spec_children()
                },
            },
    {
        self.children.pop_front()
    }

    /// Detaches the last child and returns it, with everything it owns;
    /// reports absence if there are no children.
    pub fn pop_back(&mut self) -> (detached: Option<Node<T>>)
        ensures
            final(self).spec_value() == old(self).spec_value(),
            match detached {
                Some(child) => {
                    &&& old(self).spec_children().len() > 0
                    &&& child == old(self).spec_children().last()
                    &&& final(self).spec_children() == old(self).spec_children().drop_last()
                },
                None => {
                    &&& old(self).spec_children().len() == 0
                    &&& final(self).spec_children() == old(self).spec_children()
                },
            },
    {
        self.children.pop_back()
    }

    /// Detaches the child at `index` and returns it, shifting later children
    /// one place to the left; reports absence if `index` is out of range.
    pub fn remove(&mut self, index: usize) -> (detached: Option<Node<T>>)
        ensures
            final(self).spec_value() == old(self).spec_value(),
            match detached {
                Some(child) => {
                    &&& index < old(self).spec_children().len()
                    &&& child == old(self).spec_children()[index as int]
                    &&& final(self).spec_children() == old(self).spec_children().remove(
                        index as int,
                    )
                },
                None => {
                    &&& index >= old(self).spec_children().len()
                    &&& final(self).spec_children() == old(self).spec_children()
                },
            },
    {
        self.children.remove(index)
    }

    /// Borrows the child at `index`, or reports absence if out of range.
    pub fn get(&self, index: usize) -> (child: Option<&Node<T>>)
        ensures
            match child {
                Some(c) => index < self.spec_children().len() && *c == self.spec_children()[
                    index as int
                ],
                None => index >= self.spec_children().len(),
            },
    {
        if index < self.children.len() {
            Some(&self.children[index])
        } else {
            None
        }
    }

    /// Borrows the first child, or reports absence if there are none.
    pub fn front(&self) -> (child: Option<&Node<T>>)
        ensures
            match child {
                Some(c) => self.spec_children().len() > 0 && *c == self.spec_children()[0],
                None => self.spec_children().len() == 0,
            },
    {
        self.get(0)
    }

    /// Borrows the last child, or reports absence if there are none.
    pub fn back(&self) -> (child: Option<&Node<T>>)
        ensures
            match child {
                Some(c) => self.spec_children().len() > 0 && *c == self.spec_children().last(),
                None => self.spec_children().len() == 0,
            },
    {
        let n = self.children.len();
        if n > 0 {
            self.get(n - 1)
        } else {
            None
        }
    }

    /// Borrows the child at `index` for writing, or reports absence if out
    /// of range. A change through the returned reference replaces that whole
    /// subtree in place; the other children and this node's value stay as
    /// they were.
    pub fn get_mut(&mut self, index: usize) -> (child: Option<&mut Node<T>>)
        ensures
            final(self).spec_value() == old(self).spec_value(),
            index < old(self).spec_children().len() ==> {
                &&& child.is_some()
                &&& *child.unwrap() == old(self).spec_children()[index as int]
                &&& final(self).spec_children() == old(self).spec_children().update(
                    index as int,
                    *final(child.unwrap()),
                )
            },
            index >= old(self).spec_children().len() ==> {
                &&& child.is_none()
                &&& final(self).spec_children() == old(self).spec_children()
            },
    {
        deque_get_mut(&mut self.children, index)
    }

    /// Borrows the first child for writing, or reports absence if there are
    /// none.
    pub fn front_mut(&mut self) -> (child: Option<&mut Node<T>>)
        ensures
            final(self).spec_value() == old(self).spec_value(),
            old(self).spec_children().len() > 0 ==> {
                &&& child.is_some()
                &&& *child.unwrap() == old(self).spec_children()[0]
                &&& final(self).spec_children() == old(self).spec_children().update(
                    0,
                    *final(child.unwrap()),
                )
            },
            old(self).spec_children().len() == 0 ==> {
                &&& child.is_none()
                &&& final(self).spec_children() == old(self).spec_children()
            },
    {
        self.get_mut(0)
    }

    /// Borrows the last child for writing, or reports absence if there are
    /// none.
    pub fn back_mut(&mut self) -> (child: Option<&mut Node<T>>)
        ensures
            final(self).spec_value() == old(self).spec_value(),
            old(self).spec_children().len() > 0 ==> {
                &&& child.is_some()
                &&& *child.unwrap() == old(self).spec_children().last()
                &&& final(self).spec_children() == old(self).spec_children().update(
                    old(self).spec_children().len() - 1,
                    *final(child.unwrap()),
                )
            },
            old(self).spec_children().len() == 0 ==> {
                &&& child.is_none()
                &&& final(self).spec_children() == old(self).spec_children()
            },
    {
        let n = self.children.len();
        if n > 0 {
            self.get_mut(n - 1)
        } else {
            None
        }
    }

    /// A child stands strictly below its parent in the structural order
    /// that recursion measures use.
    pub proof fn lemma_child_decreases(self, i: int)
        requires
            0 <= i < self.spec_children().len(),
        ensures
            decreases_to!(self => self.spec_children()[i]),
    {
        assert(decreases_to!(self => self.children));
        assert(decreases_to!(self.children => self.children[i]));
    }

    /// A subtree's pre-order sequence starts with the subtree's root.
    proof fn lemma_subtree_head(self)
        ensures
            self.subtree().len() > 0,
            self.subtree()[0] == self,
            self.subtree().contains(self),
    {
        assert(self.subtree()[0] == self);
    }

    /// Whatever stands in the concatenation of the first `i` children's
    /// pre-orders still stands in the concatenation of the first `j` of them.
    proof fn lemma_subtree_upto_mono(self, i: int, j: int)
        requires
            0 <= i <= j <= self.spec_children().len(),
        ensures
            forall|x: Node<T>|
                self.subtree_upto(i).contains(x) ==> #[trigger] self.subtree_upto(j).contains(x),
        decreases j - i,
    {
        broadcast use vstd::seq_lib::lemma_seq_concat_contains_all_elements;

        if i < j {
            self.lemma_subtree_upto_mono(i, j - 1);
            assert forall|x: Node<T>|
                self.subtree_upto(i).contains(x) implies #[trigger] self.subtree_upto(j).contains(
                x,
            ) by {
                assert(self.subtree_upto(j - 1).contains(x));
                assert(self.subtree_upto(j) == self.subtree_upto(j - 1) + self.spec_children()[j
                    - 1].subtree());
            }
        }
    }

    /// Every node in a child's subtree is in this node's subtree.
    proof fn lemma_child_subtree_in_subtree(self, i: int)
        requires
            0 <= i < self.spec_children().len(),
        ensures
            forall|x: Node<T>|
                self.spec_children()[i].subtree().contains(x) ==> #[trigger] self.subtree().contains(
                    x,
                ),
    {
        broadcast use vstd::seq_lib::lemma_seq_concat_contains_all_elements;

        let len = self.spec_children().len() as int;
        self.lemma_subtree_upto_mono(i + 1, len);
        assert forall|x: Node<T>|
            self.spec_children()[i].subtree().contains(x) implies #[trigger] self.subtree().contains(
            x,
        ) by {
            assert(self.subtree_upto(i + 1).contains(x));
            assert(self.subtree_upto(len).contains(x));
        }
    }

    /// Applies `f` to this node first, then recursively to each child's
    /// subtree, left to right: plain depth-first, parent-before-children.
    ///
    /// The visitor must accept every node of this subtree; afterwards its
    /// postcondition holds of every node of this subtree, each of which it
    /// was given exactly once, in the order of [`Self::subtree`].
    pub fn traverse<F: Fn(&Node<T>)>(&self, f: F)
        requires
            forall|x: Node<T>| self.subtree().contains(x) ==> #[trigger] call_requires(f, (&x,)),
        ensures
            forall|x: Node<T>| self.subtree().contains(x) ==> #[trigger] call_ensures(f, (&x,), ()),
    {
        self.traverse_rec(&f)
    }

    /// Recursive worker for [`Self::traverse`], sharing one visitor borrow.
    fn traverse_rec<F: Fn(&Node<T>)>(&self, f: &F)
        requires
            forall|x: Node<T>| self.subtree().contains(x) ==> #[trigger] call_requires(*f, (&x,)),
        ensures
            forall|x: Node<T>|
                self.subtree().contains(x) ==> #[trigger] call_ensures(*f, (&x,), ()),
        decreases self,
    {
        proof {
            self.lemma_subtree_head();
        }
        f(self);
        let n = self.children.len();
        let mut i: usize = 0;
        while i < n
            invariant
                n == self.spec_children().len(),
                0 <= i <= n,
                forall|x: Node<T>|
                    self.subtree().contains(x) ==> #[trigger] call_requires(*f, (&x,)),
                call_ensures(*f, (&*self,), ()),
                forall|x: Node<T>|
                    self.subtree_upto(i as int).contains(x) ==> #[trigger] call_ensures(
                        *f,
                        (&x,),
                        (),
                    ),
            decreases n - i,
        {
            let child = &self.children[i];
            proof {
                broadcast use vstd::seq_lib::lemma_seq_concat_contains_all_elements;

                self.lemma_child_subtree_in_subtree(i as int);
                assert(decreases_to!(self.children => self.children[i as int]));
            }
            child.traverse_rec(f);
            i = i + 1;
        }
        proof {
            broadcast use vstd::seq_lib::lemma_seq_concat_contains_all_elements;

            assert forall|x: Node<T>| self.subtree().contains(x) implies #[trigger] call_ensures(
                *f,
                (&x,),
                (),
            ) by {
                if x != *self {
                    assert(self.subtree_upto(self.spec_children().len() as int).contains(x));
                }
            }
        }
    }

    /// The mutating traversal's whole effect: `post` is `pre` with every
    /// node's value `v` replaced, in place, by an output of the visitor on
    /// `v` — the root's first, then each child subtree's, left to right. The
    /// shape of the tree is untouched, and the visitor runs exactly once per
    /// node.
    pub open spec fn mapped<F: Fn(&T) -> T>(f: F, pre: Node<T>, post: Node<T>) -> bool
        decreases post,
        via Self::mapped_decreases::<F>
    {
        &&& call_ensures(f, (&pre.spec_value(),), post.spec_value())
        &&& post.spec_children().len() == pre.spec_children().len()
        &&& forall|i: int|
            0 <= i < post.spec_children().len() ==> Self::mapped(
                f,
                pre.spec_children()[i],
                #[trigger] post.spec_children()[i],
            )
    }

    #[via_fn]
    proof fn mapped_decreases<F: Fn(&T) -> T>(f: F, pre: Node<T>, post: Node<T>) {
        assert forall|i: int|
            0 <= i < post.spec_children().len() implies decreases_to!(
            post => post.spec_children()[i]) by {
            assert(decreases_to!(post => post.children));
            assert(decreases_to!(post.children => post.children[i]));
        }
    }

    /// What one [`Self::mapped`] step says, spelled out: the root's value
    /// went through the visitor, and each child subtree was mapped in turn.
    pub proof fn lemma_mapped_unfold<F: Fn(&T) -> T>(f: F, pre: Node<T>, post: Node<T>)
        requires
            Self::mapped(f, pre, post),
        ensures
            call_ensures(f, (&pre.spec_value(),), post.spec_value()),
            post.spec_children().len() == pre.spec_children().len(),
            forall|i: int|
                0 <= i < post.spec_children().len() ==> Self::mapped(
                    f,
                    pre.spec_children()[i],
                    #[trigger] post.spec_children()[i],
                ),
    {
    }

    /// Pre-order mutating traversal: rewrites the value of this node first,
    /// then the values of each child's subtree, left to right, replacing
    /// each value `v` by `f(&v)` in place. The visitor is a pure value
    /// transformer, so the tree keeps its exact shape and the traversal's
    /// whole effect is pinned by [`Self::mapped`]; every node is rewritten
    /// exactly once.
    pub fn traverse_mut<F: Fn(&T) -> T>(&mut self, f: F)
        requires
            forall|v: &T| #[trigger] call_requires(f, (v,)),
        ensures
            Self::mapped(f, *old(self), *final(self)),
    {
        self.traverse_mut_rec(&f)
    }

    /// Recursive worker for [`Self::traverse_mut`], sharing one visitor
    /// borrow.
    fn traverse_mut_rec<F: Fn(&T) -> T>(&mut self, f: &F)
        requires
            forall|v: &T| #[trigger] call_requires(*f, (v,)),
        ensures
            Self::mapped(*f, *old(self), *final(self)),
        decreases *old(self),
    {
        let new_value = f(&self.value);
        self.value = new_value;
        let n = self.children.len();
        let mut i: usize = 0;
        while i < n
            invariant
                forall|v: &T| #[trigger] call_requires(*f, (v,)),
                0 <= i <= n,
                n == self.spec_children().len(),
                n == old(self).spec_children().len(),
                call_ensures(*f, (&old(self).spec_value(),), self.spec_value()),
                forall|j: int|
                    0 <= j < i ==> Self::mapped(
                        *f,
                        old(self).spec_children()[j],
                        #[trigger] self.spec_children()[j],
                    ),
                forall|j: int|
                    i <= j < n ==> self.spec_children()[j] == old(self).spec_children()[j],
            decreases n - i,
        {
            proof {
                assert(decreases_to!(*old(self) => old(self).children));
                assert(decreases_to!(old(self).children => old(self).children[i as int]));
            }
            let child_opt = self.get_mut(i);
            match child_opt {
                Some(child) => {
                    child.traverse_mut_rec(f);
                },
                None => {},
            }
            i = i + 1;
        }
    }

    /// Borrows the payload for reading.
    pub fn value(&self) -> (v: &T)
        ensures
            *v == self.spec_value(),
    {
        &self.value
    }

    /// Borrows the payload for writing: a change through the returned
    /// reference is the new payload of this node, and the children are
    /// untouched.
    pub fn value_mut(&mut self) -> (v: &mut T)
        ensures
            *v == old(self).spec_value(),
            final(self).spec_value() == *final(v),
            final(self).spec_children() == old(self).spec_children(),
    {
        &mut self.value
    }

    /// Iterates over the direct children only, in order, by shared borrow.
    /// It does not recurse: whole-tree visits are the job of
    /// [`Self::traverse`] and [`Self::traverse_mut`].
    pub fn children(&self) -> (it: Iter<'_, Node<T>>)
        ensures
            it.remaining() == self.spec_children().as_ref(),
    {
        self.children.iter()
    }

    /// Iterates over the direct children only, in order, by exclusive
    /// borrow. What a caller writes through the borrows is not tracked:
    /// afterwards only the number of children is known to be unchanged, and
    /// this node's own value.
    pub fn children_mut(&mut self) -> (it: IterMut<'_, Node<T>>)
        ensures
            final(self).spec_value() == old(self).spec_value(),
            final(self).spec_children().len() == old(self).spec_children().len(),
    {
        deque_iter_mut(&mut self.children)
    }
}

impl<T: Clone> Clone for Node<T> {
    /// Clones the whole subtree, value and children alike, child by child.
    fn clone(&self) -> (res: Self)
        decreases self,
    {
        let mut children: VecDeque<Node<T>> = VecDeque::new();
        let n = self.children.len();
        let mut i: usize = 0;
        while i < n
            invariant
                0 <= i <= n,
                n == self.spec_children().len(),
            decreases n - i,
        {
            let c = &self.children[i];
            proof {
                assert(decreases_to!(self => self.children));
                assert(decreases_to!(self.children => self.children[i as int]));
            }
            children.push_back(c.clone());
            i = i + 1;
        }
        Node { value: self.value.clone(), children }
    }
}

} // verus!
