//! An index-based tree: nodes live in one vector and refer to their children by index.
use vstd::prelude::*;

verus! {

/// A node of a [`Tree`]: its payload and the indices of its children.
pub struct Node<T> {
    children: Vec<usize>,
    pub data: T,
}

impl<T> Node<T> {
    /// This node's payload: its `data` field.
    pub closed spec fn payload(&self) -> T {
        self.data
    }

    /// The indices of this node's children, in the order they were added.
    pub closed spec fn child_indices(&self) -> Seq<usize> {
        self.children@
    }

    /// A node holding `data` and no children.
    pub fn new(data: T) -> (node: Self)
        ensures
            node.payload() == data,
            node.child_indices() == Seq::<usize>::empty(),
    {
        Self { children: Vec::new(), data: data }
    }

    /// Appends `child` to this node's children.
    pub fn add_child(&mut self, child: usize)
        ensures
            final(self).payload() == old(self).payload(),
            final(self).child_indices() == old(self).child_indices().push(child),
    {
        self.children.push(child);
    }

    /// The indices of this node's children.
    pub fn get_children(&self) -> (children: &Vec<usize>)
        ensures
            children@ == self.child_indices(),
    {
        &self.children
    }
}

/// A tree stored as a flat vector of nodes; a node's index is its identity.
pub struct Tree<T> {
    pub nodes: Vec<Node<T>>,
}

impl<T> Tree<T> {
    /// Every child index points forward to a node that exists: children come after their
    /// parents, so following children always ends.
    pub open spec fn children_point_forward(&self) -> bool {
        forall|i: int, k: int|
            0 <= i < self.nodes@.len() && 0 <= k < self.nodes@[i].child_indices().len() ==> {
                let c = #[trigger] self.nodes@[i].child_indices()[k];
                i < c && c < self.nodes@.len()
            }
    }

    /// Every index is the child of at most one node, and stands once in that node's list.
    pub open spec fn one_parent_each(&self) -> bool {
        forall|i: int, k: int, j: int, l: int|
            0 <= i < self.nodes@.len() && 0 <= k < self.nodes@[i].child_indices().len() && 0 <= j
                < self.nodes@.len() && 0 <= l < self.nodes@[j].child_indices().len()
                && #[trigger] self.nodes@[i].child_indices()[k]
                == #[trigger] self.nodes@[j].child_indices()[l] ==> i == j && k == l
    }

    /// The tree's shape is sound: children point forward, and no index has two places as a
    /// child.
    pub open spec fn well_formed(&self) -> bool {
        self.children_point_forward() && self.one_parent_each()
    }

    /// An empty tree.
    pub fn new() -> (tree: Self)
        ensures
            tree.nodes@.len() == 0,
            tree.well_formed(),
    {
        Self { nodes: Vec::new() }
    }

    /// The node at `index`, if there is one.
    pub fn get(&self, index: usize) -> (node: Option<&Node<T>>)
        ensures
            index < self.nodes@.len() ==> node == Some(&self.nodes@[index as int]),
            index >= self.nodes@.len() ==> node is None,
    {
        if index < self.nodes.len() {
            Some(&self.nodes[index])
        } else {
            None
        }
    }

    /// The node at `index`, mutably, if there is one.
    pub fn get_mut(&mut self, index: usize) -> (node: Option<&mut Node<T>>)
        ensures
            index < old(self).nodes@.len() ==> (node matches Some(n) && *n == old(self).nodes@[index as int]
                && final(self).nodes@ == old(self).nodes@.update(index as int, *final(n))),
            index >= old(self).nodes@.len() ==> node is None && final(self).nodes@ == old(self).nodes@,
    {
        if index < self.nodes.len() {
            Some(&mut self.nodes[index])
        } else {
            None
        }
    }

    /// Adds a node without a parent; returns its index, which is the old number of nodes.
    pub fn insert_root(&mut self, data: T) -> (index: usize)
        requires
            old(self).nodes@.len() < usize::MAX,
        ensures
            index == old(self).nodes@.len(),
            final(self).nodes@.len() == old(self).nodes@.len() + 1,
            final(self).nodes@.take(index as int) == old(self).nodes@,
            final(self).nodes@[index as int].payload() == data,
            final(self).nodes@[index as int].child_indices() == Seq::<usize>::empty(),
            old(self).well_formed() ==> final(self).well_formed(),
    {
        let next_idx = self.nodes.len();
        self.nodes.push(Node::new(data));
        proof {
            assert(self.nodes@.take(next_idx as int) =~= old(self).nodes@);
        }
        next_idx
    }

    /// Adds a node as the last child of `parent_index`; returns its index, which is the old
    /// number of nodes.
    pub fn insert(&mut self, data: T, parent_index: usize) -> (index: usize)
        requires
            parent_index < old(self).nodes@.len(),
            old(self).nodes@.len() < usize::MAX,
        ensures
            index == old(self).nodes@.len(),
            final(self).nodes@.len() == old(self).nodes@.len() + 1,
            final(self).nodes@[index as int].payload() == data,
            final(self).nodes@[index as int].child_indices() == Seq::<usize>::empty(),
            final(self).nodes@[parent_index as int].payload() == old(self).nodes@[parent_index as int].payload(),
            final(self).nodes@[parent_index as int].child_indices()
                == old(self).nodes@[parent_index as int].child_indices().push(index),
            forall|i: int|
                0 <= i < old(self).nodes@.len() && i != parent_index ==> final(self).nodes@[i]
                    == old(self).nodes@[i],
            old(self).well_formed() ==> final(self).well_formed(),
    {
        let next_idx = self.nodes.len();
        let ghost before = self.nodes@;
        match self.get_mut(parent_index) {
            Some(parent) => parent.add_child(next_idx),
            None => {},
        }
        self.nodes.push(Node::new(data));
        proof {
            if old(self).well_formed() {
                let p = parent_index as int;
                let n = before[p].child_indices().len();
                assert forall|i: int| 0 <= i < before.len() && i != p implies self.nodes@[i]
                    == before[i] by {}
                assert forall|i: int, k: int|
                    0 <= i < self.nodes@.len() && 0 <= k
                        < self.nodes@[i].child_indices().len() implies {
                    let c = #[trigger] self.nodes@[i].child_indices()[k];
                    i < c && c < self.nodes@.len()
                } by {
                    if i != p && i < before.len() {
                        assert(self.nodes@[i] == before[i]);
                    } else if i == p && k < n {
                        assert(self.nodes@[i].child_indices()[k] == before[p].child_indices()[k]);
                    }
                }
                assert forall|i: int, k: int, j: int, l: int|
                    0 <= i < self.nodes@.len() && 0 <= k < self.nodes@[i].child_indices().len()
                        && 0 <= j < self.nodes@.len() && 0 <= l
                        < self.nodes@[j].child_indices().len()
                        && #[trigger] self.nodes@[i].child_indices()[k]
                        == #[trigger] self.nodes@[j].child_indices()[l] implies i == j && k == l by {
                    let new_i = i == p && k == n;
                    let new_j = j == p && l == n;
                    if i < before.len() && !new_i {
                        assert(self.nodes@[i].child_indices()[k] == before[i].child_indices()[k]);
                    }
                    if j < before.len() && !new_j {
                        assert(self.nodes@[j].child_indices()[l] == before[j].child_indices()[l]);
                    }
                    if new_i && !new_j {
                        assert(before[j].child_indices()[l] < before.len());
                    } else if new_j && !new_i {
                        assert(before[i].child_indices()[k] < before.len());
                    }
                }
            }
        }
        next_idx
    }
}

/// A node made by `Node::new` and then given children `added[0]`, `added[1]`, ... by
/// `add_child`, one call after another, has exactly those children in that order, and its
/// payload unchanged. `nodes[i]` is the node after the first `i` calls.
pub proof fn children_are_those_added<T>(nodes: Seq<Node<T>>, added: Seq<usize>)
    requires
        nodes.len() == added.len() + 1,
        nodes[0].child_indices() == Seq::<usize>::empty(),
        forall|i: int|
            0 <= i < added.len() ==> #[trigger] nodes[i + 1].child_indices() == nodes[i].child_indices().push(
                added[i],
            ) && nodes[i + 1].payload() == nodes[i].payload(),
    ensures
        nodes.last().child_indices() == added,
        nodes.last().payload() == nodes[0].payload(),
    decreases added.len(),
{
    if added.len() > 0 {
        let m = added.len() - 1;
        children_are_those_added(nodes.take(m + 1), added.take(m));
        assert(nodes.take(m + 1).last() == nodes[m]);
        assert(nodes[m + 1].child_indices() == nodes[m].child_indices().push(added[m]));
        assert(added.take(m).push(added[m]) =~= added);
    }
}

/// The indices that `Tree::insert_root` and `Tree::insert` hand out, call after call on a
/// tree made by `Tree::new`, are 0, 1, 2, ... in call order. `trees[i]` is the tree after
/// the first `i` calls and `indices[i]` what call `i` returned.
pub proof fn inserted_indices_count_up<T>(trees: Seq<Tree<T>>, indices: Seq<usize>)
    requires
        trees.len() == indices.len() + 1,
        trees[0].nodes@.len() == 0,
        forall|i: int|
            0 <= i < indices.len() ==> #[trigger] indices[i] == trees[i].nodes@.len()
                && trees[i + 1].nodes@.len() == trees[i].nodes@.len() + 1,
    ensures
        forall|i: int| 0 <= i < indices.len() ==> #[trigger] indices[i] == i,
        trees.last().nodes@.len() == indices.len(),
    decreases indices.len(),
{
    if indices.len() > 0 {
        let m = indices.len() - 1;
        inserted_indices_count_up(trees.take(m + 1), indices.take(m));
        assert(indices[m] == trees[m].nodes@.len());
        assert forall|i: int| 0 <= i < indices.len() implies #[trigger] indices[i] == i by {
            if i < m {
                assert(indices.take(m)[i] == indices[i]);
            }
        }
    }
}

} // verus!
