//! A binary search tree of particle indices.
use vstd::prelude::*;

verus! {

/// A tree rooted at `val`, with subtrees of `Node`s.
#[derive(Debug)]
pub struct OctTree {
    pub val: usize,
    pub l: Option<Box<Node>>,
    pub r: Option<Box<Node>>,
}

/// A node of a binary search tree: smaller values to the left, larger ones
/// to the right.
#[derive(Debug)]
pub struct Node {
    pub val: usize,
    pub l: Option<Box<Node>>,
    pub r: Option<Box<Node>>,
}

impl Node {
    /// The values in an optional subtree.
    pub open spec fn subtree_values(t: Option<Box<Node>>) -> Set<usize>
        decreases t,
    {
        match t {
            None => Set::empty(),
            Some(n) => n.values(),
        }
    }

    /// The values in the tree rooted here.
    pub open spec fn values(self) -> Set<usize>
        decreases self,
    {
        Node::subtree_values(self.l).union(Node::subtree_values(self.r)).insert(self.val)
    }

    /// Every left subtree holds smaller values and every right one larger.
    pub open spec fn well_formed(self) -> bool
        decreases self,
    {
        &&& forall|v: usize| #[trigger] Node::subtree_values(self.l).contains(v) ==> v < self.val
        &&& forall|v: usize| #[trigger] Node::subtree_values(self.r).contains(v) ==> v > self.val
        &&& match self.l {
            Some(n) => n.well_formed(),
            None => true,
        }
        &&& match self.r {
            Some(n) => n.well_formed(),
            None => true,
        }
    }

    /// The optional subtree is a search tree.
    pub open spec fn subtree_well_formed(t: Option<Box<Node>>) -> bool {
        match t {
            Some(n) => n.well_formed(),
            None => true,
        }
    }

    fn insert_into(t: &mut Option<Box<Node>>, new_val: usize)
        requires
            Node::subtree_well_formed(*old(t)),
        ensures
            Node::subtree_well_formed(*final(t)),
            Node::subtree_values(*final(t)) == Node::subtree_values(*old(t)).insert(new_val),
        decreases *old(t),
    {
        match t.take() {
            None => {
                let leaf = Node { val: new_val, l: None, r: None };
                assert(Node::subtree_values(leaf.l) =~= Set::empty());
                assert(leaf.values() =~= Set::empty().insert(new_val));
                *t = Some(Box::new(leaf));
            },
            Some(mut node) => {
                node.insert(new_val);
                *t = Some(node);
            },
        }
    }

    /// Adds `new_val` to the tree; a value already there is left as it is.
    /// The root keeps its value.
    pub fn insert(&mut self, new_val: usize)
        requires
            old(self).well_formed(),
        ensures
            final(self).well_formed(),
            final(self).values() == old(self).values().insert(new_val),
            final(self).val == old(self).val,
        decreases *old(self),
    {
        if self.val == new_val {
            assert(self.values() =~= self.values().insert(new_val));
            return;
        }
        if new_val < self.val {
            Node::insert_into(&mut self.l, new_val);
        } else {
            Node::insert_into(&mut self.r, new_val);
        }
        assert(self.values() =~= old(self).values().insert(new_val));
    }
}

} // verus!
