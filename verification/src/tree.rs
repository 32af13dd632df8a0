//! The tree structure, its abstract model, and the `insert` and `search`
//! operations.

use vstd::prelude::*;

verus! {

/// One node of the tree: a value together with two optional child slots,
/// each exclusively owned by the node.
pub struct TreeNode {
    pub value: i64,
    pub left: Option<Box<TreeNode>>,
    pub right: Option<Box<TreeNode>>,
}

/// The tree itself: an optional root node, exclusively owned.
pub struct BinarySearchTree {
    pub root: Option<Box<TreeNode>>,
}

/// The set of values stored in an optional subtree.
pub open spec fn subtree_values(n: Option<Box<TreeNode>>) -> Set<i64>
    decreases n,
{
    match n {
        None => Set::empty(),
        Some(node) => node.values(),
    }
}

/// The strict ordering invariant of an optional subtree.
pub open spec fn subtree_ordered(n: Option<Box<TreeNode>>) -> bool
    decreases n,
{
    match n {
        None => true,
        Some(node) => node.ordered(),
    }
}

/// The in-order traversal of an optional subtree: left subtree first, then
/// the node's own value, then the right subtree.
pub open spec fn subtree_in_order(n: Option<Box<TreeNode>>) -> Seq<i64>
    decreases n,
{
    match n {
        None => Seq::empty(),
        Some(node) => subtree_in_order(node.left) + seq![node.value] + subtree_in_order(
            node.right,
        ),
    }
}

/// The subtree that inserting `value` builds, node for node: an empty slot
/// gets a fresh leaf; otherwise the insert descends by comparison, leaving
/// every node on the way in place.
pub open spec fn subtree_insert(n: Option<Box<TreeNode>>, value: i64) -> Option<Box<TreeNode>>
    decreases n,
{
    match n {
        None => Some(Box::new(TreeNode { value, left: None, right: None })),
        Some(node) => Some(Box::new(node.with_inserted(value))),
    }
}

/// The number of nodes in an optional subtree.
pub open spec fn subtree_size(n: Option<Box<TreeNode>>) -> nat
    decreases n,
{
    match n {
        None => 0,
        Some(node) => node.size(),
    }
}

impl TreeNode {
    /// The set of values stored in the subtree rooted at this node.
    pub open spec fn values(self) -> Set<i64>
        decreases self,
    {
        subtree_values(self.left).union(subtree_values(self.right)).insert(self.value)
    }

    /// Strict ordering: everything to the left is smaller, everything to the
    /// right is larger, recursively.  This also rules out duplicates.
    pub open spec fn ordered(self) -> bool
        decreases self,
    {
        &&& (forall|v: i64| subtree_values(self.left).contains(v) ==> v < self.value)
        &&& (forall|v: i64| subtree_values(self.right).contains(v) ==> v > self.value)
        &&& subtree_ordered(self.left)
        &&& subtree_ordered(self.right)
    }

    /// The number of nodes in the subtree rooted at this node.
    pub open spec fn size(self) -> nat
        decreases self,
    {
        1 + subtree_size(self.left) + subtree_size(self.right)
    }

    /// This node after inserting `value` below it: the value goes into the
    /// left or right subtree by comparison, and a value equal to this node's
    /// own changes nothing.
    pub open spec fn with_inserted(self, value: i64) -> TreeNode
        decreases self,
    {
        if value < self.value {
            TreeNode {
                value: self.value,
                left: subtree_insert(self.left, value),
                right: self.right,
            }
        } else if value > self.value {
            TreeNode {
                value: self.value,
                left: self.left,
                right: subtree_insert(self.right, value),
            }
        } else {
            self
        }
    }

    /// A fresh leaf holding `value`.
    pub fn new(value: i64) -> (node: Self)
        ensures
            node.ordered(),
            node.values() =~= set![value],
            node.size() == 1,
            node.value == value,
            node.left is None,
            node.right is None,
    {
        TreeNode { value, left: None, right: None }
    }

    /// Insert `value` into the subtree rooted at this node, keeping the
    /// ordering invariant.  The node's own value is never changed; a
    /// duplicate leaves the whole subtree untouched.
    pub fn insert(&mut self, value: i64)
        requires
            old(self).ordered(),
        ensures
            final(self).ordered(),
            final(self).values() =~= old(self).values().insert(value),
            old(self).values().contains(value) ==> *final(self) == *old(self),
            final(self).size() == if old(self).values().contains(value) {
                old(self).size()
            } else {
                old(self).size() + 1
            },
            final(self).value == old(self).value,
            *final(self) == old(self).with_inserted(value),
        decreases *old(self),
    {
        if value < self.value {
            proof {
                assert(!subtree_values(self.right).contains(value));
            }
            insert_into_slot(&mut self.left, value);
        } else if value > self.value {
            proof {
                assert(!subtree_values(self.left).contains(value));
            }
            insert_into_slot(&mut self.right, value);
        } else {
            // Equal: the value is already here; nothing to do.
        }
    }
}

/// Insert `value` into an optional child (or root) slot: fill an empty slot
/// with a fresh leaf, or descend into the node that is there.
fn insert_into_slot(slot: &mut Option<Box<TreeNode>>, value: i64)
    requires
        subtree_ordered(*old(slot)),
    ensures
        subtree_ordered(*final(slot)),
        subtree_values(*final(slot)) =~= subtree_values(*old(slot)).insert(value),
        subtree_values(*old(slot)).contains(value) ==> *final(slot) == *old(slot),
        subtree_size(*final(slot)) == if subtree_values(*old(slot)).contains(value) {
            subtree_size(*old(slot))
        } else {
            subtree_size(*old(slot)) + 1
        },
        *final(slot) == subtree_insert(*old(slot), value),
    decreases *old(slot),
{
    match slot.take() {
        None => {
            *slot = Some(Box::new(TreeNode::new(value)));
        },
        Some(mut node) => {
            (&mut *node).insert(value);
            *slot = Some(node);
        },
    }
}

impl View for BinarySearchTree {
    type V = Set<i64>;

    open spec fn view(&self) -> Set<i64> {
        subtree_values(self.root)
    }
}

impl BinarySearchTree {
    /// The ordering invariant of the whole tree.  `new` establishes it and
    /// `insert` preserves it; `search` relies on it.
    pub open spec fn ordered(self) -> bool {
        subtree_ordered(self.root)
    }

    /// The number of nodes in the tree.
    pub open spec fn size(self) -> nat {
        subtree_size(self.root)
    }

    /// The in-order traversal of the tree.
    pub open spec fn in_order(self) -> Seq<i64> {
        subtree_in_order(self.root)
    }

    /// An empty tree, holding no values.
    pub fn new() -> (tree: Self)
        ensures
            tree.ordered(),
            tree@ =~= Set::<i64>::empty(),
            tree.size() == 0,
            tree.root is None,
    {
        BinarySearchTree { root: None }
    }

    /// Insert `value`, keeping the ordering invariant.  A value already
    /// present is suppressed silently: the tree is left exactly as it was.
    /// A new value adds exactly one node.
    pub fn insert(&mut self, value: i64)
        requires
            old(self).ordered(),
        ensures
            final(self).ordered(),
            final(self)@ =~= old(self)@.insert(value),
            old(self)@.contains(value) ==> *final(self) == *old(self),
            final(self).size() == if old(self)@.contains(value) {
                old(self).size()
            } else {
                old(self).size() + 1
            },
            final(self).root == subtree_insert(old(self).root, value),
    {
        insert_into_slot(&mut self.root, value);
    }

    /// Membership test: true exactly when `value` was inserted earlier.
    pub fn search(&self, value: i64) -> (found: bool)
        requires
            self.ordered(),
        ensures
            found == self@.contains(value),
    {
        search_subtree(&self.root, value)
    }
}

/// Recursive descent for `search`: compare, then go left or right; an empty
/// slot means the value is absent.
fn search_subtree(n: &Option<Box<TreeNode>>, value: i64) -> (found: bool)
    requires
        subtree_ordered(*n),
    ensures
        found == subtree_values(*n).contains(value),
    decreases *n,
{
    match n {
        None => false,
        Some(node) => {
            if value == node.value {
                true
            } else if value < node.value {
                proof {
                    assert(!subtree_values(node.right).contains(value));
                }
                search_subtree(&node.left, value)
            } else {
                proof {
                    assert(!subtree_values(node.left).contains(value));
                }
                search_subtree(&node.right, value)
            }
        },
    }
}

} // verus!
