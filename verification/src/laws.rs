//! Tree-wide laws: what holds after any sequence of inserts.

use vstd::prelude::*;

use crate::tree::BinarySearchTree;
use crate::tree::TreeNode;
use crate::tree::subtree_in_order;
use crate::tree::subtree_insert;
use crate::tree::subtree_ordered;
use crate::tree::subtree_size;
use crate::tree::subtree_values;

verus! {

/// Each element of `s` is smaller than every later one: the sequence rises
/// strictly, so it holds no value twice.
pub open spec fn strictly_increasing(s: Seq<i64>) -> bool {
    forall|i: int, j: int| 0 <= i < j < s.len() ==> s[i] < s[j]
}

/// The set of values present after inserting the elements of `s`, in order,
/// into an empty tree.  By the contract of `BinarySearchTree::insert`, a tree
/// built that way has exactly this view.
pub open spec fn values_after_inserts(s: Seq<i64>) -> Set<i64>
    decreases s.len(),
{
    if s.len() == 0 {
        Set::empty()
    } else {
        values_after_inserts(s.drop_last()).insert(s.last())
    }
}

/// Membership correctness: after any sequence of inserts into an empty tree,
/// exactly the inserted values are present — every inserted value is found
/// and no other value is.
pub proof fn lemma_membership_after_inserts(s: Seq<i64>, v: i64)
    ensures
        values_after_inserts(s).contains(v) <==> s.contains(v),
    decreases s.len(),
{
    if s.len() == 0 {
        assert(!s.contains(v));
    } else {
        lemma_membership_after_inserts(s.drop_last(), v);
        if s.contains(v) {
            let i = choose|i: int| 0 <= i < s.len() && s[i] == v;
            if i < s.len() - 1 {
                assert(s.drop_last()[i] == v);
                assert(s.drop_last().contains(v));
            }
        }
        if s.drop_last().contains(v) {
            let i = choose|i: int| 0 <= i < s.drop_last().len() && s.drop_last()[i] == v;
            assert(s[i] == v);
        }
        if s.last() == v {
            assert(s[s.len() - 1] == v);
        }
    }
}

/// Induction step for the traversal law, on an optional subtree.
proof fn lemma_subtree_in_order(n: Option<Box<TreeNode>>)
    requires
        subtree_ordered(n),
    ensures
        strictly_increasing(subtree_in_order(n)),
        forall|v: i64| subtree_in_order(n).contains(v) <==> subtree_values(n).contains(v),
        subtree_in_order(n).len() == subtree_size(n),
    decreases n,
{
    broadcast use vstd::seq_lib::group_seq_properties;

    match n {
        None => {},
        Some(node) => {
            lemma_subtree_in_order(node.left);
            lemma_subtree_in_order(node.right);
            let l = subtree_in_order(node.left);
            let r = subtree_in_order(node.right);
            let m = seq![node.value];
            let s = subtree_in_order(n);
            let li = l.len() as int;
            assert(s == l + m + r);
            assert forall|v: i64| m.contains(v) implies v == node.value by {
                let k = choose|k: int| 0 <= k < m.len() && m[k] == v;
            };
            assert(m.contains(node.value)) by {
                assert(m[0] == node.value);
            };

            // How each position of the concatenation reads.
            assert forall|k: int| 0 <= k <= li implies s[k] == (l + m)[k] by {};
            assert((l + m)[li] == node.value);

            // Everything on the left is below the node's value, everything on
            // the right above it.
            assert forall|k: int| 0 <= k < li implies l[k] < node.value by {
                assert(l.contains(l[k]));
            };
            assert forall|k: int| 0 <= k < r.len() implies r[k] > node.value by {
                assert(r.contains(r[k]));
            };

            assert forall|i: int, j: int| 0 <= i < j < s.len() implies s[i] < s[j] by {
                if j < li {
                    assert(s[i] == l[i] && s[j] == l[j]);
                } else if j == li {
                    assert(s[i] == l[i] && s[j] == node.value);
                } else if i < li {
                    assert(s[i] == l[i] && s[j] == r[j - li - 1]);
                } else if i == li {
                    assert(s[i] == node.value && s[j] == r[j - li - 1]);
                } else {
                    assert(s[i] == r[i - li - 1] && s[j] == r[j - li - 1]);
                }
            };
        },
    }
}

/// Traversal law: under the ordering invariant — which `new` establishes and
/// every insert preserves — the in-order traversal is a strictly increasing,
/// hence duplicate-free, sequence of exactly the stored values, one position
/// per node.
pub proof fn lemma_in_order_strictly_increasing(t: BinarySearchTree)
    requires
        t.ordered(),
    ensures
        strictly_increasing(t.in_order()),
        forall|v: i64| t.in_order().contains(v) <==> t@.contains(v),
        t.in_order().len() == t.size(),
{
    lemma_subtree_in_order(t.root);
}

/// What `subtree_insert` does to the model: it keeps the ordering invariant,
/// adds exactly the given value to the stored set, and leaves a subtree that
/// already holds the value untouched.
proof fn lemma_subtree_insert_facts(n: Option<Box<TreeNode>>, value: i64)
    requires
        subtree_ordered(n),
    ensures
        subtree_ordered(subtree_insert(n, value)),
        subtree_values(subtree_insert(n, value)) =~= subtree_values(n).insert(value),
        subtree_values(n).contains(value) ==> subtree_insert(n, value) == n,
    decreases n,
{
    match n {
        None => {},
        Some(node) => {
            if value < node.value {
                lemma_subtree_insert_facts(node.left, value);
                if subtree_values(n).contains(value) {
                    // The value cannot sit to the right of a larger node.
                    assert(!subtree_values(node.right).contains(value));
                    assert(subtree_values(node.left).contains(value));
                }
            } else if value > node.value {
                lemma_subtree_insert_facts(node.right, value);
                if subtree_values(n).contains(value) {
                    // The value cannot sit to the left of a smaller node.
                    assert(!subtree_values(node.left).contains(value));
                    assert(subtree_values(node.right).contains(value));
                }
            }
        },
    }
}

/// Idempotence law: inserting a value twice builds exactly the tree that
/// inserting it once builds — the duplicate changes no node and creates
/// none.
pub proof fn lemma_insert_idempotent(t: BinarySearchTree, value: i64)
    requires
        t.ordered(),
    ensures
        subtree_insert(subtree_insert(t.root, value), value) == subtree_insert(t.root, value),
{
    lemma_subtree_insert_facts(t.root, value);
    lemma_subtree_insert_facts(subtree_insert(t.root, value), value);
}

/// A search on an empty tree finds nothing, whatever value is asked for.
pub proof fn lemma_empty_tree_contains_nothing(t: BinarySearchTree, v: i64)
    requires
        t@ == Set::<i64>::empty(),
    ensures
        !t@.contains(v),
{
}

} // verus!
