//! What insertion and removal mean for the keys of a search tree, proved of
//! the shapes that the operations leave behind.

use vstd::prelude::*;
use crate::node::{
    Node,
    keys,
    ordered,
    in_order,
    reaches,
    leftmost,
    with_inserted,
    with_removed,
};

verus! {

/// In a search tree the search path for a key ends at that key exactly when
/// the tree holds it.
pub proof fn lemma_search_finds_held_keys(link: Option<Box<Node>>, key: i32)
    requires
        ordered(link),
    ensures
        reaches(link, key) <==> keys(link).contains(key),
    decreases link,
{
    if let Some(node) = link {
        lemma_search_finds_held_keys(node.left_child, key);
        lemma_search_finds_held_keys(node.right_child, key);
    }
}

/// Read from left to right, a search tree gives its keys in strictly
/// ascending order, so no key stands in it twice.
pub proof fn lemma_in_order_ascends(link: Option<Box<Node>>)
    requires
        ordered(link),
    ensures
        forall|i: int, j: int|
            0 <= i < j < in_order(link).len() ==> in_order(link)[i] < in_order(link)[j],
        forall|k: i32| in_order(link).contains(k) <==> keys(link).contains(k),
    decreases link,
{
    if let Some(node) = link {
        lemma_in_order_ascends(node.left_child);
        lemma_in_order_ascends(node.right_child);
        let left = in_order(node.left_child);
        let right = in_order(node.right_child);
        let all = in_order(link);
        assert(all =~= left.push(node.value) + right);
        assert forall|k: i32| all.contains(k) <==> keys(link).contains(k) by {
            if all.contains(k) {
                let i = choose|i: int| 0 <= i < all.len() && all[i] == k;
                if i < left.len() {
                    assert(left.contains(all[i]));
                } else if i > left.len() {
                    assert(right[i - left.len() - 1] == k);
                    assert(right.contains(k));
                }
            }
            if keys(link).contains(k) {
                if keys(node.left_child).contains(k) {
                    let i = choose|i: int| 0 <= i < left.len() && left[i] == k;
                    assert(all[i] == k);
                } else if keys(node.right_child).contains(k) {
                    let i = choose|i: int| 0 <= i < right.len() && right[i] == k;
                    assert(all[left.len() + 1 + i] == k);
                } else {
                    assert(all[left.len() as int] == k);
                }
            }
        }
        assert forall|i: int, j: int| 0 <= i < j < all.len() implies all[i] < all[j] by {
            if i < left.len() {
                assert(left.contains(all[i]));
            } else if i > left.len() {
                assert(right[i - left.len() - 1] == all[i]);
                assert(right.contains(all[i]));
            }
            if j < left.len() {
                assert(left.contains(all[j]));
            } else if j > left.len() {
                assert(right[j - left.len() - 1] == all[j]);
                assert(right.contains(all[j]));
            }
        }
    }
}

/// Insertion into a search tree leaves a search tree that holds the old keys
/// and the new one, and in which the search path for the new key ends at it.
/// A key that was there already leaves the tree as it was.
pub proof fn lemma_insert_adds_key(link: Option<Box<Node>>, key: i32)
    requires
        ordered(link),
    ensures
        ordered(with_inserted(link, key)),
        keys(with_inserted(link, key)) == keys(link).insert(key),
        reaches(with_inserted(link, key), key),
        keys(link).contains(key) ==> with_inserted(link, key) == link,
    decreases link,
{
    reveal_with_fuel(keys, 2);
    reveal_with_fuel(ordered, 2);
    reveal_with_fuel(reaches, 2);
    if let Some(node) = link {
        lemma_insert_adds_key(node.left_child, key);
        lemma_insert_adds_key(node.right_child, key);
        lemma_search_finds_held_keys(link, key);
    }
    assert(keys(with_inserted(link, key)) =~= keys(link).insert(key));
}

/// In a search tree the leftmost key is held by the tree and no key of the
/// tree is smaller.
pub proof fn lemma_leftmost_is_least(node: Node)
    requires
        ordered(Some(Box::new(node))),
    ensures
        keys(Some(Box::new(node))).contains(leftmost(node)),
        forall|k: i32| #[trigger] keys(Some(Box::new(node))).contains(k) ==> leftmost(node) <= k,
    decreases node,
{
    let here = Some(Box::new(node));
    match node.left_child {
        Some(left) => {
            lemma_leftmost_is_least(*left);
            assert(keys(node.left_child).contains(leftmost(*left)));
            assert forall|k: i32| #[trigger] keys(here).contains(k) implies leftmost(node) <= k by {
                if keys(node.left_child).contains(k) {
                } else if keys(node.right_child).contains(k) {
                }
            }
        },
        None => {
            assert(keys(node.left_child) =~= Set::empty());
            assert forall|k: i32| #[trigger] keys(here).contains(k) implies leftmost(node) <= k by {
                if keys(node.right_child).contains(k) {
                }
            }
        },
    }
}

/// Removal from a search tree leaves a search tree that holds every old key
/// but the removed one.
pub proof fn lemma_remove_drops_key(link: Option<Box<Node>>, key: i32)
    requires
        ordered(link),
    ensures
        ordered(with_removed(link, key)),
        keys(with_removed(link, key)) == keys(link).remove(key),
    decreases link,
{
    if let Some(node) = link {
        lemma_remove_drops_key(node.left_child, key);
        lemma_remove_drops_key(node.right_child, key);
        if key == node.value {
            if let Some(right) = node.right_child {
                lemma_leftmost_is_least(*right);
                lemma_remove_drops_key(node.right_child, leftmost(*right));
            }
        }
    }
    assert(keys(with_removed(link, key)) =~= keys(link).remove(key));
}

/// Removal of a key that the search path does not meet changes nothing.
pub proof fn lemma_remove_absent_is_identity(link: Option<Box<Node>>, key: i32)
    requires
        !reaches(link, key),
    ensures
        with_removed(link, key) == link,
    decreases link,
{
    if let Some(node) = link {
        if key > node.value {
            lemma_remove_absent_is_identity(node.right_child, key);
        } else if key < node.value {
            lemma_remove_absent_is_identity(node.left_child, key);
        }
    }
}

/// Removal of the key of a node with two children keeps the node and its left
/// subtree, and puts in the key's place the least key of the right subtree,
/// which leaves the right subtree.
pub proof fn lemma_remove_promotes_successor(node: Node)
    requires
        ordered(Some(Box::new(node))),
        node.left_child is Some,
        node.right_child is Some,
    ensures
        with_removed(Some(Box::new(node)), node.value) matches Some(kept) && {
            &&& keys(node.right_child).contains(kept.value)
            &&& forall|k: i32| #[trigger] keys(node.right_child).contains(k) ==> kept.value <= k
            &&& kept.left_child == node.left_child
            &&& kept.right_child == with_removed(node.right_child, kept.value)
            &&& keys(kept.right_child) == keys(node.right_child).remove(kept.value)
        },
{
    let right = node.right_child->0;
    lemma_leftmost_is_least(*right);
    lemma_remove_drops_key(node.right_child, leftmost(*right));
}

} // verus!
