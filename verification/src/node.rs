//! Nodes, subtrees and the mathematical model the tree's contracts speak of.

use vstd::prelude::*;

verus! {

/// One key together with the two subtrees hanging below it.
#[derive(Debug)]
pub struct Node {
    pub value: i32,
    pub left_child: Option<Box<Node>>,
    pub right_child: Option<Box<Node>>,
}

/// The keys held anywhere in `link`.
pub open spec fn keys(link: Option<Box<Node>>) -> Set<i32>
    decreases link,
{
    match link {
        None => Set::empty(),
        Some(node) => keys(node.left_child).union(keys(node.right_child)).insert(node.value),
    }
}

/// The ordering invariant: below every node, smaller keys are on the left and
/// larger keys on the right, all the way down.
pub open spec fn ordered(link: Option<Box<Node>>) -> bool
    decreases link,
{
    match link {
        None => true,
        Some(node) => {
            &&& forall|k: i32| #[trigger] keys(node.left_child).contains(k) ==> k < node.value
            &&& forall|k: i32| #[trigger] keys(node.right_child).contains(k) ==> k > node.value
            &&& ordered(node.left_child)
            &&& ordered(node.right_child)
        },
    }
}

/// The keys of `link` from left to right.
pub open spec fn in_order(link: Option<Box<Node>>) -> Seq<i32>
    decreases link,
{
    match link {
        None => Seq::empty(),
        Some(node) => in_order(node.left_child).push(node.value) + in_order(node.right_child),
    }
}

/// Whether the search path for `key` (left on smaller, right on larger) ends
/// at a node that holds it.
pub open spec fn reaches(link: Option<Box<Node>>, key: i32) -> bool
    decreases link,
{
    match link {
        None => false,
        Some(node) => if key == node.value {
            true
        } else if key < node.value {
            reaches(node.left_child, key)
        } else {
            reaches(node.right_child, key)
        },
    }
}

/// The key found by following left children from `node` until there is none.
pub open spec fn leftmost(node: Node) -> i32
    decreases node,
{
    match node.left_child {
        None => node.value,
        Some(left) => leftmost(*left),
    }
}

/// The subtree that insertion of `key` leaves: the search path is followed to
/// the first empty slot and a leaf is hung there. Where the path meets `key`
/// itself, nothing changes.
pub open spec fn with_inserted(link: Option<Box<Node>>, key: i32) -> Option<Box<Node>>
    decreases link,
{
    match link {
        None => Some(Box::new(Node { value: key, left_child: None, right_child: None })),
        Some(node) => if key > node.value {
            Some(
                Box::new(
                    Node {
                        value: node.value,
                        left_child: node.left_child,
                        right_child: with_inserted(node.right_child, key),
                    },
                ),
            )
        } else if key < node.value {
            Some(
                Box::new(
                    Node {
                        value: node.value,
                        left_child: with_inserted(node.left_child, key),
                        right_child: node.right_child,
                    },
                ),
            )
        } else {
            link
        },
    }
}

/// The subtree that removal of `key` leaves. The search path is followed to
/// the node holding `key`. A node with at most one child gives its place to
/// that child. A node with two children stays, takes the leftmost key of its
/// right subtree, and that key is removed from the right subtree in turn.
/// Where the path ends without meeting `key`, nothing changes.
pub open spec fn with_removed(link: Option<Box<Node>>, key: i32) -> Option<Box<Node>>
    decreases link,
{
    match link {
        None => None,
        Some(node) => if key > node.value {
            Some(
                Box::new(
                    Node {
                        value: node.value,
                        left_child: node.left_child,
                        right_child: with_removed(node.right_child, key),
                    },
                ),
            )
        } else if key < node.value {
            Some(
                Box::new(
                    Node {
                        value: node.value,
                        left_child: with_removed(node.left_child, key),
                        right_child: node.right_child,
                    },
                ),
            )
        } else {
            match (node.left_child, node.right_child) {
                (None, None) => None,
                (None, Some(right)) => Some(right),
                (Some(left), None) => Some(left),
                (Some(left), Some(right)) => Some(
                    Box::new(
                        Node {
                            value: leftmost(*right),
                            left_child: Some(left),
                            right_child: with_removed(Some(right), leftmost(*right)),
                        },
                    ),
                ),
            }
        },
    }
}

impl Node {
    /// A leaf holding `value`.
    pub fn new(value: i32) -> (node: Node)
        ensures
            node.value == value,
            node.left_child is None,
            node.right_child is None,
    {
        Node { value, left_child: None, right_child: None }
    }
}

} // verus!
