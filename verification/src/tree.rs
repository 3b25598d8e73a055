//! The tree itself: construction, insertion and removal.

use vstd::prelude::*;
use crate::node::{Node, keys, ordered, reaches, leftmost, with_inserted, with_removed};
use vstd::string::StringExecFns;
use crate::text::{rendered, push_decimal};
use crate::laws::{
    lemma_search_finds_held_keys,
    lemma_insert_adds_key,
    lemma_remove_drops_key,
    lemma_remove_absent_is_identity,
};

verus! {

/// Why an operation on a tree was refused.
#[derive(Debug, Clone, Copy, PartialEq, Eq)]
pub enum TreeError {
    /// The key to insert is already in the tree.
    DuplicateInsertion,
}

/// A binary search tree: nothing, or a root node with all that hangs below it.
#[derive(Debug)]
pub struct Tree {
    pub root: Option<Box<Node>>,
}

impl View for Tree {
    type V = Set<i32>;

    /// A tree stands for the set of keys it holds.
    open spec fn view(&self) -> Set<i32> {
        keys(self.root)
    }
}

impl Tree {
    /// The ordering invariant, from the root down.
    pub open spec fn is_search_tree(&self) -> bool {
        ordered(self.root)
    }

    /// The empty tree.
    pub fn new() -> (tree: Tree)
        ensures
            tree.root is None,
            tree@ == Set::<i32>::empty(),
            tree.is_search_tree(),
    {
        Tree { root: None }
    }

    /// Inserts `value` as a new leaf where its search path ends. A value that
    /// the search path meets is refused as a duplicate and the tree stays as
    /// it was.
    pub fn insert(&mut self, value: i32) -> (res: Result<(), TreeError>)
        ensures
            res is Err <==> reaches(old(self).root, value),
            res is Err ==> *final(self) == *old(self),
            final(self).root == with_inserted(old(self).root, value),
            old(self).is_search_tree() ==> {
                &&& final(self).is_search_tree()
                &&& final(self)@ == old(self)@.insert(value)
                &&& reaches(final(self).root, value)
                &&& res is Err <==> old(self)@.contains(value)
            },
    {
        proof {
            if ordered(self.root) {
                lemma_insert_adds_key(self.root, value);
                lemma_search_finds_held_keys(self.root, value);
            }
        }
        match &mut self.root {
            None => {
                self.root = Some(Box::new(Node::new(value)));
                Ok(())
            },
            Some(node) => Tree::insert_recursive(node, value),
        }
    }

    /// Removes `value` and says whether it was there to remove. A value that
    /// the search path does not meet leaves the tree as it was.
    pub fn remove(&mut self, value: i32) -> (removed: bool)
        ensures
            removed == reaches(old(self).root, value),
            !removed ==> *final(self) == *old(self),
            final(self).root == with_removed(old(self).root, value),
            old(self).is_search_tree() ==> {
                &&& final(self).is_search_tree()
                &&& final(self)@ == old(self)@.remove(value)
                &&& removed == old(self)@.contains(value)
            },
    {
        proof {
            if ordered(self.root) {
                lemma_remove_drops_key(self.root, value);
                lemma_search_finds_held_keys(self.root, value);
            }
            if !reaches(self.root, value) {
                lemma_remove_absent_is_identity(self.root, value);
            }
        }
        match self.root.take() {
            None => false,
            Some(node) => {
                let (rest, found) = Tree::remove_recursive(node, value);
                self.root = rest;
                found
            },
        }
    }

    /// Hangs `value` as a new leaf below `node`, where the search path for it
    /// ends. Refuses, and changes nothing, where the path meets `value`.
    pub fn insert_recursive(node: &mut Box<Node>, value: i32) -> (res: Result<(), TreeError>)
        ensures
            res is Err <==> reaches(Some(*old(node)), value),
            res is Err ==> *final(node) == *old(node),
            Some(*final(node)) == with_inserted(Some(*old(node)), value),
            ordered(Some(*old(node))) ==> {
                &&& ordered(Some(*final(node)))
                &&& keys(Some(*final(node))) == keys(Some(*old(node))).insert(value)
                &&& res is Err <==> keys(Some(*old(node))).contains(value)
            },
        decreases *old(node),
    {
        proof {
            if ordered(Some(*node)) {
                lemma_insert_adds_key(Some(*node), value);
                lemma_search_finds_held_keys(Some(*node), value);
            }
            reveal_with_fuel(with_inserted, 2);
            reveal_with_fuel(reaches, 2);
        }
        if value > node.value {
            match &mut node.right_child {
                None => {
                    node.right_child = Some(Box::new(Node::new(value)));
                    Ok(())
                },
                Some(child) => Tree::insert_recursive(child, value),
            }
        } else if value < node.value {
            match &mut node.left_child {
                None => {
                    node.left_child = Some(Box::new(Node::new(value)));
                    Ok(())
                },
                Some(child) => Tree::insert_recursive(child, value),
            }
        } else {
            Err(TreeError::DuplicateInsertion)
        }
    }

    /// Removes `value` from the subtree rooted at `node` and hands back what is
    /// left of it, together with whether `value` was met on the search path.
    pub fn remove_recursive(node: Box<Node>, value: i32) -> (out: (Option<Box<Node>>, bool))
        ensures
            out.0 == with_removed(Some(node), value),
            out.1 == reaches(Some(node), value),
            !out.1 ==> out.0 == Some(node),
            ordered(Some(node)) ==> {
                &&& ordered(out.0)
                &&& keys(out.0) == keys(Some(node)).remove(value)
                &&& out.1 == keys(Some(node)).contains(value)
            },
        decreases node,
    {
        proof {
            if ordered(Some(node)) {
                lemma_remove_drops_key(Some(node), value);
                lemma_search_finds_held_keys(Some(node), value);
            }
            if !reaches(Some(node), value) {
                lemma_remove_absent_is_identity(Some(node), value);
            }
            reveal_with_fuel(with_removed, 2);
            reveal_with_fuel(reaches, 2);
        }
        let mut node = node;
        if value > node.value {
            match node.right_child.take() {
                None => (Some(node), false),
                Some(child) => {
                    let (rest, found) = Tree::remove_recursive(child, value);
                    node.right_child = rest;
                    (Some(node), found)
                },
            }
        } else if value < node.value {
            match node.left_child.take() {
                None => (Some(node), false),
                Some(child) => {
                    let (rest, found) = Tree::remove_recursive(child, value);
                    node.left_child = rest;
                    (Some(node), found)
                },
            }
        } else {
            match (node.left_child.take(), node.right_child.take()) {
                (None, None) => (None, true),
                (None, Some(right)) => (Some(right), true),
                (Some(left), None) => (Some(left), true),
                (Some(left), Some(right)) => {
                    let successor = Tree::successor_of(&right);
                    let (rest, _) = Tree::remove_recursive(right, successor);
                    node.value = successor;
                    node.left_child = Some(left);
                    node.right_child = rest;
                    (Some(node), true)
                },
            }
        }
    }

    /// The text form of the tree: one line per node, the root first and
    /// without margin, below each node its right subtree and then its left,
    /// two spaces further in.
    pub fn print_tree(&self) -> (text: String)
        ensures
            text@ == rendered(self.root, Seq::empty()),
    {
        proof {
            reveal_strlit("");
        }
        let mut text = String::new();
        Tree::print_tree_recursive(&self.root, "", &mut text);
        assert(text@ =~= rendered(self.root, Seq::empty()));
        text
    }

    /// Appends the text form of `node` to `out`, every line behind `margin`.
    pub fn print_tree_recursive(node: &Option<Box<Node>>, margin: &str, out: &mut String)
        ensures
            final(out)@ == old(out)@ + rendered(*node, margin@),
        decreases node,
    {
        match node {
            None => {
                assert(out@ =~= old(out)@ + rendered(*node, margin@));
            },
            Some(inner) => {
                proof {
                    reveal_strlit("\n");
                    reveal_strlit("  ");
                }
                out.append(margin);
                push_decimal(out, inner.value);
                out.append("\n");
                let mut deeper = String::from_str(margin);
                deeper.append("  ");
                assert(deeper@ =~= margin@ + seq![' ', ' ']);
                Tree::print_tree_recursive(&inner.right_child, deeper.as_str(), out);
                Tree::print_tree_recursive(&inner.left_child, deeper.as_str(), out);
                assert(out@ =~= old(out)@ + rendered(*node, margin@));
            },
        }
    }

    /// The leftmost key below `node`: the in-order successor of the parent
    /// whose right child `node` is.
    fn successor_of(node: &Box<Node>) -> (key: i32)
        ensures
            key == leftmost(**node),
    {
        let mut current: &Node = &**node;
        while current.left_child.is_some()
            invariant
                leftmost(*current) == leftmost(**node),
            decreases current,
        {
            current = &**current.left_child.as_ref().unwrap();
        }
        current.value
    }
}

} // verus!
