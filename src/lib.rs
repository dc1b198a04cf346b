//! An arena-indexed tree whose nodes refer to each other by `NodeId` handles,
//! with lazy, verified traversal adapters over ancestors and children.

mod iterators;
mod laws;
mod tree;

pub use iterators::{AncestorIds, Ancestors, Children, ChildrenIds};
pub use tree::{InsertBehavior, Node, NodeId, NodeIdError, Tree};
pub use laws::{
    lemma_ancestor_ids_resolve, lemma_ancestors_match_depth, lemma_children_match_direct_children,
    lemma_leaf_has_no_children, lemma_root_has_no_ancestors,
};
