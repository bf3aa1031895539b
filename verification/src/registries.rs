//! The auxiliary indices kept consistent with the render tree: the paint-layer
//! assignment, the paragraph registry and the compositor's dirty-node cache.
//!
//! Each index holds only node identifiers and keys, never nodes.  They are
//! mutated by the mutation engine on structural removal; insertion belongs to
//! the state-derivation pass that runs between frames.

use vstd::prelude::*;
use std::collections::HashMap;
use std::collections::HashSet;

verus! {

broadcast use vstd::std_specs::hash::group_hash_axioms;

/// What remains of a layer assignment after deregistering `node` from `layer`:
/// the entry goes only when the node was indeed assigned to that layer.
pub open spec fn layer_removed(m: Map<u64, i64>, node: u64, layer: i64) -> Map<u64, i64> {
    if m.contains_key(node) && m[node] == layer {
        m.remove(node)
    } else {
        m
    }
}

/// What remains of the paragraph registry after deregistering `node` from the
/// shaping identity `text_id`.
pub open spec fn para_removed(m: Map<u64, u64>, node: u64, text_id: u64) -> Map<u64, u64> {
    if m.contains_key(node) && m[node] == text_id {
        m.remove(node)
    } else {
        m
    }
}

/// Reverse index from paint layer to member nodes, stored as the assignment of
/// each node to its single layer.  `members_of` recovers the member set of a
/// layer for the painter's z-ordered traversal.
pub struct Layers {
    assigned: HashMap<u64, i64>,
}

impl View for Layers {
    type V = Map<u64, i64>;

    closed spec fn view(&self) -> Map<u64, i64> {
        self.assigned@
    }
}

impl Layers {
    /// The member set of one paint layer.
    pub open spec fn members_of(m: Map<u64, i64>, layer: i64) -> Set<u64> {
        m.dom().filter(|node: u64| m[node] == layer)
    }

    pub fn new() -> (r: Layers)
        ensures
            r@ == Map::<u64, i64>::empty(),
    {
        Layers { assigned: HashMap::new() }
    }

    /// Register `node` as a member of `layer`; a node belongs to exactly one
    /// layer at a time, so a previous assignment is superseded.
    pub fn insert_node_in_layer(&mut self, node: u64, layer: i64)
        ensures
            final(self)@ == old(self)@.insert(node, layer),
    {
        self.assigned.insert(node, layer);
    }

    /// Whether `node` is currently a member of `layer`.
    pub fn node_in_layer(&self, node: u64, layer: i64) -> (r: bool)
        ensures
            r == (self@.contains_key(node) && self@[node] == layer),
    {
        match self.assigned.get(&node) {
            Some(l) => *l == layer,
            None => false,
        }
    }

    /// Deregister `node` from `layer`; nothing changes when the node is not a
    /// member of that layer.
    pub fn remove_node_from_layer(&mut self, node: u64, layer: i64)
        ensures
            final(self)@ == layer_removed(old(self)@, node, layer),
    {
        let matches_layer = match self.assigned.get(&node) {
            Some(l) => *l == layer,
            None => false,
        };
        if matches_layer {
            self.assigned.remove(&node);
        }
    }
}

/// Registry of cached shaped paragraphs, keyed by the owning node and carrying
/// the text-shaping identity of the node's cursor reference.
pub struct ParagraphElements {
    owners: HashMap<u64, u64>,
}

impl View for ParagraphElements {
    type V = Map<u64, u64>;

    closed spec fn view(&self) -> Map<u64, u64> {
        self.owners@
    }
}

impl ParagraphElements {
    pub fn new() -> (r: ParagraphElements)
        ensures
            r@ == Map::<u64, u64>::empty(),
    {
        ParagraphElements { owners: HashMap::new() }
    }

    /// Register the paragraph of `node` under the shaping identity `text_id`.
    pub fn insert_paragraph(&mut self, node: u64, text_id: u64)
        ensures
            final(self)@ == old(self)@.insert(node, text_id),
    {
        self.owners.insert(node, text_id);
    }

    /// Whether `node` owns a paragraph under `text_id`.
    pub fn has_paragraph(&self, node: u64, text_id: u64) -> (r: bool)
        ensures
            r == (self@.contains_key(node) && self@[node] == text_id),
    {
        match self.owners.get(&node) {
            Some(t) => *t == text_id,
            None => false,
        }
    }

    /// Deregister the paragraph of `node` under `text_id`; nothing changes
    /// when no such entry exists.
    pub fn remove_paragraph(&mut self, node: u64, text_id: u64)
        ensures
            final(self)@ == para_removed(old(self)@, node, text_id),
    {
        let matches_id = match self.owners.get(&node) {
            Some(t) => *t == text_id,
            None => false,
        };
        if matches_id {
            self.owners.remove(&node);
        }
    }
}

/// The compositor's cache of nodes whose paint output must be recomputed.
pub struct CompositorDirtyNodes {
    nodes: HashSet<u64>,
}

impl View for CompositorDirtyNodes {
    type V = Set<u64>;

    closed spec fn view(&self) -> Set<u64> {
        self.nodes@
    }
}

impl CompositorDirtyNodes {
    pub fn new() -> (r: CompositorDirtyNodes)
        ensures
            r@ == Set::<u64>::empty(),
    {
        CompositorDirtyNodes { nodes: HashSet::new() }
    }

    /// Mark `node` as needing a repaint.
    pub fn invalidate(&mut self, node: u64)
        ensures
            final(self)@ == old(self)@.insert(node),
    {
        self.nodes.insert(node);
    }

    pub fn contains(&self, node: u64) -> (r: bool)
        ensures
            r == self@.contains(node),
    {
        self.nodes.contains(&node)
    }
}

} // verus!
