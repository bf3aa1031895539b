//! The layout tree: resolved visible areas keyed by node identifier, plus the
//! set of nodes whose layout is pending recomputation.
//!
//! The mutation engine reads a node's last-resolved area before removal (the
//! dirty rectangle must reflect the pre-removal occupied region), invalidates
//! entries on text change, and removes whole subtrees after a removal cascade.

use vstd::prelude::*;
use std::collections::HashMap;
use std::collections::HashSet;
use crate::rect::Rect;

verus! {

broadcast use vstd::std_specs::hash::group_hash_axioms;

pub struct LayoutTree {
    areas: HashMap<u64, Rect>,
    pending: HashSet<u64>,
}

impl LayoutTree {
    /// The resolved visible area of each measured node.
    pub closed spec fn areas(self) -> Map<u64, Rect> {
        self.areas@
    }

    /// The nodes marked for layout recomputation.
    pub closed spec fn pending(self) -> Set<u64> {
        self.pending@
    }

    /// Every stored area is well formed.
    pub open spec fn wf(self) -> bool {
        forall|id: u64| #[trigger] self.areas().contains_key(id) ==> self.areas()[id].wf()
    }

    pub fn new() -> (r: LayoutTree)
        ensures
            r.areas() == Map::<u64, Rect>::empty(),
            r.pending() == Set::<u64>::empty(),
            r.wf(),
    {
        LayoutTree { areas: HashMap::new(), pending: HashSet::new() }
    }

    /// Record the resolved area of `node` after a layout pass.
    pub fn insert(&mut self, node: u64, area: Rect)
        requires
            area.wf(),
            old(self).wf(),
        ensures
            final(self).areas() == old(self).areas().insert(node, area),
            final(self).pending() == old(self).pending().remove(node),
            final(self).wf(),
    {
        self.areas.insert(node, area);
        self.pending.remove(&node);
        proof {
            assert(forall|id: u64| #[trigger] self.areas@.contains_key(id)
                ==> id == node || old(self).areas().contains_key(id));
        }
    }

    /// The last-resolved visible area of `node`, if it has been measured.
    pub fn get(&self, node: u64) -> (r: Option<Rect>)
        ensures
            match r {
                Some(a) => self.areas().contains_key(node) && self.areas()[node] == a,
                None => !self.areas().contains_key(node),
            },
    {
        match self.areas.get(&node) {
            Some(a) => Some(*a),
            None => None,
        }
    }

    /// Mark the layout of `node` as stale; its cached area stays readable
    /// until the next layout pass recomputes it.
    pub fn invalidate(&mut self, node: u64)
        ensures
            final(self).areas() == old(self).areas(),
            final(self).pending() == old(self).pending().insert(node),
    {
        self.pending.insert(node);
    }

    pub fn is_pending(&self, node: u64) -> (r: bool)
        ensures
            r == self.pending().contains(node),
    {
        self.pending.contains(&node)
    }

    /// Remove every listed node from the layout tree, entries and pending
    /// marks alike; used after a removal cascade with the whole subtree.
    pub fn remove_ids(&mut self, ids: &Vec<u64>)
        requires
            old(self).wf(),
        ensures
            final(self).areas() == old(self).areas().remove_keys(ids@.to_set()),
            final(self).pending() == old(self).pending().difference(ids@.to_set()),
            final(self).wf(),
    {
        let ghost orig_areas = self.areas@;
        let ghost orig_pending = self.pending@;
        let mut i: usize = 0;
        while i < ids.len()
            invariant
                i <= ids.len(),
                self.areas@ == orig_areas.remove_keys(ids@.take(i as int).to_set()),
                self.pending@ == orig_pending.difference(ids@.take(i as int).to_set()),
            decreases ids.len() - i,
        {
            let ghost before_areas = self.areas@;
            let ghost before_pending = self.pending@;
            self.areas.remove(&ids[i]);
            self.pending.remove(&ids[i]);
            proof {
                broadcast use vstd::seq_lib::lemma_seq_contains_after_push;

                let s_i = ids@.take(i as int).to_set();
                let s_n = ids@.take(i as int + 1).to_set();
                assert(ids@.take(i as int + 1) =~= ids@.take(i as int).push(ids@[i as int]));
                assert(s_n =~= s_i.insert(ids@[i as int]));
                assert(self.areas@ =~= orig_areas.remove_keys(s_n));
                assert(self.pending@ =~= orig_pending.difference(s_n));
            }
            i += 1;
        }
        proof {
            assert(ids@.take(ids@.len() as int) =~= ids@);
            assert(forall|id: u64| #[trigger] self.areas@.contains_key(id)
                ==> orig_areas.contains_key(id));
        }
    }
}

} // verus!
