//! The mutation engine: applies one frame's stream of structural edit
//! operations to the retained render tree and keeps the layout tree, the
//! paint-layer assignment and the paragraph registry consistent, accumulating
//! the frame's dirty rectangle on every structural removal.

use vstd::prelude::*;
use std::collections::HashMap;
use crate::rect::Rect;
use crate::registries::{Layers, ParagraphElements, CompositorDirtyNodes, layer_removed, para_removed};
use crate::layout::LayoutTree;
use crate::node::{Node, NodeKind, VisitInfo, cascade_visits, subtree_ids, find_in_seq_spec,
    find_in_vec, collect_cascade, collect_subtree_ids};
use crate::template::{Template, matches_template, t_size, instantiate, id_run};
use crate::edit::{Cmd, CmdView, EditOut, edit_rel, edit_in};

verus! {

broadcast use vstd::std_specs::hash::group_hash_axioms;

/// The layer assignment after the cascade has deregistered, in order, every
/// visited node from its layer.
pub open spec fn layers_after(m: Map<u64, i64>, infos: Seq<VisitInfo>) -> Map<u64, i64>
    decreases infos.len(),
{
    if infos.len() == 0 {
        m
    } else {
        layer_removed(layers_after(m, infos.drop_last()), infos.last().id, infos.last().layer)
    }
}

/// The paragraph registry after the cascade has deregistered, in order, every
/// visited node that carries a cursor reference.
pub open spec fn paragraphs_after(m: Map<u64, u64>, infos: Seq<VisitInfo>) -> Map<u64, u64>
    decreases infos.len(),
{
    if infos.len() == 0 {
        m
    } else {
        let prev = paragraphs_after(m, infos.drop_last());
        match infos.last().cursor {
            Some(t) => para_removed(prev, infos.last().id, t),
            None => prev,
        }
    }
}

/// Union one more area into an optional accumulated dirty rectangle.
pub open spec fn union_opt(d: Option<Rect>, r: Rect) -> Option<Rect> {
    match d {
        None => Some(r),
        Some(dr) => Some(dr.union_spec(r)),
    }
}

/// The dirty rectangle after the cascade has folded in, in order, the
/// pre-removal visible area of every visited node that has one; a visited node
/// without a resolved area contributes nothing.
pub open spec fn dirty_after(d: Option<Rect>, areas: Map<u64, Rect>, infos: Seq<VisitInfo>)
    -> Option<Rect>
    decreases infos.len(),
{
    if infos.len() == 0 {
        d
    } else {
        let prev = dirty_after(d, areas, infos.drop_last());
        let i = infos.last();
        if areas.contains_key(i.id) {
            union_opt(prev, areas[i.id])
        } else {
            prev
        }
    }
}

/// A node freshly created by the adapter: no derived state, no attributes, no
/// listeners, no children; absent from every registry until the
/// state-derivation pass runs.
pub open spec fn fresh_node(n: Node, kind: NodeKind, text: Option<Seq<char>>) -> bool {
    &&& n.kind == kind
    &&& n.state is None
    &&& match text {
        None => n.text is None,
        Some(t) => n.text matches Some(s) && s@ == t,
    }
    &&& n.attrs@.len() == 0
    &&& n.listeners@.len() == 0
    &&& n.children@.len() == 0
}

/// One structural edit against the whole of the engine's node storage: the
/// mounted forest first, the working stack of built-but-unattached nodes
/// second.  A target found nowhere leaves both unchanged.
pub open spec fn forest_edit(roots: Seq<Node>, stack: Seq<Node>, target: u64, c: CmdView,
    roots2: Seq<Node>, stack2: Seq<Node>) -> bool {
    if find_in_seq_spec(roots, target) is Some {
        edit_rel(roots, target, c, roots2) && stack2 == stack
    } else if find_in_seq_spec(stack, target) is Some {
        roots2 == roots && edit_rel(stack, target, c, stack2)
    } else {
        roots2 == roots && stack2 == stack
    }
}

/// The first registered template of this name.
pub open spec fn find_template_spec(s: Seq<Template>, name: u64) -> Option<Template>
    decreases s.len(),
{
    if s.len() == 0 {
        None
    } else if s[0].name == name {
        Some(s[0])
    } else {
        find_template_spec(s.drop_first(), name)
    }
}

/// The node reached from `n` by following child indices along `path`.
pub open spec fn node_at_path(n: Node, path: Seq<u8>) -> Option<Node>
    decreases path.len(),
{
    if path.len() == 0 {
        Some(n)
    } else if (path[0] as int) < n.children@.len() {
        node_at_path(n.children@[path[0] as int], path.drop_first())
    } else {
        None
    }
}

/// Walk `path` from `n`, returning the addressed node if every index is in
/// range.
pub fn walk_path<'a>(n: &'a Node, path: &[u8]) -> (r: Option<&'a Node>)
    ensures
        match r {
            Some(p) => node_at_path(*n, path@) == Some(*p),
            None => node_at_path(*n, path@) is None,
        },
{
    let mut cur: &Node = n;
    let mut k: usize = 0;
    proof {
        assert(path@.skip(0) =~= path@);
    }
    while k < path.len()
        invariant
            k <= path@.len(),
            node_at_path(*n, path@) == node_at_path(*cur, path@.skip(k as int)),
        decreases path@.len() - k,
    {
        proof {
            assert(path@.skip(k as int)[0] == path@[k as int]);
            assert(path@.skip(k as int).drop_first() =~= path@.skip(k as int + 1));
        }
        let idx = path[k] as usize;
        if idx >= cur.children.len() {
            return None;
        }
        cur = &cur.children[idx];
        k += 1;
    }
    proof {
        assert(path@.skip(k as int) =~= Seq::<u8>::empty());
    }
    Some(cur)
}

/// What the removal cascade leaves of the four derived stores.  An external
/// identifier that does not resolve, or resolves to a node no longer in the
/// tree, changes nothing; otherwise every cascade-visited node of the subtree
/// is deregistered in order, the dirty rectangle absorbs their pre-removal
/// areas, and the layout tree forgets the whole subtree.
pub open spec fn cascade_applied(pre: MutationsWriter, post: MutationsWriter, id: usize) -> bool {
    let em = pre.tree.elem_map@;
    let unchanged = {
        &&& post.layers == pre.layers
        &&& post.paragraphs == pre.paragraphs
        &&& post.dirty_rect == pre.dirty_rect
        &&& post.layout == pre.layout
    };
    if !em.contains_key(id) {
        unchanged
    } else {
        match find_in_seq_spec(pre.tree.roots@, em[id]) {
            None => unchanged,
            Some(n) => {
                let infos = cascade_visits(n);
                &&& post.layers@ == layers_after(pre.layers@, infos)
                &&& post.paragraphs@ == paragraphs_after(pre.paragraphs@, infos)
                &&& post.dirty_rect == dirty_after(pre.dirty_rect, pre.layout.areas(), infos)
                &&& post.layout.areas() == pre.layout.areas().remove_keys(subtree_ids(n).to_set())
                &&& post.layout.pending() == pre.layout.pending().difference(subtree_ids(n).to_set())
            },
        }
    }
}

pub open spec fn dirty_wf(d: Option<Rect>) -> bool {
    match d {
        Some(r) => r.wf(),
        None => true,
    }
}

/// Mapping from externally visible element identifiers to internal node
/// identifiers, maintained by the render-tree adapter.
pub struct ElemMap {
    m: HashMap<usize, u64>,
}

impl View for ElemMap {
    type V = Map<usize, u64>;

    closed spec fn view(&self) -> Map<usize, u64> {
        self.m@
    }
}

impl ElemMap {
    pub fn new() -> (r: ElemMap)
        ensures
            r@ == Map::<usize, u64>::empty(),
    {
        ElemMap { m: HashMap::new() }
    }

    pub fn get(&self, id: usize) -> (r: Option<u64>)
        ensures
            match r {
                Some(n) => self@.contains_key(id) && self@[id] == n,
                None => !self@.contains_key(id),
            },
    {
        match self.m.get(&id) {
            Some(n) => Some(*n),
            None => None,
        }
    }

    pub fn set(&mut self, id: usize, node: u64)
        ensures
            final(self)@ == old(self)@.insert(id, node),
    {
        self.m.insert(id, node);
    }

    pub fn unset(&mut self, id: usize)
        ensures
            final(self)@ == old(self)@.remove(id),
    {
        self.m.remove(&id);
    }
}

/// The persistent render tree: a forest of owned subtrees, the element-id
/// mapping, and the source of fresh node identifiers.
pub struct RenderTree {
    pub roots: Vec<Node>,
    pub elem_map: ElemMap,
    pub next_id: u64,
}

impl RenderTree {
    pub fn new() -> (r: RenderTree)
        ensures
            r.roots@ == Seq::<Node>::empty(),
            r.elem_map@ == Map::<usize, u64>::empty(),
            r.next_id == 1,
    {
        RenderTree { roots: Vec::new(), elem_map: ElemMap::new(), next_id: 1 }
    }
}

/// The mutation engine.  It owns exclusive write access to the render tree and
/// the derived indices for the duration of one frame's edit stream.
pub struct MutationsWriter {
    pub tree: RenderTree,
    pub layout: LayoutTree,
    pub layers: Layers,
    pub paragraphs: ParagraphElements,
    pub compositor_dirty_nodes: CompositorDirtyNodes,
    pub dirty_rect: Option<Rect>,
    pub stack: Vec<Node>,
    pub templates: Vec<Template>,
}

impl MutationsWriter {
    pub open spec fn wf(self) -> bool {
        &&& self.layout.wf()
        &&& dirty_wf(self.dirty_rect)
    }

    pub fn new(tree: RenderTree, layout: LayoutTree, layers: Layers,
        paragraphs: ParagraphElements, compositor_dirty_nodes: CompositorDirtyNodes) -> (w: MutationsWriter)
        requires
            layout.wf(),
        ensures
            w.tree == tree,
            w.layout == layout,
            w.layers == layers,
            w.paragraphs == paragraphs,
            w.compositor_dirty_nodes == compositor_dirty_nodes,
            w.dirty_rect is None,
            w.stack@ == Seq::<Node>::empty(),
            w.templates@ == Seq::<Template>::empty(),
            w.wf(),
    {
        MutationsWriter {
            tree,
            layout,
            layers,
            paragraphs,
            compositor_dirty_nodes,
            dirty_rect: None,
            stack: Vec::new(),
            templates: Vec::new(),
        }
    }

    /// Read and reset the frame's accumulated dirty rectangle, for the
    /// compositor after the stream is fully applied.
    pub fn take_dirty_rect(&mut self) -> (r: Option<Rect>)
        ensures
            r == old(self).dirty_rect,
            final(self).dirty_rect is None,
            *final(self) == (MutationsWriter { dirty_rect: None, ..*old(self) }),
    {
        let r = self.dirty_rect;
        self.dirty_rect = None;
        r
    }

    /// The removal cascade.  Resolves the external identifier, deregisters
    /// every cascade-visited node of the displaced subtree from the layer and
    /// paragraph registries, unions each visited node's pre-removal visible
    /// area into the frame's dirty rectangle, and finally removes the whole
    /// subtree from the layout tree.  Removing an identifier that no longer
    /// resolves, or whose node has already left the tree, changes nothing:
    /// re-removal is a harmless no-op.
    pub fn remove(&mut self, id: usize)
        requires
            old(self).wf(),
        ensures
            final(self).wf(),
            final(self).tree == old(self).tree,
            final(self).stack == old(self).stack,
            final(self).templates == old(self).templates,
            final(self).compositor_dirty_nodes == old(self).compositor_dirty_nodes,
            cascade_applied(*old(self), *final(self), id),
    {
        let nid = match self.tree.elem_map.get(id) {
            Some(n) => n,
            None => {
                return;
            },
        };
        let infos: Vec<VisitInfo>;
        let ids: Vec<u64>;
        match find_in_vec(&self.tree.roots, nid) {
            Some(n) => {
                infos = collect_cascade(n);
                ids = collect_subtree_ids(n);
            },
            None => {
                return;
            },
        }
        let ghost n = find_in_seq_spec(self.tree.roots@, nid)->Some_0;
        let ghost all = infos@;
        let ghost layers0 = self.layers@;
        let ghost paras0 = self.paragraphs@;
        let ghost dirty0 = self.dirty_rect;
        let ghost areas0 = self.layout.areas();
        let mut k: usize = 0;
        proof {
            assert(all.take(0) =~= Seq::<VisitInfo>::empty());
        }
        while k < infos.len()
            invariant
                k <= infos.len(),
                infos@ == all,
                all == cascade_visits(n),
                areas0 == self.layout.areas(),
                dirty_wf(dirty0),
                self.layers@ == layers_after(layers0, all.take(k as int)),
                self.paragraphs@ == paragraphs_after(paras0, all.take(k as int)),
                self.dirty_rect == dirty_after(dirty0, areas0, all.take(k as int)),
                dirty_wf(self.dirty_rect),
                self.layout == old(self).layout,
                self.layout.wf(),
                self.tree == old(self).tree,
                self.stack == old(self).stack,
                self.templates == old(self).templates,
                self.compositor_dirty_nodes == old(self).compositor_dirty_nodes,
            decreases infos.len() - k,
        {
            let inf = infos[k];
            proof {
                assert(all.take(k as int + 1).drop_last() =~= all.take(k as int));
                assert(all.take(k as int + 1).last() == all[k as int]);
            }
            self.layers.remove_node_from_layer(inf.id, inf.layer);
            match inf.cursor {
                Some(t) => {
                    self.paragraphs.remove_paragraph(inf.id, t);
                },
                None => {},
            }
            let ghost prev_dirty = self.dirty_rect;
            match self.layout.get(inf.id) {
                Some(area) => {
                    let nd = match &self.dirty_rect {
                        Some(d) => d.union(&area),
                        None => area,
                    };
                    self.dirty_rect = Some(nd);
                    proof {
                        assert(self.dirty_rect == union_opt(prev_dirty, areas0[inf.id]));
                    }
                },
                None => {},
            }
            proof {
                assert(self.dirty_rect == dirty_after(dirty0, areas0, all.take(k as int + 1)));
            }
            k += 1;
        }
        proof {
            assert(all.take(infos@.len() as int) =~= all);
        }
        self.layout.remove_ids(&ids);
    }

    /// Apply one structural command at the node with identifier `target`,
    /// looking in the mounted forest first and in the working stack second.
    fn apply_edit(&mut self, target: u64, cmd: Cmd) -> (out: EditOut)
        ensures
            *final(self) == (MutationsWriter {
                tree: final(self).tree,
                stack: final(self).stack,
                ..*old(self)
            }),
            final(self).tree.elem_map == old(self).tree.elem_map,
            final(self).tree.next_id == old(self).tree.next_id,
            forest_edit(old(self).tree.roots@, old(self).stack@, target, cmd@,
                final(self).tree.roots@, final(self).stack@),
            match out {
                EditOut::Missed(c) => {
                    &&& c == cmd
                    &&& final(self).tree.roots@ == old(self).tree.roots@
                    &&& final(self).stack@ == old(self).stack@
                },
                EditOut::Hit(d) => {
                    &&& match d {
                        Some(n) => cmd@ is Detach,
                        None => !(cmd@ is Detach),
                    }
                },
            },
    {
        match edit_in(&mut self.tree.roots, target, cmd) {
            EditOut::Hit(d) => EditOut::Hit(d),
            EditOut::Missed(c) => edit_in(&mut self.stack, target, c),
        }
    }

    /// Register a reusable template for later instantiation.
    pub fn register_template(&mut self, template: Template)
        ensures
            *final(self) == (MutationsWriter { templates: final(self).templates, ..*old(self) }),
            final(self).templates@ == old(self).templates@.push(template),
    {
        self.templates.push(template);
    }

    /// Pop the topmost `m` built nodes off the working stack and append them,
    /// in order, under the children of the resolved node.
    pub fn append_children(&mut self, id: usize, m: usize)
        requires
            m <= old(self).stack.len(),
        ensures
            *final(self) == (MutationsWriter {
                tree: final(self).tree,
                stack: final(self).stack,
                ..*old(self)
            }),
            final(self).tree.elem_map == old(self).tree.elem_map,
            final(self).tree.next_id == old(self).tree.next_id,
            ({
                let em = old(self).tree.elem_map@;
                let keep = old(self).stack@.take(old(self).stack@.len() - m as int);
                let popped = old(self).stack@.skip(old(self).stack@.len() - m as int);
                if em.contains_key(id) {
                    forest_edit(old(self).tree.roots@, keep, em[id], CmdView::Append(popped),
                        final(self).tree.roots@, final(self).stack@)
                } else {
                    *final(self) == *old(self)
                }
            }),
    {
        let nid = match self.tree.elem_map.get(id) {
            Some(n) => n,
            None => {
                return;
            },
        };
        let popped = self.stack.split_off(self.stack.len() - m);
        let _ = self.apply_edit(nid, Cmd::Append(popped));
    }

    /// Pop `m` built nodes and insert them as siblings immediately before the
    /// resolved node.
    pub fn insert_nodes_before(&mut self, id: usize, m: usize)
        requires
            m <= old(self).stack.len(),
        ensures
            *final(self) == (MutationsWriter {
                tree: final(self).tree,
                stack: final(self).stack,
                ..*old(self)
            }),
            final(self).tree.elem_map == old(self).tree.elem_map,
            final(self).tree.next_id == old(self).tree.next_id,
            ({
                let em = old(self).tree.elem_map@;
                let keep = old(self).stack@.take(old(self).stack@.len() - m as int);
                let popped = old(self).stack@.skip(old(self).stack@.len() - m as int);
                if em.contains_key(id) {
                    forest_edit(old(self).tree.roots@, keep, em[id], CmdView::InsertBefore(popped),
                        final(self).tree.roots@, final(self).stack@)
                } else {
                    *final(self) == *old(self)
                }
            }),
    {
        let nid = match self.tree.elem_map.get(id) {
            Some(n) => n,
            None => {
                return;
            },
        };
        let popped = self.stack.split_off(self.stack.len() - m);
        let _ = self.apply_edit(nid, Cmd::InsertBefore(popped));
    }

    /// Pop `m` built nodes and insert them as siblings immediately after the
    /// resolved node.
    pub fn insert_nodes_after(&mut self, id: usize, m: usize)
        requires
            m <= old(self).stack.len(),
        ensures
            *final(self) == (MutationsWriter {
                tree: final(self).tree,
                stack: final(self).stack,
                ..*old(self)
            }),
            final(self).tree.elem_map == old(self).tree.elem_map,
            final(self).tree.next_id == old(self).tree.next_id,
            ({
                let em = old(self).tree.elem_map@;
                let keep = old(self).stack@.take(old(self).stack@.len() - m as int);
                let popped = old(self).stack@.skip(old(self).stack@.len() - m as int);
                if em.contains_key(id) {
                    forest_edit(old(self).tree.roots@, keep, em[id], CmdView::InsertAfter(popped),
                        final(self).tree.roots@, final(self).stack@)
                } else {
                    *final(self) == *old(self)
                }
            }),
    {
        let nid = match self.tree.elem_map.get(id) {
            Some(n) => n,
            None => {
                return;
            },
        };
        let popped = self.stack.split_off(self.stack.len() - m);
        let _ = self.apply_edit(nid, Cmd::InsertAfter(popped));
    }

    /// Create a fresh placeholder node on the working stack and map the
    /// external identifier to it.
    pub fn create_placeholder(&mut self, id: usize)
        requires
            old(self).tree.next_id < u64::MAX,
        ensures
            *final(self) == (MutationsWriter {
                tree: final(self).tree,
                stack: final(self).stack,
                ..*old(self)
            }),
            final(self).tree.roots == old(self).tree.roots,
            final(self).tree.next_id == old(self).tree.next_id + 1,
            final(self).tree.elem_map@ == old(self).tree.elem_map@.insert(id, old(self).tree.next_id),
            final(self).stack@.len() == old(self).stack@.len() + 1,
            final(self).stack@.drop_last() == old(self).stack@,
            fresh_node(final(self).stack@.last(), NodeKind::Placeholder, None),
            final(self).stack@.last().id == old(self).tree.next_id,
    {
        let nid = self.tree.next_id;
        self.tree.next_id = nid + 1;
        let node = Node {
            id: nid,
            kind: NodeKind::Placeholder,
            state: None,
            text: None,
            attrs: Vec::new(),
            listeners: Vec::new(),
            children: Vec::new(),
        };
        self.stack.push(node);
        self.tree.elem_map.set(id, nid);
        proof {
            assert(self.stack@.drop_last() =~= old(self).stack@);
        }
    }

    /// Create a fresh text node with the given content on the working stack
    /// and map the external identifier to it.
    pub fn create_text_node(&mut self, value: String, id: usize)
        requires
            old(self).tree.next_id < u64::MAX,
        ensures
            *final(self) == (MutationsWriter {
                tree: final(self).tree,
                stack: final(self).stack,
                ..*old(self)
            }),
            final(self).tree.roots == old(self).tree.roots,
            final(self).tree.next_id == old(self).tree.next_id + 1,
            final(self).tree.elem_map@ == old(self).tree.elem_map@.insert(id, old(self).tree.next_id),
            final(self).stack@.len() == old(self).stack@.len() + 1,
            final(self).stack@.drop_last() == old(self).stack@,
            fresh_node(final(self).stack@.last(), NodeKind::Text, Some(value@)),
            final(self).stack@.last().id == old(self).tree.next_id,
    {
        let nid = self.tree.next_id;
        self.tree.next_id = nid + 1;
        let node = Node {
            id: nid,
            kind: NodeKind::Text,
            state: None,
            text: Some(value),
            attrs: Vec::new(),
            listeners: Vec::new(),
            children: Vec::new(),
        };
        self.stack.push(node);
        self.tree.elem_map.set(id, nid);
        proof {
            assert(self.stack@.drop_last() =~= old(self).stack@);
        }
    }

    /// Structurally remove the resolved node, after running the removal
    /// cascade over its subtree, and drop its identifier mapping.
    pub fn remove_node(&mut self, id: usize)
        requires
            old(self).wf(),
        ensures
            final(self).wf(),
            final(self).templates == old(self).templates,
            final(self).compositor_dirty_nodes == old(self).compositor_dirty_nodes,
            final(self).tree.next_id == old(self).tree.next_id,
            final(self).tree.elem_map@ == old(self).tree.elem_map@.remove(id),
            cascade_applied(*old(self), *final(self), id),
            ({
                let em = old(self).tree.elem_map@;
                if em.contains_key(id) {
                    forest_edit(old(self).tree.roots@, old(self).stack@, em[id], CmdView::Detach,
                        final(self).tree.roots@, final(self).stack@)
                } else {
                    final(self).tree.roots@ == old(self).tree.roots@
                        && final(self).stack@ == old(self).stack@
                }
            }),
    {
        self.remove(id);
        let nid = match self.tree.elem_map.get(id) {
            Some(n) => n,
            None => {
                proof {
                    assert(old(self).tree.elem_map@ =~= old(self).tree.elem_map@.remove(id));
                }
                return;
            },
        };
        let _ = self.apply_edit(nid, Cmd::Detach);
        self.tree.elem_map.unset(id);
    }

    /// Replace the resolved node with the topmost `m` built nodes of the
    /// working stack.  When nodes are displaced (`m > 0`) the removal cascade
    /// runs against the old subtree before the structural replacement, while
    /// the tree still holds it; with `m == 0` nothing is displaced and no
    /// cascade is owed.
    pub fn replace_node_with(&mut self, id: usize, m: usize)
        requires
            old(self).wf(),
            m <= old(self).stack.len(),
        ensures
            final(self).wf(),
            final(self).templates == old(self).templates,
            final(self).compositor_dirty_nodes == old(self).compositor_dirty_nodes,
            final(self).tree.next_id == old(self).tree.next_id,
            final(self).tree.elem_map == old(self).tree.elem_map,
            if m > 0 {
                cascade_applied(*old(self), *final(self), id)
            } else {
                &&& final(self).layers == old(self).layers
                &&& final(self).paragraphs == old(self).paragraphs
                &&& final(self).dirty_rect == old(self).dirty_rect
                &&& final(self).layout == old(self).layout
            },
            ({
                let em = old(self).tree.elem_map@;
                let keep = old(self).stack@.take(old(self).stack@.len() - m as int);
                let popped = old(self).stack@.skip(old(self).stack@.len() - m as int);
                if em.contains_key(id) {
                    forest_edit(old(self).tree.roots@, keep, em[id], CmdView::ReplaceWith(popped),
                        final(self).tree.roots@, final(self).stack@)
                } else {
                    final(self).tree.roots@ == old(self).tree.roots@
                        && final(self).stack@ == old(self).stack@
                }
            }),
    {
        if m > 0 {
            self.remove(id);
        }
        let nid = match self.tree.elem_map.get(id) {
            Some(n) => n,
            None => {
                return;
            },
        };
        let popped = self.stack.split_off(self.stack.len() - m);
        let _ = self.apply_edit(nid, Cmd::ReplaceWith(popped));
    }

    /// Replace the resolved node's text content.  Its cached layout entry and
    /// the compositor's record of it are invalidated first, against the
    /// pre-change identifier mapping, since its intrinsic size may change.
    pub fn set_node_text(&mut self, value: String, id: usize)
        requires
            old(self).wf(),
        ensures
            final(self).wf(),
            final(self).templates == old(self).templates,
            final(self).layers == old(self).layers,
            final(self).paragraphs == old(self).paragraphs,
            final(self).dirty_rect == old(self).dirty_rect,
            final(self).tree.next_id == old(self).tree.next_id,
            final(self).tree.elem_map == old(self).tree.elem_map,
            final(self).layout.areas() == old(self).layout.areas(),
            ({
                let em = old(self).tree.elem_map@;
                if em.contains_key(id) {
                    &&& final(self).compositor_dirty_nodes@
                        == old(self).compositor_dirty_nodes@.insert(em[id])
                    &&& final(self).layout.pending() == old(self).layout.pending().insert(em[id])
                    &&& forest_edit(old(self).tree.roots@, old(self).stack@, em[id],
                        CmdView::SetText(value@), final(self).tree.roots@, final(self).stack@)
                } else {
                    *final(self) == *old(self)
                }
            }),
    {
        let nid = match self.tree.elem_map.get(id) {
            Some(n) => n,
            None => {
                return;
            },
        };
        self.compositor_dirty_nodes.invalidate(nid);
        self.layout.invalidate(nid);
        let _ = self.apply_edit(nid, Cmd::SetText(value));
    }

    /// Set one attribute of the resolved node.  Attribute writes append; the
    /// latest entry for a name is the authoritative one.
    pub fn set_attribute(&mut self, name: u64, value: u64, id: usize)
        ensures
            *final(self) == (MutationsWriter {
                tree: final(self).tree,
                stack: final(self).stack,
                ..*old(self)
            }),
            final(self).tree.elem_map == old(self).tree.elem_map,
            final(self).tree.next_id == old(self).tree.next_id,
            ({
                let em = old(self).tree.elem_map@;
                if em.contains_key(id) {
                    forest_edit(old(self).tree.roots@, old(self).stack@, em[id],
                        CmdView::SetAttr(name, value), final(self).tree.roots@, final(self).stack@)
                } else {
                    *final(self) == *old(self)
                }
            }),
    {
        let nid = match self.tree.elem_map.get(id) {
            Some(n) => n,
            None => {
                return;
            },
        };
        let _ = self.apply_edit(nid, Cmd::SetAttr(name, value));
    }

    /// Add an event listener of this name to the resolved node.
    pub fn create_event_listener(&mut self, name: u64, id: usize)
        ensures
            *final(self) == (MutationsWriter {
                tree: final(self).tree,
                stack: final(self).stack,
                ..*old(self)
            }),
            final(self).tree.elem_map == old(self).tree.elem_map,
            final(self).tree.next_id == old(self).tree.next_id,
            ({
                let em = old(self).tree.elem_map@;
                if em.contains_key(id) {
                    forest_edit(old(self).tree.roots@, old(self).stack@, em[id],
                        CmdView::AddListener(name), final(self).tree.roots@, final(self).stack@)
                } else {
                    *final(self) == *old(self)
                }
            }),
    {
        let nid = match self.tree.elem_map.get(id) {
            Some(n) => n,
            None => {
                return;
            },
        };
        let _ = self.apply_edit(nid, Cmd::AddListener(name));
    }

    /// Remove every event listener of this name from the resolved node.
    pub fn remove_event_listener(&mut self, name: u64, id: usize)
        ensures
            *final(self) == (MutationsWriter {
                tree: final(self).tree,
                stack: final(self).stack,
                ..*old(self)
            }),
            final(self).tree.elem_map == old(self).tree.elem_map,
            final(self).tree.next_id == old(self).tree.next_id,
            ({
                let em = old(self).tree.elem_map@;
                if em.contains_key(id) {
                    forest_edit(old(self).tree.roots@, old(self).stack@, em[id],
                        CmdView::RemoveListener(name), final(self).tree.roots@, final(self).stack@)
                } else {
                    *final(self) == *old(self)
                }
            }),
    {
        let nid = match self.tree.elem_map.get(id) {
            Some(n) => n,
            None => {
                return;
            },
        };
        let _ = self.apply_edit(nid, Cmd::RemoveListener(name));
    }

    /// Map the external identifier to the node reached by `path` from the top
    /// of the working stack; used to address nodes of a freshly instantiated
    /// template.
    pub fn assign_node_id(&mut self, path: &[u8], id: usize)
        ensures
            *final(self) == (MutationsWriter { tree: final(self).tree, ..*old(self) }),
            final(self).tree.roots == old(self).tree.roots,
            final(self).tree.next_id == old(self).tree.next_id,
            ({
                if old(self).stack@.len() > 0
                    && node_at_path(old(self).stack@.last(), path@) is Some {
                    final(self).tree.elem_map@ == old(self).tree.elem_map@.insert(id,
                        node_at_path(old(self).stack@.last(), path@)->Some_0.id)
                } else {
                    *final(self) == *old(self)
                }
            }),
    {
        if self.stack.len() == 0 {
            return;
        }
        let nid: u64;
        match walk_path(&self.stack[self.stack.len() - 1], path) {
            Some(p) => {
                nid = p.id;
            },
            None => {
                return;
            },
        }
        self.tree.elem_map.set(id, nid);
    }

    /// Hydrate the text placeholder reached by `path` from the top of the
    /// working stack: map the external identifier to it and set its content.
    pub fn hydrate_text_node(&mut self, path: &[u8], value: String, id: usize)
        ensures
            *final(self) == (MutationsWriter {
                tree: final(self).tree,
                stack: final(self).stack,
                ..*old(self)
            }),
            final(self).tree.next_id == old(self).tree.next_id,
            ({
                if old(self).stack@.len() > 0
                    && node_at_path(old(self).stack@.last(), path@) is Some {
                    let nid = node_at_path(old(self).stack@.last(), path@)->Some_0.id;
                    &&& final(self).tree.elem_map@ == old(self).tree.elem_map@.insert(id, nid)
                    &&& forest_edit(old(self).tree.roots@, old(self).stack@, nid,
                        CmdView::SetText(value@), final(self).tree.roots@, final(self).stack@)
                } else {
                    *final(self) == *old(self)
                }
            }),
    {
        if self.stack.len() == 0 {
            return;
        }
        let nid: u64;
        match walk_path(&self.stack[self.stack.len() - 1], path) {
            Some(p) => {
                nid = p.id;
            },
            None => {
                return;
            },
        }
        self.tree.elem_map.set(id, nid);
        let _ = self.apply_edit(nid, Cmd::SetText(value));
    }

    /// Pop `m` built nodes and replace the placeholder reached by `path` from
    /// the remaining stack top with them.
    pub fn replace_placeholder_with_nodes(&mut self, path: &[u8], m: usize)
        requires
            m <= old(self).stack.len(),
        ensures
            *final(self) == (MutationsWriter {
                tree: final(self).tree,
                stack: final(self).stack,
                ..*old(self)
            }),
            final(self).tree.elem_map == old(self).tree.elem_map,
            final(self).tree.next_id == old(self).tree.next_id,
            ({
                let keep = old(self).stack@.take(old(self).stack@.len() - m as int);
                let popped = old(self).stack@.skip(old(self).stack@.len() - m as int);
                if keep.len() > 0 && node_at_path(keep.last(), path@) is Some {
                    forest_edit(old(self).tree.roots@, keep,
                        node_at_path(keep.last(), path@)->Some_0.id, CmdView::ReplaceWith(popped),
                        final(self).tree.roots@, final(self).stack@)
                } else {
                    final(self).tree.roots@ == old(self).tree.roots@
                        && final(self).stack@ == keep
                }
            }),
    {
        let popped = self.stack.split_off(self.stack.len() - m);
        if self.stack.len() == 0 {
            return;
        }
        let nid: u64;
        match walk_path(&self.stack[self.stack.len() - 1], path) {
            Some(p) => {
                nid = p.id;
            },
            None => {
                return;
            },
        }
        let _ = self.apply_edit(nid, Cmd::ReplaceWith(popped));
    }

    /// Instantiate root `index` of the template registered under `name`,
    /// push the fresh subtree onto the working stack and map the external
    /// identifier to its root.
    pub fn load_template(&mut self, name: u64, index: usize, id: usize)
        requires
            ({
                match find_template_spec(old(self).templates@, name) {
                    Some(t) => index < t.roots@.len()
                        ==> old(self).tree.next_id + t_size(t.roots@[index as int]) <= u64::MAX,
                    None => true,
                }
            }),
        ensures
            *final(self) == (MutationsWriter {
                tree: final(self).tree,
                stack: final(self).stack,
                ..*old(self)
            }),
            final(self).tree.roots == old(self).tree.roots,
            ({
                match find_template_spec(old(self).templates@, name) {
                    Some(t) => if index < t.roots@.len() {
                        let tn = t.roots@[index as int];
                        &&& final(self).tree.next_id == old(self).tree.next_id + t_size(tn)
                        &&& final(self).tree.elem_map@
                            == old(self).tree.elem_map@.insert(id, old(self).tree.next_id)
                        &&& final(self).stack@.len() == old(self).stack@.len() + 1
                        &&& final(self).stack@.drop_last() == old(self).stack@
                        &&& matches_template(final(self).stack@.last(), tn)
                        &&& final(self).stack@.last().id == old(self).tree.next_id
                        &&& subtree_ids(final(self).stack@.last())
                            == id_run(old(self).tree.next_id as int, t_size(tn))
                    } else {
                        *final(self) == *old(self)
                    },
                    None => *final(self) == *old(self),
                }
            }),
    {
        let ghost ts = self.templates@;
        let mut ti: usize = 0;
        let mut found = false;
        proof {
            assert(ts.skip(0) =~= ts);
        }
        while !found && ti < self.templates.len()
            invariant
                ti <= ts.len(),
                self.templates@ == ts,
                ts == old(self).templates@,
                *self == *old(self),
                found ==> ti < ts.len() && find_template_spec(ts, name) == Some(ts[ti as int]),
                !found ==> find_template_spec(ts, name)
                    == find_template_spec(ts.skip(ti as int), name),
            decreases ts.len() - ti + if found { 0int } else { 1int },
        {
            proof {
                assert(ts.skip(ti as int)[0] == ts[ti as int]);
                assert(ts.skip(ti as int).drop_first() =~= ts.skip(ti as int + 1));
            }
            if self.templates[ti].name == name {
                found = true;
            } else {
                ti += 1;
            }
        }
        if !found {
            proof {
                assert(ts.skip(ti as int) =~= Seq::<Template>::empty());
            }
            return;
        }
        if index >= self.templates[ti].roots.len() {
            return;
        }
        let next = self.tree.next_id;
        let (node, nn) = instantiate(&self.templates[ti].roots[index], next);
        self.tree.next_id = nn;
        let rid = node.id;
        self.stack.push(node);
        self.tree.elem_map.set(id, rid);
        proof {
            assert(self.stack@.drop_last() =~= old(self).stack@);
        }
    }

    /// Detach the resolved node's subtree from the mounted forest and push it
    /// onto the working stack for later reinsertion; an identifier that does
    /// not resolve to a mounted node changes nothing.
    pub fn push_root(&mut self, id: usize)
        ensures
            *final(self) == (MutationsWriter {
                tree: final(self).tree,
                stack: final(self).stack,
                ..*old(self)
            }),
            final(self).tree.elem_map == old(self).tree.elem_map,
            final(self).tree.next_id == old(self).tree.next_id,
            ({
                let em = old(self).tree.elem_map@;
                if em.contains_key(id) {
                    match find_in_seq_spec(old(self).tree.roots@, em[id]) {
                        Some(n) => {
                            &&& edit_rel(old(self).tree.roots@, em[id], CmdView::Detach,
                                final(self).tree.roots@)
                            &&& final(self).stack@ == old(self).stack@.push(n)
                        },
                        None => *final(self) == *old(self),
                    }
                } else {
                    *final(self) == *old(self)
                }
            }),
    {
        let nid = match self.tree.elem_map.get(id) {
            Some(n) => n,
            None => {
                return;
            },
        };
        match edit_in(&mut self.tree.roots, nid, Cmd::Detach) {
            EditOut::Hit(Some(n)) => {
                self.stack.push(n);
            },
            EditOut::Hit(None) => {
                proof {
                    assert(false);
                }
            },
            EditOut::Missed(_) => {},
        }
    }
}

} // verus!
