use mutation_engine::rect::Rect;
use mutation_engine::registries::{Layers, ParagraphElements, CompositorDirtyNodes};
use mutation_engine::layout::LayoutTree;
use mutation_engine::node::{Node, NodeKind, TagKind, DerivedState, find_in_vec};
use mutation_engine::writer::{MutationsWriter, RenderTree};

fn element(id: u64, tag: TagKind, state: Option<DerivedState>, children: Vec<Node>) -> Node {
    Node {
        id,
        kind: NodeKind::Element(tag),
        state,
        text: None,
        attrs: Vec::new(),
        listeners: Vec::new(),
        children,
    }
}

fn with_layer(layer: i64) -> Option<DerivedState> {
    Some(DerivedState { layer, cursor: None })
}

fn with_layer_cursor(layer: i64, text_id: u64) -> Option<DerivedState> {
    Some(DerivedState { layer, cursor: Some(text_id) })
}

fn writer_with(roots: Vec<Node>) -> MutationsWriter {
    let mut tree = RenderTree::new();
    tree.roots = roots;
    tree.next_id = 100;
    MutationsWriter::new(
        tree,
        LayoutTree::new(),
        Layers::new(),
        ParagraphElements::new(),
        CompositorDirtyNodes::new(),
    )
}

#[test]
fn union_is_bounding_box() {
    let a = Rect::new(0, 0, 10, 10);
    let b = Rect::new(10, 0, 5, 5);
    assert_eq!(a.union(&b), Rect::new(0, 0, 15, 10));
    assert_eq!(b.union(&a), Rect::new(0, 0, 15, 10));
    let c = Rect::new(-5, -5, 2, 2);
    assert_eq!(a.union(&c), Rect::new(-5, -5, 15, 15));
}

#[test]
fn scenario_subtree_removal_with_opaque_composite() {
    // root -> a -> [b (text-bearing), c (atomic leaf widget with a private child)]
    let d = element(5, TagKind::Composite, with_layer(3), Vec::new());
    let c = element(4, TagKind::AtomicLeaf, with_layer(2), vec![d]);
    let b = element(3, TagKind::Composite, with_layer_cursor(1, 7), Vec::new());
    let a = element(2, TagKind::Composite, with_layer(1), vec![b, c]);
    let root = element(1, TagKind::Composite, with_layer(0), vec![a]);

    let mut w = writer_with(vec![root]);
    w.tree.elem_map.set(10, 2);
    w.layers.insert_node_in_layer(2, 1);
    w.layers.insert_node_in_layer(3, 1);
    w.layers.insert_node_in_layer(4, 2);
    w.layers.insert_node_in_layer(5, 3);
    w.paragraphs.insert_paragraph(3, 7);
    w.layout.insert(3, Rect::new(0, 0, 10, 10));
    w.layout.insert(4, Rect::new(10, 0, 5, 5));
    w.layout.insert(5, Rect::new(100, 100, 5, 5));

    w.remove(10);

    // The pre-removal areas of b and c were unioned; the pruned private child
    // d contributed nothing to the dirty rectangle.
    assert_eq!(w.dirty_rect, Some(Rect::new(0, 0, 15, 10)));
    // a, b and c left the layer registry; the pruned child d was not visited.
    assert!(!w.layers.node_in_layer(2, 1));
    assert!(!w.layers.node_in_layer(3, 1));
    assert!(!w.layers.node_in_layer(4, 2));
    assert!(w.layers.node_in_layer(5, 3));
    // b's paragraph registration is gone.
    assert!(!w.paragraphs.has_paragraph(3, 7));
    // The layout tree forgot the whole subtree, the pruned child included.
    assert!(w.layout.get(3).is_none());
    assert!(w.layout.get(4).is_none());
    assert!(w.layout.get(5).is_none());
}

#[test]
fn scenario_replace_node_runs_cascade_first() {
    // x sits in layer 1 with area (2,2,6,6); replacing it with two new nodes
    // must deregister it and union its pre-removal area into the dirty rect.
    let x = element(2, TagKind::Composite, with_layer(1), Vec::new());
    let root = element(1, TagKind::Composite, with_layer(0), vec![x]);
    let mut w = writer_with(vec![root]);
    w.tree.elem_map.set(10, 2);
    w.layers.insert_node_in_layer(2, 1);
    w.layout.insert(2, Rect::new(2, 2, 6, 6));

    w.create_placeholder(11);
    w.create_placeholder(12);
    assert_eq!(w.stack.len(), 2);

    w.replace_node_with(10, 2);

    assert_eq!(w.dirty_rect, Some(Rect::new(2, 2, 6, 6)));
    assert!(!w.layers.node_in_layer(2, 1));
    assert!(w.layout.get(2).is_none());
    assert_eq!(w.stack.len(), 0);
    // The two new nodes took x's position under the root.
    let root_now = find_in_vec(&w.tree.roots, 1).unwrap();
    assert_eq!(root_now.children.len(), 2);
    assert!(find_in_vec(&w.tree.roots, 2).is_none());
}

#[test]
fn idempotent_re_removal() {
    let a = element(2, TagKind::Composite, with_layer(1), Vec::new());
    let root = element(1, TagKind::Composite, with_layer(0), vec![a]);
    let mut w = writer_with(vec![root]);
    w.tree.elem_map.set(10, 2);
    w.layers.insert_node_in_layer(2, 1);
    w.layout.insert(2, Rect::new(1, 1, 4, 4));

    w.remove_node(10);
    assert_eq!(w.dirty_rect, Some(Rect::new(1, 1, 4, 4)));

    // The identifier no longer resolves: a second removal neither panics nor
    // unions the rectangle twice.
    w.remove_node(10);
    w.remove(10);
    assert_eq!(w.dirty_rect, Some(Rect::new(1, 1, 4, 4)));
}

#[test]
fn removal_of_still_mapped_but_detached_node_is_noop() {
    let a = element(2, TagKind::Composite, with_layer(1), Vec::new());
    let root = element(1, TagKind::Composite, with_layer(0), vec![a]);
    let mut w = writer_with(vec![root]);
    w.tree.elem_map.set(10, 2);
    w.layout.insert(2, Rect::new(1, 1, 4, 4));

    // remove() runs the cascade but leaves the mapping and the structure to
    // its callers, so a repeated cascade sees an empty layout entry.
    w.remove(10);
    assert_eq!(w.dirty_rect, Some(Rect::new(1, 1, 4, 4)));
    w.remove(10);
    assert_eq!(w.dirty_rect, Some(Rect::new(1, 1, 4, 4)));
}

#[test]
fn node_without_derived_state_is_skipped_entirely() {
    // A node created and removed within the same batch has no derived state:
    // it was never registered anywhere and must contribute nothing.
    let fresh = element(2, TagKind::Composite, None, Vec::new());
    let root = element(1, TagKind::Composite, with_layer(0), vec![fresh]);
    let mut w = writer_with(vec![root]);
    w.tree.elem_map.set(10, 2);
    w.layers.insert_node_in_layer(9, 4);
    w.layout.insert(2, Rect::new(0, 0, 8, 8));

    w.remove(10);

    assert_eq!(w.dirty_rect, None);
    assert!(w.layers.node_in_layer(9, 4));
    // Structural layout removal still happened.
    assert!(w.layout.get(2).is_none());
}

#[test]
fn dirty_rect_union_is_order_independent() {
    let a = element(2, TagKind::Composite, with_layer(1), Vec::new());
    let b = element(3, TagKind::Composite, with_layer(1), Vec::new());
    let root = element(1, TagKind::Composite, with_layer(0), vec![a, b]);
    let mut w1 = writer_with(vec![root]);
    w1.tree.elem_map.set(10, 2);
    w1.tree.elem_map.set(11, 3);
    w1.layout.insert(2, Rect::new(0, 0, 4, 4));
    w1.layout.insert(3, Rect::new(6, 6, 2, 2));

    let a2 = element(2, TagKind::Composite, with_layer(1), Vec::new());
    let b2 = element(3, TagKind::Composite, with_layer(1), Vec::new());
    let root2 = element(1, TagKind::Composite, with_layer(0), vec![a2, b2]);
    let mut w2 = writer_with(vec![root2]);
    w2.tree.elem_map.set(10, 2);
    w2.tree.elem_map.set(11, 3);
    w2.layout.insert(2, Rect::new(0, 0, 4, 4));
    w2.layout.insert(3, Rect::new(6, 6, 2, 2));

    w1.remove(10);
    w1.remove(11);
    w2.remove(11);
    w2.remove(10);
    assert_eq!(w1.dirty_rect, Some(Rect::new(0, 0, 8, 8)));
    assert_eq!(w1.dirty_rect, w2.dirty_rect);
}

#[test]
fn take_dirty_rect_resets_the_frame() {
    let a = element(2, TagKind::Composite, with_layer(1), Vec::new());
    let root = element(1, TagKind::Composite, with_layer(0), vec![a]);
    let mut w = writer_with(vec![root]);
    w.tree.elem_map.set(10, 2);
    w.layout.insert(2, Rect::new(0, 0, 4, 4));
    w.remove(10);
    assert_eq!(w.take_dirty_rect(), Some(Rect::new(0, 0, 4, 4)));
    assert_eq!(w.dirty_rect, None);
}

#[test]
fn missing_layout_area_skips_contribution_but_not_cleanup() {
    // a has derived state but no resolved area: its registry entries still go,
    // and the dirty rectangle only reflects its measured sibling.
    let b = element(3, TagKind::Composite, with_layer(2), Vec::new());
    let a = element(2, TagKind::Composite, with_layer(1), vec![b]);
    let root = element(1, TagKind::Composite, with_layer(0), vec![a]);
    let mut w = writer_with(vec![root]);
    w.tree.elem_map.set(10, 2);
    w.layers.insert_node_in_layer(2, 1);
    w.layers.insert_node_in_layer(3, 2);
    w.layout.insert(3, Rect::new(5, 5, 1, 1));

    w.remove(10);

    assert_eq!(w.dirty_rect, Some(Rect::new(5, 5, 1, 1)));
    assert!(!w.layers.node_in_layer(2, 1));
    assert!(!w.layers.node_in_layer(3, 2));
}

#[test]
fn non_visible_node_is_traversed_through() {
    // A placeholder wraps a visible element: the wrapper is skipped but its
    // content is still processed.
    let inner = element(3, TagKind::Composite, with_layer(2), Vec::new());
    let wrapper = Node {
        id: 2,
        kind: NodeKind::Placeholder,
        state: None,
        text: None,
        attrs: Vec::new(),
        listeners: Vec::new(),
        children: vec![inner],
    };
    let root = element(1, TagKind::Composite, with_layer(0), vec![wrapper]);
    let mut w = writer_with(vec![root]);
    w.tree.elem_map.set(10, 2);
    w.layers.insert_node_in_layer(3, 2);
    w.layout.insert(3, Rect::new(0, 0, 3, 3));

    w.remove(10);

    assert!(!w.layers.node_in_layer(3, 2));
    assert_eq!(w.dirty_rect, Some(Rect::new(0, 0, 3, 3)));
}
