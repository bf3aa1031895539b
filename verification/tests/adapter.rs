use mutation_engine::rect::Rect;
use mutation_engine::registries::{Layers, ParagraphElements, CompositorDirtyNodes};
use mutation_engine::layout::LayoutTree;
use mutation_engine::node::{Node, NodeKind, TagKind, DerivedState, find_in_vec};
use mutation_engine::template::{Template, TemplateNode};
use mutation_engine::writer::{MutationsWriter, RenderTree};

fn element(id: u64, tag: TagKind, state: Option<DerivedState>, children: Vec<Node>) -> Node {
    Node {
        id,
        kind: NodeKind::Element(tag),
        state,
        text: None,
        attrs: Vec::new(),
        listeners: Vec::new(),
        children,
    }
}

fn with_layer(layer: i64) -> Option<DerivedState> {
    Some(DerivedState { layer, cursor: None })
}

fn writer_with(roots: Vec<Node>) -> MutationsWriter {
    let mut tree = RenderTree::new();
    tree.roots = roots;
    tree.next_id = 100;
    MutationsWriter::new(
        tree,
        LayoutTree::new(),
        Layers::new(),
        ParagraphElements::new(),
        CompositorDirtyNodes::new(),
    )
}

#[test]
fn create_and_append_children() {
    let root = element(1, TagKind::Composite, with_layer(0), Vec::new());
    let mut w = writer_with(vec![root]);
    w.tree.elem_map.set(0, 1);

    w.create_placeholder(5);
    w.create_text_node(String::from("hello"), 6);
    assert_eq!(w.stack.len(), 2);
    w.append_children(0, 2);
    assert_eq!(w.stack.len(), 0);

    let root_now = find_in_vec(&w.tree.roots, 1).unwrap();
    assert_eq!(root_now.children.len(), 2);
    assert!(matches!(root_now.children[0].kind, NodeKind::Placeholder));
    assert!(matches!(root_now.children[1].kind, NodeKind::Text));
    assert_eq!(root_now.children[1].text.as_deref(), Some("hello"));
    // Freshly created nodes carry no derived state yet.
    assert!(root_now.children[0].state.is_none());
}

#[test]
fn insert_nodes_before_and_after() {
    let a = element(2, TagKind::Composite, with_layer(1), Vec::new());
    let root = element(1, TagKind::Composite, with_layer(0), vec![a]);
    let mut w = writer_with(vec![root]);
    w.tree.elem_map.set(10, 2);

    w.create_placeholder(11);
    w.insert_nodes_before(10, 1);
    w.create_placeholder(12);
    w.insert_nodes_after(10, 1);

    let root_now = find_in_vec(&w.tree.roots, 1).unwrap();
    assert_eq!(root_now.children.len(), 3);
    assert_eq!(root_now.children[1].id, 2);
    assert!(matches!(root_now.children[0].kind, NodeKind::Placeholder));
    assert!(matches!(root_now.children[2].kind, NodeKind::Placeholder));
}

#[test]
fn set_node_text_invalidates_before_replacing() {
    let a = element(2, TagKind::Composite, with_layer(1), Vec::new());
    let root = element(1, TagKind::Composite, with_layer(0), vec![a]);
    let mut w = writer_with(vec![root]);
    w.tree.elem_map.set(10, 2);
    w.layout.insert(2, Rect::new(0, 0, 4, 4));

    w.set_node_text(String::from("updated"), 10);

    assert!(w.compositor_dirty_nodes.contains(2));
    assert!(w.layout.is_pending(2));
    let a_now = find_in_vec(&w.tree.roots, 2).unwrap();
    assert_eq!(a_now.text.as_deref(), Some("updated"));
}

#[test]
fn attributes_and_listeners() {
    let a = element(2, TagKind::Composite, with_layer(1), Vec::new());
    let root = element(1, TagKind::Composite, with_layer(0), vec![a]);
    let mut w = writer_with(vec![root]);
    w.tree.elem_map.set(10, 2);

    w.set_attribute(40, 700, 10);
    w.set_attribute(41, 800, 10);
    w.create_event_listener(90, 10);
    w.create_event_listener(91, 10);
    w.remove_event_listener(90, 10);

    let a_now = find_in_vec(&w.tree.roots, 2).unwrap();
    assert_eq!(a_now.attrs, vec![(40, 700), (41, 800)]);
    assert_eq!(a_now.listeners, vec![91]);
}

#[test]
fn template_round_trip() {
    let root = element(1, TagKind::Composite, with_layer(0), Vec::new());
    let mut w = writer_with(vec![root]);
    w.tree.elem_map.set(0, 1);

    let template = Template {
        name: 77,
        roots: vec![TemplateNode::Element {
            tag: TagKind::Composite,
            children: vec![
                TemplateNode::Text { text: String::from("title") },
                TemplateNode::Placeholder,
            ],
        }],
    };
    w.register_template(template);

    let first_fresh = w.tree.next_id;
    w.load_template(77, 0, 20);
    assert_eq!(w.stack.len(), 1);
    assert_eq!(w.stack[0].id, first_fresh);
    assert_eq!(w.stack[0].children.len(), 2);
    // Identifiers are assigned consecutively in document order.
    assert_eq!(w.stack[0].children[0].id, first_fresh + 1);
    assert_eq!(w.stack[0].children[1].id, first_fresh + 2);
    assert_eq!(w.tree.next_id, first_fresh + 3);

    // Address the placeholder inside the instance and hydrate the text node.
    w.assign_node_id(&[1], 21);
    w.hydrate_text_node(&[0], String::from("filled"), 22);
    assert_eq!(w.stack[0].children[0].text.as_deref(), Some("filled"));

    w.append_children(0, 1);
    let root_now = find_in_vec(&w.tree.roots, 1).unwrap();
    assert_eq!(root_now.children.len(), 1);
    assert!(find_in_vec(&w.tree.roots, first_fresh + 1).is_some());
}

#[test]
fn replace_placeholder_with_nodes_splices_in_place() {
    let root = element(1, TagKind::Composite, with_layer(0), Vec::new());
    let mut w = writer_with(vec![root]);
    w.tree.elem_map.set(0, 1);

    let template = Template {
        name: 5,
        roots: vec![TemplateNode::Element {
            tag: TagKind::Composite,
            children: vec![TemplateNode::Placeholder],
        }],
    };
    w.register_template(template);
    let base = w.tree.next_id;
    w.load_template(5, 0, 30);
    w.create_text_node(String::from("x"), 31);
    w.create_text_node(String::from("y"), 32);

    w.replace_placeholder_with_nodes(&[0], 2);

    assert_eq!(w.stack.len(), 1);
    assert_eq!(w.stack[0].children.len(), 2);
    assert_eq!(w.stack[0].children[0].text.as_deref(), Some("x"));
    assert_eq!(w.stack[0].children[1].text.as_deref(), Some("y"));
    assert!(find_in_vec(&w.stack, base + 1).is_none());
}

#[test]
fn push_root_detaches_onto_the_stack() {
    let a = element(2, TagKind::Composite, with_layer(1), Vec::new());
    let root = element(1, TagKind::Composite, with_layer(0), vec![a]);
    let mut w = writer_with(vec![root]);
    w.tree.elem_map.set(10, 2);

    w.push_root(10);

    assert_eq!(w.stack.len(), 1);
    assert_eq!(w.stack[0].id, 2);
    let root_now = find_in_vec(&w.tree.roots, 1).unwrap();
    assert_eq!(root_now.children.len(), 0);
}

#[test]
fn registries_add_and_remove_exactly() {
    let mut layers = Layers::new();
    layers.insert_node_in_layer(4, 2);
    assert!(layers.node_in_layer(4, 2));
    // Removing under the wrong layer leaves the assignment alone.
    layers.remove_node_from_layer(4, 3);
    assert!(layers.node_in_layer(4, 2));
    layers.remove_node_from_layer(4, 2);
    assert!(!layers.node_in_layer(4, 2));

    let mut paras = ParagraphElements::new();
    paras.insert_paragraph(4, 9);
    assert!(paras.has_paragraph(4, 9));
    paras.remove_paragraph(4, 8);
    assert!(paras.has_paragraph(4, 9));
    paras.remove_paragraph(4, 9);
    assert!(!paras.has_paragraph(4, 9));
}
