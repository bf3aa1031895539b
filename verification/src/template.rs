//! Reusable node templates.  The upstream diffing producer registers a
//! template once and then instantiates it by name; instantiation stamps the
//! template structure into fresh render-tree nodes with consecutive
//! identifiers assigned in document order.

use vstd::prelude::*;
use crate::node::{Node, NodeKind, TagKind, subtree_ids, subtree_ids_seq};

verus! {

/// One node of a registered template.
pub enum TemplateNode {
    Element { tag: TagKind, children: Vec<TemplateNode> },
    Text { text: String },
    Placeholder,
}

/// A named, reusable subtree description with one or more roots.
pub struct Template {
    pub name: u64,
    pub roots: Vec<TemplateNode>,
}

/// Number of nodes an instantiation of `t` creates.
pub open spec fn t_size(t: TemplateNode) -> nat
    decreases t, 1int,
{
    match t {
        TemplateNode::Element { tag, children } => 1 + t_size_seq(children@),
        _ => 1,
    }
}

pub open spec fn t_size_seq(s: Seq<TemplateNode>) -> nat
    decreases s, 0int,
{
    if s.len() == 0 {
        0
    } else {
        t_size(s[0]) + t_size_seq(s.drop_first())
    }
}

/// A freshly instantiated node mirrors the template structure exactly: same
/// kinds and text, no derived state yet, no attributes and no listeners.
pub open spec fn matches_template(n: Node, t: TemplateNode) -> bool
    decreases t, 1int,
{
    match t {
        TemplateNode::Element { tag, children } => {
            &&& n.kind == NodeKind::Element(tag)
            &&& n.state is None
            &&& n.text is None
            &&& n.attrs@.len() == 0
            &&& n.listeners@.len() == 0
            &&& matches_template_seq(n.children@, children@)
        },
        TemplateNode::Text { text } => {
            &&& n.kind == NodeKind::Text
            &&& n.state is None
            &&& n.text == Some(text)
            &&& n.attrs@.len() == 0
            &&& n.listeners@.len() == 0
            &&& n.children@.len() == 0
        },
        TemplateNode::Placeholder => {
            &&& n.kind == NodeKind::Placeholder
            &&& n.state is None
            &&& n.text is None
            &&& n.attrs@.len() == 0
            &&& n.listeners@.len() == 0
            &&& n.children@.len() == 0
        },
    }
}

pub open spec fn matches_template_seq(ns: Seq<Node>, ts: Seq<TemplateNode>) -> bool
    decreases ts, 0int,
{
    &&& ns.len() == ts.len()
    &&& if ts.len() == 0 {
        true
    } else {
        matches_template(ns[0], ts[0]) && matches_template_seq(ns.drop_first(), ts.drop_first())
    }
}

/// The consecutive identifiers `base, base + 1, ...` of length `len`.
pub open spec fn id_run(base: int, len: nat) -> Seq<u64> {
    Seq::new(len, |i: int| (base + i) as u64)
}

pub proof fn lemma_matches_seq_push(ns: Seq<Node>, ts: Seq<TemplateNode>, n: Node, t: TemplateNode)
    requires
        matches_template_seq(ns, ts),
        matches_template(n, t),
    ensures
        matches_template_seq(ns.push(n), ts.push(t)),
    decreases ts.len(),
{
    assert(ns.push(n)[0] == if ns.len() == 0 { n } else { ns[0] });
    assert(ts.push(t)[0] == if ts.len() == 0 { t } else { ts[0] });
    assert(matches_template_seq(ns.push(n), ts.push(t)) == (
        ns.push(n).len() == ts.push(t).len()
        && matches_template(ns.push(n)[0], ts.push(t)[0])
        && matches_template_seq(ns.push(n).drop_first(), ts.push(t).drop_first())));
    if ts.len() == 0 {
        assert(ns.push(n).drop_first() =~= Seq::<Node>::empty());
        assert(ts.push(t).drop_first() =~= Seq::<TemplateNode>::empty());
        assert(matches_template_seq(ns.push(n).drop_first(), ts.push(t).drop_first()));
    } else {
        lemma_matches_seq_push(ns.drop_first(), ts.drop_first(), n, t);
        assert(ns.push(n).drop_first() =~= ns.drop_first().push(n));
        assert(ts.push(t).drop_first() =~= ts.drop_first().push(t));
    }
}

pub proof fn lemma_t_size_seq_push(ts: Seq<TemplateNode>, t: TemplateNode)
    ensures
        t_size_seq(ts.push(t)) == t_size_seq(ts) + t_size(t),
    decreases ts.len(),
{
    assert(ts.push(t)[0] == if ts.len() == 0 { t } else { ts[0] });
    assert(t_size_seq(ts.push(t)) == t_size(ts.push(t)[0]) + t_size_seq(ts.push(t).drop_first()));
    if ts.len() == 0 {
        assert(ts.push(t).drop_first() =~= Seq::<TemplateNode>::empty());
        assert(t_size_seq(ts.push(t).drop_first()) == 0);
    } else {
        lemma_t_size_seq_push(ts.drop_first(), t);
        assert(ts.push(t).drop_first() =~= ts.drop_first().push(t));
    }
}

pub proof fn lemma_t_size_seq_elem(ts: Seq<TemplateNode>, i: int)
    requires
        0 <= i < ts.len(),
    ensures
        t_size(ts[i]) <= t_size_seq(ts),
    decreases ts.len(),
{
    if i > 0 {
        lemma_t_size_seq_elem(ts.drop_first(), i - 1);
    }
}

pub proof fn lemma_t_size_seq_split(ts: Seq<TemplateNode>, i: int)
    requires
        0 <= i < ts.len(),
    ensures
        t_size_seq(ts.take(i + 1)) == t_size_seq(ts.take(i)) + t_size(ts[i]),
        t_size_seq(ts.skip(i)) == t_size(ts[i]) + t_size_seq(ts.skip(i + 1)),
{
    assert(ts.take(i + 1) =~= ts.take(i).push(ts[i]));
    lemma_t_size_seq_push(ts.take(i), ts[i]);
    assert(ts.skip(i).len() > 0);
    assert(ts.skip(i)[0] == ts[i]);
    assert(ts.skip(i).drop_first() =~= ts.skip(i + 1));
}

pub proof fn lemma_subtree_ids_seq_push(ns: Seq<Node>, n: Node)
    ensures
        subtree_ids_seq(ns.push(n)) == subtree_ids_seq(ns) + subtree_ids(n),
    decreases ns.len(),
{
    assert(ns.push(n)[0] == if ns.len() == 0 { n } else { ns[0] });
    assert(subtree_ids_seq(ns.push(n)) == subtree_ids(ns.push(n)[0]) + subtree_ids_seq(ns.push(n).drop_first()));
    if ns.len() == 0 {
        assert(ns.push(n).drop_first() =~= Seq::<Node>::empty());
        assert(subtree_ids_seq(ns.push(n).drop_first()) =~= Seq::<u64>::empty());
        assert(subtree_ids_seq(ns) + subtree_ids(n) =~= subtree_ids(n));
    } else {
        lemma_subtree_ids_seq_push(ns.drop_first(), n);
        assert(ns.push(n).drop_first() =~= ns.drop_first().push(n));
        assert(subtree_ids(ns[0]) + (subtree_ids_seq(ns.drop_first()) + subtree_ids(n))
            =~= subtree_ids_seq(ns) + subtree_ids(n));
    }
}

/// Instantiate template node `t`, assigning fresh identifiers consecutively in
/// document order starting at `next`; returns the new subtree and the next
/// free identifier.
pub fn instantiate(t: &TemplateNode, next: u64) -> (res: (Node, u64))
    requires
        next + t_size(*t) <= u64::MAX,
    ensures
        res.1 == next + t_size(*t),
        matches_template(res.0, *t),
        subtree_ids(res.0) == id_run(next as int, t_size(*t)),
        res.0.id == next,
    decreases t_size(*t),
{
    match t {
        TemplateNode::Element { tag, children } => {
            let mut kids: Vec<Node> = Vec::new();
            let mut cur: u64 = next + 1;
            let mut ci: usize = 0;
            proof {
                assert(children@.take(0) =~= Seq::<TemplateNode>::empty());
                assert(children@.skip(0) =~= children@);
                assert(subtree_ids_seq(kids@) =~= id_run(next + 1, 0));
            }
            while ci < children.len()
                invariant
                    ci <= children.len(),
                    next + t_size(*t) <= u64::MAX,
                    t_size(*t) == 1 + t_size_seq(children@),
                    cur == next + 1 + t_size_seq(children@.take(ci as int)),
                    cur + t_size_seq(children@.skip(ci as int)) == next + t_size(*t),
                    matches_template_seq(kids@, children@.take(ci as int)),
                    subtree_ids_seq(kids@) == id_run(next + 1, t_size_seq(children@.take(ci as int))),
                decreases children.len() - ci,
            {
                proof {
                    lemma_t_size_seq_split(children@, ci as int);
                }
                let (kid, nc) = instantiate(&children[ci], cur);
                proof {
                    lemma_matches_seq_push(kids@, children@.take(ci as int), kid, children@[ci as int]);
                    lemma_subtree_ids_seq_push(kids@, kid);
                    assert(children@.take(ci as int + 1) =~= children@.take(ci as int).push(children@[ci as int]));
                    let m = t_size_seq(children@.take(ci as int));
                    let k = t_size(children@[ci as int]);
                    assert(id_run(next + 1, m) + id_run(cur as int, k) =~= id_run(next + 1, m + k));
                }
                kids.push(kid);
                cur = nc;
                ci += 1;
            }
            proof {
                assert(children@.take(children@.len() as int) =~= children@);
            }
            let node = Node {
                id: next,
                kind: NodeKind::Element(*tag),
                state: None,
                text: None,
                attrs: Vec::new(),
                listeners: Vec::new(),
                children: kids,
            };
            proof {
                assert(subtree_ids(node) == seq![node.id] + subtree_ids_seq(node.children@));
                assert(seq![next] + id_run(next + 1, t_size_seq(children@))
                    =~= id_run(next as int, 1 + t_size_seq(children@)));
            }
            (node, cur)
        },
        TemplateNode::Text { text } => {
            let node = Node {
                id: next,
                kind: NodeKind::Text,
                state: None,
                text: Some(text.clone()),
                attrs: Vec::new(),
                listeners: Vec::new(),
                children: Vec::new(),
            };
            proof {
                assert(subtree_ids_seq(node.children@) =~= Seq::<u64>::empty());
                assert(subtree_ids(node) =~= id_run(next as int, 1));
            }
            (node, next + 1)
        },
        TemplateNode::Placeholder => {
            let node = Node {
                id: next,
                kind: NodeKind::Placeholder,
                state: None,
                text: None,
                attrs: Vec::new(),
                listeners: Vec::new(),
                children: Vec::new(),
            };
            proof {
                assert(subtree_ids_seq(node.children@) =~= Seq::<u64>::empty());
                assert(subtree_ids(node) =~= id_run(next as int, 1));
            }
            (node, next + 1)
        },
    }
}

} // verus!
