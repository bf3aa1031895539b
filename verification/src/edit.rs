//! Primitive structural edits on the render forest: locate a node by
//! identifier, depth-first, and apply one command at its position.  All
//! adapter operations of the mutation engine ride this single workhorse.

use vstd::prelude::*;
use crate::node::{Node, find_node, find_in_seq_spec, find_in_vec, size_seq, lemma_size_seq_elem};

verus! {

/// One primitive structural change, addressed at a node identifier.
pub enum Cmd {
    /// Append these nodes after the target's existing children.
    Append(Vec<Node>),
    /// Insert these nodes as siblings immediately before the target.
    InsertBefore(Vec<Node>),
    /// Insert these nodes as siblings immediately after the target.
    InsertAfter(Vec<Node>),
    /// Replace the target and its subtree with these nodes.
    ReplaceWith(Vec<Node>),
    /// Remove the target and its subtree.
    Detach,
    /// Replace the target's text content.
    SetText(String),
    /// Set or overwrite one attribute of the target.
    SetAttr(u64, u64),
    /// Add an event listener to the target.
    AddListener(u64),
    /// Remove every listener of this name from the target.
    RemoveListener(u64),
}

/// The mathematical content of a command.
pub enum CmdView {
    Append(Seq<Node>),
    InsertBefore(Seq<Node>),
    InsertAfter(Seq<Node>),
    ReplaceWith(Seq<Node>),
    Detach,
    SetText(Seq<char>),
    SetAttr(u64, u64),
    AddListener(u64),
    RemoveListener(u64),
}

impl View for Cmd {
    type V = CmdView;

    open spec fn view(&self) -> CmdView {
        match self {
            Cmd::Append(v) => CmdView::Append(v@),
            Cmd::InsertBefore(v) => CmdView::InsertBefore(v@),
            Cmd::InsertAfter(v) => CmdView::InsertAfter(v@),
            Cmd::ReplaceWith(v) => CmdView::ReplaceWith(v@),
            Cmd::Detach => CmdView::Detach,
            Cmd::SetText(s) => CmdView::SetText(s@),
            Cmd::SetAttr(a, v) => CmdView::SetAttr(*a, *v),
            Cmd::AddListener(e) => CmdView::AddListener(*e),
            Cmd::RemoveListener(e) => CmdView::RemoveListener(*e),
        }
    }
}

/// `b` is `a` with its child list replaced by `cs`; all other fields equal.
pub open spec fn same_but_children(a: Node, b: Node, cs: Seq<Node>) -> bool {
    &&& b.id == a.id
    &&& b.kind == a.kind
    &&& b.state == a.state
    &&& b.text == a.text
    &&& b.attrs@ == a.attrs@
    &&& b.listeners@ == a.listeners@
    &&& b.children@ == cs
}

/// `b` is `a` transformed in place by a non-structural command.
pub open spec fn node_edited(a: Node, b: Node, c: CmdView) -> bool {
    match c {
        CmdView::Append(cs) => same_but_children(a, b, a.children@ + cs),
        CmdView::SetText(t) => {
            &&& b.id == a.id
            &&& b.kind == a.kind
            &&& b.state == a.state
            &&& b.text matches Some(s) && s@ == t
            &&& b.attrs@ == a.attrs@
            &&& b.listeners@ == a.listeners@
            &&& b.children@ == a.children@
        },
        CmdView::SetAttr(name, value) => {
            &&& b.id == a.id
            &&& b.kind == a.kind
            &&& b.state == a.state
            &&& b.text == a.text
            &&& b.attrs@ == a.attrs@.push((name, value))
            &&& b.listeners@ == a.listeners@
            &&& b.children@ == a.children@
        },
        CmdView::AddListener(e) => {
            &&& b.id == a.id
            &&& b.kind == a.kind
            &&& b.state == a.state
            &&& b.text == a.text
            &&& b.attrs@ == a.attrs@
            &&& b.listeners@ == a.listeners@.push(e)
            &&& b.children@ == a.children@
        },
        CmdView::RemoveListener(e) => {
            &&& b.id == a.id
            &&& b.kind == a.kind
            &&& b.state == a.state
            &&& b.text == a.text
            &&& b.attrs@ == a.attrs@
            &&& b.listeners@ == a.listeners@.filter(|x: u64| x != e)
            &&& b.children@ == a.children@
        },
        _ => false,
    }
}

/// Whether a command edits the hit node in place (as opposed to changing the
/// sibling list around it).
pub open spec fn cmd_in_place(c: CmdView) -> bool {
    match c {
        CmdView::Append(_) => true,
        CmdView::SetText(_) => true,
        CmdView::SetAttr(_, _) => true,
        CmdView::AddListener(_) => true,
        CmdView::RemoveListener(_) => true,
        _ => false,
    }
}

/// `s2` is `s` with command `c` applied at the first node whose identifier is
/// `target`, depth-first in document order.  The relation pins `s2` down
/// completely; when no node of `s` has the identifier, it requires `s2 == s`.
pub open spec fn edit_rel(s: Seq<Node>, target: u64, c: CmdView, s2: Seq<Node>) -> bool
    decreases s, 0int,
{
    if s.len() == 0 {
        s2 == s
    } else if s[0].id == target {
        if cmd_in_place(c) {
            &&& s2.len() == s.len()
            &&& node_edited(s[0], s2[0], c)
            &&& s2.drop_first() == s.drop_first()
        } else {
            match c {
                CmdView::InsertBefore(cs) => s2 == cs + s,
                CmdView::InsertAfter(cs) => s2 == seq![s[0]] + cs + s.drop_first(),
                CmdView::ReplaceWith(cs) => s2 == cs + s.drop_first(),
                CmdView::Detach => s2 == s.drop_first(),
                _ => false,
            }
        }
    } else if find_in_seq_spec(s[0].children@, target) is Some {
        &&& s2.len() == s.len()
        &&& same_but_children(s[0], s2[0], s2[0].children@)
        &&& edit_rel(s[0].children@, target, c, s2[0].children@)
        &&& s2.drop_first() == s.drop_first()
    } else {
        &&& s2.len() >= 1
        &&& s2[0] == s[0]
        &&& edit_rel(s.drop_first(), target, c, s2.drop_first())
    }
}

/// Outcome of applying a command: either the target was not found and the
/// command (with any nodes it carried) is handed back, or the edit was made
/// and a detached subtree, if any, is returned.
pub enum EditOut {
    Missed(Cmd),
    Hit(Option<Node>),
}

/// Insert the nodes of `cs` into `nodes` starting at position `i`, keeping
/// their order.
fn splice_at(nodes: &mut Vec<Node>, i: usize, cs: Vec<Node>)
    requires
        i <= old(nodes).len(),
    ensures
        final(nodes)@ == old(nodes)@.take(i as int) + cs@ + old(nodes)@.skip(i as int),
{
    let ghost orig = nodes@;
    let ghost all = cs@;
    let mut rest = cs;
    proof {
        assert(rest@ =~= all.take(rest@.len() as int));
        assert(nodes@ =~= orig.take(i as int) + all.skip(rest@.len() as int) + orig.skip(i as int));
    }
    while rest.len() > 0
        invariant
            i <= orig.len(),
            rest@.len() <= all.len(),
            rest@ == all.take(rest@.len() as int),
            nodes@ == orig.take(i as int) + all.skip(rest@.len() as int) + orig.skip(i as int),
        decreases rest@.len(),
    {
        let ghost rl = rest@.len() as int;
        let x = rest.pop().unwrap();
        proof {
            assert(all.take(rl)[rl - 1] == all[rl - 1]);
            assert(rest@ =~= all.take(rl - 1));
        }
        let ghost before = nodes@;
        nodes.insert(i, x);
        proof {
            assert(nodes@ =~= before.take(i as int) + seq![x] + before.skip(i as int));
            assert(before.take(i as int) =~= orig.take(i as int));
            assert(before.skip(i as int) =~= all.skip(rl) + orig.skip(i as int));
            assert(seq![x] + (all.skip(rl) + orig.skip(i as int)) =~= all.skip(rl - 1) + orig.skip(i as int));
            assert(nodes@ =~= orig.take(i as int) + all.skip(rl - 1) + orig.skip(i as int));
        }
    }
    proof {
        assert(all.take(0) =~= Seq::<Node>::empty());
        assert(rest@.len() == 0);
        assert(all.skip(0) =~= all);
    }
}

/// The guards of the traversal, collected for the reconstruction lemma: no
/// node of the first `i` entries is, or contains, the target.
pub open spec fn prefix_misses(s: Seq<Node>, target: u64, i: int) -> bool {
    forall|j: int| 0 <= j < i ==> s[j].id != target
        && find_in_seq_spec(#[trigger] s[j].children@, target) is None
}

/// If the first `i` entries miss the target and are unchanged, an edit of the
/// remainder is an edit of the whole sequence.
pub proof fn lemma_edit_rel_prefix(s: Seq<Node>, target: u64, c: CmdView, s2: Seq<Node>, i: int)
    requires
        0 <= i <= s.len(),
        i <= s2.len(),
        prefix_misses(s, target, i),
        s2.take(i) == s.take(i),
        edit_rel(s.skip(i), target, c, s2.skip(i)),
    ensures
        edit_rel(s, target, c, s2),
    decreases i,
{
    if i == 0 {
        assert(s.skip(0) =~= s);
        assert(s2.skip(0) =~= s2);
    } else {
        assert(s.take(i)[0] == s[0]);
        assert(s2.take(i)[0] == s2[0]);
        assert(s2[0] == s[0]);
        assert(s.drop_first().take(i - 1) =~= s.take(i).drop_first());
        assert(s2.drop_first().take(i - 1) =~= s2.take(i).drop_first());
        assert(s.drop_first().skip(i - 1) =~= s.skip(i));
        assert(s2.drop_first().skip(i - 1) =~= s2.skip(i));
        assert(prefix_misses(s.drop_first(), target, i - 1)) by {
            assert(forall|j: int| 0 <= j < i - 1 ==> s.drop_first()[j] == s[j + 1]);
        }
        lemma_edit_rel_prefix(s.drop_first(), target, c, s2.drop_first(), i - 1);
        assert(s[0].id != target);
        assert(find_in_seq_spec(s[0].children@, target) is None);
        assert(s2.len() >= 1);
    }
}

/// Apply `cmd` at the first node with identifier `target` among `nodes` and
/// their descendants, depth-first in document order.  When the target is not
/// found the forest is unchanged and the command is handed back.
pub fn edit_in(nodes: &mut Vec<Node>, target: u64, cmd: Cmd) -> (out: EditOut)
    ensures
        match out {
            EditOut::Missed(c) => {
                &&& c == cmd
                &&& *final(nodes) == *old(nodes)
                &&& find_in_seq_spec(old(nodes)@, target) is None
            },
            EditOut::Hit(d) => {
                &&& find_in_seq_spec(old(nodes)@, target) is Some
                &&& edit_rel(old(nodes)@, target, cmd@, final(nodes)@)
                &&& match d {
                    Some(n) => cmd@ is Detach && find_in_seq_spec(old(nodes)@, target) == Some(n),
                    None => !(cmd@ is Detach),
                }
            },
        },
    decreases size_seq(old(nodes)@),
{
    let ghost orig = nodes@;
    let ghost c0 = cmd@;
    let mut pending = cmd;
    let mut i: usize = 0;
    proof {
        assert(orig.skip(0) =~= orig);
    }
    while i < nodes.len()
        invariant
            i <= nodes@.len(),
            orig == old(nodes)@,
            *nodes == *old(nodes),
            nodes@ == orig,
            pending == cmd,
            c0 == cmd@,
            find_in_seq_spec(orig, target) == find_in_seq_spec(orig.skip(i as int), target),
            prefix_misses(orig, target, i as int),
        decreases nodes@.len() - i,
    {
        let ghost tail = orig.skip(i as int);
        proof {
            assert(tail[0] == orig[i as int]);
            assert(tail.drop_first() =~= orig.skip(i as int + 1));
        }
        if nodes[i].id == target {
            match pending {
                Cmd::Append(cs) => {
                    let mut nd = nodes.remove(i);
                    let mut more = cs;
                    nd.children.append(&mut more);
                    let ghost nd2 = nd;
                    nodes.insert(i, nd);
                    proof {
                        assert(nodes@ =~= orig.take(i as int).push(nd2) + orig.skip(i as int + 1));
                        assert(nodes@.take(i as int) =~= orig.take(i as int));
                        assert(nodes@.skip(i as int) =~= seq![nd2] + orig.skip(i as int + 1));
                        assert(nodes@.skip(i as int).drop_first() =~= tail.drop_first());
                        assert(node_edited(tail[0], nd2, c0));
                        assert(edit_rel(tail, target, c0, nodes@.skip(i as int)));
                        lemma_edit_rel_prefix(orig, target, c0, nodes@, i as int);
                        assert(find_node(tail[0], target) == Some(tail[0]));
                        assert(find_in_seq_spec(tail, target) == Some(tail[0]));
                    }
                    return EditOut::Hit(None);
                },
                Cmd::SetText(s) => {
                    let mut nd = nodes.remove(i);
                    nd.text = Some(s);
                    let ghost nd2 = nd;
                    nodes.insert(i, nd);
                    proof {
                        assert(nodes@ =~= orig.take(i as int).push(nd2) + orig.skip(i as int + 1));
                        assert(nodes@.take(i as int) =~= orig.take(i as int));
                        assert(nodes@.skip(i as int) =~= seq![nd2] + orig.skip(i as int + 1));
                        assert(nodes@.skip(i as int).drop_first() =~= tail.drop_first());
                        assert(edit_rel(tail, target, c0, nodes@.skip(i as int)));
                        lemma_edit_rel_prefix(orig, target, c0, nodes@, i as int);
                        assert(find_node(tail[0], target) == Some(tail[0]));
                        assert(find_in_seq_spec(tail, target) == Some(tail[0]));
                    }
                    return EditOut::Hit(None);
                },
                Cmd::SetAttr(name, value) => {
                    let mut nd = nodes.remove(i);
                    nd.attrs.push((name, value));
                    let ghost nd2 = nd;
                    nodes.insert(i, nd);
                    proof {
                        assert(nodes@ =~= orig.take(i as int).push(nd2) + orig.skip(i as int + 1));
                        assert(nodes@.take(i as int) =~= orig.take(i as int));
                        assert(nodes@.skip(i as int) =~= seq![nd2] + orig.skip(i as int + 1));
                        assert(nodes@.skip(i as int).drop_first() =~= tail.drop_first());
                        assert(edit_rel(tail, target, c0, nodes@.skip(i as int)));
                        lemma_edit_rel_prefix(orig, target, c0, nodes@, i as int);
                        assert(find_node(tail[0], target) == Some(tail[0]));
                        assert(find_in_seq_spec(tail, target) == Some(tail[0]));
                    }
                    return EditOut::Hit(None);
                },
                Cmd::AddListener(e) => {
                    let mut nd = nodes.remove(i);
                    nd.listeners.push(e);
                    let ghost nd2 = nd;
                    nodes.insert(i, nd);
                    proof {
                        assert(nodes@ =~= orig.take(i as int).push(nd2) + orig.skip(i as int + 1));
                        assert(nodes@.take(i as int) =~= orig.take(i as int));
                        assert(nodes@.skip(i as int) =~= seq![nd2] + orig.skip(i as int + 1));
                        assert(nodes@.skip(i as int).drop_first() =~= tail.drop_first());
                        assert(edit_rel(tail, target, c0, nodes@.skip(i as int)));
                        lemma_edit_rel_prefix(orig, target, c0, nodes@, i as int);
                        assert(find_node(tail[0], target) == Some(tail[0]));
                        assert(find_in_seq_spec(tail, target) == Some(tail[0]));
                    }
                    return EditOut::Hit(None);
                },
                Cmd::RemoveListener(e) => {
                    let mut nd = nodes.remove(i);
                    let mut kept: Vec<u64> = Vec::new();
                    let ghost ls = nd.listeners@;
                    let mut k: usize = 0;
                    proof {
                        assert(ls.take(0) =~= Seq::<u64>::empty());
                        assert(kept@ =~= ls.take(0).filter(|x: u64| x != e));
                    }
                    while k < nd.listeners.len()
                        invariant
                            k <= ls.len(),
                            nd.listeners@ == ls,
                            kept@ == ls.take(k as int).filter(|x: u64| x != e),
                        decreases ls.len() - k,
                    {
                        let l = nd.listeners[k];
                        if l != e {
                            kept.push(l);
                        }
                        proof {
                            let p = |x: u64| x != e;
                            assert(ls.take(k as int + 1) =~= ls.take(k as int).push(ls[k as int]));
                            assert(ls.take(k as int + 1).drop_last() =~= ls.take(k as int));
                            reveal_with_fuel(Seq::filter, 2);
                            assert(ls.take(k as int + 1).filter(p) == ls.take(k as int).filter(p)
                                + if p(ls[k as int]) { seq![ls[k as int]] } else { Seq::<u64>::empty() });
                            assert(kept@ =~= ls.take(k as int + 1).filter(p));
                        }
                        k += 1;
                    }
                    proof {
                        assert(ls.take(ls.len() as int) =~= ls);
                    }
                    nd.listeners = kept;
                    let ghost nd2 = nd;
                    nodes.insert(i, nd);
                    proof {
                        assert(nodes@ =~= orig.take(i as int).push(nd2) + orig.skip(i as int + 1));
                        assert(nodes@.take(i as int) =~= orig.take(i as int));
                        assert(nodes@.skip(i as int) =~= seq![nd2] + orig.skip(i as int + 1));
                        assert(nodes@.skip(i as int).drop_first() =~= tail.drop_first());
                        assert(edit_rel(tail, target, c0, nodes@.skip(i as int)));
                        lemma_edit_rel_prefix(orig, target, c0, nodes@, i as int);
                        assert(find_node(tail[0], target) == Some(tail[0]));
                        assert(find_in_seq_spec(tail, target) == Some(tail[0]));
                    }
                    return EditOut::Hit(None);
                },
                Cmd::InsertBefore(cs) => {
                    let ghost csv = cs@;
                    splice_at(nodes, i, cs);
                    proof {
                        assert(nodes@.take(i as int) =~= orig.take(i as int));
                        assert(nodes@.skip(i as int) =~= csv + tail);
                        assert(edit_rel(tail, target, c0, nodes@.skip(i as int)));
                        lemma_edit_rel_prefix(orig, target, c0, nodes@, i as int);
                        assert(find_node(tail[0], target) == Some(tail[0]));
                        assert(find_in_seq_spec(tail, target) == Some(tail[0]));
                    }
                    return EditOut::Hit(None);
                },
                Cmd::InsertAfter(cs) => {
                    let ghost csv = cs@;
                    splice_at(nodes, i + 1, cs);
                    proof {
                        assert(nodes@.take(i as int) =~= orig.take(i as int));
                        assert(nodes@.skip(i as int) =~= seq![tail[0]] + csv + tail.drop_first());
                        assert(edit_rel(tail, target, c0, nodes@.skip(i as int)));
                        lemma_edit_rel_prefix(orig, target, c0, nodes@, i as int);
                        assert(find_node(tail[0], target) == Some(tail[0]));
                        assert(find_in_seq_spec(tail, target) == Some(tail[0]));
                    }
                    return EditOut::Hit(None);
                },
                Cmd::ReplaceWith(cs) => {
                    let ghost csv = cs@;
                    let _detached = nodes.remove(i);
                    splice_at(nodes, i, cs);
                    proof {
                        assert(nodes@.take(i as int) =~= orig.take(i as int));
                        assert(nodes@.skip(i as int) =~= csv + tail.drop_first());
                        assert(edit_rel(tail, target, c0, nodes@.skip(i as int)));
                        lemma_edit_rel_prefix(orig, target, c0, nodes@, i as int);
                        assert(find_node(tail[0], target) == Some(tail[0]));
                        assert(find_in_seq_spec(tail, target) == Some(tail[0]));
                    }
                    return EditOut::Hit(None);
                },
                Cmd::Detach => {
                    let detached = nodes.remove(i);
                    proof {
                        assert(nodes@.take(i as int) =~= orig.take(i as int));
                        assert(nodes@.skip(i as int) =~= tail.drop_first());
                        assert(edit_rel(tail, target, c0, nodes@.skip(i as int)));
                        lemma_edit_rel_prefix(orig, target, c0, nodes@, i as int);
                        assert(find_node(tail[0], target) == Some(tail[0]));
                        assert(find_in_seq_spec(tail, target) == Some(tail[0]));
                    }
                    return EditOut::Hit(Some(detached));
                },
            }
        }
        proof {
            lemma_size_seq_elem(orig, i as int);
        }
        let found_inside = matches!(find_in_vec(&nodes[i].children, target), Some(_));
        if found_inside {
            let mut nd = nodes.remove(i);
            let r = edit_in(&mut nd.children, target, pending);
            let ghost nd2 = nd;
            nodes.insert(i, nd);
            match r {
                EditOut::Hit(d) => {
                    proof {
                        assert(nodes@ =~= orig.take(i as int).push(nd2) + orig.skip(i as int + 1));
                        assert(nodes@.take(i as int) =~= orig.take(i as int));
                        assert(nodes@.skip(i as int) =~= seq![nd2] + orig.skip(i as int + 1));
                        assert(nodes@.skip(i as int).drop_first() =~= tail.drop_first());
                        assert(same_but_children(tail[0], nd2, nd2.children@));
                        assert(edit_rel(tail, target, c0, nodes@.skip(i as int)));
                        lemma_edit_rel_prefix(orig, target, c0, nodes@, i as int);
                        assert(find_node(tail[0], target) is Some);
                        assert(find_in_seq_spec(tail, target) is Some);
                    }
                    return EditOut::Hit(d);
                },
                EditOut::Missed(c) => {
                    proof {
                        assert(false);
                    }
                    pending = c;
                },
            }
        }
        proof {
            assert(find_in_seq_spec(orig[i as int].children@, target) is None);
            assert(find_node(orig[i as int], target) is None);
            assert(find_in_seq_spec(tail, target)
                == find_in_seq_spec(orig.skip(i as int + 1), target));
        }
        i += 1;
    }
    proof {
        assert(orig.skip(i as int) =~= Seq::<Node>::empty());
    }
    EditOut::Missed(pending)
}

} // verus!
