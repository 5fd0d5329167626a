//! The flat view of the node graph that the node editor works on: the
//! generated ground and hover nodes folded back into the nodes they were
//! made from, and what a node list gets back after a round through the
//! generated graph.
use vstd::prelude::*;
use crate::nodes::{
    hover_node, hover_suffix, ground_node, height_nodes, node_views, with_heights, Node, NodeView,
    Nodes,
};
use crate::text::{
    contains_seq, contains_str, copy_str, copy_strings, occurs_at, remove_all, remove_all_str, views,
};

verus! {

/// A name with every `_hover` taken out.
pub open spec fn strip_hover(s: Seq<char>) -> Seq<char> {
    remove_all(s, hover_suffix())
}

/// The neighbour names the editor shows for a node named `own`: hover
/// suffixes taken out, and names that then equal `own` left out.
pub open spec fn editor_neighbors(own: Seq<char>, ns: Seq<Seq<char>>) -> Seq<Seq<char>>
    decreases ns.len(),
{
    if ns.len() == 0 {
        Seq::empty()
    } else {
        let rest = editor_neighbors(own, ns.drop_last());
        if strip_hover(ns.last()) == own {
            rest
        } else {
            rest.push(strip_hover(ns.last()))
        }
    }
}

/// A node as the editor shows it.
pub open spec fn editor_node(n: NodeView) -> NodeView {
    NodeView {
        name: strip_hover(n.name),
        x: n.x,
        y: n.y,
        z: n.z,
        hide: n.hide,
        neighbors: editor_neighbors(strip_hover(n.name), n.neighbors),
    }
}

/// The flat node list of the editor: hover nodes left out, the rest as
/// `editor_node` shows them.
pub open spec fn editor_nodes(s: Seq<NodeView>) -> Seq<NodeView>
    decreases s.len(),
{
    if s.len() == 0 {
        Seq::empty()
    } else {
        let rest = editor_nodes(s.drop_last());
        if contains_seq(s.last().name, hover_suffix()) {
            rest
        } else {
            rest.push(editor_node(s.last()))
        }
    }
}

fn editor_neighbors_of(own: &String, ns: &Vec<String>) -> (r: Vec<String>)
    ensures
        views(r@) == editor_neighbors(own@, views(ns@)),
{
    let mut r: Vec<String> = Vec::new();
    for i in 0..ns.len()
        invariant
            views(r@) == editor_neighbors(own@, views(ns@).take(i as int)),
    {
        let stripped = remove_all_str(ns[i].as_str(), "_hover");
        proof {
            reveal_strlit("_hover");
            assert("_hover"@ =~= hover_suffix());
            assert(views(ns@).take(i + 1).drop_last() =~= views(ns@).take(i as int));
        }
        if !crate::text::str_eq(stripped.as_str(), own.as_str()) {
            let ghost before = r@;
            r.push(stripped);
            assert(views(r@) =~= views(before).push(strip_hover(ns@[i as int]@)));
        }
    }
    assert(views(ns@).take(ns@.len() as int) =~= views(ns@));
    r
}

/// The flat node list the node editor shows for a node graph: hover nodes
/// are left out, `_hover` is taken out of names, and a node's own name is
/// left out of its neighbours.
pub fn flatten_nodes(nodes: &Nodes) -> (r: Nodes)
    ensures
        r@ == editor_nodes(nodes@),
{
    let mut out: Vec<Node> = Vec::new();
    for i in 0..nodes.node.len()
        invariant
            node_views(out@) == editor_nodes(nodes@.take(i as int)),
    {
        let n = &nodes.node[i];
        let has_hover = contains_str(n.name.as_str(), "_hover");
        proof {
            reveal_strlit("_hover");
            assert("_hover"@ =~= hover_suffix());
            assert(nodes@.take(i + 1).drop_last() =~= nodes@.take(i as int));
            assert(nodes@.take(i + 1).last() == n@);
        }
        if !has_hover {
            let name = remove_all_str(n.name.as_str(), "_hover");
            let neighbors = editor_neighbors_of(&name, &n.neighbors);
            let ghost before = out@;
            out.push(Node { name, x: n.x, y: n.y, z: n.z, hide: n.hide, neighbors });
            assert(node_views(out@) =~= node_views(before).push(editor_node(n@)));
        }
    }
    assert(nodes@.take(nodes@.len() as int) =~= nodes@);
    Nodes { node: out }
}

proof fn lemma_remove_all_absent(s: Seq<char>, pat: Seq<char>)
    requires
        pat.len() > 0,
        !contains_seq(s, pat),
    ensures
        remove_all(s, pat) == s,
    decreases s.len(),
{
    if s.len() > 0 {
        if s.len() >= pat.len() && s.take(pat.len() as int) == pat {
            assert(occurs_at(s, pat, 0));
        }
        assert forall|i: int| !occurs_at(s.skip(1), pat, i) by {
            if occurs_at(s.skip(1), pat, i) {
                assert(s.skip(1).subrange(i, i + pat.len()) =~= s.subrange(i + 1, i + 1 + pat.len()));
                assert(occurs_at(s, pat, i + 1));
            }
        }
        lemma_remove_all_absent(s.skip(1), pat);
        assert(seq![s[0]] + s.skip(1) =~= s);
    }
}

proof fn lemma_strip_hover_suffixed(m: Seq<char>)
    requires
        !contains_seq(m, hover_suffix()),
    ensures
        strip_hover(m + hover_suffix()) == m,
    decreases m.len(),
{
    let h = hover_suffix();
    let s = m + h;
    if m.len() == 0 {
        assert(s =~= h);
        assert(s.take(6) =~= h);
        assert(s.skip(6) =~= Seq::<char>::empty());
        assert(remove_all(s.skip(6), h) == Seq::<char>::empty());
        assert(remove_all(s, h) == remove_all(s.skip(6), h));
        assert(m =~= Seq::<char>::empty());
    } else {
        assert(s.take(6) != h) by {
            if s.take(6) == h {
                if m.len() >= 6 {
                    assert(m.subrange(0, 6) =~= s.take(6));
                    assert(occurs_at(m, h, 0));
                } else {
                    let k = m.len() as int;
                    assert(s[k] == '_');
                    assert(s.take(6)[k] == h[k]);
                    assert(h[k] != '_') by {
                        assert(1 <= k < 6);
                        if k == 1 {
                        } else if k == 2 {
                        } else if k == 3 {
                        } else if k == 4 {
                        } else {
                        }
                    }
                }
            }
        }
        let t = m.skip(1);
        assert forall|i: int| !occurs_at(t, h, i) by {
            if occurs_at(t, h, i) {
                assert(t.subrange(i, i + 6) =~= m.subrange(i + 1, i + 7));
                assert(occurs_at(m, h, i + 1));
            }
        }
        lemma_strip_hover_suffixed(t);
        assert(s.skip(1) =~= t + h);
        assert(seq![s[0]] + t =~= m);
        assert(remove_all(s, h) == seq![s[0]] + remove_all(s.skip(1), h));
        assert(remove_all(s.skip(1), h) == t);
        assert(remove_all(s, h) == m);
    }
}

proof fn lemma_suffixed_contains(m: Seq<char>)
    ensures
        contains_seq(m + hover_suffix(), hover_suffix()),
{
    let s = m + hover_suffix();
    assert(s.subrange(m.len() as int, m.len() + 6int) =~= hover_suffix());
    assert(occurs_at(s, hover_suffix(), m.len() as int));
}

proof fn lemma_editor_nodes_append(a: Seq<NodeView>, b: Seq<NodeView>)
    ensures
        editor_nodes(a + b) == editor_nodes(a) + editor_nodes(b),
    decreases b.len(),
{
    if b.len() == 0 {
        assert(a + b =~= a);
        assert(editor_nodes(a) + editor_nodes(b) =~= editor_nodes(a));
    } else {
        lemma_editor_nodes_append(a, b.drop_last());
        assert((a + b).drop_last() =~= a + b.drop_last());
        assert((a + b).last() == b.last());
        if contains_seq(b.last().name, hover_suffix()) {
        } else {
            assert(editor_nodes(a) + editor_nodes(b.drop_last()).push(editor_node(b.last()))
                =~= (editor_nodes(a) + editor_nodes(b.drop_last())).push(editor_node(b.last())));
        }
    }
}

/// A node as the editor gets it back from the generated graph: hidden nodes
/// keep their neighbours, visible nodes come back without any (their moves
/// went through their hover nodes, which the editor leaves out).
pub open spec fn editor_round_trip(n: NodeView) -> NodeView {
    if n.hide {
        n
    } else {
        NodeView { neighbors: Seq::empty(), ..n }
    }
}

/// No name of `s`, node or neighbour, holds `_hover`, and no node lists
/// itself as a neighbour.
pub open spec fn plain_names(s: Seq<NodeView>) -> bool {
    forall|i: int|
        0 <= i < s.len() ==> {
            &&& !contains_seq((#[trigger] s[i]).name, hover_suffix())
            &&& forall|k: int|
                0 <= k < s[i].neighbors.len() ==> !contains_seq(
                    #[trigger] s[i].neighbors[k],
                    hover_suffix(),
                ) && s[i].neighbors[k] != s[i].name
        }
}

proof fn lemma_editor_neighbors_hovered(own: Seq<char>, ns: Seq<Seq<char>>)
    requires
        forall|k: int|
            0 <= k < ns.len() ==> !contains_seq(#[trigger] ns[k], hover_suffix()) && ns[k] != own,
    ensures
        editor_neighbors(own, ns.map_values(|m: Seq<char>| m + hover_suffix())) == ns,
    decreases ns.len(),
{
    let hs = ns.map_values(|m: Seq<char>| m + hover_suffix());
    if ns.len() > 0 {
        assert(hs.drop_last() =~= ns.drop_last().map_values(|m: Seq<char>| m + hover_suffix()));
        lemma_editor_neighbors_hovered(own, ns.drop_last());
        lemma_strip_hover_suffixed(ns.last());
        assert(ns.drop_last().push(ns.last()) =~= ns);
    }
}

proof fn lemma_editor_ground_hidden(n: NodeView)
    requires
        n.hide,
        !contains_seq(n.name, hover_suffix()),
        forall|k: int|
            0 <= k < n.neighbors.len() ==> !contains_seq(#[trigger] n.neighbors[k], hover_suffix())
                && n.neighbors[k] != n.name,
    ensures
        editor_node(ground_node(n)) == n,
{
    lemma_remove_all_absent(n.name, hover_suffix());
    lemma_editor_neighbors_hovered(n.name, n.neighbors);
    let e = editor_node(ground_node(n));
    assert(e.name == n.name);
    assert(e.neighbors == n.neighbors);
}

proof fn lemma_editor_ground_visible(n: NodeView)
    requires
        !n.hide,
        !contains_seq(n.name, hover_suffix()),
    ensures
        editor_node(ground_node(n)) == editor_round_trip(n),
{
    lemma_remove_all_absent(n.name, hover_suffix());
    let one = seq![n.name + hover_suffix()];
    lemma_strip_hover_suffixed(n.name);
    assert(one.drop_last() =~= Seq::<Seq<char>>::empty());
    assert(editor_neighbors(n.name, one.drop_last()) =~= Seq::<Seq<char>>::empty());
    assert(editor_neighbors(n.name, one) =~= Seq::<Seq<char>>::empty());
    let e = editor_node(ground_node(n));
    assert(e.name == n.name);
    assert(e.neighbors == editor_round_trip(n).neighbors);
}

proof fn lemma_editor_pair(h: NodeView, g: NodeView)
    requires
        contains_seq(h.name, hover_suffix()),
        !contains_seq(g.name, hover_suffix()),
    ensures
        editor_nodes(seq![h, g]) == seq![editor_node(g)],
{
    assert(seq![h, g].drop_last() =~= seq![h]);
    assert(seq![h].drop_last() =~= Seq::<NodeView>::empty());
    assert(editor_nodes(Seq::<NodeView>::empty()) == Seq::<NodeView>::empty());
    assert(seq![h].last() == h);
    assert(editor_nodes(seq![h]) =~= Seq::<NodeView>::empty());
    assert(seq![h, g].last() == g);
    assert(editor_nodes(seq![h, g]) =~= seq![editor_node(g)]);
}

proof fn lemma_editor_single(g: NodeView)
    requires
        !contains_seq(g.name, hover_suffix()),
    ensures
        editor_nodes(seq![g]) == seq![editor_node(g)],
{
    assert(seq![g].drop_last() =~= Seq::<NodeView>::empty());
    assert(editor_nodes(Seq::<NodeView>::empty()) == Seq::<NodeView>::empty());
    assert(seq![g].last() == g);
    assert(editor_nodes(seq![g]) =~= seq![editor_node(g)]);
}

#[verifier::rlimit(40)]
proof fn lemma_editor_height_nodes(n: NodeView)
    requires
        !contains_seq(n.name, hover_suffix()),
        forall|k: int|
            0 <= k < n.neighbors.len() ==> !contains_seq(#[trigger] n.neighbors[k], hover_suffix())
                && n.neighbors[k] != n.name,
    ensures
        editor_nodes(height_nodes(n)) == seq![editor_round_trip(n)],
{
    let g = ground_node(n);
    assert(g.name == n.name);
    if n.hide {
        lemma_editor_ground_hidden(n);
        lemma_editor_single(g);
    } else {
        lemma_editor_ground_visible(n);
        let h = hover_node(n);
        lemma_suffixed_contains(n.name);
        lemma_editor_pair(h, g);
    }
}

/// The node editor gets back, from the generated three-dimensional graph,
/// the flat node list it was generated from, except that visible nodes come
/// back without neighbours: for node lists whose names hold no `_hover` and
/// whose nodes do not list themselves.
pub proof fn lemma_editor_nodes_of_with_heights(s: Seq<NodeView>)
    requires
        plain_names(s),
    ensures
        editor_nodes(with_heights(s)) == s.map_values(|n: NodeView| editor_round_trip(n)),
    decreases s.len(),
{
    if s.len() > 0 {
        let n = s.last();
        assert(plain_names(s.drop_last())) by {
            assert forall|i: int| 0 <= i < s.drop_last().len() implies s.drop_last()[i] == s[i] by {}
        }
        assert(s[s.len() - 1] == n);
        lemma_editor_nodes_of_with_heights(s.drop_last());
        lemma_editor_nodes_append(with_heights(s.drop_last()), height_nodes(n));
        lemma_editor_height_nodes(n);
        assert(s.map_values(|m: NodeView| editor_round_trip(m)) =~= s.drop_last().map_values(
            |m: NodeView| editor_round_trip(m),
        ).push(editor_round_trip(n)));
    } else {
        assert(s.map_values(|m: NodeView| editor_round_trip(m)) =~= Seq::<NodeView>::empty());
    }
}

} // verus!
