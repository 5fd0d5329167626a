//! The node graph: named destinations with coordinates and neighbours, the
//! generated hover nodes above them, the name index over a node list, and
//! the flattening that the node editor shows.
//!
//! Coordinates are held in thousandths of a centimetre, the precision the
//! configuration and the controller's status reports use.
use vstd::prelude::*;
use crate::text::{concat, contains_seq, copy_str, copy_strings, occurs_at, str_eq, views};

verus! {

/// The height of a generated hover node: -1 cm, in thousandths of a centimetre.
pub const HOVER_Z: i64 = -1000;

/// The suffix that names the hover node generated above a node.
pub open spec fn hover_suffix() -> Seq<char> {
    seq!['_', 'h', 'o', 'v', 'e', 'r']
}

/// The mathematical value of a node.
pub struct NodeView {
    pub name: Seq<char>,
    pub x: int,
    pub y: int,
    pub z: int,
    pub hide: bool,
    pub neighbors: Seq<Seq<char>>,
}

/// A destination of the gantry.
#[derive(Clone, Debug)]
pub struct Node {
    pub name: String,
    /// Position in thousandths of a centimetre.
    pub x: i64,
    /// Position in thousandths of a centimetre.
    pub y: i64,
    /// Position in thousandths of a centimetre.
    pub z: i64,
    /// Hidden nodes get no hover node and are not shown in the grid.
    pub hide: bool,
    /// Names of the nodes reachable in one move.
    pub neighbors: Vec<String>,
}

impl View for Node {
    type V = NodeView;

    open spec fn view(&self) -> NodeView {
        NodeView {
            name: self.name@,
            x: self.x as int,
            y: self.y as int,
            z: self.z as int,
            hide: self.hide,
            neighbors: views(self.neighbors@),
        }
    }
}

/// A list of nodes.
#[derive(Clone, Debug)]
pub struct Nodes {
    pub node: Vec<Node>,
}

/// The views of a sequence of nodes.
pub open spec fn node_views(v: Seq<Node>) -> Seq<NodeView> {
    v.map_values(|n: Node| n@)
}

impl View for Nodes {
    type V = Seq<NodeView>;

    open spec fn view(&self) -> Seq<NodeView> {
        node_views(self.node@)
    }
}

impl Node {
    /// A copy of this node.
    pub fn duplicate(&self) -> (r: Node)
        ensures
            r@ == self@,
    {
        Node {
            name: copy_str(self.name.as_str()),
            x: self.x,
            y: self.y,
            z: self.z,
            hide: self.hide,
            neighbors: copy_strings(&self.neighbors),
        }
    }
}

/// A copy of a vector of nodes.
pub fn copy_nodes(v: &Vec<Node>) -> (r: Vec<Node>)
    ensures
        node_views(r@) == node_views(v@),
{
    let mut r: Vec<Node> = Vec::new();
    for i in 0..v.len()
        invariant
            r@.len() == i,
            forall|k: int| 0 <= k < i ==> #[trigger] r@[k]@ == v@[k]@,
    {
        r.push(v[i].duplicate());
    }
    assert(node_views(r@) =~= node_views(v@));
    r
}

/// The name of the hover node above the node named `name`.
pub fn hover_name(name: &str) -> (r: String)
    ensures
        r@ == name@ + hover_suffix(),
{
    proof {
        reveal_strlit("_hover");
    }
    assert("_hover"@ =~= hover_suffix());
    concat(name, "_hover")
}

/// Names with the hover suffix appended.
pub open spec fn hover_names(ns: Seq<Seq<char>>) -> Seq<Seq<char>> {
    ns.map_values(|m: Seq<char>| m + hover_suffix())
}

/// The hover node generated above `n`: same x and y, at hover height, its
/// neighbours being `n` itself and the hover nodes of `n`'s neighbours.
pub open spec fn hover_node(n: NodeView) -> NodeView {
    NodeView {
        name: n.name + hover_suffix(),
        x: n.x,
        y: n.y,
        z: HOVER_Z as int,
        hide: false,
        neighbors: seq![n.name] + hover_names(n.neighbors),
    }
}

/// `n` at its own height: a visible node connects only to its hover node;
/// a hidden node connects to the hover nodes of its neighbours.
pub open spec fn ground_node(n: NodeView) -> NodeView {
    NodeView {
        name: n.name,
        x: n.x,
        y: n.y,
        z: n.z,
        hide: n.hide,
        neighbors: if n.hide {
            hover_names(n.neighbors)
        } else {
            seq![n.name + hover_suffix()]
        },
    }
}

/// The nodes generated from `n`: its hover node (for a visible node) followed
/// by `n` at its own height.
pub open spec fn height_nodes(n: NodeView) -> Seq<NodeView> {
    if n.hide {
        seq![ground_node(n)]
    } else {
        seq![hover_node(n), ground_node(n)]
    }
}

/// The three-dimensional graph generated from a flat node list.
pub open spec fn with_heights(s: Seq<NodeView>) -> Seq<NodeView>
    decreases s.len(),
{
    if s.len() == 0 {
        Seq::empty()
    } else {
        with_heights(s.drop_last()) + height_nodes(s.last())
    }
}

fn hover_names_of(ns: &Vec<String>) -> (r: Vec<String>)
    ensures
        views(r@) == hover_names(views(ns@)),
{
    let mut r: Vec<String> = Vec::new();
    for i in 0..ns.len()
        invariant
            r@.len() == i,
            forall|k: int| 0 <= k < i ==> #[trigger] r@[k]@ == ns@[k]@ + hover_suffix(),
    {
        r.push(hover_name(ns[i].as_str()));
    }
    assert(views(r@) =~= hover_names(views(ns@)));
    r
}

impl Nodes {
    /// An empty node list.
    pub fn new() -> (r: Nodes)
        ensures
            r@ == Seq::<NodeView>::empty(),
    {
        let r = Nodes { node: Vec::new() };
        assert(r@ =~= Seq::<NodeView>::empty());
        r
    }

    /// Replaces the flat node list by its three-dimensional graph: every
    /// visible node gets a hover node above it (generated just before it),
    /// and moves between destinations go through the hover nodes.
    pub fn add_height_nodes(&mut self)
        ensures
            final(self)@ == with_heights(old(self)@),
    {
        let mut new_nodes: Vec<Node> = Vec::new();
        let n = self.node.len();
        for i in 0..n
            invariant
                n == self.node@.len(),
                node_views(new_nodes@) == with_heights(node_views(self.node@).take(i as int)),
        {
            let node = &self.node[i];
            let ghost nv = node@;
            let ghost before = new_nodes@;
            if !node.hide {
                let mut hn = vec![copy_str(node.name.as_str())];
                let mut tail = hover_names_of(&node.neighbors);
                hn.append(&mut tail);
                assert(views(hn@) =~= seq![nv.name] + hover_names(nv.neighbors));
                new_nodes.push(
                    Node {
                        name: hover_name(node.name.as_str()),
                        x: node.x,
                        y: node.y,
                        z: HOVER_Z,
                        hide: false,
                        neighbors: hn,
                    },
                );
            }
            let neighbors = if node.hide {
                hover_names_of(&node.neighbors)
            } else {
                let v = vec![hover_name(node.name.as_str())];
                assert(views(v@) =~= seq![nv.name + hover_suffix()]);
                v
            };
            new_nodes.push(
                Node {
                    name: copy_str(node.name.as_str()),
                    x: node.x,
                    y: node.y,
                    z: node.z,
                    hide: node.hide,
                    neighbors,
                },
            );
            proof {
                let s = node_views(self.node@);
                assert(s.take(i + 1).drop_last() =~= s.take(i as int));
                assert(s.take(i + 1).last() == nv);
                assert(node_views(new_nodes@) =~= node_views(before) + height_nodes(nv));
            }
        }
        proof {
            assert(node_views(self.node@).take(n as int) =~= node_views(self.node@));
        }
        self.node = new_nodes;
    }
}

/// The index of the last name in `names` equal to `key`.
pub open spec fn last_index_of(names: Seq<Seq<char>>, key: Seq<char>) -> Option<int>
    decreases names.len(),
{
    if names.len() == 0 {
        None
    } else if names.last() == key {
        Some(names.len() - 1)
    } else {
        last_index_of(names.drop_last(), key)
    }
}

/// The names of a sequence of nodes.
pub open spec fn names_of(s: Seq<NodeView>) -> Seq<Seq<char>> {
    s.map_values(|n: NodeView| n.name)
}

/// What `last_index_of` finds: a position holding the key, with no later
/// position holding it; nothing when no position holds the key.
pub proof fn lemma_last_index_of(names: Seq<Seq<char>>, key: Seq<char>)
    ensures
        match last_index_of(names, key) {
            Some(i) => 0 <= i < names.len() && names[i] == key && forall|j: int|
                i < j < names.len() ==> names[j] != key,
            None => forall|j: int| 0 <= j < names.len() ==> names[j] != key,
        },
    decreases names.len(),
{
    if names.len() > 0 {
        lemma_last_index_of(names.drop_last(), key);
        assert(forall|j: int| 0 <= j < names.len() - 1 ==> names.drop_last()[j] == names[j]);
    }
}

/// The position of each node name in a node list; where a name occurs more
/// than once, its last position.
pub struct NodeMap {
    names: Vec<String>,
}

impl View for NodeMap {
    type V = Seq<Seq<char>>;

    closed spec fn view(&self) -> Seq<Seq<char>> {
        views(self.names@)
    }
}

impl NodeMap {
    /// The position recorded for `name`.
    pub fn get(&self, name: &str) -> (r: Option<usize>)
        ensures
            r matches Some(i) ==> last_index_of(self@, name@) == Some(i as int),
            r is None ==> last_index_of(self@, name@) is None,
    {
        let mut i = self.names.len();
        assert(self@.take(i as int) =~= self@);
        while i > 0
            invariant
                i <= self.names@.len(),
                last_index_of(self@, name@) == last_index_of(self@.take(i as int), name@),
            decreases i,
        {
            let ghost t = self@.take(i as int);
            assert(t.drop_last() =~= self@.take(i - 1));
            if str_eq(self.names[i - 1].as_str(), name) {
                return Some(i - 1);
            }
            i = i - 1;
        }
        None
    }

    /// The number of positions recorded, one per node of the list it was
    /// made from.
    pub fn len(&self) -> (r: usize)
        ensures
            r == self@.len(),
    {
        self.names.len()
    }
}

/// The name index of a node list: looking a name up gives the position of
/// the last node with that name.
pub fn get_nodemap(nodes: &Nodes) -> (r: NodeMap)
    ensures
        r@ == names_of(nodes@),
{
    let mut names: Vec<String> = Vec::new();
    for i in 0..nodes.node.len()
        invariant
            names@.len() == i,
            forall|k: int| 0 <= k < i ==> #[trigger] names@[k]@ == nodes.node@[k].name@,
    {
        names.push(copy_str(nodes.node[i].name.as_str()));
    }
    let r = NodeMap { names };
    assert(r@ =~= names_of(nodes@));
    r
}

/// The first position in `s` whose element satisfies `p`.
pub open spec fn first_index<A>(s: Seq<A>, p: spec_fn(A) -> bool) -> Option<int>
    decreases s.len(),
{
    if s.len() == 0 {
        None
    } else if p(s[0]) {
        Some(0)
    } else {
        match first_index(s.drop_first(), p) {
            Some(i) => Some(i + 1),
            None => None,
        }
    }
}

/// `first_index` is the position that satisfies `p` with none before it.
pub proof fn lemma_first_index<A>(s: Seq<A>, p: spec_fn(A) -> bool, i: int)
    requires
        0 <= i <= s.len(),
        forall|k: int| 0 <= k < i ==> !p(#[trigger] s[k]),
    ensures
        i < s.len() && p(s[i]) ==> first_index(s, p) == Some(i),
        i == s.len() ==> first_index(s, p) is None,
    decreases i,
{
    if i > 0 {
        lemma_first_index(s.drop_first(), p, i - 1);
    } else if s.len() > 0 {
    }
}

/// `first_index` gives a position of the sequence.
pub proof fn first_index_bound<A>(s: Seq<A>, p: spec_fn(A) -> bool)
    ensures
        first_index(s, p) matches Some(q) ==> 0 <= q < s.len(),
    decreases s.len(),
{
    if s.len() > 0 {
        first_index_bound(s.drop_first(), p);
    }
}

/// What `first_index` gives: a position that satisfies `p` with none
/// before it, or nothing where no position does.
pub proof fn lemma_first_index_found<A>(s: Seq<A>, p: spec_fn(A) -> bool)
    ensures
        first_index(s, p) matches Some(q) ==> {
            &&& 0 <= q < s.len()
            &&& p(s[q])
            &&& forall|k: int| 0 <= k < q ==> !p(#[trigger] s[k])
        },
        first_index(s, p) is None ==> forall|k: int| 0 <= k < s.len() ==> !p(#[trigger] s[k]),
    decreases s.len(),
{
    if s.len() > 0 {
        lemma_first_index_found(s.drop_first(), p);
        if !p(s[0]) {
            assert forall|k: int| 1 <= k < s.len() implies #[trigger] s[k] == s.drop_first()[k - 1] by {}
        }
    }
}


/// Whether the names of a node list are pairwise different.
pub open spec fn names_distinct(s: Seq<NodeView>) -> bool {
    forall|i: int, j: int| 0 <= i < j < s.len() ==> #[trigger] s[i].name != #[trigger] s[j].name
}

/// Whether some node of `s` is named `name`.
pub open spec fn has_name(s: Seq<NodeView>, name: Seq<char>) -> bool {
    exists|k: int| 0 <= k < s.len() && #[trigger] s[k].name == name
}

/// Whether every neighbour that a node of `s` lists is the name of a node
/// of `s`.
pub open spec fn links_inside(s: Seq<NodeView>) -> bool {
    forall|k: int, m: int|
        0 <= k < s.len() && 0 <= m < s[k].neighbors.len() ==> has_name(s, #[trigger] s[k].neighbors[m])
}

/// A flat node list as the node editor keeps it: names are different and
/// none is a hover name, and every neighbour a node lists is the name of a
/// node that is not hidden.
pub open spec fn flat_graph(s: Seq<NodeView>) -> bool {
    &&& names_distinct(s)
    &&& forall|k: int| 0 <= k < s.len() ==> !contains_seq(#[trigger] s[k].name, hover_suffix())
    &&& forall|k: int, m: int|
        0 <= k < s.len() && 0 <= m < s[k].neighbors.len() ==> exists|j: int|
            0 <= j < s.len() && s[j].name == #[trigger] s[k].neighbors[m] && !s[j].hide
}

proof fn lemma_hover_name_is_hover(a: Seq<char>)
    ensures
        contains_seq(a + hover_suffix(), hover_suffix()),
        (a + hover_suffix()).len() == a.len() + 6,
{
    let t = a + hover_suffix();
    assert(t.subrange(a.len() as int, a.len() + 6int) =~= hover_suffix());
    assert(occurs_at(t, hover_suffix(), a.len() as int));
}

/// Where the nodes of `with_heights(s)` come from: each is the ground node
/// of a node of `s` or the hover node of a visible one.
proof fn lemma_heights_origin(s: Seq<NodeView>)
    ensures
        forall|q: int|
            0 <= q < with_heights(s).len() ==> exists|k: int|
                0 <= k < s.len() && (#[trigger] with_heights(s)[q] == ground_node(s[k]) || (!s[k].hide
                    && with_heights(s)[q] == hover_node(s[k]))),
    decreases s.len(),
{
    if s.len() > 0 {
        let sp = s.drop_last();
        let wp = with_heights(sp);
        let h = height_nodes(s.last());
        lemma_heights_origin(sp);
        let w = wp + h;
        assert(with_heights(s) == w);
        assert forall|q: int| 0 <= q < w.len() implies exists|k: int|
            0 <= k < s.len() && (#[trigger] w[q] == ground_node(s[k]) || (!s[k].hide && w[q] == hover_node(
                s[k],
            ))) by {
            if q < wp.len() {
                let k = choose|k: int|
                    0 <= k < sp.len() && (#[trigger] wp[q] == ground_node(sp[k]) || (!sp[k].hide && wp[q]
                        == hover_node(sp[k])));
                assert(s[k] == sp[k]);
                assert(w[q] == wp[q]);
            } else {
                assert(w[q] == h[q - wp.len()]);
                assert(s[s.len() - 1] == s.last());
            }
        }
    }
}

/// Every node of `s` keeps its name in `with_heights(s)`.
proof fn lemma_heights_ground_names(s: Seq<NodeView>)
    ensures
        forall|k: int| 0 <= k < s.len() ==> has_name(with_heights(s), #[trigger] s[k].name),
    decreases s.len(),
{
    if s.len() > 0 {
        let sp = s.drop_last();
        let wp = with_heights(sp);
        let h = height_nodes(s.last());
        lemma_heights_ground_names(sp);
        let w = wp + h;
        assert(with_heights(s) == w);
        assert forall|k: int| 0 <= k < s.len() implies has_name(w, #[trigger] s[k].name) by {
            if k < s.len() - 1 {
                assert(s[k] == sp[k]);
                assert(has_name(wp, sp[k].name));
                let q = choose|q: int| 0 <= q < wp.len() && #[trigger] wp[q].name == sp[k].name;
                assert(w[q] == wp[q]);
                assert(w[q].name == s[k].name);
            } else {
                let q = wp.len() + h.len() - 1;
                assert(w[q] == h[h.len() - 1]);
                assert(s[k] == s.last());
                assert(w[q].name == s[k].name);
            }
        }
    }
}

/// Every visible node of `s` has its hover node in `with_heights(s)`.
proof fn lemma_heights_hover_names(s: Seq<NodeView>)
    ensures
        forall|k: int|
            0 <= k < s.len() && !s[k].hide ==> has_name(with_heights(s), #[trigger] s[k].name + hover_suffix()),
    decreases s.len(),
{
    if s.len() > 0 {
        let sp = s.drop_last();
        let wp = with_heights(sp);
        let h = height_nodes(s.last());
        lemma_heights_hover_names(sp);
        let w = wp + h;
        assert(with_heights(s) == w);
        assert forall|k: int| 0 <= k < s.len() && !s[k].hide implies has_name(
            w,
            #[trigger] s[k].name + hover_suffix(),
        ) by {
            if k < s.len() - 1 {
                assert(s[k] == sp[k]);
                assert(has_name(wp, sp[k].name + hover_suffix()));
                let q = choose|q: int| 0 <= q < wp.len() && #[trigger] wp[q].name == sp[k].name + hover_suffix();
                assert(w[q] == wp[q]);
                assert(w[q].name == s[k].name + hover_suffix());
            } else {
                let q = wp.len() as int;
                assert(w[q] == h[0]);
                assert(s[k] == s.last());
                assert(w[q].name == s[k].name + hover_suffix());
            }
        }
    }
}

proof fn lemma_new_names_differ(sp: Seq<NodeView>, last: NodeView)
    requires
        forall|k: int| 0 <= k < sp.len() ==> #[trigger] sp[k].name != last.name,
        forall|k: int| 0 <= k < sp.len() ==> !contains_seq(#[trigger] sp[k].name, hover_suffix()),
        !contains_seq(last.name, hover_suffix()),
    ensures
        forall|q: int|
            0 <= q < with_heights(sp).len() ==> #[trigger] with_heights(sp)[q].name != last.name
                && with_heights(sp)[q].name != last.name + hover_suffix(),
{
    lemma_heights_origin(sp);
    lemma_hover_name_is_hover(last.name);
    let wp = with_heights(sp);
    assert forall|q: int| 0 <= q < wp.len() implies #[trigger] wp[q].name != last.name && wp[q].name
        != last.name + hover_suffix() by {
        let k = choose|k: int|
            0 <= k < sp.len() && (#[trigger] wp[q] == ground_node(sp[k]) || (!sp[k].hide && wp[q]
                == hover_node(sp[k])));
        lemma_hover_name_is_hover(sp[k].name);
        if wp[q] == hover_node(sp[k]) && wp[q].name == last.name + hover_suffix() {
            let a = sp[k].name;
            let b = last.name;
            assert(a =~= (a + hover_suffix()).subrange(0, a.len() as int));
            assert(b =~= (b + hover_suffix()).subrange(0, b.len() as int));
        }
    }
}

proof fn lemma_heights_distinct(s: Seq<NodeView>)
    requires
        names_distinct(s),
        forall|k: int| 0 <= k < s.len() ==> !contains_seq(#[trigger] s[k].name, hover_suffix()),
    ensures
        names_distinct(with_heights(s)),
    decreases s.len(),
{
    if s.len() > 0 {
        let sp = s.drop_last();
        let wp = with_heights(sp);
        let last = s.last();
        let h = height_nodes(last);
        assert forall|i: int, j: int| 0 <= i < j < sp.len() implies #[trigger] sp[i].name != #[trigger] sp[j].name by {
            assert(sp[i] == s[i] && sp[j] == s[j]);
        }
        assert forall|k: int| 0 <= k < sp.len() implies !contains_seq(#[trigger] sp[k].name, hover_suffix()) by {
            assert(sp[k] == s[k]);
        }
        assert forall|k: int| 0 <= k < sp.len() implies #[trigger] sp[k].name != last.name by {
            assert(sp[k] == s[k] && last == s[s.len() - 1]);
        }
        assert(!contains_seq(last.name, hover_suffix())) by {
            assert(s[s.len() - 1] == last);
        }
        lemma_heights_distinct(sp);
        lemma_new_names_differ(sp, last);
        lemma_join_distinct(wp, last);
        assert(with_heights(s) == wp + h);
    }
}

proof fn lemma_join_distinct(wp: Seq<NodeView>, last: NodeView)
    requires
        names_distinct(wp),
        forall|q: int|
            0 <= q < wp.len() ==> #[trigger] wp[q].name != last.name && wp[q].name != last.name + hover_suffix(),
    ensures
        names_distinct(wp + height_nodes(last)),
{
    let h = height_nodes(last);
    let w = wp + h;
    lemma_hover_name_is_hover(last.name);
    assert forall|i: int, j: int| 0 <= i < j < w.len() implies #[trigger] w[i].name != #[trigger] w[j].name by {
        if j < wp.len() {
            assert(w[i] == wp[i] && w[j] == wp[j]);
        } else if i < wp.len() {
            assert(w[i] == wp[i]);
            assert(w[j] == h[j - wp.len()]);
        } else {
            assert(w[i] == h[i - wp.len()] && w[j] == h[j - wp.len()]);
        }
    }
}

/// Adding height nodes to a flat list keeps it a graph the path search can
/// use: the names of the generated list are pairwise different, and every
/// neighbour a generated node lists is the name of a generated node.
pub proof fn lemma_heights_keep_graph(s: Seq<NodeView>)
    requires
        flat_graph(s),
    ensures
        names_distinct(with_heights(s)),
        links_inside(with_heights(s)),
{
    lemma_heights_distinct(s);
    lemma_heights_origin(s);
    lemma_heights_ground_names(s);
    lemma_heights_hover_names(s);
    let w = with_heights(s);
    assert forall|q: int, m: int| 0 <= q < w.len() && 0 <= m < w[q].neighbors.len() implies has_name(
        w,
        #[trigger] w[q].neighbors[m],
    ) by {
        let k = choose|k: int|
            0 <= k < s.len() && (#[trigger] w[q] == ground_node(s[k]) || (!s[k].hide && w[q] == hover_node(
                s[k],
            )));
        let n = s[k];
        if w[q] == ground_node(n) && n.hide {
            let x = n.neighbors[m];
            assert(w[q].neighbors[m] == x + hover_suffix());
            let j = choose|j: int| 0 <= j < s.len() && s[j].name == #[trigger] s[k].neighbors[m] && !s[j].hide;
            assert(has_name(w, s[j].name + hover_suffix()));
        } else if w[q] == ground_node(n) {
            assert(w[q].neighbors[m] == n.name + hover_suffix());
            assert(has_name(w, s[k].name + hover_suffix()));
        } else if m == 0 {
            assert(w[q].neighbors[m] == n.name);
            assert(has_name(w, s[k].name));
        } else {
            let x = n.neighbors[m - 1];
            assert(w[q].neighbors[m] == x + hover_suffix());
            let j = choose|j: int| 0 <= j < s.len() && s[j].name == #[trigger] s[k].neighbors[m - 1] && !s[j].hide;
            assert(has_name(w, s[j].name + hover_suffix()));
        }
    }
}

} // verus!
