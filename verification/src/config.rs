//! The node editor of the advanced tab: one entry per node, with its name,
//! visibility, coordinates as typed, and a list of neighbour choices in
//! which no neighbour can be chosen twice.
use vstd::prelude::*;
use crate::editor::{editor_nodes, flatten_nodes};
use crate::naming::{fresh, fresh_name};
use crate::nodes::{hover_suffix, names_of, node_views, Node, NodeView, Nodes};
use crate::text::{contains_seq, contains_str, copy_str, copy_strings, format_milli_short, milli_short, str_eq, views};
use crate::nodes::{first_index, lemma_first_index};
use crate::tracker::{find_named, is_named};

verus! {

/// A yes/no choice as the editor offers it.
#[derive(Clone, Copy, Debug, PartialEq, Eq, Structural)]
pub enum Boolean {
    True,
    False,
}

impl Default for Boolean {
    fn default() -> (r: Boolean)
        ensures
            r == Boolean::False,
    {
        Boolean::False
    }
}

impl Boolean {
    /// The choices in the order the editor lists them.
    pub fn all() -> (r: [Boolean; 2])
        ensures
            r@ == seq![Boolean::False, Boolean::True],
    {
        let r = [Boolean::False, Boolean::True];
        assert(r@ =~= seq![Boolean::False, Boolean::True]);
        r
    }

    /// The choice for `b`.
    pub fn of(b: bool) -> (r: Boolean)
        ensures
            r == (if b { Boolean::True } else { Boolean::False }),
    {
        if b {
            Boolean::True
        } else {
            Boolean::False
        }
    }

    /// Whether the choice is yes.
    pub fn value(&self) -> (r: bool)
        ensures
            r == (*self == Boolean::True),
    {
        *self == Boolean::True
    }

    /// The choice as the editor writes it.
    pub fn text(&self) -> (r: String)
        ensures
            r@ == (if *self == Boolean::True { "True"@ } else { "False"@ }),
    {
        match self {
            Boolean::True => copy_str("True"),
            Boolean::False => copy_str("False"),
        }
    }
}

/// The save bar's buttons.
#[derive(Clone, Copy, Debug, PartialEq, Eq, Structural)]
pub enum SaveBarMessage {
    Save,
    Cancel,
}

/// A neighbour choice changed or removed.
#[derive(Clone, Debug)]
pub enum StringPickListMessage {
    Changed(String),
    Delete,
}

/// An edit of a node entry.
#[derive(Clone, Debug)]
pub enum ConfigNodeMessage {
    NameChanged(String),
    HideChanged(Boolean),
    XChanged(String),
    YChanged(String),
    ZChanged(String),
    Neighbors(usize, StringPickListMessage),
    AddNeighbor,
    Edit,
    Okay,
    Delete,
}

/// An edit of the node editor.
#[derive(Debug)]
pub enum NodeTabMessage {
    AddConfigNode,
    ConfigNode((usize, ConfigNodeMessage)),
    SaveMessage(SaveBarMessage),
}

/// The mathematical value of a neighbour choice.
pub struct PickView {
    pub value: Seq<char>,
    pub parent: Seq<char>,
    pub siblings: Seq<Seq<char>>,
}

/// One neighbour choice of a node entry: the chosen name, the entry's name,
/// and the names its sibling choices hold (which it may not choose).
pub struct NeighborPick {
    pub value: String,
    pub parent: String,
    pub siblings: Vec<String>,
}

impl View for NeighborPick {
    type V = PickView;

    open spec fn view(&self) -> PickView {
        PickView { value: self.value@, parent: self.parent@, siblings: views(self.siblings@) }
    }
}

/// The views of neighbour choices.
pub open spec fn pick_views(v: Seq<NeighborPick>) -> Seq<PickView> {
    v.map_values(|p: NeighborPick| p@)
}

/// The names chosen.
pub open spec fn pick_values(ps: Seq<PickView>) -> Seq<Seq<char>> {
    ps.map_values(|p: PickView| p.value)
}

/// The names of `sib` other than `v`.
pub open spec fn others(sib: Seq<Seq<char>>, v: Seq<char>) -> Seq<Seq<char>> {
    sib.filter(|s: Seq<char>| s != v)
}

/// Each choice gets as siblings the names of `sib` other than its own.
pub open spec fn with_siblings(ps: Seq<PickView>, sib: Seq<Seq<char>>) -> Seq<PickView> {
    ps.map_values(|p: PickView| PickView { siblings: others(sib, p.value), ..p })
}

/// The placeholder of a neighbour choice not made yet.
pub open spec fn choose_neighbor() -> Seq<char> {
    "Choose Neighbor"@
}

/// The mathematical value of a node entry.
pub struct ConfigNodeView {
    pub name: Seq<char>,
    pub hide: Boolean,
    pub x: Seq<char>,
    pub y: Seq<char>,
    pub z: Seq<char>,
    pub neighbors: Seq<PickView>,
    pub editing: bool,
}

/// A node as the editor shows it: coordinates as typed, neighbours as
/// choices, and whether it is being edited.
pub struct ConfigNode {
    pub name: String,
    pub hide: Boolean,
    pub x: String,
    pub y: String,
    pub z: String,
    pub neighbors: Vec<NeighborPick>,
    pub editing: bool,
}

impl View for ConfigNode {
    type V = ConfigNodeView;

    open spec fn view(&self) -> ConfigNodeView {
        ConfigNodeView {
            name: self.name@,
            hide: self.hide,
            x: self.x@,
            y: self.y@,
            z: self.z@,
            neighbors: pick_views(self.neighbors@),
            editing: self.editing,
        }
    }
}

/// An entry after its edit is confirmed: unchosen neighbours are dropped
/// and it is no longer being edited.
pub open spec fn confirmed(c: ConfigNodeView) -> ConfigNodeView {
    ConfigNodeView {
        neighbors: c.neighbors.filter(|p: PickView| p.value != choose_neighbor()),
        editing: false,
        ..c
    }
}

/// Whether message `m` can be applied to an entry with `n` neighbour
/// choices (a choice it names exists).
pub open spec fn node_message_fits(m: ConfigNodeMessage, n: int) -> bool {
    match m {
        ConfigNodeMessage::Neighbors(j, _) => j < n,
        _ => true,
    }
}

/// The entry `c` after message `m`.
pub open spec fn node_after(c: ConfigNodeView, m: ConfigNodeMessage) -> ConfigNodeView {
    match m {
        ConfigNodeMessage::NameChanged(n) => ConfigNodeView {
            name: n@,
            neighbors: c.neighbors.map_values(|p: PickView| PickView { parent: n@, ..p }),
            ..c
        },
        ConfigNodeMessage::HideChanged(b) => ConfigNodeView { hide: b, ..c },
        ConfigNodeMessage::XChanged(t) => ConfigNodeView { x: t@, ..c },
        ConfigNodeMessage::YChanged(t) => ConfigNodeView { y: t@, ..c },
        ConfigNodeMessage::ZChanged(t) => ConfigNodeView { z: t@, ..c },
        ConfigNodeMessage::Neighbors(j, StringPickListMessage::Delete) => {
            let ps = c.neighbors.remove(j as int);
            ConfigNodeView { neighbors: with_siblings(ps, pick_values(ps)), ..c }
        },
        ConfigNodeMessage::Neighbors(j, StringPickListMessage::Changed(v)) => {
            let old = c.neighbors[j as int].value;
            let sib = pick_values(c.neighbors).map_values(
                |s: Seq<char>|
                    if s == old {
                        v@
                    } else {
                        s
                    },
            );
            let ps = with_siblings(c.neighbors, sib);
            ConfigNodeView {
                neighbors: ps.update(j as int, PickView { value: v@, ..ps[j as int] }),
                ..c
            }
        },
        ConfigNodeMessage::AddNeighbor => ConfigNodeView {
            neighbors: c.neighbors.push(
                PickView {
                    value: choose_neighbor(),
                    parent: c.name,
                    siblings: pick_values(c.neighbors),
                },
            ),
            ..c
        },
        ConfigNodeMessage::Edit => ConfigNodeView { editing: true, ..c },
        ConfigNodeMessage::Okay => confirmed(c),
        ConfigNodeMessage::Delete => c,
    }
}

/// The names chosen by a list of choices.
fn values_of(ps: &Vec<NeighborPick>) -> (r: Vec<String>)
    ensures
        views(r@) == pick_values(pick_views(ps@)),
{
    let mut r: Vec<String> = Vec::new();
    for i in 0..ps.len()
        invariant
            r@.len() == i,
            forall|k: int| 0 <= k < i ==> #[trigger] r@[k]@ == ps@[k].value@,
    {
        r.push(copy_str(ps[i].value.as_str()));
    }
    assert(views(r@) =~= pick_values(pick_views(ps@)));
    r
}

/// The names of `sib` other than `v`.
fn others_of(sib: &Vec<String>, v: &str) -> (r: Vec<String>)
    ensures
        views(r@) == others(views(sib@), v@),
{
    let ghost p = |s: Seq<char>| s != v@;
    let mut r: Vec<String> = Vec::new();
    for i in 0..sib.len()
        invariant
            p == (|s: Seq<char>| s != v@),
            views(r@) == views(sib@).take(i as int).filter(p),
    {
        proof {
            reveal(Seq::filter);
            assert(views(sib@).take(i + 1).drop_last() =~= views(sib@).take(i as int));
            assert(views(sib@).take(i + 1).last() == sib@[i as int]@);
        }
        if !str_eq(sib[i].as_str(), v) {
            let ghost before = r@;
            r.push(copy_str(sib[i].as_str()));
            assert(views(r@) =~= views(before).push(sib@[i as int]@));
        }
    }
    assert(views(sib@).take(sib@.len() as int) =~= views(sib@));
    r
}

/// A copy of a neighbour choice.
fn copy_pick(p: &NeighborPick) -> (r: NeighborPick)
    ensures
        r@ == p@,
{
    NeighborPick {
        value: copy_str(p.value.as_str()),
        parent: copy_str(p.parent.as_str()),
        siblings: copy_strings(&p.siblings),
    }
}

/// Choices whose siblings are set from `sib`, as `with_siblings` says.
fn set_siblings(ps: &Vec<NeighborPick>, sib: &Vec<String>) -> (r: Vec<NeighborPick>)
    ensures
        pick_views(r@) == with_siblings(pick_views(ps@), views(sib@)),
        r@.len() == ps@.len(),
{
    let mut r: Vec<NeighborPick> = Vec::new();
    for i in 0..ps.len()
        invariant
            r@.len() == i,
            forall|k: int|
                0 <= k < i ==> #[trigger] r@[k]@ == with_siblings(pick_views(ps@), views(sib@))[k],
    {
        let s = others_of(sib, ps[i].value.as_str());
        r.push(
            NeighborPick {
                value: copy_str(ps[i].value.as_str()),
                parent: copy_str(ps[i].parent.as_str()),
                siblings: s,
            },
        );
    }
    assert(pick_views(r@) =~= with_siblings(pick_views(ps@), views(sib@)));
    r
}

impl ConfigNode {
    /// Applies message `m` to this entry, as `node_after` says.
    pub fn update(&mut self, m: ConfigNodeMessage)
        requires
            node_message_fits(m, old(self).neighbors@.len() as int),
        ensures
            final(self)@ == node_after(old(self)@, m),
    {
        match m {
            ConfigNodeMessage::NameChanged(n) => {
                let mut ps: Vec<NeighborPick> = Vec::new();
                for i in 0..self.neighbors.len()
                    invariant
                        ps@.len() == i,
                        forall|k: int|
                            0 <= k < i ==> #[trigger] ps@[k]@ == (PickView {
                                parent: n@,
                                ..self.neighbors@[k]@
                            }),
                {
                    ps.push(
                        NeighborPick {
                            value: copy_str(self.neighbors[i].value.as_str()),
                            parent: copy_str(n.as_str()),
                            siblings: copy_strings(&self.neighbors[i].siblings),
                        },
                    );
                }
                let ghost before = self@;
                self.neighbors = ps;
                self.name = n;
                assert(self@.neighbors =~= before.neighbors.map_values(
                    |p: PickView| PickView { parent: self.name@, ..p },
                ));
                assert(self@ == node_after(before, m));
            },
            ConfigNodeMessage::HideChanged(b) => {
                self.hide = b;
            },
            ConfigNodeMessage::XChanged(t) => {
                self.x = t;
            },
            ConfigNodeMessage::YChanged(t) => {
                self.y = t;
            },
            ConfigNodeMessage::ZChanged(t) => {
                self.z = t;
            },
            ConfigNodeMessage::Neighbors(j, StringPickListMessage::Delete) => {
                let ghost before = pick_views(self.neighbors@);
                self.neighbors.remove(j);
                assert(pick_views(self.neighbors@) =~= before.remove(j as int));
                let sib = values_of(&self.neighbors);
                self.neighbors = set_siblings(&self.neighbors, &sib);
                assert(self@.neighbors == node_after(old(self)@, m).neighbors);
            },
            ConfigNodeMessage::Neighbors(j, StringPickListMessage::Changed(v)) => {
                let ghost before = pick_views(self.neighbors@);
                let previous = copy_str(self.neighbors[j].value.as_str());
                let mut sib: Vec<String> = Vec::new();
                for i in 0..self.neighbors.len()
                    invariant
                        sib@.len() == i,
                        before == pick_views(self.neighbors@),
                        forall|k: int|
                            0 <= k < i ==> #[trigger] sib@[k]@ == (if before[k].value == previous@ {
                                v@
                            } else {
                                before[k].value
                            }),
                {
                    if str_eq(self.neighbors[i].value.as_str(), previous.as_str()) {
                        sib.push(copy_str(v.as_str()));
                    } else {
                        sib.push(copy_str(self.neighbors[i].value.as_str()));
                    }
                }
                assert(views(sib@) =~= pick_values(before).map_values(
                    |s: Seq<char>|
                        if s == before[j as int].value {
                            v@
                        } else {
                            s
                        },
                ));
                let mut ps = set_siblings(&self.neighbors, &sib);
                let ghost mid = pick_views(ps@);
                let chosen = NeighborPick {
                    value: v,
                    parent: copy_str(ps[j].parent.as_str()),
                    siblings: copy_strings(&ps[j].siblings),
                };
                ps.set(j, chosen);
                assert(pick_views(ps@) =~= mid.update(j as int, PickView { value: ps@[j as int].value@, ..mid[j as int] }));
                self.neighbors = ps;
                assert(self@.neighbors == node_after(old(self)@, m).neighbors);
            },
            ConfigNodeMessage::AddNeighbor => {
                let ghost before = pick_views(self.neighbors@);
                let sib = values_of(&self.neighbors);
                proof {
                    reveal_strlit("Choose Neighbor");
                }
                let p = NeighborPick {
                    value: copy_str("Choose Neighbor"),
                    parent: copy_str(self.name.as_str()),
                    siblings: sib,
                };
                self.neighbors.push(p);
                assert(pick_views(self.neighbors@) =~= before.push(p@));
            },
            ConfigNodeMessage::Edit => {
                self.editing = true;
            },
            ConfigNodeMessage::Okay => {
                self.confirm();
            },
            ConfigNodeMessage::Delete => {},
        }
    }

    /// Confirms this entry's edit, as `confirmed` says.
    pub fn confirm(&mut self)
        ensures
            final(self)@ == confirmed(old(self)@),
    {
        let ghost pred = |p: PickView| p.value != choose_neighbor();
        let ghost start = pick_views(self.neighbors@);
        let mut kept: Vec<NeighborPick> = Vec::new();
        for i in 0..self.neighbors.len()
            invariant
                pred == (|p: PickView| p.value != choose_neighbor()),
                start == pick_views(self.neighbors@),
                pick_views(kept@) == start.take(i as int).filter(pred),
        {
            proof {
                reveal(Seq::filter);
                assert(start.take(i + 1).drop_last() =~= start.take(i as int));
                assert(start.take(i + 1).last() == self.neighbors@[i as int]@);
            }
            if !str_eq(self.neighbors[i].value.as_str(), "Choose Neighbor") {
                let ghost before = kept@;
                kept.push(copy_pick(&self.neighbors[i]));
                assert(pick_views(kept@) =~= pick_views(before).push(self.neighbors@[i as int]@));
            }
        }
        assert(start.take(start.len() as int) =~= start);
        self.neighbors = kept;
        self.editing = false;
    }
}

/// The neighbour choices of a new entry named `name` with neighbours `ns`:
/// one per neighbour that is not a hover node, each with the other
/// neighbours as siblings.
pub open spec fn picks_of(name: Seq<char>, ns: Seq<Seq<char>>) -> Seq<PickView> {
    ns.filter(|m: Seq<char>| !contains_seq(m, hover_suffix())).map_values(
        |m: Seq<char>| PickView { value: m, parent: name, siblings: others(ns, m) },
    )
}

/// The entry the editor makes for node `n`: coordinates written as briefly
/// as they can be, not being edited.
pub open spec fn entry_of(n: NodeView) -> ConfigNodeView {
    ConfigNodeView {
        name: n.name,
        hide: if n.hide {
            Boolean::True
        } else {
            Boolean::False
        },
        x: milli_short(n.x),
        y: milli_short(n.y),
        z: milli_short(n.z),
        neighbors: picks_of(n.name, n.neighbors),
        editing: false,
    }
}

/// Whether a node is not a hover node.
pub open spec fn not_hover(n: NodeView) -> bool {
    !contains_seq(n.name, hover_suffix())
}

/// The entries of the nodes that are not hover nodes.
pub open spec fn entries(s: Seq<NodeView>) -> Seq<ConfigNodeView> {
    s.filter(|n: NodeView| not_hover(n)).map_values(|n: NodeView| entry_of(n))
}

impl ConfigNode {
    /// The entry of a node named `name` with the given visibility,
    /// coordinates (thousandths of a centimetre) and neighbours.
    pub fn new(name: String, hide: bool, x: i64, y: i64, z: i64, neighbors: Vec<String>) -> (r: ConfigNode)
        ensures
            r@ == entry_of(NodeView { name: name@, x: x as int, y: y as int, z: z as int, hide, neighbors: views(neighbors@) }),
    {
        let ghost ns = views(neighbors@);
        let ghost keep = |m: Seq<char>| !contains_seq(m, hover_suffix());
        let ghost mk = |m: Seq<char>| PickView { value: m, parent: name@, siblings: others(ns, m) };
        let mut ps: Vec<NeighborPick> = Vec::new();
        for i in 0..neighbors.len()
            invariant
                ns == views(neighbors@),
                keep == (|m: Seq<char>| !contains_seq(m, hover_suffix())),
                mk == (|m: Seq<char>| PickView { value: m, parent: name@, siblings: others(ns, m) }),
                pick_views(ps@) == ns.take(i as int).filter(keep).map_values(mk),
        {
            proof {
                reveal(Seq::filter);
                reveal_strlit("_hover");
                assert("_hover"@ =~= hover_suffix());
                assert(ns.take(i + 1).drop_last() =~= ns.take(i as int));
                assert(ns.take(i + 1).last() == neighbors@[i as int]@);
            }
            if !contains_str(neighbors[i].as_str(), "_hover") {
                let ghost before = ps@;
                let p = NeighborPick {
                    value: copy_str(neighbors[i].as_str()),
                    parent: copy_str(name.as_str()),
                    siblings: others_of(&neighbors, neighbors[i].as_str()),
                };
                ps.push(p);
                assert(pick_views(ps@) =~= pick_views(before).push(mk(neighbors@[i as int]@)));
                assert(ns.take(i + 1).filter(keep) == ns.take(i as int).filter(keep).push(neighbors@[i as int]@));
            }
        }
        assert(ns.take(ns.len() as int) =~= ns);
        ConfigNode {
            name,
            hide: Boolean::of(hide),
            x: format_milli_short(x),
            y: format_milli_short(y),
            z: format_milli_short(z),
            neighbors: ps,
            editing: false,
        }
    }

    /// A copy of this entry.
    pub fn duplicate(&self) -> (r: ConfigNode)
        ensures
            r@ == self@,
    {
        let mut ps: Vec<NeighborPick> = Vec::new();
        for i in 0..self.neighbors.len()
            invariant
                ps@.len() == i,
                forall|k: int| 0 <= k < i ==> #[trigger] ps@[k]@ == self.neighbors@[k]@,
        {
            ps.push(copy_pick(&self.neighbors[i]));
        }
        assert(pick_views(ps@) =~= pick_views(self.neighbors@));
        ConfigNode {
            name: copy_str(self.name.as_str()),
            hide: self.hide,
            x: copy_str(self.x.as_str()),
            y: copy_str(self.y.as_str()),
            z: copy_str(self.z.as_str()),
            neighbors: ps,
            editing: self.editing,
        }
    }
}

/// The views of node entries.
pub open spec fn entry_views(v: Seq<ConfigNode>) -> Seq<ConfigNodeView> {
    v.map_values(|c: ConfigNode| c@)
}

/// The entries of the nodes of `nodes` that are not hover nodes.
pub fn entries_of(nodes: &Nodes) -> (r: Vec<ConfigNode>)
    ensures
        entry_views(r@) == entries(nodes@),
{
    let ghost s = nodes@;
    let ghost keep = |n: NodeView| not_hover(n);
    let ghost mk = |n: NodeView| entry_of(n);
    let mut r: Vec<ConfigNode> = Vec::new();
    for i in 0..nodes.node.len()
        invariant
            s == nodes@,
            keep == (|n: NodeView| not_hover(n)),
            mk == (|n: NodeView| entry_of(n)),
            entry_views(r@) == s.take(i as int).filter(keep).map_values(mk),
    {
        proof {
            reveal(Seq::filter);
            reveal_strlit("_hover");
            assert("_hover"@ =~= hover_suffix());
            assert(s.take(i + 1).drop_last() =~= s.take(i as int));
            assert(s.take(i + 1).last() == nodes.node@[i as int]@);
        }
        let n = &nodes.node[i];
        if !contains_str(n.name.as_str(), "_hover") {
            let ghost before = r@;
            let c = ConfigNode::new(
                copy_str(n.name.as_str()),
                n.hide,
                n.x,
                n.y,
                n.z,
                copy_strings(&n.neighbors),
            );
            r.push(c);
            assert(entry_views(r@) =~= entry_views(before).push(mk(nodes.node@[i as int]@)));
            assert(s.take(i + 1).filter(keep) == s.take(i as int).filter(keep).push(nodes.node@[i as int]@));
        }
    }
    assert(s.take(s.len() as int) =~= s);
    r
}

/// A neighbour choice after the node named `old` is renamed `new`.
pub open spec fn renamed_pick(p: PickView, old: Seq<char>, new: Seq<char>) -> PickView {
    PickView {
        value: if p.value == old {
            new
        } else {
            p.value
        },
        parent: if p.parent == old {
            new
        } else {
            p.parent
        },
        siblings: p.siblings,
    }
}

/// Entries after the node named `old` is renamed `new`: every choice of
/// that name, and every choice belonging to it, follows.
pub open spec fn renamed_entries(cs: Seq<ConfigNodeView>, old: Seq<char>, new: Seq<char>) -> Seq<ConfigNodeView> {
    cs.map_values(
        |c: ConfigNodeView|
            ConfigNodeView {
                neighbors: c.neighbors.map_values(|p: PickView| renamed_pick(p, old, new)),
                ..c
            },
    )
}

/// Whether a choice holds the name `v`.
pub open spec fn holds(v: Seq<char>) -> spec_fn(PickView) -> bool {
    |p: PickView| p.value == v
}

/// Choices without the first one holding the name `v`.
pub open spec fn without_value(ps: Seq<PickView>, v: Seq<char>) -> Seq<PickView> {
    match first_index(ps, holds(v)) {
        Some(k) => ps.remove(k),
        None => ps,
    }
}

/// Entries after the node named `v` is deleted: each loses its first choice
/// of that name.
pub open spec fn entries_without(cs: Seq<ConfigNodeView>, v: Seq<char>) -> Seq<ConfigNodeView> {
    cs.map_values(
        |c: ConfigNodeView| ConfigNodeView { neighbors: without_value(c.neighbors, v), ..c },
    )
}

/// The mathematical value of the node editor.
pub struct NodeTabView {
    pub unsaved: bool,
    pub saved: Seq<NodeView>,
    pub modified: Seq<NodeView>,
    pub config: Seq<ConfigNodeView>,
}

/// The node editor: the saved nodes, the flat list being edited, its
/// entries, and whether there are unsaved changes.
pub struct NodeTab {
    pub unsaved: bool,
    pub saved: Nodes,
    pub modified: Nodes,
    pub config_nodes: Vec<ConfigNode>,
}

impl View for NodeTab {
    type V = NodeTabView;

    open spec fn view(&self) -> NodeTabView {
        NodeTabView {
            unsaved: self.unsaved,
            saved: self.saved@,
            modified: self.modified@,
            config: entry_views(self.config_nodes@),
        }
    }
}

/// The node a new entry stands for.
pub open spec fn new_node(name: Seq<char>) -> NodeView {
    NodeView { name, x: 0, y: 0, z: 0, hide: false, neighbors: Seq::empty() }
}

/// Whether message `m` can be applied to the editor `t`: the entry it names
/// exists, an entry being renamed or deleted stands for a node of the list,
/// a neighbour choice it names exists, and the list has room for a node.
/// Saving goes through `NodeTab::save`, which takes the coordinates read
/// from the entries.
pub open spec fn node_tab_fits(t: NodeTabView, m: NodeTabMessage) -> bool {
    match m {
        NodeTabMessage::AddConfigNode => t.modified.len() + 3 <= usize::MAX,
        NodeTabMessage::ConfigNode((i, cm)) => i < t.config.len() && match cm {
            ConfigNodeMessage::NameChanged(_) => first_index(t.modified, is_named(t.config[i as int].name)) is Some,
            ConfigNodeMessage::Delete => first_index(t.modified, is_named(t.config[i as int].name)) is Some,
            _ => node_message_fits(cm, t.config[i as int].neighbors.len() as int),
        },
        NodeTabMessage::SaveMessage(SaveBarMessage::Cancel) => true,
        NodeTabMessage::SaveMessage(SaveBarMessage::Save) => false,
    }
}

/// The editor `t` after message `m`.
pub open spec fn node_tab_after(t: NodeTabView, m: NodeTabMessage) -> NodeTabView {
    match m {
        NodeTabMessage::AddConfigNode => {
            let n = new_node(fresh(names_of(t.modified), "New Node"@));
            NodeTabView {
                unsaved: true,
                modified: t.modified.push(n),
                config: t.config.push(entry_of(n)),
                ..t
            }
        },
        NodeTabMessage::ConfigNode((i, cm)) => {
            let old = t.config[i as int].name;
            match cm {
                ConfigNodeMessage::NameChanged(nn) => match first_index(t.modified, is_named(old)) {
                    Some(idx) => {
                        let cs = renamed_entries(t.config, old, nn@);
                        NodeTabView {
                            unsaved: true,
                            modified: t.modified.update(idx, NodeView { name: nn@, ..t.modified[idx] }),
                            config: cs.update(i as int, node_after(cs[i as int], cm)),
                            ..t
                        }
                    },
                    None => t,
                },
                ConfigNodeMessage::Delete => match first_index(t.modified, is_named(old)) {
                    Some(idx) => NodeTabView {
                        modified: t.modified.remove(idx),
                        config: entries_without(t.config, old).remove(i as int),
                        ..t
                    },
                    None => t,
                },
                ConfigNodeMessage::Edit => {
                    let cs = t.config.map_values(|c: ConfigNodeView| confirmed(c));
                    NodeTabView {
                        unsaved: true,
                        config: cs.update(i as int, ConfigNodeView { editing: true, ..cs[i as int] }),
                        ..t
                    }
                },
                _ => NodeTabView {
                    unsaved: true,
                    config: t.config.update(i as int, node_after(t.config[i as int], cm)),
                    ..t
                },
            }
        },
        NodeTabMessage::SaveMessage(SaveBarMessage::Cancel) => NodeTabView {
            unsaved: false,
            modified: editor_nodes(t.saved),
            config: entries(editor_nodes(t.saved)),
            ..t
        },
        NodeTabMessage::SaveMessage(SaveBarMessage::Save) => t,
    }
}

/// The nodes saved from the entries `cs` with the coordinates `coords`
/// read from them; each keeps the neighbours chosen in its entry, in
/// order, without the choices not made yet.
pub open spec fn saved_nodes(cs: Seq<ConfigNodeView>, coords: Seq<(i64, i64, i64)>) -> Seq<NodeView> {
    Seq::new(
        cs.len(),
        |k: int|
            NodeView {
                name: cs[k].name,
                x: coords[k].0 as int,
                y: coords[k].1 as int,
                z: coords[k].2 as int,
                hide: cs[k].hide == Boolean::True,
                neighbors: pick_values(confirmed(cs[k]).neighbors),
            },
    )
}

/// The names of a node list.
fn node_names(nodes: &Nodes) -> (r: Vec<String>)
    ensures
        views(r@) == names_of(nodes@),
        r@.len() == nodes@.len(),
{
    let mut r: Vec<String> = Vec::new();
    for i in 0..nodes.node.len()
        invariant
            r@.len() == i,
            forall|k: int| 0 <= k < i ==> #[trigger] r@[k]@ == nodes.node@[k].name@,
    {
        r.push(copy_str(nodes.node[i].name.as_str()));
    }
    assert(views(r@) =~= names_of(nodes@));
    r
}

/// The position of the first choice holding `v`.
fn find_value(ps: &Vec<NeighborPick>, v: &str) -> (r: Option<usize>)
    ensures
        r matches Some(k) ==> first_index(pick_views(ps@), holds(v@)) == Some(k as int) && k < ps@.len(),
        r is None ==> first_index(pick_views(ps@), holds(v@)) is None,
{
    let ghost s = pick_views(ps@);
    let ghost p = holds(v@);
    for i in 0..ps.len()
        invariant
            s == pick_views(ps@),
            p == holds(v@),
            forall|k: int| 0 <= k < i ==> !p(#[trigger] s[k]),
    {
        assert(s[i as int] == ps@[i as int]@);
        if str_eq(ps[i].value.as_str(), v) {
            proof {
                lemma_first_index(s, p, i as int);
            }
            return Some(i);
        }
    }
    proof {
        lemma_first_index(s, p, s.len() as int);
    }
    None
}

impl NodeTab {
    /// The editor for the nodes `saved`, with no unsaved changes.
    pub fn new(saved: Nodes) -> (r: NodeTab)
        ensures
            r@ == (NodeTabView {
                unsaved: false,
                saved: saved@,
                modified: editor_nodes(saved@),
                config: entries(editor_nodes(saved@)),
            }),
    {
        let modified = flatten_nodes(&saved);
        let config_nodes = entries_of(&modified);
        NodeTab { unsaved: false, saved, modified, config_nodes }
    }

    /// Applies message `m`, as `node_tab_after` says.
    pub fn update(&mut self, m: NodeTabMessage)
        requires
            node_tab_fits(old(self)@, m),
        ensures
            final(self)@ == node_tab_after(old(self)@, m),
    {
        match m {
            NodeTabMessage::AddConfigNode => {
                let names = node_names(&self.modified);
                let name = fresh_name(&names, "New Node");
                let ghost before = self@;
                let n = Node {
                    name: copy_str(name.as_str()),
                    x: 0,
                    y: 0,
                    z: 0,
                    hide: false,
                    neighbors: Vec::new(),
                };
                assert(n@.neighbors =~= Seq::<Seq<char>>::empty());
                assert(n@ == new_node(name@));
                self.modified.node.push(n);
                let c = ConfigNode::new(name, false, 0, 0, 0, Vec::new());
                self.config_nodes.push(c);
                self.unsaved = true;
                assert(self@.modified =~= before.modified.push(new_node(name@)));
                assert(self@.config =~= before.config.push(entry_of(new_node(name@))));
            },
            NodeTabMessage::ConfigNode((i, cm)) => {
                let ghost t = self@;
                match cm {
                    ConfigNodeMessage::NameChanged(nn) => {
                        self.rename(i, nn);
                    },
                    ConfigNodeMessage::Delete => {
                        self.delete(i);
                    },
                    ConfigNodeMessage::Edit => {
                        self.edit(i);
                    },
                    _ => {
                        let mut c = self.config_nodes.remove(i);
                        c.update(cm);
                        self.config_nodes.insert(i, c);
                        self.unsaved = true;
                        assert(self@.config =~= t.config.update(i as int, node_after(t.config[i as int], cm)));
                    },
                }
            },
            NodeTabMessage::SaveMessage(_) => {
                self.modified = flatten_nodes(&self.saved);
                self.config_nodes = entries_of(&self.modified);
                self.unsaved = false;
            },
        }
    }

    /// Renames entry `i` and the node it stands for to `nn`.
    fn rename(&mut self, i: usize, nn: String)
        requires
            i < old(self)@.config.len(),
            first_index(old(self)@.modified, is_named(old(self)@.config[i as int].name)) is Some,
        ensures
            final(self)@ == node_tab_after(
                old(self)@,
                NodeTabMessage::ConfigNode((i, ConfigNodeMessage::NameChanged(nn))),
            ),
    {
        let ghost t = self@;
        let old_name = copy_str(self.config_nodes[i].name.as_str());
        let idx = match find_named(&self.modified.node, old_name.as_str()) {
            Some(k) => k,
            None => {
                assert(false);
                return;
            },
        };
        let mut n = self.modified.node[idx].duplicate();
        n.name = copy_str(nn.as_str());
        self.modified.node.set(idx, n);
        assert(self@.modified =~= t.modified.update(idx as int, NodeView { name: nn@, ..t.modified[idx as int] }));
        let ghost cs = renamed_entries(t.config, old_name@, nn@);
        let mut renamed: Vec<ConfigNode> = Vec::new();
        for k in 0..self.config_nodes.len()
            invariant
                entry_views(self.config_nodes@) == t.config,
                cs == renamed_entries(t.config, old_name@, nn@),
                renamed@.len() == k,
                forall|j: int| 0 <= j < k ==> #[trigger] renamed@[j]@ == cs[j],
        {
            let c = &self.config_nodes[k];
            let mut ps: Vec<NeighborPick> = Vec::new();
            for q in 0..c.neighbors.len()
                invariant
                    ps@.len() == q,
                    forall|j: int|
                        0 <= j < q ==> #[trigger] ps@[j]@ == renamed_pick(c.neighbors@[j]@, old_name@, nn@),
            {
                let p = &c.neighbors[q];
                let value = if str_eq(p.value.as_str(), old_name.as_str()) {
                    copy_str(nn.as_str())
                } else {
                    copy_str(p.value.as_str())
                };
                let parent = if str_eq(p.parent.as_str(), old_name.as_str()) {
                    copy_str(nn.as_str())
                } else {
                    copy_str(p.parent.as_str())
                };
                ps.push(NeighborPick { value, parent, siblings: copy_strings(&p.siblings) });
            }
            let mut d = c.duplicate();
            d.neighbors = ps;
            assert(d@.neighbors =~= c@.neighbors.map_values(|p: PickView| renamed_pick(p, old_name@, nn@)));
            renamed.push(d);
        }
        assert(entry_views(renamed@) =~= cs);
        let ghost m = ConfigNodeMessage::NameChanged(nn);
        let mut c = renamed.remove(i);
        c.update(ConfigNodeMessage::NameChanged(nn));
        assert(c@ == node_after(cs[i as int], m));
        renamed.insert(i, c);
        assert(entry_views(renamed@) =~= cs.update(i as int, node_after(cs[i as int], m)));
        self.config_nodes = renamed;
        self.unsaved = true;
    }

    /// Deletes entry `i` and the node it stands for; every entry loses its
    /// first choice of that node.
    fn delete(&mut self, i: usize)
        requires
            i < old(self)@.config.len(),
            first_index(old(self)@.modified, is_named(old(self)@.config[i as int].name)) is Some,
        ensures
            final(self)@ == node_tab_after(
                old(self)@,
                NodeTabMessage::ConfigNode((i, ConfigNodeMessage::Delete)),
            ),
    {
        let ghost t = self@;
        let name = copy_str(self.config_nodes[i].name.as_str());
        let idx = match find_named(&self.modified.node, name.as_str()) {
            Some(k) => k,
            None => {
                assert(false);
                return;
            },
        };
        let ghost before = self.modified@;
        self.modified.node.remove(idx);
        assert(self.modified@ =~= before.remove(idx as int));
        let mut kept: Vec<ConfigNode> = Vec::new();
        for k in 0..self.config_nodes.len()
            invariant
                entry_views(self.config_nodes@) == t.config,
                kept@.len() == k,
                forall|j: int| 0 <= j < k ==> #[trigger] kept@[j]@ == entries_without(t.config, name@)[j],
        {
            let mut d = self.config_nodes[k].duplicate();
            match find_value(&d.neighbors, name.as_str()) {
                Some(q) => {
                    let ghost ps = pick_views(d.neighbors@);
                    d.neighbors.remove(q);
                    assert(pick_views(d.neighbors@) =~= ps.remove(q as int));
                },
                None => {},
            }
            kept.push(d);
        }
        assert(entry_views(kept@) =~= entries_without(t.config, name@));
        let ghost all = entry_views(kept@);
        kept.remove(i);
        assert(entry_views(kept@) =~= all.remove(i as int));
        self.config_nodes = kept;
    }

    /// Confirms every entry and puts entry `i` in editing.
    fn edit(&mut self, i: usize)
        requires
            i < old(self)@.config.len(),
        ensures
            final(self)@ == node_tab_after(
                old(self)@,
                NodeTabMessage::ConfigNode((i, ConfigNodeMessage::Edit)),
            ),
    {
        let ghost t = self@;
        let mut done: Vec<ConfigNode> = Vec::new();
        for k in 0..self.config_nodes.len()
            invariant
                entry_views(self.config_nodes@) == t.config,
                done@.len() == k,
                forall|j: int| 0 <= j < k ==> #[trigger] done@[j]@ == confirmed(t.config[j]),
        {
            let mut d = self.config_nodes[k].duplicate();
            d.confirm();
            done.push(d);
        }
        let ghost cs = t.config.map_values(|c: ConfigNodeView| confirmed(c));
        assert(entry_views(done@) =~= cs);
        let mut c = done.remove(i);
        c.editing = true;
        done.insert(i, c);
        self.config_nodes = done;
        self.unsaved = true;
        assert(self@.config =~= cs.update(i as int, ConfigNodeView { editing: true, ..cs[i as int] }));
    }

    /// Saves the entries as the node list, with the coordinates `coords`
    /// read from them (one triple per entry, in thousandths of a
    /// centimetre); each saved node keeps the neighbours chosen in its
    /// entry, so paths are built along the links set up in the editor.
    pub fn save(&mut self, coords: &Vec<(i64, i64, i64)>)
        requires
            coords@.len() == old(self)@.config.len(),
        ensures
            final(self)@ == (NodeTabView { saved: saved_nodes(old(self)@.config, coords@), ..old(self)@ }),
    {
        let ghost t = self@;
        let mut node: Vec<Node> = Vec::new();
        for k in 0..self.config_nodes.len()
            invariant
                entry_views(self.config_nodes@) == t.config,
                coords@.len() == t.config.len(),
                node@.len() == k,
                forall|j: int| 0 <= j < k ==> #[trigger] node@[j]@ == saved_nodes(t.config, coords@)[j],
        {
            let c = &self.config_nodes[k];
            let mut chosen = c.duplicate();
            chosen.confirm();
            let (x, y, z) = coords[k];
            node.push(Node {
                name: copy_str(c.name.as_str()),
                x,
                y,
                z,
                hide: c.hide.value(),
                neighbors: values_of(&chosen.neighbors),
            });
        }
        self.saved = Nodes { node };
        assert(self@.saved =~= saved_nodes(t.config, coords@));
    }
}

/// The names a neighbour choice offers: the nodes other than hover nodes,
/// `HOME`, the entry itself and the names its sibling choices hold.
pub open spec fn options_of(nodes: Seq<NodeView>, parent: Seq<char>, siblings: Seq<Seq<char>>) -> Seq<Seq<char>> {
    names_of(nodes).filter(
        |n: Seq<char>|
            !contains_seq(n, hover_suffix()) && n != "HOME"@ && n != parent && !siblings.contains(n),
    )
}

/// The names a neighbour choice offers, as `options_of` says.
pub fn neighbor_options(nodes: &Nodes, parent: &str, siblings: &Vec<String>) -> (r: Vec<String>)
    ensures
        views(r@) == options_of(nodes@, parent@, views(siblings@)),
{
    let ghost pred = |n: Seq<char>|
        !contains_seq(n, hover_suffix()) && n != "HOME"@ && n != parent@ && !views(siblings@).contains(n);
    let ghost names = names_of(nodes@);
    let mut r: Vec<String> = Vec::new();
    for i in 0..nodes.node.len()
        invariant
            names == names_of(nodes@),
            pred == (|n: Seq<char>|
                !contains_seq(n, hover_suffix()) && n != "HOME"@ && n != parent@ && !views(siblings@).contains(n)),
            views(r@) == names.take(i as int).filter(pred),
    {
        proof {
            reveal(Seq::filter);
            reveal_strlit("_hover");
            assert("_hover"@ =~= hover_suffix());
            assert(names.take(i + 1).drop_last() =~= names.take(i as int));
            assert(names.take(i + 1).last() == nodes.node@[i as int].name@);
        }
        let n = nodes.node[i].name.as_str();
        if !contains_str(n, "_hover") && !str_eq(n, "HOME") && !str_eq(n, parent)
            && !crate::naming::contains_name(siblings, n) {
            let ghost before = r@;
            r.push(copy_str(n));
            assert(views(r@) =~= views(before).push(nodes.node@[i as int].name@));
        }
    }
    assert(names.take(names.len() as int) =~= names);
    r
}

/// A node added in the editor gets a name that no node of the list has.
pub proof fn lemma_added_node_is_new(t: NodeTabView)
    ensures
        !names_of(t.modified).contains(
            node_tab_after(t, NodeTabMessage::AddConfigNode).modified.last().name,
        ),
{
    crate::naming::lemma_fresh_is_new(names_of(t.modified), "New Node"@);
}

/// A neighbour choice never offers the entry itself, `HOME`, a hover node or
/// a name another choice of the entry already holds: no node is offered as
/// its own neighbour, and no neighbour can be chosen twice.
pub proof fn lemma_options_exclude_chosen(nodes: Seq<NodeView>, parent: Seq<char>, siblings: Seq<Seq<char>>)
    ensures
        forall|k: int|
            0 <= k < options_of(nodes, parent, siblings).len() ==> {
                let o = #[trigger] options_of(nodes, parent, siblings)[k];
                &&& o != parent
                &&& !siblings.contains(o)
                &&& o != "HOME"@
                &&& !contains_seq(o, hover_suffix())
            },
{
    let pred = |n: Seq<char>|
        !contains_seq(n, hover_suffix()) && n != "HOME"@ && n != parent && !siblings.contains(n);
    names_of(nodes).filter_lemma(pred);
}

} // verus!
