//! Where the gantry is on the node graph: the node it was last seen at, the
//! nodes still to visit, and the temporary node made where it was stopped;
//! the G-code and log text of a path.
use vstd::prelude::*;
use crate::nodes::{first_index, first_index_bound, lemma_first_index, Node, NodeView, Nodes, hover_suffix, node_views};
use crate::text::{append_str, concat, copy_str, format_milli_short, milli_short, str_eq, views};
use crate::naming::contains_name;

verus! {

/// Whether a node has the name `name`.
pub open spec fn is_named(name: Seq<char>) -> spec_fn(NodeView) -> bool {
    |n: NodeView| n.name == name
}

/// The name of the temporary node made where the gantry was stopped.
pub open spec fn paused_name() -> Seq<char> {
    seq!['p', 'a', 'u', 's', 'e', 'd', '_', 'n', 'o', 'd', 'e']
}

/// How far, in thousandths of a centimetre, the gantry may be from a node on
/// each axis and still be at it (half a centimetre, exclusive).
pub const NEAR: i64 = 500;

/// Whether the position `(x, y, z)` is at node `n`.
pub open spec fn near(n: NodeView, x: int, y: int, z: int) -> bool {
    -500 < n.x - x < 500 && -500 < n.y - y < 500 && -500 < n.z - z < 500
}

/// Whether a node is at the position `(x, y, z)`.
pub open spec fn is_near(x: int, y: int, z: int) -> spec_fn(NodeView) -> bool {
    |n: NodeView| near(n, x, y, z)
}

/// The first node of `nodes` that the position `(x, y, z)` is at.
pub fn locate_node(nodes: &Nodes, x: i64, y: i64, z: i64) -> (r: Option<usize>)
    ensures
        r matches Some(i) ==> first_index(nodes@, is_near(x as int, y as int, z as int))
            == Some(i as int),
        r is None ==> first_index(nodes@, is_near(x as int, y as int, z as int)) is None,
{
    let ghost p = is_near(x as int, y as int, z as int);
    for i in 0..nodes.node.len()
        invariant
            p == is_near(x as int, y as int, z as int),
            forall|k: int| 0 <= k < i ==> !p(#[trigger] nodes@[k]),
    {
        let n = &nodes.node[i];
        let dx = n.x as i128 - x as i128;
        let dy = n.y as i128 - y as i128;
        let dz = n.z as i128 - z as i128;
        if -500 < dx && dx < 500 && -500 < dy && dy < 500 && -500 < dz && dz < 500 {
            proof {
                assert(p(nodes@[i as int]));
                lemma_first_index(nodes@, p, i as int);
            }
            return Some(i);
        }
        assert(!p(nodes@[i as int]));
    }
    proof {
        lemma_first_index(nodes@, p, nodes@.len() as int);
    }
    None
}

/// The mathematical value of a node tracker.
pub struct TrackerView {
    pub prev: Option<NodeView>,
    pub current: NodeView,
    pub next: Seq<NodeView>,
}

/// The node the gantry was last at, the one before it, and the nodes of the
/// path it is following.
pub struct NodeTracker {
    pub prev: Option<Node>,
    pub current: Node,
    pub next: Vec<Node>,
}

impl View for NodeTracker {
    type V = TrackerView;

    open spec fn view(&self) -> TrackerView {
        TrackerView {
            prev: match self.prev {
                Some(n) => Some(n@),
                None => None,
            },
            current: self.current@,
            next: node_views(self.next@),
        }
    }
}

/// The path left after arriving at a node named `name`: from that node on,
/// where the path holds it.
pub open spec fn path_from(next: Seq<NodeView>, name: Seq<char>) -> Seq<NodeView> {
    match first_index(next, is_named(name)) {
        Some(i) => next.subrange(i, next.len() as int),
        None => next,
    }
}

/// The path before an arrival is handled: a path whose only node is the
/// current one is done.
pub open spec fn settled_path(t: TrackerView) -> Seq<NodeView> {
    if t.next.len() == 1 && t.current.name == t.next[0].name {
        Seq::empty()
    } else {
        t.next
    }
}

/// The tracker after the gantry is seen at node `n`.
pub open spec fn arrive_at(t: TrackerView, n: NodeView) -> TrackerView {
    let next = settled_path(t);
    if t.current.name != n.name {
        TrackerView { prev: Some(t.current), current: n, next: path_from(next, n.name) }
    } else {
        TrackerView { next, ..t }
    }
}

/// The neighbour that the temporary node gets besides the node the gantry
/// left: the node it was heading for, where that is a neighbour of the
/// node it left.
pub open spec fn pause_neighbor(t: TrackerView) -> Option<Seq<char>> {
    match first_index(t.next, is_named(t.current.name)) {
        Some(num) => if t.current.neighbors.contains(t.next[num + 1].name) {
            Some(t.next[num + 1].name)
        } else {
            None
        },
        None => if t.next.len() > 1 && t.current.neighbors.contains(t.next[0].name) {
            Some(t.next[0].name)
        } else {
            None
        },
    }
}

/// The one tracker on which making a temporary node fails: the current
/// node is the last of the path and has neighbours, so the node after it
/// is looked up.
pub open spec fn pause_fails(t: TrackerView) -> bool {
    &&& t.current.name != paused_name()
    &&& first_index(t.next, is_named(t.current.name)) matches Some(num)
    &&& num + 1 >= t.next.len()
    &&& t.current.neighbors.len() > 0
}

/// The tracker after the gantry was stopped at `(x, y, z)`: unless it is
/// already there, a hidden node named `paused_node` at that position
/// becomes the current node, joined to the node it left and, where there
/// is one, the neighbour it was heading for; the path is dropped.
pub open spec fn paused_at(t: TrackerView, x: int, y: int, z: int) -> TrackerView {
    if t.current.name != paused_name() {
        TrackerView {
            prev: t.prev,
            current: NodeView {
                name: paused_name(),
                x,
                y,
                z,
                hide: true,
                neighbors: match pause_neighbor(t) {
                    Some(nb) => seq![t.current.name, nb],
                    None => seq![t.current.name],
                },
            },
            next: Seq::empty(),
        }
    } else {
        TrackerView { next: Seq::empty(), ..t }
    }
}

/// Whether the gantry has finished following its path: no node is left to
/// visit and it was not stopped on the way.
pub open spec fn path_done_of(t: TrackerView) -> bool {
    t.current.name != paused_name() && t.next.len() == 0
}

/// The position of the first node in `v` named `name`.
pub(crate) fn find_named(v: &Vec<Node>, name: &str) -> (r: Option<usize>)
    ensures
        r matches Some(i) ==> first_index(node_views(v@), is_named(name@))
            == Some(i as int),
        r is None ==> first_index(node_views(v@), is_named(name@)) is None,
        r matches Some(i) ==> i < v@.len(),
{
    let ghost p = is_named(name@);
    let ghost s = node_views(v@);
    for i in 0..v.len()
        invariant
            s == node_views(v@),
            p == is_named(name@),
            forall|k: int| 0 <= k < i ==> !p(#[trigger] s[k]),
    {
        assert(s[i as int] == v@[i as int]@);
        if str_eq(v[i].name.as_str(), name) {
            proof {
                assert(p(s[i as int]));
                lemma_first_index(s, p, i as int);
            }
            return Some(i);
        }
        assert(!p(s[i as int]));
    }
    proof {
        lemma_first_index(s, p, s.len() as int);
    }
    None
}

/// The name of the paused node.
fn paused_node_name() -> (r: String)
    ensures
        r@ == paused_name(),
{
    proof {
        reveal_strlit("paused_node");
    }
    copy_str("paused_node")
}

impl NodeTracker {
    /// A tracker at node `current`, with nothing before it and no path.
    pub fn new(current: Node) -> (r: NodeTracker)
        ensures
            r@ == (TrackerView { prev: None, current: current@, next: Seq::empty() }),
    {
        let r = NodeTracker { prev: None, current, next: Vec::new() };
        assert(r@.next =~= Seq::<NodeView>::empty());
        r
    }

    /// Records that the gantry was seen at node `n`; says whether that is a
    /// node other than the current one (an arrival).
    pub fn arrive(&mut self, n: &Node) -> (moved: bool)
        ensures
            final(self)@ == arrive_at(old(self)@, n@),
            moved == (old(self)@.current.name != n@.name),
    {
        if self.next.len() == 1 && str_eq(self.current.name.as_str(), self.next[0].name.as_str()) {
            self.next = Vec::new();
            assert(node_views(self.next@) =~= Seq::<NodeView>::empty());
        }
        if !str_eq(self.current.name.as_str(), n.name.as_str()) {
            let old_current = self.current.duplicate();
            self.prev = Some(old_current);
            match find_named(&self.next, n.name.as_str()) {
                Some(i) => {
                    let ghost before = node_views(self.next@);
                    let mut rest: Vec<Node> = Vec::new();
                    let len = self.next.len();
                    for j in i..len
                        invariant
                            len == self.next@.len(),
                            before == node_views(self.next@),
                            i <= len,
                            node_views(rest@) == before.subrange(i as int, j as int),
                    {
                        let ghost r0 = rest@;
                        rest.push(self.next[j].duplicate());
                        assert(node_views(rest@) =~= node_views(r0).push(before[j as int]));
                        assert(before.subrange(i as int, j + 1) =~= before.subrange(
                            i as int,
                            j as int,
                        ).push(before[j as int]));
                    }
                    self.next = rest;
                },
                None => {},
            }
            self.current = n.duplicate();
            true
        } else {
            false
        }
    }

    /// Whether making a temporary node would fail (`pause_fails`): the
    /// current node is the last of the path and has neighbours.
    pub fn pause_would_fail(&self) -> (r: bool)
        ensures
            r == pause_fails(self@),
    {
        proof {
            reveal_strlit("paused_node");
            assert(paused_name() =~= "paused_node"@);
        }
        if str_eq(self.current.name.as_str(), "paused_node") {
            return false;
        }
        match find_named(&self.next, self.current.name.as_str()) {
            Some(num) => num >= self.next.len() - 1 && self.current.neighbors.len() > 0,
            None => false,
        }
    }

    /// Makes the position `(x, y, z)` where the gantry was stopped the
    /// current node, as `paused_at` says, and drops the path.
    pub fn set_pause_node(&mut self, x: i64, y: i64, z: i64)
        requires
            !pause_fails(old(self)@),
        ensures
            final(self)@ == paused_at(old(self)@, x as int, y as int, z as int),
    {
        proof {
            reveal_strlit("paused_node");
            assert(paused_name() =~= "paused_node"@);
        }
        if str_eq(self.current.name.as_str(), "paused_node") {
            self.next = Vec::new();
            assert(node_views(self.next@) =~= Seq::<NodeView>::empty());
            return;
        }
        let len = self.next.len();
        let neighbor: Option<String> = match find_named(&self.next, self.current.name.as_str()) {
            Some(num) => {
                if self.current.neighbors.len() == 0 {
                    None
                } else if contains_name(&self.current.neighbors, self.next[num + 1].name.as_str()) {
                    Some(copy_str(self.next[num + 1].name.as_str()))
                } else {
                    None
                }
            },
            None => {
                if self.next.len() > 1 && contains_name(
                    &self.current.neighbors,
                    self.next[0].name.as_str(),
                ) {
                    Some(copy_str(self.next[0].name.as_str()))
                } else {
                    None
                }
            },
        };
        let mut neighbors: Vec<String> = Vec::new();
        neighbors.push(copy_str(self.current.name.as_str()));
        match neighbor {
            Some(nb) => {
                neighbors.push(nb);
            },
            None => {},
        }
        let ghost t = self@;
        self.current = Node { name: paused_node_name(), x, y, z, hide: true, neighbors };
        self.next = Vec::new();
        assert(node_views(self.next@) =~= Seq::<NodeView>::empty());
        assert(self@.current.neighbors =~= paused_at(t, x as int, y as int, z as int).current.neighbors);
    }

    /// Whether the gantry has finished following its path.
    pub fn path_done(&self) -> (r: bool)
        ensures
            r == path_done_of(self@),
    {
        proof {
            reveal_strlit("paused_node");
            assert(paused_name() =~= "paused_node"@);
        }
        !str_eq(self.current.name.as_str(), "paused_node") && self.next.len() == 0
    }
}

/// Names joined by ` > `, the way a path is written in the log.
pub open spec fn joined_names(names: Seq<Seq<char>>) -> Seq<char>
    decreases names.len(),
{
    if names.len() == 0 {
        Seq::empty()
    } else if names.len() == 1 {
        names[0]
    } else {
        joined_names(names.drop_last()) + seq![' ', '>', ' '] + names.last()
    }
}

/// The names of a path's nodes, joined by ` > `.
pub fn path_text(path: &Nodes) -> (r: String)
    ensures
        r@ == joined_names(path@.map_values(|n: NodeView| n.name)),
{
    let ghost names = path@.map_values(|n: NodeView| n.name);
    let mut r = String::new();
    for i in 0..path.node.len()
        invariant
            names == path@.map_values(|n: NodeView| n.name),
            names.len() == path.node@.len(),
            r@ == joined_names(names.take(i as int)),
    {
        assert(names.take(i + 1).drop_last() =~= names.take(i as int));
        if i > 0 {
            append_str(&mut r, " > ");
            proof {
                reveal_strlit(" > ");
            }
        } else {
            assert(r@ =~= Seq::<char>::empty());
        }
        append_str(&mut r, path.node[i].name.as_str());
        assert(r@ =~= joined_names(names.take(i + 1)));
    }
    assert(names.take(path.node.len() as int) =~= names);
    r
}

/// The jog command to a position given in thousandths of a centimetre.
pub open spec fn jog_text(x: int, y: int, z: int) -> Seq<char> {
    seq!['$', 'J', '=', 'X'] + milli_short(x) + seq![' ', 'Y'] + milli_short(y) + seq![' ', 'Z']
        + milli_short(z) + seq![' ', 'F', '2', '5', '0']
}

/// The G-code that jogs the gantry to `(x, y, z)` at feed rate 250.
pub fn jog_command(x: i64, y: i64, z: i64) -> (r: String)
    ensures
        r@ == jog_text(x as int, y as int, z as int),
{
    proof {
        reveal_strlit("$J=X");
        reveal_strlit(" Y");
        reveal_strlit(" Z");
        reveal_strlit(" F250");
    }
    let mut r = copy_str("$J=X");
    append_str(&mut r, format_milli_short(x).as_str());
    append_str(&mut r, " Y");
    append_str(&mut r, format_milli_short(y).as_str());
    append_str(&mut r, " Z");
    append_str(&mut r, format_milli_short(z).as_str());
    append_str(&mut r, " F250");
    assert(r@ =~= jog_text(x as int, y as int, z as int));
    r
}

/// The node a step goes to: the destination, or the hover node above it.
pub fn destination_name(destination: &str, hover: bool) -> (r: String)
    ensures
        r@ == (if hover { destination@ + hover_suffix() } else { destination@ }),
{
    if hover {
        proof {
            reveal_strlit("_hover");
        }
        assert("_hover"@ =~= hover_suffix());
        concat(destination, "_hover")
    } else {
        copy_str(destination)
    }
}

/// After the gantry is stopped it follows no path; a temporary node made
/// where it stopped is hidden and leads back to the node it had left.
pub proof fn lemma_pause_leads_back(t: TrackerView, x: int, y: int, z: int)
    ensures
        paused_at(t, x, y, z).next.len() == 0,
        t.current.name != paused_name() ==> {
            let p = paused_at(t, x, y, z).current;
            &&& p.name == paused_name()
            &&& p.hide
            &&& p.neighbors.len() >= 1
            &&& p.neighbors[0] == t.current.name
            &&& paused_at(t, x, y, z).prev == t.prev
        },
{
}

/// An arrival at another node makes the node left the previous one and
/// keeps of the path only what lies ahead.
pub proof fn lemma_arrival_moves_on(t: TrackerView, n: NodeView)
    requires
        t.current.name != n.name,
    ensures
        arrive_at(t, n).prev == Some(t.current),
        arrive_at(t, n).current == n,
        arrive_at(t, n).next.len() <= t.next.len(),
{
    let next = settled_path(t);
    first_index_bound(next, is_named(n.name));
}



/// The start of a run's log line about step `step` at time `now`.
pub open spec fn step_prefix(now: Seq<char>, step: Seq<char>) -> Seq<char> {
    now + " => Step "@ + step + ") "@
}

/// A node and its position as the log writes them: `name:(x,y,z)`, in
/// centimetres.
pub open spec fn position_text(n: NodeView) -> Seq<char> {
    n.name + ":("@ + milli_short(n.x) + ","@ + milli_short(n.y) + ","@ + milli_short(n.z) + ")"@
}

/// The log line of a step that moves the gantry from `from` to `to`.
pub open spec fn move_line(now: Seq<char>, step: Seq<char>, from: NodeView, to: NodeView) -> Seq<char> {
    step_prefix(now, step) + "From "@ + position_text(from) + " to "@ + position_text(to)
}

/// The log line naming the path a step follows.
pub open spec fn path_line(now: Seq<char>, step: Seq<char>, path: Seq<NodeView>) -> Seq<char> {
    step_prefix(now, step) + "on path "@ + joined_names(path.map_values(|n: NodeView| n.name))
}

/// The log line of the jog command sent towards node `n`.
pub open spec fn jog_line(now: Seq<char>, step: Seq<char>, n: NodeView) -> Seq<char> {
    step_prefix(now, step) + "Sending pathing G-code '"@ + jog_text(n.x, n.y, n.z) + "'"@
}

/// What sending a path takes: the lines to log and the jog commands to send.
pub struct PathSend {
    pub lines: Vec<String>,
    pub commands: Vec<String>,
}

fn step_start(now: &str, step: &str) -> (r: String)
    ensures
        r@ == step_prefix(now@, step@),
{
    let mut r = copy_str(now);
    append_str(&mut r, " => Step ");
    append_str(&mut r, step);
    append_str(&mut r, ") ");
    r
}

fn append_position(r: &mut String, n: &Node)
    ensures
        final(r)@ == old(r)@ + position_text(n@),
{
    append_str(r, n.name.as_str());
    append_str(r, ":(");
    append_str(r, format_milli_short(n.x).as_str());
    append_str(r, ",");
    append_str(r, format_milli_short(n.y).as_str());
    append_str(r, ",");
    append_str(r, format_milli_short(n.z).as_str());
    append_str(r, ")");
    assert(final(r)@ =~= old(r)@ + position_text(n@));
}

/// The log line of step `step` moving the gantry from `from` to `to`, as
/// `move_line` says.
pub fn move_text(now: &str, step: &str, from: &Node, to: &Node) -> (r: String)
    ensures
        r@ == move_line(now@, step@, from@, to@),
{
    let mut r = step_start(now, step);
    append_str(&mut r, "From ");
    append_position(&mut r, from);
    append_str(&mut r, " to ");
    append_position(&mut r, to);
    assert(r@ =~= move_line(now@, step@, from@, to@));
    r
}

/// The lines to log and the jog commands to send for step `step` following
/// `path`: the line naming the path, then for each node of the path, in
/// order, a line with its jog command; each command jogs to the node's x,
/// y and z.
pub fn path_send(now: &str, step: &str, path: &Nodes) -> (r: PathSend)
    ensures
        views(r.lines@) == seq![path_line(now@, step@, path@)] + path@.map_values(
            |n: NodeView| jog_line(now@, step@, n),
        ),
        views(r.commands@) == path@.map_values(|n: NodeView| jog_text(n.x, n.y, n.z)),
{
    let ghost jl = path@.map_values(|n: NodeView| jog_line(now@, step@, n));
    let ghost jc = path@.map_values(|n: NodeView| jog_text(n.x, n.y, n.z));
    let mut first = step_start(now, step);
    append_str(&mut first, "on path ");
    append_str(&mut first, path_text(path).as_str());
    assert(first@ =~= path_line(now@, step@, path@));
    let mut lines: Vec<String> = Vec::new();
    lines.push(first);
    let mut commands: Vec<String> = Vec::new();
    proof {
        crate::text::lemma_views_push(Seq::<String>::empty(), lines@[0]);
        assert(lines@ =~= Seq::<String>::empty().push(lines@[0]));
        assert(jl.take(0) =~= Seq::<Seq<char>>::empty());
        assert(jc.take(0) =~= Seq::<Seq<char>>::empty());
        assert(views(Seq::<String>::empty()) =~= Seq::<Seq<char>>::empty());
        assert(views(commands@) =~= Seq::<Seq<char>>::empty());
    }
    for i in 0..path.node.len()
        invariant
            jl == path@.map_values(|n: NodeView| jog_line(now@, step@, n)),
            jc == path@.map_values(|n: NodeView| jog_text(n.x, n.y, n.z)),
            path@.len() == path.node@.len(),
            views(lines@) == seq![path_line(now@, step@, path@)] + jl.take(i as int),
            views(commands@) == jc.take(i as int),
    {
        let n = &path.node[i];
        assert(n@ == path@[i as int]);
        let c = jog_command(n.x, n.y, n.z);
        let mut line = step_start(now, step);
        append_str(&mut line, "Sending pathing G-code '");
        append_str(&mut line, c.as_str());
        append_str(&mut line, "'");
        assert(line@ =~= jl[i as int]);
        let ghost lv = lines@;
        let ghost cv = commands@;
        lines.push(line);
        commands.push(c);
        proof {
            crate::text::lemma_views_push(lv, lines@.last());
            crate::text::lemma_views_push(cv, commands@.last());
            assert(lines@ =~= lv.push(lines@.last()));
            assert(commands@ =~= cv.push(commands@.last()));
            assert(jl.take(i + 1) =~= jl.take(i as int).push(jl[i as int]));
            assert(jc.take(i + 1) =~= jc.take(i as int).push(jc[i as int]));
            assert(views(lines@) =~= seq![path_line(now@, step@, path@)] + jl.take(i + 1));
        }
    }
    assert(jl.take(path.node.len() as int) =~= jl);
    assert(jc.take(path.node.len() as int) =~= jc);
    PathSend { lines, commands }
}

impl NodeTracker {
    /// Appends the nodes of `path` to the path the gantry follows.
    pub fn follow(&mut self, path: &Nodes)
        ensures
            final(self)@ == (TrackerView { next: old(self)@.next + path@, ..old(self)@ }),
    {
        let ghost start = self@;
        for i in 0..path.node.len()
            invariant
                path@.len() == path.node@.len(),
                self@ == (TrackerView { next: start.next + path@.take(i as int), ..start }),
        {
            let ghost before = self.next@;
            self.next.push(path.node[i].duplicate());
            assert(node_views(self.next@) =~= node_views(before).push(path.node@[i as int]@));
            assert(path@.take(i + 1) =~= path@.take(i as int).push(path@[i as int]));
        }
        assert(path@.take(path.node.len() as int) =~= path@);
    }
}

} // verus!
