//! Path generation between two nodes of the graph.
//!
//! A search from the start node labels the nodes it meets with a distance
//! (each node taken from a stack of discovered nodes, its neighbours relaxed
//! to one more than its own distance), stopping when the destination is
//! taken from the stack. The labelled nodes, most distant first, are then cut
//! down to the destination and what follows it, and thinned out to a path
//! that ends at the destination.
use vstd::prelude::*;
use crate::nodes::{
    copy_nodes, first_index, first_index_bound, get_nodemap, last_index_of, lemma_first_index,
    lemma_last_index_of, names_of, node_views, Node, NodeMap, NodeView, Nodes,
};
use crate::text::{str_eq, views};

verus! {

/// The nodes the search runs over: the given list followed by the start node.
pub open spec fn search_nodes(nodes: Seq<NodeView>, start: NodeView) -> Seq<NodeView> {
    nodes.push(start)
}

/// A move from node `u` to node `v`: some neighbour name of `u` is looked up
/// (last node of that name) as `v`.
pub open spec fn edge(all: Seq<NodeView>, u: int, v: int) -> bool {
    0 <= u < all.len() && exists|k: int|
        0 <= k < all[u].neighbors.len() && #[trigger] last_index_of(
            names_of(all),
            all[u].neighbors[k],
        ) == Some(v)
}

/// `w` is a sequence of moves starting at the last node of `all` (the start).
pub open spec fn is_walk(all: Seq<NodeView>, w: Seq<int>) -> bool {
    &&& w.len() >= 1
    &&& w[0] == all.len() - 1
    &&& forall|i: int| 0 <= i < w.len() - 1 ==> #[trigger] edge(all, w[i], w[i + 1])
}

/// Node `v` can be reached from the start by moves.
pub open spec fn reachable(all: Seq<NodeView>, v: int) -> bool {
    exists|w: Seq<int>| #[trigger] is_walk(all, w) && w.last() == v
}

proof fn lemma_reach_step(all: Seq<NodeView>, u: int, v: int, k: int)
    requires
        reachable(all, u),
        0 <= u < all.len(),
        0 <= k < all[u].neighbors.len(),
        last_index_of(names_of(all), all[u].neighbors[k]) == Some(v),
    ensures
        reachable(all, v),
{
    let w = choose|w: Seq<int>| #[trigger] is_walk(all, w) && w.last() == u;
    let w2 = w.push(v);
    assert(edge(all, u, v));
    assert forall|i: int| 0 <= i < w2.len() - 1 implies #[trigger] edge(all, w2[i], w2[i + 1]) by {
        if i < w.len() - 1 {
            assert(w2[i] == w[i] && w2[i + 1] == w[i + 1]);
        } else {
            assert(w2[i] == u && w2[i + 1] == v);
        }
    }
    assert(is_walk(all, w2));
}

proof fn lemma_reach_start(all: Seq<NodeView>)
    requires
        all.len() >= 1,
    ensures
        reachable(all, all.len() - 1),
{
    let w = seq![all.len() - 1];
    assert(is_walk(all, w));
}

/// The number of `true` values.
pub open spec fn count_true(s: Seq<bool>) -> nat
    decreases s.len(),
{
    if s.len() == 0 {
        0
    } else {
        count_true(s.drop_last()) + if s.last() {
            1nat
        } else {
            0nat
        }
    }
}

/// The number of stack entries whose node has been expanded.
pub open spec fn expanded_entries(stack: Seq<usize>, visited: Seq<bool>) -> nat
    decreases stack.len(),
{
    if stack.len() == 0 {
        0
    } else {
        expanded_entries(stack.drop_last(), visited) + if visited[stack.last() as int] {
            1nat
        } else {
            0nat
        }
    }
}

proof fn lemma_count_true_bound(s: Seq<bool>)
    ensures
        count_true(s) <= s.len(),
    decreases s.len(),
{
    if s.len() > 0 {
        lemma_count_true_bound(s.drop_last());
    }
}

proof fn lemma_count_true_set(s: Seq<bool>, i: int)
    requires
        0 <= i < s.len(),
        !s[i],
    ensures
        count_true(s.update(i, true)) == count_true(s) + 1,
    decreases s.len(),
{
    let t = s.update(i, true);
    if i == s.len() - 1 {
        assert(t.drop_last() =~= s.drop_last());
    } else {
        lemma_count_true_set(s.drop_last(), i);
        assert(t.drop_last() =~= s.drop_last().update(i, true));
    }
}

proof fn lemma_expanded_push(stack: Seq<usize>, visited: Seq<bool>, e: usize)
    ensures
        expanded_entries(stack.push(e), visited) == expanded_entries(stack, visited) + if visited[e as int] {
            1nat
        } else {
            0nat
        },
{
    assert(stack.push(e).drop_last() =~= stack);
}

/// The labels of the search: a distance for every node met, relaxed through
/// the given neighbour lists.
struct Search {
    dist: Vec<Option<u16>>,
    visited: Vec<bool>,
    stack: Vec<usize>,
}

/// The state of the search: the distance label of each node, which nodes
/// were expanded, the stack of discovered nodes, and the node being
/// expanded.
pub struct SearchState {
    pub dist: Seq<Option<u16>>,
    pub visited: Seq<bool>,
    pub stack: Seq<usize>,
    pub current: int,
}

/// The outcome of one round of the search.
pub enum Round {
    /// A neighbour name names no node.
    Fail,
    /// The search ended with these labels.
    Done(Seq<Option<u16>>),
    /// The search goes on from this state.
    Next(SearchState),
}

/// The search before its first round: only the start (the last node) is
/// labelled, with distance zero, and it is the node expanded first.
pub open spec fn initial_state(n: nat) -> SearchState {
    SearchState {
        dist: Seq::new(n, |v: int| if v + 1 == n { Some(0u16) } else { None }),
        visited: Seq::new(n, |v: int| false),
        stack: Seq::empty(),
        current: n - 1,
    }
}

/// Relaxing the neighbours `ns` of a node whose neighbours get the distance
/// `nd`, in order: each is looked up by name (the last node of that name);
/// an unexpanded one is pushed on the stack; its label becomes `nd` unless
/// it already holds a smaller one. Nothing where a name names no node.
pub open spec fn relax(
    names: Seq<Seq<char>>,
    dist: Seq<Option<u16>>,
    visited: Seq<bool>,
    stack: Seq<usize>,
    nd: u16,
    ns: Seq<Seq<char>>,
) -> Option<(Seq<Option<u16>>, Seq<usize>)>
    decreases ns.len(),
{
    if ns.len() == 0 {
        Some((dist, stack))
    } else {
        match relax(names, dist, visited, stack, nd, ns.drop_last()) {
            None => None,
            Some((d, st)) => match last_index_of(names, ns.last()) {
                None => None,
                Some(idx) => {
                    let st2 = if !visited[idx] {
                        st.push(idx as usize)
                    } else {
                        st
                    };
                    let keep = match d[idx] {
                        Some(x) => x < nd,
                        None => false,
                    };
                    Some((if keep { d } else { d.update(idx, Some(nd)) }, st2))
                },
            },
        }
    }
}

/// One round of the search from state `s`: the current node's neighbours
/// are relaxed, the node is marked expanded, and the next node is taken
/// from the stack; the search ends when the stack is empty or the node
/// taken is named `stop`.
pub open spec fn round(all: Seq<NodeView>, stop: Seq<char>, s: SearchState) -> Round {
    match s.dist[s.current] {
        None => Round::Fail,
        Some(dc) => match relax(
            names_of(all),
            s.dist,
            s.visited,
            s.stack,
            (dc + 1) as u16,
            all[s.current].neighbors,
        ) {
            None => Round::Fail,
            Some((d, st)) => {
                let vis = s.visited.update(s.current, true);
                if st.len() == 0 {
                    Round::Done(d)
                } else if all[st.last() as int].name == stop {
                    Round::Done(d)
                } else {
                    Round::Next(
                        SearchState { dist: d, visited: vis, stack: st.drop_last(), current: st.last() as int },
                    )
                }
            },
        },
    }
}

/// The search from `s` run for at most `fuel` rounds: its labels, nothing
/// where it failed, and no answer where the fuel ran out.
pub open spec fn run_search(all: Seq<NodeView>, stop: Seq<char>, s: SearchState, fuel: nat) -> Option<Option<Seq<Option<u16>>>>
    decreases fuel,
{
    if fuel == 0 {
        None
    } else {
        match round(all, stop, s) {
            Round::Fail => Some(None),
            Round::Done(d) => Some(Some(d)),
            Round::Next(s2) => run_search(all, stop, s2, (fuel - 1) as nat),
        }
    }
}

/// The labels the search over `all` ends with (nothing where it fails).
pub open spec fn search_outcome(all: Seq<NodeView>, stop: Seq<char>) -> Option<Seq<Option<u16>>> {
    let s = initial_state(all.len());
    let f = choose|f: nat| run_search(all, stop, s, f) is Some;
    match run_search(all, stop, s, f) {
        Some(r) => r,
        None => None,
    }
}

/// More fuel does not change an answer the search already gave.
proof fn lemma_run_stable(all: Seq<NodeView>, stop: Seq<char>, s: SearchState, f1: nat, f2: nat)
    requires
        run_search(all, stop, s, f1) is Some,
        f1 <= f2,
    ensures
        run_search(all, stop, s, f2) == run_search(all, stop, s, f1),
    decreases f1,
{
    if f1 > 0 {
        match round(all, stop, s) {
            Round::Next(s2) => {
                lemma_run_stable(all, stop, s2, (f1 - 1) as nat, (f2 - 1) as nat);
            },
            _ => {},
        }
    }
}

/// Where the search from the start gives an answer after `f` rounds, that
/// answer is its outcome.
proof fn lemma_outcome(all: Seq<NodeView>, stop: Seq<char>, f: nat)
    requires
        run_search(all, stop, initial_state(all.len()), f) is Some,
    ensures
        search_outcome(all, stop) == run_search(all, stop, initial_state(all.len()), f)->0,
{
    let s = initial_state(all.len());
    let g = choose|g: nat| run_search(all, stop, s, g) is Some;
    if g <= f {
        lemma_run_stable(all, stop, s, g, f);
    } else {
        lemma_run_stable(all, stop, s, f, g);
    }
}

/// Once relaxing a prefix of the neighbours fails, relaxing all of them
/// fails.
proof fn lemma_relax_none(
    names: Seq<Seq<char>>,
    dist: Seq<Option<u16>>,
    visited: Seq<bool>,
    stack: Seq<usize>,
    nd: u16,
    ns: Seq<Seq<char>>,
    k: int,
)
    requires
        0 <= k <= ns.len(),
        relax(names, dist, visited, stack, nd, ns.take(k)) is None,
    ensures
        relax(names, dist, visited, stack, nd, ns) is None,
    decreases ns.len() - k,
{
    if k < ns.len() {
        assert(ns.take(k + 1).drop_last() =~= ns.take(k));
        lemma_relax_none(names, dist, visited, stack, nd, ns, k + 1);
    } else {
        assert(ns.take(k) =~= ns);
    }
}

/// The search invariant: labels sit on reachable nodes, the start keeps
/// distance zero and every other label is positive, stack entries are
/// labelled, and no label exceeds the number of expanded nodes.
spec fn search_inv(all: Seq<NodeView>, dist: Seq<Option<u16>>, visited: Seq<bool>, stack: Seq<usize>) -> bool {
    let n = all.len();
    &&& dist.len() == n
    &&& visited.len() == n
    &&& n >= 1
    &&& dist[n - 1] == Some(0u16)
    &&& forall|v: int| 0 <= v < n && #[trigger] dist[v] is Some ==> reachable(all, v)
    &&& forall|v: int| 0 <= v < n - 1 && #[trigger] dist[v] is Some ==> dist[v]->0 >= 1
    &&& forall|v: int|
        0 <= v < n && #[trigger] dist[v] is Some ==> dist[v]->0 + (if visited[v] {
            1int
        } else {
            0int
        }) <= count_true(visited)
    &&& forall|j: int| 0 <= j < stack.len() ==> #[trigger] stack[j] < n && dist[stack[j] as int] is Some
    &&& forall|v: int| 0 <= v < n && #[trigger] visited[v] ==> dist[v] is Some
}

/// Runs the search; `None` where a neighbour name names no node.
fn search(all: &Nodes, map: &NodeMap, stop_name: &str) -> (r: Option<Vec<Option<u16>>>)
    requires
        all@.len() >= 1,
        all@.len() < 65534,
        map@ == names_of(all@),
    ensures
        r matches Some(dist) ==> search_outcome(all@, stop_name@) == Some(dist@),
        r is None ==> search_outcome(all@, stop_name@) is None,
        r matches Some(dist) ==> {
            &&& dist@.len() == all@.len()
            &&& dist@[all@.len() - 1] == Some(0u16)
            &&& forall|v: int| 0 <= v < all@.len() && #[trigger] dist@[v] is Some ==> reachable(all@, v)
            &&& forall|v: int|
                0 <= v < all@.len() - 1 && #[trigger] dist@[v] is Some ==> dist@[v]->0 >= 1
        },
{
    let n = all.node.len();
    let mut dist: Vec<Option<u16>> = Vec::new();
    let mut visited: Vec<bool> = Vec::new();
    for i in 0..n
        invariant
            n == all@.len(),
            dist@.len() == i,
            visited@.len() == i,
            forall|v: int|
                0 <= v < i ==> #[trigger] dist@[v] == if v + 1 == n {
                    Some(0u16)
                } else {
                    None
                },
            forall|v: int| 0 <= v < i ==> !#[trigger] visited@[v],
    {
        if i + 1 == n {
            dist.push(Some(0u16));
        } else {
            dist.push(None);
        }
        visited.push(false);
    }
    let mut stack: Vec<usize> = Vec::new();
    let mut current: usize = n - 1;
    let ghost init = initial_state(n as nat);
    let ghost mut steps: nat = 0;
    proof {
        assert(dist@ =~= init.dist);
        assert(visited@ =~= init.visited);
        assert(stack@ =~= init.stack);
        assert forall|f: nat| #[trigger] run_search(all@, stop_name@, init, steps + f) == run_search(
            all@,
            stop_name@,
            SearchState { dist: dist@, visited: visited@, stack: stack@, current: current as int },
            f,
        ) by {
            assert(SearchState { dist: dist@, visited: visited@, stack: stack@, current: current as int } == init);
        }
        lemma_reach_start(all@);
        assert(count_true(visited@) == 0) by {
            lemma_count_zero(visited@);
        }
    }
    loop
        invariant_except_break
            forall|f: nat| #[trigger] run_search(all@, stop_name@, init, steps + f) == run_search(
                all@,
                stop_name@,
                SearchState { dist: dist@, visited: visited@, stack: stack@, current: current as int },
                f,
            ),
        invariant
            n == all@.len(),
            n < 65534,
            map@ == names_of(all@),
            search_inv(all@, dist@, visited@, stack@),
            current < n,
            dist@[current as int] is Some,
            init == initial_state(n as nat),
        ensures
            run_search(all@, stop_name@, init, steps + 1) == Some(Some(dist@)),
        decreases n - count_true(visited@), expanded_entries(stack@, visited@) + if visited@[current as int] {
            1nat
        } else {
            0nat
        },
    {
        let ghost old_visited = visited@;
        let ghost old_stack = stack@;
        let ghost old_dist = dist@;
        let ghost cur = SearchState { dist: dist@, visited: visited@, stack: stack@, current: current as int };
        proof {
            assert(run_search(all@, stop_name@, init, steps + 1) == run_search(all@, stop_name@, cur, 1));
        }
        let ghost nvis = count_true(visited@);
        let ghost bound: int = nvis + if visited@[current as int] {
            0int
        } else {
            1int
        };
        proof {
            lemma_count_true_bound(visited@);
        }
        let dc: u16 = match dist[current] {
            Some(d) => d,
            None => {
                proof {
                    assert(round(all@, stop_name@, cur) == Round::Fail);
                    lemma_outcome(all@, stop_name@, steps + 1);
                }
                return None;
            },
        };
        assert(dc + 1 <= bound);
        let new_distance: u16 = dc + 1;
        let node = &all.node[current];
        let nb = &node.neighbors;
        let ghost ns = views(nb@);
        proof {
            assert(ns == all@[current as int].neighbors);
            assert(ns.take(0) =~= Seq::<Seq<char>>::empty());
        }
        let mut k: usize = 0;
        while k < nb.len()
            invariant
                ns == views(nb@),
                old_dist == cur.dist,
                relax(names_of(all@), old_dist, old_visited, old_stack, new_distance, ns.take(k as int)) == Some(
                    (dist@, stack@),
                ),
                cur == (SearchState { dist: old_dist, visited: old_visited, stack: old_stack, current: current as int }),
                old_dist[current as int] == Some(dc),
                new_distance == (dc + 1) as u16,
                run_search(all@, stop_name@, init, steps + 1) == run_search(all@, stop_name@, cur, 1),
                init == initial_state(n as nat),
                n == all@.len(),
                n < 65534,
                map@ == names_of(all@),
                current < n,
                nb@ == all.node@[current as int].neighbors@,
                k <= nb@.len(),
                visited@ == old_visited,
                visited@.len() == n,
                count_true(visited@) == nvis,
                nvis <= n,
                bound == nvis + if visited@[current as int] {
                    0int
                } else {
                    1int
                },
                new_distance as int == dc as int + 1,
                new_distance <= bound,
                dist@[current as int] == Some(dc),
                dist@.len() == n,
                dist@[n - 1] == Some(0u16),
                forall|v: int| 0 <= v < n && #[trigger] dist@[v] is Some ==> reachable(all@, v),
                forall|v: int| 0 <= v < n - 1 && #[trigger] dist@[v] is Some ==> dist@[v]->0 >= 1,
                forall|v: int|
                    0 <= v < n && #[trigger] dist@[v] is Some ==> dist@[v]->0 + (if visited@[v] {
                        1int
                    } else {
                        0int
                    }) <= bound,
                forall|j: int|
                    0 <= j < stack@.len() ==> #[trigger] stack@[j] < n && dist@[stack@[j] as int] is Some,
                forall|v: int| 0 <= v < n && #[trigger] visited@[v] ==> dist@[v] is Some,
                stack@.len() >= old_stack.len(),
                stack@.take(old_stack.len() as int) == old_stack,
                forall|j: int|
                    old_stack.len() <= j < stack@.len() ==> !old_visited[#[trigger] stack@[j] as int],
            decreases nb@.len() - k,
        {
            proof {
                assert(ns.take(k + 1).drop_last() =~= ns.take(k as int));
                assert(ns.take(k + 1).last() == nb@[k as int]@);
            }
            let idx = match map.get(nb[k].as_str()) {
                Some(i) => i,
                None => {
                    proof {
                        assert(relax(names_of(all@), old_dist, old_visited, old_stack, new_distance, ns.take(k + 1)) is None);
                        lemma_relax_none(names_of(all@), old_dist, old_visited, old_stack, new_distance, ns, k + 1);
                        assert(ns.take(ns.len() as int) =~= ns);
                        assert(round(all@, stop_name@, cur) == Round::Fail);
                        lemma_outcome(all@, stop_name@, steps + 1);
                    }
                    return None;
                },
            };
            proof {
                lemma_last_index_of(names_of(all@), nb@[k as int]@);
                assert(all@[current as int].neighbors[k as int] == nb@[k as int]@);
                lemma_reach_step(all@, current as int, idx as int, k as int);
            }
            if !visited[idx] {
                let ghost before = stack@;
                stack.push(idx);
                assert(stack@.take(old_stack.len() as int) =~= before.take(old_stack.len() as int));
            }
            let keep = match dist[idx] {
                Some(d) => d < new_distance,
                None => false,
            };
            if !keep {
                dist.set(idx, Some(new_distance));
            }
            k = k + 1;
        }
        proof {
            assert(ns.take(ns.len() as int) =~= ns);
        }
        let was_visited = visited[current];
        visited.set(current, true);
        proof {
            if !was_visited {
                lemma_count_true_set(old_visited, current as int);
            } else {
                assert(visited@ =~= old_visited);
            }
            assert(count_true(visited@) == bound);
        }
        let ghost mid_stack = stack@;
        proof {
            // entries pushed in this round were not expanded before it
            lemma_expanded_extend(old_stack, mid_stack, old_visited, visited@, current);
        }
        match stack.pop() {
            Some(next) => {
                proof {
                    assert(mid_stack.drop_last() =~= stack@);
                    assert(expanded_entries(mid_stack, visited@) == expanded_entries(stack@, visited@)
                        + if visited@[next as int] {
                        1nat
                    } else {
                        0nat
                    });
                }
                current = next;
                proof {
                    lemma_count_true_bound(visited@);
                    if was_visited {
                        assert(count_true(visited@) == nvis);
                        assert(expanded_entries(mid_stack, visited@) == expanded_entries(old_stack, old_visited));
                    } else {
                        assert(count_true(visited@) == nvis + 1);
                    }
                }
            },
            None => {
                proof {
                    assert(round(all@, stop_name@, cur) == Round::Done(dist@));
                }
                break;
            },
        }
        if str_eq(all.node[current].name.as_str(), stop_name) {
            proof {
                assert(round(all@, stop_name@, cur) == Round::Done(dist@));
            }
            break;
        }
        proof {
            let next = SearchState { dist: dist@, visited: visited@, stack: stack@, current: current as int };
            assert(round(all@, stop_name@, cur) == Round::Next(next));
            assert forall|f: nat| #[trigger] run_search(all@, stop_name@, init, (steps + 1) + f)
                == run_search(all@, stop_name@, next, f) by {
                assert(run_search(all@, stop_name@, init, steps + (f + 1)) == run_search(all@, stop_name@, cur, f + 1));
            }
            steps = steps + 1;
        }
    }
    proof {
        lemma_outcome(all@, stop_name@, steps + 1);
    }
    Some(dist)
}

/// The labelled nodes as (position, distance) entries, in position order.
pub open spec fn labelled(d: Seq<Option<u16>>) -> Seq<(usize, u16)>
    decreases d.len(),
{
    if d.len() == 0 {
        Seq::empty()
    } else {
        let r = labelled(d.drop_last());
        match d.last() {
            Some(x) => r.push(((d.len() - 1) as usize, x)),
            None => r,
        }
    }
}

/// Where an entry of distance `x` goes in a list ordered greatest distance
/// first: after every entry whose distance is not smaller.
pub open spec fn dist_slot(l: Seq<(usize, u16)>, x: u16) -> int {
    match first_index(l, |e: (usize, u16)| e.1 < x) {
        Some(p) => p,
        None => l.len() as int,
    }
}

/// Entries ordered greatest distance first; entries of equal distance keep
/// their order.
pub open spec fn by_distance(s: Seq<(usize, u16)>) -> Seq<(usize, u16)>
    decreases s.len(),
{
    if s.len() == 0 {
        s
    } else {
        let l = by_distance(s.drop_last());
        l.insert(dist_slot(l, s.last().1), s.last())
    }
}

/// Whether an entry stands for a node named `stop`.
pub open spec fn names_node(all: Seq<NodeView>, stop: Seq<char>) -> spec_fn((usize, u16)) -> bool {
    |e: (usize, u16)| all[e.0 as int].name == stop
}

/// The ordered entries from the first one named `stop` on; nothing where
/// none is.
pub open spec fn cut(all: Seq<NodeView>, l: Seq<(usize, u16)>, stop: Seq<char>) -> Option<Seq<(usize, u16)>> {
    match first_index(l, names_node(all, stop)) {
        Some(p) => Some(l.subrange(p, l.len() as int)),
        None => None,
    }
}

/// Whether entry `i` is kept joined to the entry after it: its node has
/// neighbours, and either the next entry is the last one or the node lists
/// the next entry's name among its neighbours.
pub open spec fn links(all: Seq<NodeView>, l: Seq<(usize, u16)>, i: int) -> bool {
    let nb = all[l[i].0 as int].neighbors;
    nb.len() > 0 && (i == l.len() - 2 || nb.contains(all[l[i + 1].0 as int].name))
}

/// Going from entry `i` on, drops every entry that the entry before it
/// does not link to; nothing where the last entry would have to go.
pub open spec fn thin_links(all: Seq<NodeView>, l: Seq<(usize, u16)>, i: int) -> Option<Seq<(usize, u16)>>
    decreases l.len(), l.len() - i,
{
    if i < 0 || i + 1 >= l.len() {
        None
    } else if links(all, l, i) {
        if i == l.len() - 2 {
            Some(l)
        } else {
            thin_links(all, l, i + 1)
        }
    } else if i + 1 == l.len() - 1 {
        None
    } else {
        thin_links(all, l.remove(i + 1), i)
    }
}

/// Going through the positions from `i` up to `end` (fixed beforehand),
/// drops an entry whose distance equals that of the entry before it;
/// nothing where a position runs past the shortened list.
pub open spec fn thin_equal(l: Seq<(usize, u16)>, i: int, end: int) -> Option<Seq<(usize, u16)>>
    decreases end - i,
{
    if i >= end {
        Some(l)
    } else if i < 1 || i >= l.len() {
        None
    } else if l[i].1 == l[i - 1].1 {
        thin_equal(l.remove(i), i + 1, end)
    } else {
        thin_equal(l, i + 1, end)
    }
}

/// The two thinning steps in turn.
pub open spec fn thin(all: Seq<NodeView>, l: Seq<(usize, u16)>) -> Option<Seq<(usize, u16)>> {
    match thin_links(all, l, 0) {
        Some(l1) => thin_equal(l1, 1, l1.len() - 1),
        None => None,
    }
}

/// The path a thinned list stands for: its nodes from the one before the
/// start to the destination.
pub open spec fn path_of(all: Seq<NodeView>, l: Seq<(usize, u16)>) -> Seq<NodeView> {
    Seq::new((l.len() - 1) as nat, |k: int| all[l[l.len() - 2 - k].0 as int])
}

/// The path from `start` to `stop` through `nodes`: the start alone where
/// the names agree; else the search's labels, ordered by distance, cut to
/// the destination, thinned, and read from the start's side (start left
/// out); nothing where a step fails.
pub open spec fn node_path(nodes: Seq<NodeView>, start: NodeView, stop: NodeView) -> Option<Seq<NodeView>> {
    if start.name == stop.name {
        Some(seq![start])
    } else {
        let all = search_nodes(nodes, start);
        match search_outcome(all, stop.name) {
            None => None,
            Some(d) => match cut(all, by_distance(labelled(d)), stop.name) {
                None => None,
                Some(l) => match thin(all, l) {
                    None => None,
                    Some(t) => Some(path_of(all, t)),
                },
            },
        }
    }
}

/// The labelled nodes as (position, distance) entries, in position order.
fn labelled_entries(all: &Nodes, dist: &Vec<Option<u16>>) -> (r: Vec<(usize, u16)>)
    requires
        dist@.len() == all@.len(),
        all@.len() >= 1,
        dist@[all@.len() - 1] == Some(0u16),
        forall|v: int| 0 <= v < all@.len() && #[trigger] dist@[v] is Some ==> reachable(all@, v),
        forall|v: int| 0 <= v < all@.len() - 1 && #[trigger] dist@[v] is Some ==> dist@[v]->0 >= 1,
    ensures
        entries_ok(all@, r@),
        forall|i: int, j: int| 0 <= i < j < r@.len() ==> r@[i].0 < r@[j].0,
        r@.contains(((all@.len() - 1) as usize, 0u16)),
        r@ == labelled(dist@),
{
    let n = dist.len();
    let mut r: Vec<(usize, u16)> = Vec::new();
    for v in 0..n
        invariant
            n == dist@.len(),
            n == all@.len(),
            dist@[n - 1] == Some(0u16),
            forall|u: int| 0 <= u < n && #[trigger] dist@[u] is Some ==> reachable(all@, u),
            forall|u: int| 0 <= u < n - 1 && #[trigger] dist@[u] is Some ==> dist@[u]->0 >= 1,
            entries_ok(all@, r@),
            forall|j: int| 0 <= j < r@.len() ==> #[trigger] r@[j].0 < v,
            forall|i: int, j: int| 0 <= i < j < r@.len() ==> r@[i].0 < r@[j].0,
            v == n ==> r@.contains(((n - 1) as usize, 0u16)),
            r@ == labelled(dist@.take(v as int)),
    {
        assert(dist@.take(v + 1).drop_last() =~= dist@.take(v as int));
        match dist[v] {
            Some(d) => {
                r.push((v, d));
                if v + 1 == n {
                    assert(r@[r@.len() - 1] == ((n - 1) as usize, 0u16));
                }
            },
            None => {},
        }
    }
    assert(dist@.take(n as int) =~= dist@);
    r
}

/// Every entry names a reachable node by its position, and the distance is
/// zero exactly for the start (the last position).
pub open spec fn entries_ok(all: Seq<NodeView>, l: Seq<(usize, u16)>) -> bool {
    forall|j: int|
        0 <= j < l.len() ==> {
            &&& (#[trigger] l[j]).0 < all.len()
            &&& (l[j].0 == all.len() - 1 <==> l[j].1 == 0)
            &&& reachable(all, l[j].0 as int)
        }
}

/// Orders the entries by distance, greatest first, keeping the given order
/// among equal distances.
#[verifier::rlimit(50)]
fn sort_by_distance(all: &Nodes, entries: &Vec<(usize, u16)>) -> (r: Vec<(usize, u16)>)
    requires
        entries_ok(all@, entries@),
        forall|i: int, j: int| 0 <= i < j < entries@.len() ==> entries@[i].0 < entries@[j].0,
    ensures
        entries_ok(all@, r@),
        forall|i: int, j: int| 0 <= i < j < r@.len() ==> r@[i].0 != r@[j].0,
        forall|i: int, j: int| 0 <= i < j < r@.len() ==> r@[i].1 >= r@[j].1,
        forall|x: (usize, u16)| entries@.contains(x) ==> r@.contains(x),
        r@ == by_distance(entries@),
{
    let mut r: Vec<(usize, u16)> = Vec::new();
    let mut i: usize = 0;
    while i < entries.len()
        invariant
            i <= entries@.len(),
            entries_ok(all@, entries@),
            forall|a: int, b: int| 0 <= a < b < entries@.len() ==> entries@[a].0 < entries@[b].0,
            entries_ok(all@, r@),
            forall|a: int, b: int| 0 <= a < b < r@.len() ==> r@[a].0 != r@[b].0,
            forall|a: int, b: int| 0 <= a < b < r@.len() ==> r@[a].1 >= r@[b].1,
            forall|a: int| 0 <= a < i ==> r@.contains(#[trigger] entries@[a]),
            forall|a: int|
                #![trigger r@[a]]
                0 <= a < r@.len() ==> exists|b: int|
                    #![trigger entries@[b]]
                    0 <= b < i && r@[a] == entries@[b],
            r@.len() == i,
            r@ == by_distance(entries@.take(i as int)),
        decreases entries@.len() - i,
    {
        let e = entries[i];
        let ghost sorted_before = r@;
        let mut p: usize = 0;
        while p < r.len() && r[p].1 >= e.1
            invariant
                p <= r@.len(),
                forall|a: int| 0 <= a < p ==> #[trigger] r@[a].1 >= e.1,
            decreases r@.len() - p,
        {
            p = p + 1;
        }
        let ghost before = r@;
        proof {
            lemma_first_index(before, |c: (usize, u16)| c.1 < e.1, p as int);
            assert(entries@.take(i + 1).drop_last() =~= entries@.take(i as int));
            assert(entries@.take(i + 1).last() == e);
            assert forall|a: int| 0 <= a < before.len() implies #[trigger] before[a].0 != e.0 by {
                let b = choose|b: int| 0 <= b < i && before[a] == entries@[b];
                assert(entries@[b].0 < entries@[i as int].0);
            }
            before.insert_ensures(p as int, e);
        }
        r.insert(p, e);
        proof {
            assert(r@ == before.insert(p as int, e));
            assert forall|a: int, b: int| 0 <= a < b < r@.len() implies r@[a].1 >= r@[b].1 by {
                if b < p {
                } else if b == p {
                } else if a < p {
                    if p < before.len() {
                        assert(before[p as int].1 < e.1);
                    }
                } else if a == p {
                    assert(before[p as int].1 < e.1);
                    assert(before[p as int].1 >= before[b - 1].1 || b - 1 == p);
                } else {
                }
            }
            assert forall|a: int, b: int| 0 <= a < b < r@.len() implies r@[a].0 != r@[b].0 by {
                if b < p {
                } else if b == p {
                } else if a < p {
                } else if a == p {
                    assert(r@[b] == before[b - 1]);
                } else {
                }
            }
            assert forall|a: int| 0 <= a <= i implies r@.contains(#[trigger] entries@[a]) by {
                if a < i {
                    let q = choose|q: int| 0 <= q < before.len() && before[q] == entries@[a];
                    if q < p {
                        assert(r@[q] == entries@[a]);
                    } else {
                        assert(r@[q + 1] == entries@[a]);
                    }
                } else {
                    assert(r@[p as int] == entries@[a]);
                }
            }
            assert forall|a: int|
                #![trigger r@[a]]
                0 <= a < r@.len() implies exists|b: int|
                    #![trigger entries@[b]]
                    0 <= b < i + 1 && r@[a] == entries@[b] by {
                if a < p {
                    assert(r@[a] == before[a]);
                } else if a == p {
                    assert(r@[a] == entries@[i as int]);
                } else {
                    assert(r@[a] == before[a - 1]);
                }
            }
            assert forall|a: int| 0 <= a < r@.len() implies {
                &&& (#[trigger] r@[a]).0 < all@.len()
                &&& (r@[a].0 == all@.len() - 1 <==> r@[a].1 == 0)
                &&& reachable(all@, r@[a].0 as int)
            } by {
                let b = choose|b: int| 0 <= b < i + 1 && r@[a] == entries@[b];
                assert(entries@[b] == r@[a]);
            }
        }
        i = i + 1;
    }
    proof {
        assert(entries@.take(entries@.len() as int) =~= entries@);
        assert forall|x: (usize, u16)| entries@.contains(x) implies r@.contains(x) by {
            let a = choose|a: int| 0 <= a < entries@.len() && entries@[a] == x;
            assert(r@.contains(entries@[a]));
        }
    }
    r
}


/// The cut-down list: it opens with an entry of the destination's name,
/// closes with the start (distance zero), and every other entry names a node
/// of the given list with a positive distance.
pub open spec fn trimmed_ok(all: Seq<NodeView>, stop_name: Seq<char>, l: Seq<(usize, u16)>) -> bool {
    &&& l.len() >= 2
    &&& l[0].0 < all.len() - 1
    &&& all[l[0].0 as int].name == stop_name
    &&& reachable(all, l[0].0 as int)
    &&& l[l.len() - 1] == ((all.len() - 1) as usize, 0u16)
    &&& forall|j: int| 0 <= j < l.len() - 1 ==> (#[trigger] l[j]).0 < all.len() - 1 && l[j].1 >= 1
}

/// Drops the entries before the first entry named `stop_name`; `None` when
/// no entry has that name.
fn cut_to_stop(all: &Nodes, sorted: &Vec<(usize, u16)>, stop_name: &str) -> (r: Option<
    Vec<(usize, u16)>,
>)
    requires
        all@.len() >= 1,
        all@[all@.len() - 1].name != stop_name@,
        entries_ok(all@, sorted@),
        forall|i: int, j: int| 0 <= i < j < sorted@.len() ==> sorted@[i].0 != sorted@[j].0,
        forall|i: int, j: int| 0 <= i < j < sorted@.len() ==> sorted@[i].1 >= sorted@[j].1,
        sorted@.contains(((all@.len() - 1) as usize, 0u16)),
    ensures
        r matches Some(l) ==> trimmed_ok(all@, stop_name@, l@),
        r matches Some(l) ==> cut(all@, sorted@, stop_name@) == Some(l@),
        r is None ==> cut(all@, sorted@, stop_name@) is None,
{
    let n = all.node.len();
    let mut pos: usize = 0;
    let ghost named = names_node(all@, stop_name@);
    loop
        invariant
            pos <= sorted@.len(),
            n == all@.len(),
            entries_ok(all@, sorted@),
            named == names_node(all@, stop_name@),
            forall|a: int| 0 <= a < pos ==> !named(#[trigger] sorted@[a]),
        ensures
            pos < sorted@.len(),
            all@[sorted@[pos as int].0 as int].name == stop_name@,
            forall|a: int| 0 <= a < pos ==> !named(#[trigger] sorted@[a]),
        decreases sorted@.len() - pos,
    {
        if pos >= sorted.len() {
            proof {
                lemma_first_index(sorted@, named, pos as int);
            }
            return None;
        }
        if str_eq(all.node[sorted[pos].0].name.as_str(), stop_name) {
            break;
        }
        pos = pos + 1;
    }
    proof {
        lemma_first_index(sorted@, named, pos as int);
    }
    let ghost s = sorted@;
    let ghost q = choose|q: int| 0 <= q < s.len() && s[q] == ((n - 1) as usize, 0u16);
    proof {
        assert(s[q].0 == n - 1);
        assert(q == s.len() - 1) by {
            if q < s.len() - 1 {
                let j = q + 1;
                assert(s[q].1 >= s[j].1);
                assert(s[j].1 == 0);
                assert(s[j].0 == n - 1);
                assert(s[q].0 != s[j].0);
            }
        }
        assert(s[pos as int].0 != n - 1);
        assert forall|j: int| 0 <= j < s.len() - 1 implies (#[trigger] s[j]).0 < n - 1 && s[j].1 >= 1 by {
            assert(s[j].0 != s[q].0);
        }
    }
    let mut l: Vec<(usize, u16)> = Vec::new();
    let mut j = pos;
    while j < sorted.len()
        invariant
            pos <= j <= sorted@.len(),
            l@ == sorted@.subrange(pos as int, j as int),
        decreases sorted@.len() - j,
    {
        l.push(sorted[j]);
        assert(l@ =~= sorted@.subrange(pos as int, j + 1));
        j = j + 1;
    }
    Some(l)
}

/// Removes entry `k` of a cut-down list, keeping its first and last entries.
fn remove_inner(Ghost(all): Ghost<Seq<NodeView>>, Ghost(stop_name): Ghost<Seq<char>>, l: &mut Vec<(usize, u16)>, k: usize)
    requires
        trimmed_ok(all, stop_name, old(l)@),
        1 <= k < old(l)@.len() - 1,
    ensures
        trimmed_ok(all, stop_name, final(l)@),
        final(l)@ == old(l)@.remove(k as int),
{
    let ghost before = l@;
    l.remove(k);
    proof {
        before.remove_ensures(k as int);
        assert forall|j: int| 0 <= j < l@.len() - 1 implies (#[trigger] l@[j]).0 < all.len() - 1 && l@[j].1 >= 1 by {
            if j < k {
                assert(l@[j] == before[j]);
            } else {
                assert(l@[j] == before[j + 1]);
            }
        }
    }
}

/// Keeps, going from the destination towards the start, only entries that
/// the entry before lists as a neighbour (the last pair is not checked);
/// then drops an entry whose distance equals that of the entry before it.
/// `None` where the steps run past the end of the list.
fn thin_out(all: &Nodes, Ghost(stop_name): Ghost<Seq<char>>, l: &mut Vec<(usize, u16)>) -> (ok: bool)
    requires
        trimmed_ok(all@, stop_name, old(l)@),
    ensures
        ok ==> trimmed_ok(all@, stop_name, final(l)@),
        ok ==> thin(all@, old(l)@) == Some(final(l)@),
        !ok ==> thin(all@, old(l)@) is None,
{
    let ghost l0 = l@;
    let ghost t1 = thin_links(all@, l0, 0);
    let mut i: usize = 0;
    let _ = l.len();
    assert(l@.len() <= usize::MAX);
    loop
        invariant
            trimmed_ok(all@, stop_name, l@),
            i + 1 < l@.len(),
            l@.len() <= usize::MAX,
            l0 == old(l)@,
            t1 == thin_links(all@, l0, 0),
            thin_links(all@, l@, i as int) == t1,
            thin(all@, l0) == match t1 {
                Some(l1) => thin_equal(l1, 1, l1.len() - 1),
                None => None,
            },
        ensures
            t1 == Some(l@),
            trimmed_ok(all@, stop_name, l@),
            thin(all@, l0) == thin_equal(l@, 1, l@.len() - 1),
        decreases l@.len() - i,
    {
        let mut no_match = true;
        let ghost outer_len = l@.len();
        while no_match
            invariant
                trimmed_ok(all@, stop_name, l@),
                i + 1 < l@.len(),
                l@.len() <= outer_len,
                outer_len <= usize::MAX,
                thin_links(all@, l@, i as int) == t1,
                l0 == old(l)@,
                thin(all@, l0) == match t1 {
                    Some(l1) => thin_equal(l1, 1, l1.len() - 1),
                    None => None,
                },
                !no_match ==> links(all@, l@, i as int),
            decreases l@.len() + if no_match {
                1int
            } else {
                0int
            },
        {
            let node = &all.node[l[i].0];
            let nb = &node.neighbors;
            let next = l[i + 1].0;
            let last_pair = i == l.len() - 2;
            let ghost nbv = all@[l@[i as int].0 as int].neighbors;
            assert(nbv == views(nb@));
            let mut k: usize = 0;
            while k < nb.len()
                invariant_except_break
                    no_match,
                    forall|j: int| 0 <= j < k ==> nbv[j] != all@[next as int].name,
                    k > 0 ==> !last_pair,
                invariant
                    trimmed_ok(all@, stop_name, l@),
                    next < all@.len(),
                    next == l@[i as int + 1].0,
                    nbv == views(nb@),
                    nbv == all@[l@[i as int].0 as int].neighbors,
                    last_pair == (i == l@.len() - 2),
                ensures
                    no_match == !links(all@, l@, i as int),
                decreases nb@.len() - k,
            {
                if str_eq(nb[k].as_str(), all.node[next].name.as_str()) {
                    no_match = false;
                    assert(nbv[k as int] == all@[next as int].name);
                    break;
                } else if last_pair {
                    no_match = false;
                    break;
                }
                k = k + 1;
            }
            if no_match {
                if i + 1 == l.len() - 1 {
                    // The entry before the start lists no neighbour: taking the
                    // start away leaves nothing after it to compare with.
                    return false;
                }
                remove_inner(Ghost(all@), Ghost(stop_name), l, i + 1);
            }
        }
        if i == l.len() - 2 {
            break;
        }
        i = i + 1;
    }
    let len0 = l.len();
    assert(len0 >= 2);
    let ghost end = len0 - 1;
    let mut i: usize = 1;
    while i < len0 - 1
        invariant
            trimmed_ok(all@, stop_name, l@),
            1 <= i,
            len0 >= 2,
            end == len0 - 1,
            l0 == old(l)@,
            thin(all@, l0) == thin_equal(l@, i as int, end),
        decreases len0 - i,
    {
        if i >= l.len() {
            return false;
        }
        if l[i].1 == l[i - 1].1 {
            // the start has distance zero and the entry before it a positive one
            remove_inner(Ghost(all@), Ghost(stop_name), l, i);
        }
        i = i + 1;
    }
    true
}

/// A path from the start to `stop`, through the nodes of `nodes`: exactly
/// `node_path`, or `None` where there is none.
///
/// When the start and the destination have the same name the path is the
/// start alone, whatever `nodes` holds. Otherwise the path, when there is
/// one, ends with a node of `nodes` named as the destination, that node can
/// be reached from the start, and every node of the path is a node of
/// `nodes`. `None` is the answer where the search or the thinning of its
/// result runs off the list: a neighbour name that names no node, a
/// destination that cannot be reached, or a labelled list that the
/// thinning steps run past.
pub fn try_node_paths(nodes: &Nodes, start: &Node, stop: &Node) -> (r: Option<Nodes>)
    requires
        start.name@ != stop.name@ ==> nodes@.len() < 65533,
    ensures
        r matches Some(p) ==> node_path(nodes@, start@, stop@) == Some(p@),
        r is None ==> node_path(nodes@, start@, stop@) is None,
        start.name@ == stop.name@ ==> (r matches Some(p) && p@ == seq![start@]),
        start.name@ != stop.name@ ==> (r matches Some(p) ==> path_facts(nodes@, start@, stop@, p@)),
{
    if str_eq(start.name.as_str(), stop.name.as_str()) {
        let p = Nodes { node: vec![start.duplicate()] };
        assert(p@ =~= seq![start@]);
        return Some(p);
    }
    let mut all_vec = copy_nodes(&nodes.node);
    all_vec.push(start.duplicate());
    let all = Nodes { node: all_vec };
    assert(all@ =~= search_nodes(nodes@, start@));
    let map = get_nodemap(&all);
    let dist = match search(&all, &map, stop.name.as_str()) {
        Some(d) => d,
        None => {
            return None;
        },
    };
    let entries = labelled_entries(&all, &dist);
    let sorted = sort_by_distance(&all, &entries);
    let mut l = match cut_to_stop(&all, &sorted, stop.name.as_str()) {
        Some(l) => l,
        None => {
            return None;
        },
    };
    let ghost cut_list = l@;
    if !thin_out(&all, Ghost(stop.name@), &mut l) {
        return None;
    }
    proof {
        assert(entries_in(all@, cut_list));
        lemma_path_steps(all@, cut_list);
        lemma_steps_of_path(all@, l@);
    }
    // the path runs from the start's side to the destination, start left out
    let mut path: Vec<Node> = Vec::new();
    let mut j = l.len() - 1;
    while j > 0
        invariant
            trimmed_ok(all@, stop.name@, l@),
            all@ == search_nodes(nodes@, start@),
            j < l@.len(),
            path@.len() == l@.len() - 1 - j,
            forall|k: int|
                0 <= k < path@.len() ==> #[trigger] path@[k]@ == nodes@[l@[l@.len() - 2 - k].0 as int],
        decreases j,
    {
        let idx = l[j - 1].0;
        assert(idx < nodes@.len()) by {
            assert(l@[j - 1].0 < all@.len() - 1);
        }
        path.push(nodes.node[idx].duplicate());
        j = j - 1;
    }
    let p = Nodes { node: path };
    proof {
        assert(p@[p@.len() - 1] == nodes@[l@[0].0 as int]);
        assert forall|k: int| 0 <= k < p@.len() implies exists|j: int|
            0 <= j < nodes@.len() && #[trigger] p@[k] == nodes@[j] by {
            let jj = l@[l@.len() - 2 - k].0 as int;
            assert(l@[l@.len() - 2 - k].0 < all@.len() - 1);
            assert(p@[k] == nodes@[jj]);
        }
        assert(nodes@[l@[0].0 as int] == all@[l@[0].0 as int]);
        assert forall|k: int| 0 <= k < p@.len() implies #[trigger] p@[k] == path_of(all@, l@)[k] by {
            assert(l@[l@.len() - 2 - k].0 < all@.len() - 1);
        }
        assert(p@ =~= path_of(all@, l@));
    }
    Some(p)
}

/// Whether the path may go from node `a` to node `c` among the nodes
/// `all`: `c` lists `a` among its neighbours, or `c` lists a node of `all`
/// that lists `a` (the step cuts across that one node).
pub open spec fn path_step(all: Seq<NodeView>, a: NodeView, c: NodeView) -> bool {
    ||| c.neighbors.contains(a.name)
    ||| exists|b: int| 0 <= b < all.len() && c.neighbors.contains(#[trigger] all[b].name) && all[b].neighbors.contains(a.name)
}

/// What a path found from `start` to `stop` through `nodes` is: it ends
/// with a node of `nodes` named as the destination, every node of it is a
/// node of `nodes`, the destination can be reached from the start, and
/// each step after the first follows a neighbour link or cuts across one
/// node of the search (the nodes and the start).
pub open spec fn path_facts(nodes: Seq<NodeView>, start: NodeView, stop: NodeView, p: Seq<NodeView>) -> bool {
    &&& p.len() >= 1
    &&& forall|k: int| 0 <= k < p.len() - 1 ==> path_step(search_nodes(nodes, start), p[k], #[trigger] p[k + 1])
    &&& p.last().name == stop.name
    &&& forall|k: int|
        0 <= k < p.len() ==> exists|j: int| 0 <= j < nodes.len() && #[trigger] p[k] == nodes[j]
    &&& exists|v: int|
        0 <= v < nodes.len() && reachable(search_nodes(nodes, start), v) && nodes[v].name == stop.name
}

/// The path from the start to `stop` through the nodes of `nodes`, where
/// there is one: exactly `node_path`. When the start and the destination
/// have the same name it is the start alone, whatever `nodes` holds; the
/// list bound applies only when a search runs. An unreachable destination,
/// or a neighbour name that names no node, is left out: there is no path
/// to give.
pub fn gen_node_paths(nodes: &Nodes, start: &Node, stop: &Node) -> (r: Nodes)
    requires
        start.name@ != stop.name@ ==> nodes@.len() < 65533,
        node_path(nodes@, start@, stop@) is Some,
    ensures
        node_path(nodes@, start@, stop@) == Some(r@),
        start.name@ == stop.name@ ==> r@ == seq![start@],
        start.name@ != stop.name@ ==> path_facts(nodes@, start@, stop@, r@),
{
    match try_node_paths(nodes, start, stop) {
        Some(p) => p,
        None => {
            proof {
                assert(false);
            }
            Nodes { node: Vec::new() }
        },
    }
}

proof fn lemma_count_zero(s: Seq<bool>)
    requires
        forall|v: int| 0 <= v < s.len() ==> !#[trigger] s[v],
    ensures
        count_true(s) == 0,
    decreases s.len(),
{
    if s.len() > 0 {
        lemma_count_zero(s.drop_last());
    }
}

/// How the count of expanded stack entries moves over one round: entries
/// pushed in the round were unexpanded when pushed; when the expanded node
/// was already expanded, the count of the old entries is unchanged.
proof fn lemma_expanded_extend(
    old_stack: Seq<usize>,
    new_stack: Seq<usize>,
    old_visited: Seq<bool>,
    new_visited: Seq<bool>,
    current: usize,
)
    requires
        new_stack.len() >= old_stack.len(),
        new_stack.take(old_stack.len() as int) == old_stack,
        forall|j: int| 0 <= j < new_stack.len() ==> #[trigger] new_stack[j] < old_visited.len(),
        forall|j: int|
            old_stack.len() <= j < new_stack.len() ==> !old_visited[#[trigger] new_stack[j] as int],
        current < old_visited.len(),
        new_visited == old_visited.update(current as int, true),
        old_visited[current as int] ==> new_visited == old_visited,
    ensures
        old_visited[current as int] ==> expanded_entries(new_stack, new_visited) == expanded_entries(
            old_stack,
            old_visited,
        ),
    decreases new_stack.len(),
{
    if old_visited[current as int] {
        if new_stack.len() > old_stack.len() {
            let s = new_stack.drop_last();
            assert(s.take(old_stack.len() as int) =~= new_stack.take(old_stack.len() as int));
            assert forall|j: int| 0 <= j < s.len() implies #[trigger] s[j] < old_visited.len() by {
                assert(s[j] == new_stack[j]);
            }
            assert forall|j: int|
                old_stack.len() <= j < s.len() implies !old_visited[#[trigger] s[j] as int] by {
                assert(s[j] == new_stack[j]);
            }
            lemma_expanded_extend(old_stack, s, old_visited, new_visited, current);
            assert(!old_visited[new_stack.last() as int]);
        } else {
            assert(new_stack =~= old_stack);
        }
    }
}

/// Whether every entry of `l` before position `i` lists the next entry's
/// node among its neighbours.
pub open spec fn joined_upto(all: Seq<NodeView>, l: Seq<(usize, u16)>, i: int) -> bool {
    forall|j: int|
        0 <= j < i ==> #[trigger] all[l[j].0 as int].neighbors.contains(all[l[j + 1].0 as int].name)
}

proof fn lemma_thin_links_joined(all: Seq<NodeView>, l: Seq<(usize, u16)>, i: int)
    requires
        0 <= i,
        joined_upto(all, l, i),
    ensures
        thin_links(all, l, i) matches Some(r) ==> r.len() >= 2 && joined_upto(all, r, r.len() - 2),
    decreases l.len(), l.len() - i,
{
    if i + 1 >= l.len() {
    } else if links(all, l, i) {
        if i == l.len() - 2 {
        } else {
            lemma_thin_links_joined(all, l, i + 1);
        }
    } else if i + 1 == l.len() - 1 {
    } else {
        let m = l.remove(i + 1);
        assert forall|j: int| 0 <= j < i implies #[trigger] all[m[j].0 as int].neighbors.contains(
            all[m[j + 1].0 as int].name,
        ) by {
            assert(m[j] == l[j] && m[j + 1] == l[j + 1]);
        }
        lemma_thin_links_joined(all, m, i);
    }
}

/// The neighbour check of the thinning: in the list it keeps, every entry
/// but the one before the start lists the next entry's node (one step
/// nearer the start) among its neighbours.
pub proof fn lemma_links_kept(all: Seq<NodeView>, l: Seq<(usize, u16)>)
    ensures
        thin_links(all, l, 0) matches Some(r) ==> r.len() >= 2 && joined_upto(all, r, r.len() - 2),
{
    lemma_thin_links_joined(all, l, 0);
}

/// Where the thinning drops no entry for an equal distance, every node of
/// the path after the first lists the node before it among its neighbours:
/// the gantry only moves between joined nodes once it has left the start.
pub proof fn lemma_path_joined(all: Seq<NodeView>, l: Seq<(usize, u16)>)
    requires
        thin_links(all, l, 0) matches Some(l1) && thin_equal(l1, 1, l1.len() - 1) == Some(l1),
    ensures
        thin(all, l) matches Some(t) && {
            let p = path_of(all, t);
            forall|k: int| 0 <= k < p.len() - 1 ==> #[trigger] p[k + 1].neighbors.contains(p[k].name)
        },
{
    lemma_links_kept(all, l);
    let t = thin_links(all, l, 0)->0;
    let p = path_of(all, t);
    assert forall|k: int| 0 <= k < p.len() - 1 implies #[trigger] p[k + 1].neighbors.contains(p[k].name) by {
        let j = t.len() - 3 - k;
        assert(all[t[j].0 as int].neighbors.contains(all[t[j + 1].0 as int].name));
        assert(p[k + 1] == all[t[j].0 as int]);
        assert(p[k] == all[t[j + 1].0 as int]);
    }
}

/// Whether the node of entry `a` lists the node of entry `c` among its
/// neighbours.
pub open spec fn lists(all: Seq<NodeView>, a: (usize, u16), c: (usize, u16)) -> bool {
    all[a.0 as int].neighbors.contains(all[c.0 as int].name)
}

/// Whether the step from entry `a` to entry `c` follows the graph: `a`
/// lists `c`, or `a` lists a node at its own distance that lists `c` (the
/// step cuts across that one node).
pub open spec fn step_ok(all: Seq<NodeView>, a: (usize, u16), c: (usize, u16)) -> bool {
    ||| lists(all, a, c)
    ||| exists|b: (usize, u16)| b.0 < all.len() && lists(all, a, b) && lists(all, b, c) && b.1 == a.1
}

/// Whether every entry names a node of `all`.
pub open spec fn entries_in(all: Seq<NodeView>, l: Seq<(usize, u16)>) -> bool {
    forall|j: int| 0 <= j < l.len() ==> (#[trigger] l[j]).0 < all.len()
}

proof fn lemma_thin_links_in(all: Seq<NodeView>, l: Seq<(usize, u16)>, i: int)
    requires
        entries_in(all, l),
    ensures
        thin_links(all, l, i) matches Some(r) ==> entries_in(all, r),
    decreases l.len(), l.len() - i,
{
    if i < 0 || i + 1 >= l.len() {
    } else if links(all, l, i) {
        if i != l.len() - 2 {
            lemma_thin_links_in(all, l, i + 1);
        }
    } else if i + 1 == l.len() - 1 {
    } else {
        let m = l.remove(i + 1);
        assert forall|j: int| 0 <= j < m.len() implies (#[trigger] m[j]).0 < all.len() by {
            if j < i + 1 {
                assert(m[j] == l[j]);
            } else {
                assert(m[j] == l[j + 1]);
            }
        }
        lemma_thin_links_in(all, m, i);
    }
}

proof fn lemma_thin_equal_steps(all: Seq<NodeView>, l: Seq<(usize, u16)>, i: int, end: int)
    requires
        1 <= i,
        entries_in(all, l),
        forall|j: int| 0 <= j < i - 1 && j < l.len() - 2 ==> step_ok(all, #[trigger] l[j], l[j + 1]),
        forall|j: int| i - 1 <= j < l.len() - 2 ==> lists(all, #[trigger] l[j], l[j + 1]),
    ensures
        thin_equal(l, i, end) matches Some(t) ==> forall|j: int|
            0 <= j < t.len() - 2 ==> step_ok(all, #[trigger] t[j], t[j + 1]),
    decreases end - i,
{
    if i >= end {
        assert forall|j: int| 0 <= j < l.len() - 2 implies step_ok(all, #[trigger] l[j], l[j + 1]) by {
            if j >= i - 1 {
                assert(lists(all, l[j], l[j + 1]));
            }
        }
    } else if i >= l.len() {
    } else if l[i].1 == l[i - 1].1 {
        let m = l.remove(i);
        assert forall|j: int| 0 <= j < m.len() implies (#[trigger] m[j]).0 < all.len() by {
            if j < i {
                assert(m[j] == l[j]);
            } else {
                assert(m[j] == l[j + 1]);
            }
        }
        assert forall|j: int| 0 <= j < i && j < m.len() - 2 implies step_ok(all, #[trigger] m[j], m[j + 1]) by {
            if j < i - 1 {
                assert(m[j] == l[j] && m[j + 1] == l[j + 1]);
            } else {
                assert(m[j] == l[i - 1] && m[j + 1] == l[i + 1]);
                assert(lists(all, l[i - 1], l[i]));
                assert(lists(all, l[i], l[i + 1]));
                assert(l[i].0 < all.len());
            }
        }
        assert forall|j: int| i <= j < m.len() - 2 implies lists(all, #[trigger] m[j], m[j + 1]) by {
            assert(m[j] == l[j + 1] && m[j + 1] == l[j + 2]);
        }
        lemma_thin_equal_steps(all, m, i + 1, end);
    } else {
        assert forall|j: int| 0 <= j < i && j < l.len() - 2 implies step_ok(all, #[trigger] l[j], l[j + 1]) by {
            if j == i - 1 {
                assert(lists(all, l[j], l[j + 1]));
            }
        }
        lemma_thin_equal_steps(all, l, i + 1, end);
    }
}

/// The steps of a thinned list, read as the path it stands for: each node
/// after the first lists the node before it, or lists a node of `all` that
/// does.
proof fn lemma_steps_of_path(all: Seq<NodeView>, t: Seq<(usize, u16)>)
    requires
        t.len() >= 2,
        entries_in(all, t),
        forall|j: int| 0 <= j < t.len() - 2 ==> step_ok(all, #[trigger] t[j], t[j + 1]),
    ensures
        forall|k: int|
            0 <= k < path_of(all, t).len() - 1 ==> path_step(all, path_of(all, t)[k], #[trigger] path_of(all, t)[k + 1]),
{
    let p = path_of(all, t);
    assert forall|k: int| 0 <= k < p.len() - 1 implies path_step(all, p[k], #[trigger] p[k + 1]) by {
        let j = t.len() - 3 - k;
        assert(step_ok(all, t[j], t[j + 1]));
        assert(p[k + 1] == all[t[j].0 as int]);
        assert(p[k] == all[t[j + 1].0 as int]);
        if !lists(all, t[j], t[j + 1]) {
            let b = choose|b: (usize, u16)|
                b.0 < all.len() && lists(all, t[j], b) && lists(all, b, t[j + 1]) && b.1 == t[j].1;
            assert(all[b.0 as int].name == all[b.0 as int].name);
        }
    }
}

/// Every step of the thinned list, read from the destination back towards
/// the start, follows the graph, except the one that reaches the start:
/// the node of each entry lists the next one among its neighbours, or lists
/// a node at its own distance that lists the next one (the step cuts across
/// that one node, which the thinning dropped for its equal distance).
pub proof fn lemma_path_steps(all: Seq<NodeView>, l: Seq<(usize, u16)>)
    requires
        entries_in(all, l),
    ensures
        thin(all, l) matches Some(t) ==> forall|j: int|
            0 <= j < t.len() - 2 ==> step_ok(all, #[trigger] t[j], t[j + 1]),
{
    lemma_links_kept(all, l);
    lemma_thin_links_in(all, l, 0);
    match thin_links(all, l, 0) {
        Some(l1) => {
            assert forall|j: int| 0 <= j < l1.len() - 2 implies lists(all, #[trigger] l1[j], l1[j + 1]) by {
                assert(all[l1[j].0 as int].neighbors.contains(all[l1[j + 1].0 as int].name));
            }
            lemma_thin_equal_steps(all, l1, 1, l1.len() - 1);
        },
        None => {},
    }
}

} // verus!
