use crate::point::Point;
use fnv::FnvHashMap;
use vstd::prelude::*;

verus! {

/// Largest cost that a single step reported by a successor function may have.
pub const MAX_STEP_COST: i64 = 0x7fff_ffff;

/// Largest number of distinct points that a search may reach from its start.
pub const MAX_REACHABLE: u64 = 0x8000_0000;

/// `successors` reports that `to` can be reached from `from` for `cost`.
pub open spec fn is_step<S: Fn(Point) -> Vec<(Point, i64)>>(
    successors: S,
    from: Point,
    to: Point,
    cost: i64,
) -> bool {
    exists|out: Vec<(Point, i64)>|
        #[trigger] call_ensures(successors, (from,), out) && out@.contains((to, cost))
}

/// The `i`th step of a walk given by its points and step costs.
pub open spec fn step_at<S: Fn(Point) -> Vec<(Point, i64)>>(
    successors: S,
    points: Seq<Point>,
    costs: Seq<i64>,
    i: int,
) -> bool {
    is_step(successors, points[i], points[i + 1], costs[i])
}

/// `points` is a walk along steps of `successors`, `costs[i]` being the cost of the step
/// from `points[i]` to `points[i + 1]`.
pub open spec fn is_walk<S: Fn(Point) -> Vec<(Point, i64)>>(
    successors: S,
    points: Seq<Point>,
    costs: Seq<i64>,
) -> bool {
    &&& points.len() == costs.len() + 1
    &&& forall|i: int| 0 <= i < costs.len() ==> #[trigger] step_at(successors, points, costs, i)
}

/// Total cost of a walk.
pub open spec fn walk_cost(costs: Seq<i64>) -> int
    decreases costs.len(),
{
    if costs.len() == 0 {
        0
    } else {
        walk_cost(costs.drop_last()) + costs.last()
    }
}

/// A walk from `start` to `target`.
pub open spec fn walk_between<S: Fn(Point) -> Vec<(Point, i64)>>(
    successors: S,
    start: Point,
    target: Point,
    points: Seq<Point>,
    costs: Seq<i64>,
) -> bool {
    &&& is_walk(successors, points, costs)
    &&& points[0] == start
    &&& points.last() == target
}

/// No walk from `start` to `to` costs less than `cost`.
pub open spec fn is_shortest<S: Fn(Point) -> Vec<(Point, i64)>>(
    successors: S,
    start: Point,
    to: Point,
    cost: int,
) -> bool {
    forall|points: Seq<Point>, costs: Seq<i64>|
        #[trigger] is_walk(successors, points, costs) && points[0] == start && points.last() == to
            ==> cost <= walk_cost(costs)
}

/// `region` is a finite set of points holding `start` and every point that `successors`
/// reports as a neighbor of one of its points.
pub open spec fn bounded_region<S: Fn(Point) -> Vec<(Point, i64)>>(
    successors: S,
    start: Point,
    region: Set<Point>,
) -> bool {
    &&& region.finite()
    &&& region.len() <= MAX_REACHABLE
    &&& region.contains(start)
    &&& forall|p: Point, out: Vec<(Point, i64)>, i: int|
        #![trigger call_ensures(successors, (p,), out), out@[i]]
        region.contains(p) && call_ensures(successors, (p,), out) && 0 <= i < out.len()
            ==> region.contains(out@[i].0)
}

/// What a successor function must satisfy for a search from `start`: it may be called on
/// any point, it reports the same neighbors each time it is called on a point, each step
/// costs between 0 and `MAX_STEP_COST`, and only finitely many points can be reached.
pub open spec fn well_behaved<S: Fn(Point) -> Vec<(Point, i64)>>(successors: S, start: Point) -> bool {
    &&& forall|p: Point| call_requires(successors, (p,))
    &&& forall|p: Point, o1: Vec<(Point, i64)>, o2: Vec<(Point, i64)>|
        #![trigger call_ensures(successors, (p,), o1), call_ensures(successors, (p,), o2)]
        call_ensures(successors, (p,), o1) && call_ensures(successors, (p,), o2) ==> o1@ == o2@
    &&& forall|p: Point, out: Vec<(Point, i64)>, i: int|
        #![trigger call_ensures(successors, (p,), out), out@[i]]
        call_ensures(successors, (p,), out) && 0 <= i < out.len() ==> 0 <= out@[i].1
            <= MAX_STEP_COST
    &&& exists|region: Set<Point>| bounded_region(successors, start, region)
}

// ---- lemmas about walks ----------------------------------------------------------------
proof fn lemma_step_cost<S: Fn(Point) -> Vec<(Point, i64)>>(
    successors: S,
    start: Point,
    from: Point,
    to: Point,
    cost: i64,
)
    requires
        well_behaved(successors, start),
        is_step(successors, from, to, cost),
    ensures
        0 <= cost <= MAX_STEP_COST,
{
    let out = choose|out: Vec<(Point, i64)>|
        #[trigger] call_ensures(successors, (from,), out) && out@.contains((to, cost));
    let i = choose|i: int| 0 <= i < out@.len() && out@[i] == (to, cost);
    assert(call_ensures(successors, (from,), out) && 0 <= i < out.len());
}

proof fn lemma_walk_cost_push(costs: Seq<i64>, c: i64)
    ensures
        walk_cost(costs.push(c)) == walk_cost(costs) + c,
{
    assert(costs.push(c).drop_last() =~= costs);
}

proof fn lemma_walk_cost_take(costs: Seq<i64>, m: int)
    requires
        0 <= m < costs.len(),
    ensures
        walk_cost(costs.take(m + 1)) == walk_cost(costs.take(m)) + costs[m],
{
    assert(costs.take(m + 1).drop_last() =~= costs.take(m));
}

/// Every prefix of a walk costs at least 0.
proof fn lemma_walk_cost_nonneg<S: Fn(Point) -> Vec<(Point, i64)>>(
    successors: S,
    start: Point,
    points: Seq<Point>,
    costs: Seq<i64>,
    m: int,
)
    requires
        well_behaved(successors, start),
        is_walk(successors, points, costs),
        0 <= m <= costs.len(),
    ensures
        0 <= walk_cost(costs.take(m)),
    decreases m,
{
    if m == 0 {
        assert(costs.take(0) =~= Seq::<i64>::empty());
    } else {
        lemma_walk_cost_nonneg(successors, start, points, costs, m - 1);
        lemma_walk_cost_take(costs, m - 1);
        assert(step_at(successors, points, costs, m - 1));
        lemma_step_cost(successors, start, points[m - 1], points[m], costs[m - 1]);
    }
}

/// Step costs of walks are never negative, so a walk costs at least as much as its prefixes.
proof fn lemma_walk_cost_prefix<S: Fn(Point) -> Vec<(Point, i64)>>(
    successors: S,
    start: Point,
    points: Seq<Point>,
    costs: Seq<i64>,
    m: int,
)
    requires
        well_behaved(successors, start),
        is_walk(successors, points, costs),
        0 <= m <= costs.len(),
    ensures
        0 <= walk_cost(costs.take(m)) <= walk_cost(costs),
    decreases costs.len() - m,
{
    lemma_walk_cost_nonneg(successors, start, points, costs, m);
    if m == costs.len() {
        assert(costs.take(m) =~= costs);
    } else {
        lemma_walk_cost_prefix(successors, start, points, costs, m + 1);
        lemma_walk_cost_take(costs, m);
        assert(step_at(successors, points, costs, m));
        lemma_step_cost(successors, start, points[m], points[m + 1], costs[m]);
    }
}

/// The first `m + 1` points of a walk form a walk.
proof fn lemma_walk_take<S: Fn(Point) -> Vec<(Point, i64)>>(
    successors: S,
    points: Seq<Point>,
    costs: Seq<i64>,
    m: int,
)
    requires
        is_walk(successors, points, costs),
        0 <= m < points.len(),
    ensures
        is_walk(successors, points.take(m + 1), costs.take(m)),
{
    let p2 = points.take(m + 1);
    let c2 = costs.take(m);
    assert forall|i: int| 0 <= i < c2.len() implies #[trigger] step_at(successors, p2, c2, i) by {
        assert(step_at(successors, points, costs, i));
        assert(p2[i] == points[i] && p2[i + 1] == points[i + 1] && c2[i] == costs[i]);
    }
}

/// A walk followed by one more step is a walk.
proof fn lemma_walk_push<S: Fn(Point) -> Vec<(Point, i64)>>(
    successors: S,
    points: Seq<Point>,
    costs: Seq<i64>,
    to: Point,
    c: i64,
)
    requires
        is_walk(successors, points, costs),
        is_step(successors, points.last(), to, c),
    ensures
        is_walk(successors, points.push(to), costs.push(c)),
{
    let p2 = points.push(to);
    let c2 = costs.push(c);
    assert forall|i: int| 0 <= i < c2.len() implies #[trigger] step_at(successors, p2, c2, i) by {
        if i < costs.len() {
            assert(step_at(successors, points, costs, i));
            assert(p2[i] == points[i] && p2[i + 1] == points[i + 1] && c2[i] == costs[i]);
        } else {
            assert(p2[i] == points.last() && p2[i + 1] == to && c2[i] == c);
        }
    }
}


// ---- the search ------------------------------------------------------------------------

/// A point reached by the search: its best known cost, the index of the node it was reached
/// from and the cost of that last step.
#[derive(Clone, Copy)]
struct Node {
    loc: Point,
    cost: i64,
    pred: usize,
    edge: i64,
}

/// Some settled node (one of the first `ns`) is at `p`.
spec fn settled_loc(nodes: Seq<Node>, ns: int, p: Point) -> bool {
    exists|i: int| #![trigger nodes[i]] 0 <= i < ns && nodes[i].loc == p
}

/// Every step out of node `i` leads to a node whose cost is at most that of going through `i`.
spec fn relaxed<S: Fn(Point) -> Vec<(Point, i64)>>(successors: S, nodes: Seq<Node>, i: int) -> bool {
    forall|q: Point, c: i64| #[trigger]
        is_step(successors, nodes[i].loc, q, c) ==> exists|j: int|
            #![trigger nodes[j]]
            0 <= j < nodes.len() && nodes[j].loc == q && nodes[j].cost <= nodes[i].cost + c
}

spec fn pred_ok(nodes: Seq<Node>, ns: int, wp: Seq<Seq<Point>>, wc: Seq<Seq<i64>>, i: int) -> bool {
    let p = nodes[i].pred as int;
    &&& p < i
    &&& p < ns
    &&& wp[i] == wp[p].push(nodes[i].loc)
    &&& wc[i] == wc[p].push(nodes[i].edge)
}

spec fn witness_ok<S: Fn(Point) -> Vec<(Point, i64)>>(
    successors: S,
    start: Point,
    nodes: Seq<Node>,
    ns: int,
    wp: Seq<Seq<Point>>,
    wc: Seq<Seq<i64>>,
    i: int,
) -> bool {
    &&& is_walk(successors, wp[i], wc[i])
    &&& wp[i][0] == start
    &&& wp[i].last() == nodes[i].loc
    &&& walk_cost(wc[i]) == nodes[i].cost
    &&& 0 <= nodes[i].cost <= ns * MAX_STEP_COST
}

/// Shape of the search tree: node 0 is the start, locations are distinct and in the region,
/// every other node hangs off a settled node, and `wp`/`wc` give the walk that each node's
/// cost is the cost of.
spec fn tree_inv<S: Fn(Point) -> Vec<(Point, i64)>>(
    successors: S,
    start: Point,
    region: Set<Point>,
    nodes: Seq<Node>,
    ns: int,
    wp: Seq<Seq<Point>>,
    wc: Seq<Seq<i64>>,
) -> bool {
    &&& 1 <= nodes.len()
    &&& 0 <= ns <= nodes.len()
    &&& wp.len() == nodes.len()
    &&& wc.len() == nodes.len()
    &&& nodes[0].loc == start
    &&& nodes[0].cost == 0
    &&& ns == 0 ==> nodes.len() == 1
    &&& forall|i: int, j: int|
        #![trigger nodes[i], nodes[j]]
        0 <= i < nodes.len() && 0 <= j < nodes.len() && i != j ==> nodes[i].loc != nodes[j].loc
    &&& forall|i: int| #![trigger nodes[i]] 0 <= i < nodes.len() ==> region.contains(nodes[i].loc)
    &&& wp[0] == seq![start]
    &&& wc[0] == Seq::<i64>::empty()
    &&& forall|i: int| 1 <= i < nodes.len() ==> #[trigger] pred_ok(nodes, ns, wp, wc, i)
    &&& forall|i: int|
        0 <= i < nodes.len() ==> #[trigger] witness_ok(successors, start, nodes, ns, wp, wc, i)
}

/// The first `ns` nodes are settled: their costs are the shortest, the first `relaxed_upto`
/// have had their steps relaxed, no unsettled node is cheaper and none of them is the target.
spec fn settled_inv<S: Fn(Point) -> Vec<(Point, i64)>>(
    successors: S,
    start: Point,
    target: Point,
    nodes: Seq<Node>,
    ns: int,
    relaxed_upto: int,
) -> bool {
    &&& forall|i: int|
        #![trigger nodes[i]]
        0 <= i < ns ==> is_shortest(successors, start, nodes[i].loc, nodes[i].cost as int)
    &&& forall|i: int| 0 <= i < relaxed_upto ==> #[trigger] relaxed(successors, nodes, i)
    &&& forall|i: int, j: int|
        #![trigger nodes[i], nodes[j]]
        0 <= i < ns && ns <= j < nodes.len() ==> nodes[i].cost <= nodes[j].cost
    &&& forall|i: int| #![trigger nodes[i]] 0 <= i < ns ==> nodes[i].loc != target
}

/// Distinct points of a finite region are no more numerous than the region.
proof fn lemma_nodes_fit_region(region: Set<Point>, nodes: Seq<Node>)
    requires
        region.finite(),
        forall|i: int, j: int|
            #![trigger nodes[i], nodes[j]]
            0 <= i < nodes.len() && 0 <= j < nodes.len() && i != j ==> nodes[i].loc != nodes[j].loc,
        forall|i: int| #![trigger nodes[i]] 0 <= i < nodes.len() ==> region.contains(nodes[i].loc),
    ensures
        nodes.len() <= region.len(),
{
    let locs = nodes.map_values(|n: Node| n.loc);
    assert(locs.no_duplicates()) by {
        assert forall|i: int, j: int|
            0 <= i < locs.len() && 0 <= j < locs.len() && i != j implies locs[i] != locs[j] by {
            assert(nodes[i].loc != nodes[j].loc);
        }
    }
    locs.unique_seq_to_set();
    assert(locs.to_set().subset_of(region)) by {
        assert forall|p: Point| locs.to_set().contains(p) implies region.contains(p) by {
            let i = choose|i: int| 0 <= i < locs.len() && locs[i] == p;
            assert(nodes[i].loc == p);
        }
    }
    vstd::set_lib::lemma_len_subset(locs.to_set(), region);
}

/// Finds the first point of a walk that is not settled, given that the walk starts at a
/// settled point and ends at an unsettled one.
proof fn lemma_first_unsettled(nodes: Seq<Node>, ns: int, points: Seq<Point>) -> (j: int)
    requires
        points.len() >= 1,
        settled_loc(nodes, ns, points[0]),
        !settled_loc(nodes, ns, points.last()),
    ensures
        1 <= j < points.len(),
        settled_loc(nodes, ns, points[j - 1]),
        !settled_loc(nodes, ns, points[j]),
    decreases points.len(),
{
    if !settled_loc(nodes, ns, points[1]) {
        1
    } else {
        let rest = points.drop_first();
        assert(rest.last() == points.last());
        let k = lemma_first_unsettled(nodes, ns, rest);
        assert(rest[k - 1] == points[k] && rest[k] == points[k + 1]);
        k + 1
    }
}

/// The cheapest unsettled node (at index `ns`) costs no more than any walk to it.
proof fn lemma_cheapest_is_shortest<S: Fn(Point) -> Vec<(Point, i64)>>(
    successors: S,
    start: Point,
    target: Point,
    region: Set<Point>,
    nodes: Seq<Node>,
    ns: int,
    wp: Seq<Seq<Point>>,
    wc: Seq<Seq<i64>>,
)
    requires
        well_behaved(successors, start),
        tree_inv(successors, start, region, nodes, ns, wp, wc),
        settled_inv(successors, start, target, nodes, ns, ns),
        ns < nodes.len(),
        forall|j: int| #![trigger nodes[j]] ns <= j < nodes.len() ==> nodes[ns].cost <= nodes[j].cost,
    ensures
        is_shortest(successors, start, nodes[ns].loc, nodes[ns].cost as int),
{
    let u = nodes[ns];
    assert forall|points: Seq<Point>, costs: Seq<i64>|
        #[trigger] is_walk(successors, points, costs) && points[0] == start && points.last()
            == u.loc implies u.cost <= walk_cost(costs) by {
        lemma_walk_cost_prefix(successors, start, points, costs, 0);
        assert(costs.take(0) =~= Seq::<i64>::empty());
        if ns == 0 {
            assert(u.cost == 0);
        } else {
            assert(nodes[0].loc == start);
            assert(settled_loc(nodes, ns, points[0]));
            if settled_loc(nodes, ns, points.last()) {
                let i = choose|i: int| #![trigger nodes[i]] 0 <= i < ns && nodes[i].loc == points.last();
                assert(nodes[i].loc != nodes[ns].loc);
            }
            let j = lemma_first_unsettled(nodes, ns, points);
            let i1 = choose|i: int| #![trigger nodes[i]] 0 <= i < ns && nodes[i].loc == points[j - 1];
            lemma_walk_take(successors, points, costs, j - 1);
            assert(points.take(j)[0] == start);
            assert(points.take(j).last() == points[j - 1]);
            assert(is_walk(successors, points.take(j), costs.take(j - 1)));
            assert(nodes[i1].cost <= walk_cost(costs.take(j - 1)));
            assert(step_at(successors, points, costs, j - 1));
            assert(relaxed(successors, nodes, i1));
            assert(is_step(successors, nodes[i1].loc, points[j], costs[j - 1]));
            let k = choose|k: int|
                #![trigger nodes[k]]
                0 <= k < nodes.len() && nodes[k].loc == points[j] && nodes[k].cost <= nodes[i1].cost
                    + costs[j - 1];
            if k < ns {
                assert(settled_loc(nodes, ns, points[j]));
            }
            lemma_walk_cost_take(costs, j - 1);
            lemma_walk_cost_prefix(successors, start, points, costs, j);
        }
    }
}

/// With every node settled and relaxed, and none of them at the target, no walk reaches it.
proof fn lemma_unreachable<S: Fn(Point) -> Vec<(Point, i64)>>(
    successors: S,
    start: Point,
    target: Point,
    region: Set<Point>,
    nodes: Seq<Node>,
    wp: Seq<Seq<Point>>,
    wc: Seq<Seq<i64>>,
)
    requires
        tree_inv(successors, start, region, nodes, nodes.len() as int, wp, wc),
        settled_inv(successors, start, target, nodes, nodes.len() as int, nodes.len() as int),
    ensures
        forall|points: Seq<Point>, costs: Seq<i64>|
            #[trigger] is_walk(successors, points, costs) && points[0] == start ==> points.last()
                != target,
{
    let ns = nodes.len() as int;
    assert forall|points: Seq<Point>, costs: Seq<i64>|
        #[trigger] is_walk(successors, points, costs) && points[0] == start implies points.last()
            != target by {
        if points.last() == target {
            assert(nodes[0].loc == start);
            assert(settled_loc(nodes, ns, points[0]));
            if settled_loc(nodes, ns, points.last()) {
                let i = choose|i: int| #![trigger nodes[i]] 0 <= i < ns && nodes[i].loc == points.last();
                assert(nodes[i].loc != target);
            }
            let j = lemma_first_unsettled(nodes, ns, points);
            let i1 = choose|i: int| #![trigger nodes[i]] 0 <= i < ns && nodes[i].loc == points[j - 1];
            assert(step_at(successors, points, costs, j - 1));
            assert(relaxed(successors, nodes, i1));
            assert(is_step(successors, nodes[i1].loc, points[j], costs[j - 1]));
            let k = choose|k: int|
                #![trigger nodes[k]]
                0 <= k < nodes.len() && nodes[k].loc == points[j] && nodes[k].cost <= nodes[i1].cost
                    + costs[j - 1];
            assert(settled_loc(nodes, ns, points[j]));
        }
    }
}

/// Where the node of each location is in the list of nodes, in a hash map with the FNV
/// hasher. The map is held privately so that the wrappers below are the only access to
/// it: vstd's `HashMap` contracts hold only for hashers that it knows to be
/// deterministic, and the FNV hasher is not among them.
#[verifier::external_body]
pub struct NodeIndex {
    map: FnvHashMap<Point, usize>,
}

/// What the map holds: a node's position by the (x, y) of its location.
pub uninterp spec fn node_index_of(m: NodeIndex) -> Map<(i32, i32), usize>;

impl NodeIndex {
    /// Calls `FnvHashMap::default`. Trusted: the map starts empty.
    #[verifier::external_body]
    fn new() -> (m: NodeIndex)
        ensures
            node_index_of(m).is_empty(),
    {
        NodeIndex { map: FnvHashMap::default() }
    }

    /// Calls `HashMap::get`. Trusted: the position stored for the location, if any.
    #[verifier::external_body]
    fn get(&self, loc: Point) -> (r: Option<usize>)
        ensures
            match r {
                Some(i) => node_index_of(*self).contains_key((loc.x, loc.y)) && i == node_index_of(*self)[(loc.x, loc.y)],
                None => !node_index_of(*self).contains_key((loc.x, loc.y)),
            },
    {
        self.map.get(&loc).copied()
    }

    /// Calls `HashMap::insert`. Trusted: the location now maps to the position.
    #[verifier::external_body]
    fn insert(&mut self, loc: Point, i: usize)
        ensures
            node_index_of(*final(self)) == node_index_of(*old(self)).insert((loc.x, loc.y), i),
    {
        self.map.insert(loc, i);
    }
}

/// The index holds each node's position under its location, and nothing else.
#[verifier::opaque]
spec fn index_ok(m: Map<(i32, i32), usize>, nodes: Seq<Node>) -> bool {
    &&& forall|i: int|
        #![trigger nodes[i]]
        0 <= i < nodes.len() ==> m.contains_key((nodes[i].loc.x, nodes[i].loc.y)) && m[(nodes[i].loc.x, nodes[i].loc.y)] == i
    &&& forall|k: (i32, i32)|
        #[trigger] m.contains_key(k) ==> m[k] < nodes.len() && (nodes[m[k] as int].loc.x, nodes[m[k] as int].loc.y) == k
}

/// What looking a location up in the index tells.
proof fn lemma_index_get(m: Map<(i32, i32), usize>, nodes: Seq<Node>, loc: Point)
    requires
        index_ok(m, nodes),
    ensures
        m.contains_key((loc.x, loc.y)) ==> m[(loc.x, loc.y)] < nodes.len() && nodes[m[(loc.x, loc.y)] as int].loc == loc,
        !m.contains_key((loc.x, loc.y)) ==> forall|j: int| #![trigger nodes[j]] 0 <= j < nodes.len() ==> nodes[j].loc != loc,
{
    reveal(index_ok);
}

/// A new node at a location without one goes at the end of the list.
proof fn lemma_index_push(m: Map<(i32, i32), usize>, nodes: Seq<Node>, node: Node)
    requires
        index_ok(m, nodes),
        !m.contains_key((node.loc.x, node.loc.y)),
        nodes.len() < usize::MAX,
    ensures
        index_ok(m.insert((node.loc.x, node.loc.y), nodes.len() as usize), nodes.push(node)),
{
    reveal(index_ok);
    let m2 = m.insert((node.loc.x, node.loc.y), nodes.len() as usize);
    let n2 = nodes.push(node);
    assert forall|i: int| #![trigger n2[i]] 0 <= i < n2.len() implies m2.contains_key((n2[i].loc.x, n2[i].loc.y))
        && m2[(n2[i].loc.x, n2[i].loc.y)] == i by {
        if i < nodes.len() {
            assert(n2[i] == nodes[i]);
            assert(m.contains_key((nodes[i].loc.x, nodes[i].loc.y)));
        }
    }
}

/// An empty index goes with an empty list of nodes.
proof fn lemma_index_empty(m: Map<(i32, i32), usize>)
    requires
        m.is_empty(),
    ensures
        index_ok(m, Seq::<Node>::empty()),
{
    reveal(index_ok);
}

/// A node replaced by one at the same location keeps its position.
proof fn lemma_index_update(m: Map<(i32, i32), usize>, nodes: Seq<Node>, j: int, node: Node)
    requires
        index_ok(m, nodes),
        0 <= j < nodes.len(),
        node.loc == nodes[j].loc,
    ensures
        index_ok(m, nodes.update(j, node)),
{
    reveal(index_ok);
    let n2 = nodes.update(j, node);
    assert forall|i: int| #![trigger n2[i]] 0 <= i < n2.len() implies m.contains_key((n2[i].loc.x, n2[i].loc.y))
        && m[(n2[i].loc.x, n2[i].loc.y)] == i by {
        assert(nodes[i].loc == n2[i].loc);
    }
}

/// Two nodes that swap places swap positions in the index.
proof fn lemma_index_swap(m: Map<(i32, i32), usize>, nodes: Seq<Node>, a: int, b: int)
    requires
        index_ok(m, nodes),
        0 <= a < nodes.len(),
        0 <= b < nodes.len(),
    ensures
        index_ok(
            m.insert((nodes[b].loc.x, nodes[b].loc.y), a as usize).insert((nodes[a].loc.x, nodes[a].loc.y), b as usize),
            swapped(nodes, a, b),
        ),
{
    reveal(index_ok);
    let ka = (nodes[a].loc.x, nodes[a].loc.y);
    let kb = (nodes[b].loc.x, nodes[b].loc.y);
    let m2 = m.insert(kb, a as usize).insert(ka, b as usize);
    let n2 = swapped(nodes, a, b);
    assert(m[ka] == a && m[kb] == b);
    assert forall|i: int| #![trigger n2[i]] 0 <= i < n2.len() implies m2.contains_key((n2[i].loc.x, n2[i].loc.y))
        && m2[(n2[i].loc.x, n2[i].loc.y)] == i by {
        if i != a && i != b {
            assert(n2[i] == nodes[i]);
            let ki = (nodes[i].loc.x, nodes[i].loc.y);
            assert(m[ki] == i);
        }
    }
    assert forall|k: (i32, i32)| #[trigger] m2.contains_key(k) implies m2[k] < n2.len()
        && (n2[m2[k] as int].loc.x, n2[m2[k] as int].loc.y) == k by {
        if k != ka && k != kb {
            assert(m.contains_key(k));
            let i = m[k] as int;
            assert(i != a && i != b);
        }
    }
}

/// The sum of a location's coordinates, which breaks ties between equally cheap nodes.
spec fn loc_sum(p: Point) -> int {
    p.x + p.y
}

/// Index of the unsettled node to settle next: the cheapest one, and among equally cheap
/// ones the one whose coordinates have the largest sum (the first such one).
fn select_cheapest(nodes: &Vec<Node>, ns: usize) -> (u: usize)
    requires
        ns < nodes.len(),
    ensures
        ns <= u < nodes.len(),
        forall|j: int| #![trigger nodes@[j]] ns <= j < nodes.len() ==> nodes@[u as int].cost <= nodes@[j].cost,
        forall|j: int| #![trigger nodes@[j]] ns <= j < nodes.len() && nodes@[j].cost == nodes@[u as int].cost
            ==> loc_sum(nodes@[j].loc) <= loc_sum(nodes@[u as int].loc),
        forall|j: int| #![trigger nodes@[j]] ns <= j < u && nodes@[j].cost == nodes@[u as int].cost
            ==> loc_sum(nodes@[j].loc) < loc_sum(nodes@[u as int].loc),
{
    let mut best = ns;
    let mut j = ns + 1;
    while j < nodes.len()
        invariant
            ns <= best < j <= nodes.len(),
            forall|k: int| #![trigger nodes@[k]] ns <= k < j ==> nodes@[best as int].cost <= nodes@[k].cost,
            forall|k: int| #![trigger nodes@[k]] ns <= k < j && nodes@[k].cost == nodes@[best as int].cost
                ==> loc_sum(nodes@[k].loc) <= loc_sum(nodes@[best as int].loc),
            forall|k: int| #![trigger nodes@[k]] ns <= k < best && nodes@[k].cost == nodes@[best as int].cost
                ==> loc_sum(nodes@[k].loc) < loc_sum(nodes@[best as int].loc),
        decreases nodes.len() - j,
    {
        let cand = nodes[j];
        let cur = nodes[best];
        let cand_sum = cand.loc.x as i64 + cand.loc.y as i64;
        let cur_sum = cur.loc.x as i64 + cur.loc.y as i64;
        if cand.cost < cur.cost || (cand.cost == cur.cost && cand_sum > cur_sum) {
            best = j;
        }
        j += 1;
    }
    best
}

/// A path read off the search tree follows predecessors to ever smaller indices, so it
/// meets each node, and so each location, at most once.
proof fn lemma_tree_path_distinct(nodes: Seq<Node>, ns: int, wp: Seq<Seq<Point>>, wc: Seq<Seq<i64>>, i: int)
    requires
        0 <= i < nodes.len(),
        wp.len() == nodes.len(),
        wp[0] == seq![nodes[0].loc],
        forall|k: int| 1 <= k < nodes.len() ==> #[trigger] pred_ok(nodes, ns, wp, wc, k),
        forall|a: int, b: int|
            #![trigger nodes[a], nodes[b]]
            0 <= a < nodes.len() && 0 <= b < nodes.len() && a != b ==> nodes[a].loc != nodes[b].loc,
    ensures
        wp[i].no_duplicates(),
        forall|k: int| 0 <= k < wp[i].len() ==> exists|j: int| 0 <= j <= i && nodes[j].loc == #[trigger] wp[i][k],
    decreases i,
{
    if i == 0 {
        assert(wp[0].len() == 1);
        assert forall|k: int| 0 <= k < wp[0].len() implies exists|j: int| 0 <= j <= 0 && nodes[j].loc == #[trigger] wp[0][k] by {
            assert(nodes[0].loc == wp[0][0]);
        }
    } else {
        assert(pred_ok(nodes, ns, wp, wc, i));
        let p = nodes[i].pred as int;
        lemma_tree_path_distinct(nodes, ns, wp, wc, p);
        let prev = wp[p];
        assert(wp[i] == prev.push(nodes[i].loc));
        assert forall|k: int| 0 <= k < prev.len() implies prev[k] != nodes[i].loc by {
            let j = choose|j: int| 0 <= j <= p && nodes[j].loc == #[trigger] prev[k];
            assert(nodes[j].loc != nodes[i].loc);
        }
        assert forall|k: int| 0 <= k < wp[i].len() implies exists|j: int| 0 <= j <= i && nodes[j].loc == #[trigger] wp[i][k] by {
            if k < prev.len() {
                assert(wp[i][k] == prev[k]);
                let j = choose|j: int| 0 <= j <= p && nodes[j].loc == #[trigger] prev[k];
                assert(nodes[j].loc == wp[i][k]);
            } else {
                assert(nodes[i].loc == wp[i][k]);
            }
        }
        assert forall|a: int, b: int| 0 <= a < wp[i].len() && 0 <= b < wp[i].len() && a != b implies wp[i][a] != wp[i][b] by {
            if a < prev.len() && b < prev.len() {
                assert(wp[i][a] == prev[a] && wp[i][b] == prev[b]);
            } else if a < prev.len() {
                assert(wp[i][a] == prev[a]);
            } else if b < prev.len() {
                assert(wp[i][b] == prev[b]);
            }
        }
    }
}

/// The points of the walk recorded for node `idx`, following predecessors back to the start.
fn build_path(
    nodes: &Vec<Node>,
    idx: usize,
    Ghost(ns): Ghost<int>,
    Ghost(wp): Ghost<Seq<Seq<Point>>>,
    Ghost(wc): Ghost<Seq<Seq<i64>>>,
) -> (path: Vec<Point>)
    requires
        idx < nodes.len(),
        wp.len() == nodes.len(),
        nodes@[0].loc == wp[0][0],
        wp[0].len() == 1,
        forall|i: int| 1 <= i < nodes.len() ==> #[trigger] pred_ok(nodes@, ns, wp, wc, i),
    ensures
        path@ == wp[idx as int],
{
    let mut rev: Vec<Point> = Vec::new();
    let mut i = idx;
    loop
        invariant_except_break
            wp[idx as int] == wp[i as int] + rev@.reverse(),
        invariant
            i < nodes.len(),
            i <= idx,
            wp.len() == nodes.len(),
            nodes@[0].loc == wp[0][0],
            wp[0].len() == 1,
            forall|k: int| 1 <= k < nodes.len() ==> #[trigger] pred_ok(nodes@, ns, wp, wc, k),
        ensures
            wp[idx as int] == rev@.reverse(),
        decreases i,
    {
        let ghost old_rev = rev@;
        rev.push(nodes[i].loc);
        if i == 0 {
            assert(wp[0] =~= seq![nodes@[0].loc]);
            assert(rev@.reverse() =~= seq![nodes@[0].loc] + old_rev.reverse());
            break;
        }
        assert(pred_ok(nodes@, ns, wp, wc, i as int));
        assert(rev@.reverse() =~= seq![nodes@[i as int].loc] + old_rev.reverse());
        assert(wp[i as int] + old_rev.reverse() =~= wp[nodes@[i as int].pred as int] + rev@.reverse());
        i = nodes[i].pred;
    }
    let mut path: Vec<Point> = Vec::new();
    let mut k = rev.len();
    while k > 0
        invariant
            k <= rev.len(),
            path@ =~= rev@.reverse().take(rev.len() - k),
        decreases k,
    {
        k -= 1;
        path.push(rev[k]);
    }
    assert(rev@.reverse().take(rev.len() as int) =~= rev@.reverse());
    path
}

spec fn swapped<T>(s: Seq<T>, a: int, b: int) -> Seq<T> {
    s.update(a, s[b]).update(b, s[a])
}

/// Costs only go down and nodes are only added, so relaxed nodes stay relaxed.
proof fn lemma_relaxed_monotone<S: Fn(Point) -> Vec<(Point, i64)>>(
    successors: S,
    old_nodes: Seq<Node>,
    new_nodes: Seq<Node>,
    i: int,
)
    requires
        relaxed(successors, old_nodes, i),
        0 <= i < old_nodes.len() <= new_nodes.len(),
        new_nodes[i] == old_nodes[i],
        forall|j: int|
            #![trigger new_nodes[j]]
            0 <= j < old_nodes.len() ==> new_nodes[j].loc == old_nodes[j].loc && new_nodes[j].cost
                <= old_nodes[j].cost,
    ensures
        relaxed(successors, new_nodes, i),
{
    assert forall|q: Point, c: i64| #[trigger]
        is_step(successors, new_nodes[i].loc, q, c) implies exists|j: int|
            #![trigger new_nodes[j]]
            0 <= j < new_nodes.len() && new_nodes[j].loc == q && new_nodes[j].cost <= new_nodes[i].cost
                + c by {
        let j = choose|j: int|
            #![trigger old_nodes[j]]
            0 <= j < old_nodes.len() && old_nodes[j].loc == q && old_nodes[j].cost <= old_nodes[i].cost
                + c;
        assert(new_nodes[j].loc == q);
    }
}

/// Swapping two unsettled nodes keeps both invariants.
proof fn lemma_swap<S: Fn(Point) -> Vec<(Point, i64)>>(
    successors: S,
    start: Point,
    target: Point,
    region: Set<Point>,
    nodes: Seq<Node>,
    ns: int,
    wp: Seq<Seq<Point>>,
    wc: Seq<Seq<i64>>,
    u: int,
)
    requires
        tree_inv(successors, start, region, nodes, ns, wp, wc),
        settled_inv(successors, start, target, nodes, ns, ns),
        ns <= u < nodes.len(),
    ensures
        tree_inv(
            successors,
            start,
            region,
            swapped(nodes, ns, u),
            ns,
            swapped(wp, ns, u),
            swapped(wc, ns, u),
        ),
        settled_inv(successors, start, target, swapped(nodes, ns, u), ns, ns),
{
    let n2 = swapped(nodes, ns, u);
    let wp2 = swapped(wp, ns, u);
    let wc2 = swapped(wc, ns, u);
    // where the node now at index i used to be
    let from = |i: int|
        if i == ns {
            u
        } else if i == u {
            ns
        } else {
            i
        };
    assert forall|i: int| 0 <= i < n2.len() implies n2[i] == nodes[from(i)] && wp2[i] == wp[from(
        i,
    )] && wc2[i] == wc[from(i)] && 0 <= from(i) < nodes.len() && (i < ns ==> from(i) == i) && (ns
        <= i ==> ns <= from(i)) by {}
    assert forall|i: int, j: int|
        #![trigger n2[i], n2[j]]
        0 <= i < n2.len() && 0 <= j < n2.len() && i != j implies n2[i].loc != n2[j].loc by {
        assert(nodes[from(i)].loc != nodes[from(j)].loc);
    }
    assert forall|i: int| #![trigger n2[i]] 0 <= i < n2.len() implies region.contains(n2[i].loc) by {
        assert(region.contains(nodes[from(i)].loc));
    }
    if ns == 0 {
        assert(u == 0);
        assert(n2 =~= nodes);
        assert(wp2 =~= wp);
        assert(wc2 =~= wc);
    } else {
        assert(n2[0] == nodes[0]);
        assert forall|i: int| 1 <= i < n2.len() implies #[trigger] pred_ok(n2, ns, wp2, wc2, i) by {
            assert(pred_ok(nodes, ns, wp, wc, from(i)));
            let p = nodes[from(i)].pred as int;
            assert(from(p) == p);
        }
        assert forall|i: int| 0 <= i < n2.len() implies #[trigger] witness_ok(
            successors,
            start,
            n2,
            ns,
            wp2,
            wc2,
            i,
        ) by {
            assert(witness_ok(successors, start, nodes, ns, wp, wc, from(i)));
        }
        assert forall|i: int| 0 <= i < ns implies #[trigger] relaxed(successors, n2, i) by {
            assert(relaxed(successors, nodes, i));
            assert forall|q: Point, c: i64| #[trigger]
                is_step(successors, n2[i].loc, q, c) implies exists|j: int|
                    #![trigger n2[j]]
                    0 <= j < n2.len() && n2[j].loc == q && n2[j].cost <= n2[i].cost + c by {
                let j = choose|j: int|
                    #![trigger nodes[j]]
                    0 <= j < nodes.len() && nodes[j].loc == q && nodes[j].cost <= nodes[i].cost + c;
                assert(from(from(j)) == j);
                assert(n2[from(j)] == nodes[j]);
            }
        }
        assert forall|i: int, j: int|
            #![trigger n2[i], n2[j]]
            0 <= i < ns && ns <= j < n2.len() implies n2[i].cost <= n2[j].cost by {
            assert(nodes[i].cost <= nodes[from(j)].cost);
        }
    }
}

/// What the search knows while it relaxes the steps out of the node it settled last, at
/// index `ns - 1`.
spec fn relaxing_inv<S: Fn(Point) -> Vec<(Point, i64)>>(
    successors: S,
    start: Point,
    target: Point,
    region: Set<Point>,
    nodes: Seq<Node>,
    ns: int,
    wp: Seq<Seq<Point>>,
    wc: Seq<Seq<i64>>,
) -> bool {
    &&& 1 <= ns
    &&& tree_inv(successors, start, region, nodes, ns, wp, wc)
    &&& settled_inv(successors, start, target, nodes, ns, ns - 1)
    &&& forall|i: int| #![trigger nodes[i]] 0 <= i < ns ==> nodes[i].cost <= nodes[ns - 1].cost
    &&& nodes[ns - 1].cost <= (ns - 1) * MAX_STEP_COST
}

/// Lowering the cost of unsettled node `j` to that of a step from the last settled node.
proof fn lemma_relax_update<S: Fn(Point) -> Vec<(Point, i64)>>(
    successors: S,
    start: Point,
    target: Point,
    region: Set<Point>,
    nodes: Seq<Node>,
    ns: int,
    wp: Seq<Seq<Point>>,
    wc: Seq<Seq<i64>>,
    j: int,
    new_node: Node,
)
    requires
        well_behaved(successors, start),
        relaxing_inv(successors, start, target, region, nodes, ns, wp, wc),
        ns <= j < nodes.len(),
        new_node.loc == nodes[j].loc,
        new_node.pred == ns - 1,
        is_step(successors, nodes[ns - 1].loc, new_node.loc, new_node.edge),
        new_node.cost == nodes[ns - 1].cost + new_node.edge,
        new_node.cost < nodes[j].cost,
    ensures
        relaxing_inv(
            successors,
            start,
            target,
            region,
            nodes.update(j, new_node),
            ns,
            wp.update(j, wp[ns - 1].push(new_node.loc)),
            wc.update(j, wc[ns - 1].push(new_node.edge)),
        ),
{
    let u = ns - 1;
    let n2 = nodes.update(j, new_node);
    let wp2 = wp.update(j, wp[u].push(new_node.loc));
    let wc2 = wc.update(j, wc[u].push(new_node.edge));
    lemma_step_cost(successors, start, nodes[u].loc, new_node.loc, new_node.edge);
    assert(witness_ok(successors, start, nodes, ns, wp, wc, u));
    assert forall|i: int, k: int|
        #![trigger n2[i], n2[k]]
        0 <= i < n2.len() && 0 <= k < n2.len() && i != k implies n2[i].loc != n2[k].loc by {
        assert(nodes[i].loc != nodes[k].loc);
    }
    assert forall|i: int| #![trigger n2[i]] 0 <= i < n2.len() implies region.contains(n2[i].loc) by {
        assert(region.contains(nodes[i].loc));
    }
    assert forall|i: int| 1 <= i < n2.len() implies #[trigger] pred_ok(n2, ns, wp2, wc2, i) by {
        if i != j {
            assert(pred_ok(nodes, ns, wp, wc, i));
        }
    }
    assert forall|i: int| 0 <= i < n2.len() implies #[trigger] witness_ok(
        successors,
        start,
        n2,
        ns,
        wp2,
        wc2,
        i,
    ) by {
        if i == j {
            lemma_walk_push(successors, wp[u], wc[u], new_node.loc, new_node.edge);
            lemma_walk_cost_push(wc[u], new_node.edge);
        } else {
            assert(witness_ok(successors, start, nodes, ns, wp, wc, i));
        }
    }
    assert forall|i: int| 0 <= i < ns - 1 implies #[trigger] relaxed(successors, n2, i) by {
        assert(relaxed(successors, nodes, i));
        lemma_relaxed_monotone(successors, nodes, n2, i);
    }
    assert forall|i: int, k: int|
        #![trigger n2[i], n2[k]]
        0 <= i < ns && ns <= k < n2.len() implies n2[i].cost <= n2[k].cost by {
        assert(nodes[i].cost <= nodes[u].cost);
        assert(nodes[i].cost <= nodes[k].cost);
    }
    assert forall|i: int| #![trigger n2[i]] 0 <= i < ns implies is_shortest(
        successors,
        start,
        n2[i].loc,
        n2[i].cost as int,
    ) && n2[i].loc != target && n2[i].cost <= n2[ns - 1].cost by {
        assert(nodes[i] == n2[i]);
        assert(nodes[i].cost <= nodes[u].cost);
    }
}

/// Adding a node for a point reached for the first time by a step from the last settled node.
proof fn lemma_relax_push<S: Fn(Point) -> Vec<(Point, i64)>>(
    successors: S,
    start: Point,
    target: Point,
    region: Set<Point>,
    nodes: Seq<Node>,
    ns: int,
    wp: Seq<Seq<Point>>,
    wc: Seq<Seq<i64>>,
    new_node: Node,
)
    requires
        well_behaved(successors, start),
        bounded_region(successors, start, region),
        relaxing_inv(successors, start, target, region, nodes, ns, wp, wc),
        forall|k: int| #![trigger nodes[k]] 0 <= k < nodes.len() ==> nodes[k].loc != new_node.loc,
        region.contains(new_node.loc),
        new_node.pred == ns - 1,
        is_step(successors, nodes[ns - 1].loc, new_node.loc, new_node.edge),
        new_node.cost == nodes[ns - 1].cost + new_node.edge,
    ensures
        relaxing_inv(
            successors,
            start,
            target,
            region,
            nodes.push(new_node),
            ns,
            wp.push(wp[ns - 1].push(new_node.loc)),
            wc.push(wc[ns - 1].push(new_node.edge)),
        ),
        nodes.len() + 1 <= region.len(),
{
    let u = ns - 1;
    let j = nodes.len() as int;
    let n2 = nodes.push(new_node);
    let wp2 = wp.push(wp[u].push(new_node.loc));
    let wc2 = wc.push(wc[u].push(new_node.edge));
    lemma_step_cost(successors, start, nodes[u].loc, new_node.loc, new_node.edge);
    assert(witness_ok(successors, start, nodes, ns, wp, wc, u));
    assert forall|i: int, k: int|
        #![trigger n2[i], n2[k]]
        0 <= i < n2.len() && 0 <= k < n2.len() && i != k implies n2[i].loc != n2[k].loc by {
        if i != j && k != j {
            assert(nodes[i].loc != nodes[k].loc);
        } else if i == j {
            assert(nodes[k].loc != new_node.loc);
        } else {
            assert(nodes[i].loc != new_node.loc);
        }
    }
    assert forall|i: int| #![trigger n2[i]] 0 <= i < n2.len() implies region.contains(n2[i].loc) by {
        if i != j {
            assert(region.contains(nodes[i].loc));
        }
    }
    lemma_nodes_fit_region(region, n2);
    assert forall|i: int| 1 <= i < n2.len() implies #[trigger] pred_ok(n2, ns, wp2, wc2, i) by {
        if i != j {
            assert(pred_ok(nodes, ns, wp, wc, i));
        }
    }
    assert forall|i: int| 0 <= i < n2.len() implies #[trigger] witness_ok(
        successors,
        start,
        n2,
        ns,
        wp2,
        wc2,
        i,
    ) by {
        if i == j {
            lemma_walk_push(successors, wp[u], wc[u], new_node.loc, new_node.edge);
            lemma_walk_cost_push(wc[u], new_node.edge);
        } else {
            assert(witness_ok(successors, start, nodes, ns, wp, wc, i));
        }
    }
    assert forall|i: int| 0 <= i < ns - 1 implies #[trigger] relaxed(successors, n2, i) by {
        assert(relaxed(successors, nodes, i));
        lemma_relaxed_monotone(successors, nodes, n2, i);
    }
    assert forall|i: int, k: int|
        #![trigger n2[i], n2[k]]
        0 <= i < ns && ns <= k < n2.len() implies n2[i].cost <= n2[k].cost by {
        assert(nodes[i].cost <= nodes[u].cost);
        if k != j {
            assert(nodes[i].cost <= nodes[k].cost);
        }
    }
    assert forall|i: int| #![trigger n2[i]] 0 <= i < ns implies is_shortest(
        successors,
        start,
        n2[i].loc,
        n2[i].cost as int,
    ) && n2[i].loc != target && n2[i].cost <= n2[ns - 1].cost by {
        assert(nodes[i] == n2[i]);
        assert(nodes[i].cost <= nodes[u].cost);
    }
}

// ---- PathFind -------------------------------------------------------------------------

/// Dijkstra's path finding algorithm, see http://www.roguebasin.com/index.php/Pathfinding
/// and https://en.wikipedia.org/wiki/Pathfinding.
pub struct PathFind {
    start: Point,
    target: Point,
    path: Vec<Point>,
    total_cost: i64,
}

impl PathFind {
    /// Where the search started.
    pub closed spec fn start_loc(&self) -> Point {
        self.start
    }

    /// Where the search was headed.
    pub closed spec fn target_loc(&self) -> Point {
        self.target
    }

    /// The shortest path found, from start to target (empty when there is none).
    pub closed spec fn found_path(&self) -> Seq<Point> {
        self.path@
    }

    /// The cost of the path found (0 when there is none).
    pub closed spec fn found_cost(&self) -> i64 {
        self.total_cost
    }

    /// Successors should return the neighbors of the provided point along with the time it
    /// would take to move to each neighbor.
    pub fn new<S: Fn(Point) -> Vec<(Point, i64)>>(start: Point, target: Point, successors: S) -> (find:
        PathFind)
        requires
            well_behaved(successors, start),
        ensures
            find.start_loc() == start,
            find.target_loc() == target,
            find.found_path().len() > 0 ==> exists|costs: Seq<i64>|
                #[trigger] walk_between(successors, start, target, find.found_path(), costs)
                    && walk_cost(costs) == find.found_cost(),
            find.found_path().len() > 0 ==> is_shortest(
                successors,
                start,
                target,
                find.found_cost() as int,
            ),
            find.found_path().no_duplicates(),
            find.found_path().len() > 0 ==> find.found_path()[0] == start && find.found_path().last() == target,
            start != target && find.found_path().len() > 0 ==> find.found_path().len() > 1,
            start == target ==> find.found_path() == seq![start] && find.found_cost() == 0,
            find.found_path().len() == 0 ==> find.found_cost() == 0,
            find.found_path().len() == 0 ==> forall|points: Seq<Point>, costs: Seq<i64>|
                #[trigger] is_walk(successors, points, costs) && points[0] == start
                    ==> points.last() != target,
    {
        let ghost region = choose|region: Set<Point>| bounded_region(successors, start, region);
        let mut nodes: Vec<Node> = Vec::new();
        let mut index = NodeIndex::new();
        proof {
            lemma_index_empty(node_index_of(index));
            assert(nodes@ =~= Seq::<Node>::empty());
            lemma_index_push(node_index_of(index), nodes@, Node { loc: start, cost: 0, pred: 0, edge: 0 });
        }
        nodes.push(Node { loc: start, cost: 0, pred: 0, edge: 0 });
        index.insert(start, 0);
        let ghost mut wp: Seq<Seq<Point>> = seq![seq![start]];
        let ghost mut wc: Seq<Seq<i64>> = seq![Seq::<i64>::empty()];
        let mut ns: usize = 0;
        proof {
            assert(witness_ok(successors, start, nodes@, 0, wp, wc, 0));
            lemma_nodes_fit_region(region, nodes@);
        }
        loop
            invariant
                well_behaved(successors, start),
                bounded_region(successors, start, region),
                tree_inv(successors, start, region, nodes@, ns as int, wp, wc),
                settled_inv(successors, start, target, nodes@, ns as int, ns as int),
                nodes.len() <= region.len(),
                index_ok(node_index_of(index), nodes@),
            decreases region.len() - ns,
        {
            if ns == nodes.len() {
                proof {
                    lemma_unreachable(successors, start, target, region, nodes@, wp, wc);
                }
                proof {
                    if start == target {
                        assert(is_walk(successors, seq![start], Seq::<i64>::empty()));
                    }
                }
                return PathFind { start, target, path: Vec::new(), total_cost: 0 };
            }
            // settle the cheapest unsettled node, moving it to index ns
            let u = select_cheapest(&nodes, ns);
            let ghost before = nodes@;
            let a = nodes[ns];
            let b = nodes[u];
            proof {
                lemma_index_swap(node_index_of(index), before, ns as int, u as int);
            }
            nodes[ns] = b;
            nodes[u] = a;
            index.insert(b.loc, ns);
            index.insert(a.loc, u);
            proof {
                lemma_swap(successors, start, target, region, before, ns as int, wp, wc, u as int);
                assert(nodes@ =~= swapped(before, ns as int, u as int));
                wp = swapped(wp, ns as int, u as int);
                wc = swapped(wc, ns as int, u as int);
                assert forall|j: int| #![trigger nodes@[j]] ns <= j < nodes.len() implies nodes@[ns as int].cost
                    <= nodes@[j].cost by {
                    if j == u {
                        assert(nodes@[j] == before[ns as int]);
                    } else if j != ns {
                        assert(nodes@[j] == before[j]);
                    }
                }
                lemma_cheapest_is_shortest(successors, start, target, region, nodes@, ns as int, wp, wc);
                assert(witness_ok(successors, start, nodes@, ns as int, wp, wc, ns as int));
            }
            let cur = nodes[ns];
            if cur.loc == target {
                let path = build_path(&nodes, ns, Ghost(ns as int), Ghost(wp), Ghost(wc));
                proof {
                    assert(walk_between(successors, start, target, path@, wc[ns as int]));
                    lemma_tree_path_distinct(nodes@, ns as int, wp, wc, ns as int);
                    if start == target {
                        assert(is_walk(successors, seq![start], Seq::<i64>::empty()));
                        assert(walk_cost(Seq::<i64>::empty()) == 0);
                        if path@.len() > 1 {
                            assert(path@[0] == path@[path@.len() - 1]);
                        }
                        assert(path@ =~= seq![start]);
                    }
                }
                return PathFind { start, target, path, total_cost: cur.cost };
            }
            ns += 1;
            proof {
                let n = nodes@;
                let ns2 = ns as int;
                assert forall|i: int| 1 <= i < n.len() implies #[trigger] pred_ok(n, ns2, wp, wc, i) by {
                    assert(pred_ok(n, ns2 - 1, wp, wc, i));
                }
                assert forall|i: int| 0 <= i < n.len() implies #[trigger] witness_ok(
                    successors,
                    start,
                    n,
                    ns2,
                    wp,
                    wc,
                    i,
                ) by {
                    assert(witness_ok(successors, start, n, ns2 - 1, wp, wc, i));
                }
                assert forall|i: int| 0 <= i < ns2 - 1 implies #[trigger] relaxed(successors, n, i) by {
                    assert(relaxed(successors, n, i));
                }
                assert forall|i: int, j: int|
                    #![trigger n[i], n[j]]
                    0 <= i < ns2 && ns2 <= j < n.len() implies n[i].cost <= n[j].cost by {
                    if i < ns2 - 1 {
                        assert(n[i].cost <= n[j].cost);
                    } else {
                        assert(n[ns2 - 1].cost <= n[j].cost);
                    }
                }
                assert forall|i: int| #![trigger n[i]] 0 <= i < ns2 implies n[i].cost <= n[ns2 - 1].cost by {
                    if i < ns2 - 1 {
                        assert(n[i].cost <= n[ns2 - 1].cost);
                    }
                }
                assert(relaxing_inv(successors, start, target, region, n, ns2, wp, wc));
            }
            let out = successors(cur.loc);
            let mut k: usize = 0;
            while k < out.len()
                invariant
                    well_behaved(successors, start),
                    bounded_region(successors, start, region),
                    relaxing_inv(successors, start, target, region, nodes@, ns as int, wp, wc),
                    nodes@[ns - 1] == cur,
                    call_ensures(successors, (cur.loc,), out),
                    k <= out.len(),
                    nodes.len() <= region.len(),
                    index_ok(node_index_of(index), nodes@),
                    forall|m: int|
                        0 <= m < k ==> exists|j: int|
                            #![trigger nodes@[j]]
                            0 <= j < nodes.len() && nodes@[j].loc == (#[trigger] out@[m]).0
                                && nodes@[j].cost <= cur.cost + out@[m].1,
                decreases out.len() - k,
            {
                let (q, c) = out[k];
                proof {
                    assert(call_ensures(successors, (cur.loc,), out) && 0 <= k < out.len());
                    assert(out@[k as int] == (q, c));
                    assert(0 <= c <= MAX_STEP_COST);
                    assert(region.contains(cur.loc));
                    assert(region.contains(q));
                    assert(out@.contains((q, c)));
                    assert(is_step(successors, cur.loc, q, c));
                    assert(cur.cost <= (ns - 1) * MAX_STEP_COST);
                    assert(ns <= region.len());
                }
                let new_cost = cur.cost + c;
                let ghost before = nodes@;
                let ghost mut jq: int = 0;
                proof {
                    lemma_index_get(node_index_of(index), nodes@, q);
                }
                match index.get(q) {
                    Some(j) => {
                        proof {
                            jq = j as int;
                        }
                        if new_cost < nodes[j].cost {
                            assert(ns <= j) by {
                                if j < ns {
                                    assert(before[j as int].cost <= before[ns - 1].cost);
                                }
                            }
                            let new_node = Node { loc: q, cost: new_cost, pred: ns - 1, edge: c };
                            proof {
                                lemma_index_update(node_index_of(index), before, j as int, new_node);
                            }
                            nodes[j] = new_node;
                            proof {
                                lemma_relax_update(
                                    successors,
                                    start,
                                    target,
                                    region,
                                    before,
                                    ns as int,
                                    wp,
                                    wc,
                                    j as int,
                                    new_node,
                                );
                                wp = wp.update(j as int, wp[ns - 1].push(q));
                                wc = wc.update(j as int, wc[ns - 1].push(c));
                                assert(nodes@ =~= before.update(j as int, new_node));
                            }
                        }
                    },
                    None => {
                        let new_node = Node { loc: q, cost: new_cost, pred: ns - 1, edge: c };
                        proof {
                            lemma_index_push(node_index_of(index), before, new_node);
                        }
                        let at = nodes.len();
                        nodes.push(new_node);
                        index.insert(q, at);
                        proof {
                            jq = before.len() as int;
                            lemma_relax_push(
                                successors,
                                start,
                                target,
                                region,
                                before,
                                ns as int,
                                wp,
                                wc,
                                new_node,
                            );
                            wp = wp.push(wp[ns - 1].push(q));
                            wc = wc.push(wc[ns - 1].push(c));
                        }
                    },
                }
                proof {
                    assert(nodes@[ns - 1] == cur);
                    assert(0 <= jq < nodes.len() && nodes@[jq].loc == q && nodes@[jq].cost <= cur.cost + c);
                    assert forall|m: int|
                        0 <= m < k + 1 implies exists|j: int|
                            #![trigger nodes@[j]]
                            0 <= j < nodes.len() && nodes@[j].loc == (#[trigger] out@[m]).0
                                && nodes@[j].cost <= cur.cost + out@[m].1 by {
                        if m < k {
                            let j = choose|j: int|
                                #![trigger before[j]]
                                0 <= j < before.len() && before[j].loc == out@[m].0 && before[j].cost
                                    <= cur.cost + out@[m].1;
                            assert(nodes@[j].loc == before[j].loc && nodes@[j].cost <= before[j].cost);
                        } else {
                            assert(nodes@[jq].loc == out@[m].0);
                        }
                    }
                }
                k += 1;
            }
            proof {
                let n = nodes@;
                let ns2 = ns as int;
                assert forall|q: Point, c: i64| #[trigger]
                    is_step(successors, n[ns2 - 1].loc, q, c) implies exists|j: int|
                        #![trigger n[j]]
                        0 <= j < n.len() && n[j].loc == q && n[j].cost <= n[ns2 - 1].cost + c by {
                    let o = choose|o: Vec<(Point, i64)>|
                        #[trigger] call_ensures(successors, (cur.loc,), o) && o@.contains((q, c));
                    assert(o@ == out@);
                    let m = choose|m: int| 0 <= m < o@.len() && o@[m] == (q, c);
                    assert(out@[m] == (q, c));
                }
                assert(relaxed(successors, n, ns2 - 1));
                assert forall|i: int| 0 <= i < ns2 implies #[trigger] relaxed(successors, n, i) by {
                    if i < ns2 - 1 {
                        assert(relaxed(successors, n, i));
                    }
                }
            }
        }
    }

    /// Returns the distance of the shortest path from start to target (or None if a path
    /// could not be found).
    pub fn distance(&self) -> (d: Option<i64>)
        ensures
            d == (if self.found_path().len() == 0 {
                None
            } else {
                Some(self.found_cost())
            }),
    {
        if self.path.len() == 0 {
            None
        } else {
            Some(self.total_cost)
        }
    }

    /// Returns the next point on the shortest path from start to target (or None if a
    /// path could not be found).
    pub fn next(&self) -> (p: Option<Point>)
        ensures
            p == (if self.found_path().len() > 1 {
                Some(self.found_path()[1])
            } else {
                None
            }),
    {
        if self.path.len() > 1 {
            Some(self.path[1])  // first entry is start
        } else {
            None
        }
    }

    /// The points of the shortest path, from start to target (empty if there is none).
    pub fn path(&self) -> (p: &Vec<Point>)
        ensures
            p@ == self.found_path(),
    {
        &self.path
    }
}

} // verus!
