//! Flood fill over lanes: which lanes can be reached from one lane, and how
//! to color the map to show it.

use petgraph::graphmap::DiGraphMap;
use vstd::prelude::*;
use crate::components::{
    add_edge, are_components, graph_edges, is_node, kosaraju_scc, new_graph,
};
use crate::debug::colorer::{first_index, Layer, RoadColorer, RoadColorerBuilder};
use crate::game::Transition;
use crate::helpers::{Color, ID};
use crate::ids::LaneID;
use crate::network::RoadNetwork;

verus! {

/// How many of the marks are not set.
pub open spec fn unmarked(marks: Seq<bool>) -> nat
    decreases marks.len(),
{
    if marks.len() == 0 {
        0
    } else {
        unmarked(marks.drop_last()) + if marks.last() {
            0nat
        } else {
            1nat
        }
    }
}

/// Setting a mark that was not set leaves one unmarked position fewer.
proof fn lemma_mark_one(marks: Seq<bool>, i: int)
    requires
        0 <= i < marks.len(),
        !marks[i],
    ensures
        unmarked(marks.update(i, true)) + 1 == unmarked(marks),
    decreases marks.len(),
{
    let after = marks.update(i, true);
    if i == marks.len() - 1 {
        assert(after.drop_last() =~= marks.drop_last());
    } else {
        lemma_mark_one(marks.drop_last(), i);
        assert(after.drop_last() =~= marks.drop_last().update(i, true));
    }
}

/// The lanes that can be reached from `start` by allowed turns, `start`
/// itself among them: one mark for each lane of the network.
pub fn find_reachable_from(start: LaneID, map: &RoadNetwork) -> (visited: Vec<bool>)
    requires
        map.wf(),
        start.0 < map.lanes().len(),
    ensures
        visited@.len() == map.lanes().len(),
        forall|l: int|
            0 <= l < visited@.len() ==> (#[trigger] visited@[l] <==> map.reaches(start.0 as int, l)),
{
    let n: usize = map.num_lanes();
    let mut visited: Vec<bool> = Vec::new();
    while visited.len() < n
        invariant
            visited@.len() <= n,
            forall|l: int| 0 <= l < visited@.len() ==> !#[trigger] visited@[l],
        decreases n - visited@.len(),
    {
        visited.push(false);
    }
    let mut queue: Vec<usize> = Vec::new();
    queue.push(start.0);
    proof {
        map.lemma_reaches_itself(start.0 as int);
        assert(queue@[0] == start.0);
    }
    while queue.len() > 0
        invariant
            map.wf(),
            n == map.lanes().len(),
            start.0 < n,
            visited@.len() == n,
            forall|q: int|
                0 <= q < queue@.len() ==> (#[trigger] queue@[q]) < n && map.reaches(
                    start.0 as int,
                    queue@[q] as int,
                ),
            forall|l: int|
                0 <= l < n && #[trigger] visited@[l] ==> map.reaches(start.0 as int, l),
            visited@[start.0 as int] || queue@.contains(start.0),
            forall|a: int, b: int|
                0 <= a < n && visited@[a] && #[trigger] map.step(a, b) ==> 0 <= b < n && (
                visited@[b] || queue@.contains(b as usize)),
        decreases unmarked(visited@), queue@.len(),
    {
        let ghost queue_before = queue@;
        let ghost visited_before = visited@;
        let current: usize = queue.pop().unwrap();
        assert(queue_before[queue_before.len() - 1] == current);
        assert forall|x: usize| queue_before.contains(x) implies queue@.contains(x) || x
            == current by {
            let i = choose|i: int| 0 <= i < queue_before.len() && queue_before[i] == x;
            if i < queue@.len() {
                assert(queue@[i] == x);
            }
        }
        if !visited[current] {
            visited.set(current, true);
            proof {
                lemma_mark_one(visited_before, current as int);
            }
            let lane = map.lane(LaneID(current));
            let m: usize = lane.turns.len();
            let ghost queue_mid = queue@;
            let mut k: usize = 0;
            while k < m
                invariant
                    map.wf(),
                    n == map.lanes().len(),
                    current < n,
                    visited@.len() == n,
                    visited@[current as int],
                    *lane == map.lanes()[current as int],
                    m == lane.turns@.len(),
                    k <= m,
                    map.reaches(start.0 as int, current as int),
                    forall|q: int|
                        0 <= q < queue@.len() ==> (#[trigger] queue@[q]) < n && map.reaches(
                            start.0 as int,
                            queue@[q] as int,
                        ),
                    forall|x: usize| queue_mid.contains(x) ==> queue@.contains(x),
                    forall|j: int|
                        0 <= j < k && (#[trigger] lane.turns@[j]).allowed ==> visited@[lane.turns@[j].id.dst.0 as int]
                            || queue@.contains(lane.turns@[j].id.dst.0),
                decreases m - k,
            {
                let turn = &lane.turns[k];
                let dst: usize = turn.id.dst.0;
                let ghost queue_inner = queue@;
                if turn.allowed && !visited[dst] {
                    proof {
                        assert(map.step(current as int, dst as int));
                        map.lemma_reaches_step(start.0 as int, current as int, dst as int);
                    }
                    queue.push(dst);
                    proof {
                        assert(queue@[queue@.len() - 1] == dst);
                        assert forall|x: usize| queue_inner.contains(x) implies queue@.contains(
                            x,
                        ) by {
                            let i = choose|i: int| 0 <= i < queue_inner.len() && queue_inner[i] == x;
                            assert(queue@[i] == x);
                        }
                    }
                }
                k += 1;
            }
            proof {
                assert forall|a: int, b: int|
                    0 <= a < n && visited@[a] && #[trigger] map.step(a, b) implies 0 <= b < n && (
                visited@[b] || queue@.contains(b as usize)) by {
                    if a == current {
                        let j = choose|j: int|
                            0 <= j < map.lanes()[a].turns@.len() && (
                            #[trigger] map.lanes()[a].turns@[j]).allowed
                                && map.lanes()[a].turns@[j].id.dst.0 == b;
                        assert(lane.turns@[j].allowed);
                    } else {
                        assert(visited_before[a]);
                        assert(visited_before[b] || queue_before.contains(b as usize));
                        if !visited_before[b] && b != current {
                            assert(queue_mid.contains(b as usize));
                        }
                    }
                }
                if !visited@[start.0 as int] {
                    assert(queue_before.contains(start.0));
                    assert(queue_mid.contains(start.0));
                }
            }
        } else {
            proof {
                assert forall|a: int, b: int|
                    0 <= a < n && visited@[a] && #[trigger] map.step(a, b) implies 0 <= b < n && (
                visited@[b] || queue@.contains(b as usize)) by {
                    assert(visited_before[b] || queue_before.contains(b as usize));
                }
            }
        }
    }
    proof {
        assert(visited@[start.0 as int]) by {
            if queue@.contains(start.0) {
                let i = choose|i: int| 0 <= i < queue@.len() && queue@[i] == start.0;
            }
        }
        assert forall|a: int, b: int|
            0 <= a < n && visited@[a] && #[trigger] map.step(a, b) implies 0 <= b < n
            && visited@[b] by {
            if queue@.contains(b as usize) {
                let i = choose|i: int| 0 <= i < queue@.len() && queue@[i] == b as usize;
            }
        }
        assert forall|l: int| 0 <= l < visited@.len() && map.reaches(
            start.0 as int,
            l,
        ) implies #[trigger] visited@[l] by {
            let path = choose|path: Seq<int>|
                #[trigger] map.is_path(path) && path[0] == start.0 as int && path.last() == l;
            map.lemma_closed_set_holds_reachable(visited@, path);
        }
    }
    visited
}

/// An allowed turn that does not run between sidewalks leads from lane `a`
/// to lane `b`, and is among the first `k` turns of `a`.
pub open spec fn drivable_turn_among(map: &RoadNetwork, a: int, b: int, k: int) -> bool {
    &&& 0 <= a < map.lanes().len()
    &&& exists|j: int|
        0 <= j < k && j < map.lanes()[a].turns@.len() && (#[trigger] map.lanes()[a].turns@[j]).allowed
            && !map.lanes()[a].turns@[j].between_sidewalks && map.lanes()[a].turns@[j].id.dst.0
            == b
}

/// The graph that the search for components runs on: an edge for every
/// allowed turn that does not run between sidewalks, from the lane it leaves
/// to the lane it enters.
pub open spec fn drivable_turns(map: &RoadNetwork) -> Set<(usize, usize)> {
    Set::new(
        |e: (usize, usize)|
            drivable_turn_among(map, e.0 as int, e.1 as int, map.lanes()[e.0 as int].turns@.len() as int),
    )
}

/// The edges that the first `i` lanes give, and the first `k` turns of lane
/// `i`.
spec fn turns_so_far(map: &RoadNetwork, i: int, k: int) -> Set<(usize, usize)> {
    Set::new(
        |e: (usize, usize)|
            (e.0 < i && drivable_turns(map).contains(e)) || (e.0 == i && drivable_turn_among(
                map,
                e.0 as int,
                e.1 as int,
                k,
            )),
    )
}

/// Builds the graph of `drivable_turns`.
fn turn_graph(map: &RoadNetwork) -> (g: DiGraphMap<usize, i32>)
    requires
        map.wf(),
    ensures
        graph_edges(g) == drivable_turns(map),
{
    let mut g = new_graph();
    let n: usize = map.num_lanes();
    let mut i: usize = 0;
    assert(graph_edges(g) =~= turns_so_far(map, 0, 0));
    while i < n
        invariant
            map.wf(),
            n == map.lanes().len(),
            i <= n,
            graph_edges(g) == turns_so_far(map, i as int, 0),
        decreases n - i,
    {
        let lane = map.lane(LaneID(i));
        let m: usize = lane.turns.len();
        let mut k: usize = 0;
        while k < m
            invariant
                map.wf(),
                n == map.lanes().len(),
                i < n,
                *lane == map.lanes()[i as int],
                m == lane.turns@.len(),
                k <= m,
                graph_edges(g) == turns_so_far(map, i as int, k as int),
            decreases m - k,
        {
            let turn = &lane.turns[k];
            if turn.allowed && !turn.between_sidewalks {
                let _ = add_edge(&mut g, i, turn.id.dst.0, 1);
                assert(graph_edges(g) =~= turns_so_far(map, i as int, k + 1)) by {
                    assert forall|e: (usize, usize)|
                        turns_so_far(map, i as int, k + 1).contains(e) implies graph_edges(
                        g,
                    ).contains(e) by {
                        if e.0 == i && !drivable_turn_among(map, e.0 as int, e.1 as int, k as int) {
                            let j = choose|j: int|
                                0 <= j < k + 1 && j < map.lanes()[i as int].turns@.len() && (
                                #[trigger] map.lanes()[i as int].turns@[j]).allowed
                                    && !map.lanes()[i as int].turns@[j].between_sidewalks
                                    && map.lanes()[i as int].turns@[j].id.dst.0 == e.1;
                            assert(j == k);
                        }
                    }
                    assert(drivable_turn_among(map, i as int, turn.id.dst.0 as int, k + 1)) by {
                        assert(map.lanes()[i as int].turns@[k as int].allowed);
                    }
                }
            } else {
                assert(graph_edges(g) =~= turns_so_far(map, i as int, k + 1)) by {
                    assert forall|e: (usize, usize)|
                        turns_so_far(map, i as int, k + 1).contains(e) implies graph_edges(
                        g,
                    ).contains(e) by {
                        if e.0 == i {
                            let j = choose|j: int|
                                0 <= j < k + 1 && j < map.lanes()[i as int].turns@.len() && (
                                #[trigger] map.lanes()[i as int].turns@[j]).allowed
                                    && !map.lanes()[i as int].turns@[j].between_sidewalks
                                    && map.lanes()[i as int].turns@[j].id.dst.0 == e.1;
                            assert(j != k);
                            assert(drivable_turn_among(map, e.0 as int, e.1 as int, k as int));
                        }
                    }
                }
            }
            k += 1;
        }
        assert(graph_edges(g) =~= turns_so_far(map, i + 1, 0));
        i += 1;
    }
    assert(graph_edges(g) =~= drivable_turns(map));
    g
}

/// The place of the largest part; of several largest ones, the last.
pub fn largest(parts: &Vec<Vec<usize>>) -> (r: Option<usize>)
    ensures
        match r {
            None => parts@.len() == 0,
            Some(i) => {
                &&& i < parts@.len()
                &&& forall|j: int|
                    0 <= j < parts@.len() ==> (#[trigger] parts@[j])@.len() <= parts@[i as int]@.len()
                &&& forall|j: int|
                    i < j < parts@.len() ==> (#[trigger] parts@[j])@.len() < parts@[i as int]@.len()
            },
        },
{
    let n: usize = parts.len();
    if n == 0 {
        return None;
    }
    let mut best: usize = 0;
    let mut j: usize = 1;
    while j < n
        invariant
            n == parts@.len(),
            1 <= j <= n,
            best < j,
            forall|x: int| 0 <= x < j ==> (#[trigger] parts@[x])@.len() <= parts@[best as int]@.len(),
            forall|x: int|
                best < x < j ==> (#[trigger] parts@[x])@.len() < parts@[best as int]@.len(),
        decreases n - j,
    {
        if parts[j].len() >= parts[best].len() {
            best = j;
        }
        j += 1;
    }
    Some(best)
}

/// One mark for each of `n` lanes: set for the lanes that `part` lists.
pub fn members(part: &Vec<usize>, n: usize) -> (marks: Vec<bool>)
    ensures
        marks@.len() == n,
        forall|l: int| 0 <= l < n ==> (#[trigger] marks@[l] <==> part@.contains(l as usize)),
{
    let mut marks: Vec<bool> = Vec::new();
    while marks.len() < n
        invariant
            marks@.len() <= n,
            forall|l: int| 0 <= l < marks@.len() ==> !#[trigger] marks@[l],
        decreases n - marks@.len(),
    {
        marks.push(false);
    }
    let m: usize = part.len();
    let mut k: usize = 0;
    while k < m
        invariant
            m == part@.len(),
            k <= m,
            marks@.len() == n,
            forall|l: int|
                0 <= l < n ==> (#[trigger] marks@[l] <==> exists|j: int|
                    0 <= j < k && part@[j] == l),
        decreases m - k,
    {
        let x: usize = part[k];
        if x < n {
            marks.set(x, true);
        }
        k += 1;
    }
    marks
}

/// The lanes of a largest strongly connected component of the graph of
/// `drivable_turns`: one mark for each lane of the network. `None` where no
/// turn is an edge of that graph.
pub fn largest_component(map: &RoadNetwork) -> (r: Option<Vec<bool>>)
    requires
        map.wf(),
    ensures
        r.is_none() <==> drivable_turns(map) =~= Set::<(usize, usize)>::empty(),
        r.is_some() ==> exists|parts: Seq<Vec<usize>>, i: int| #[trigger]
            marks_largest_of(r.unwrap()@, map.lanes().len(), drivable_turns(map), parts, i),
{
    let g = turn_graph(map);
    let parts = kosaraju_scc(&g);
    match largest(&parts) {
        Some(i) => {
            let marks = members(&parts[i], map.num_lanes());
            let ghost marked = marks@;
            let r = Some(marks);
            proof {
                let edges = drivable_turns(map);
                let n = parts@[i as int]@[0];
                assert(is_node(edges, n));
                let m = choose|m: usize| #[trigger] edges.contains((n, m)) || edges.contains((m, n));
                assert(edges.contains((n, m)) || edges.contains((m, n)));
                assert(r.unwrap()@ == marked);
                assert(marks_largest_of(
                    r.unwrap()@,
                    map.lanes().len(),
                    edges,
                    parts@,
                    i as int,
                ));
            }
            r
        },
        None => {
            proof {
                let edges = drivable_turns(map);
                assert forall|e: (usize, usize)| !edges.contains(e) by {
                    if edges.contains(e) {
                        assert(is_node(edges, e.0));
                    }
                }
            }
            None
        },
    }
}

/// `marks` has one mark for each of `n` lanes, set for the lanes in `part`.
pub open spec fn is_marked_part(marks: Seq<bool>, part: Seq<usize>, n: nat) -> bool {
    &&& marks.len() == n
    &&& forall|l: int| 0 <= l < n ==> (#[trigger] marks[l] <==> part.contains(l as usize))
}

/// `parts` are the strongly connected components of the graph with these
/// edges, none of them has more nodes than the one at place `i`, and `marks`
/// marks the lanes of that one.
pub open spec fn marks_largest_of(
    marks: Seq<bool>,
    n: nat,
    edges: Set<(usize, usize)>,
    parts: Seq<Vec<usize>>,
    i: int,
) -> bool {
    &&& are_components(edges, parts)
    &&& 0 <= i < parts.len()
    &&& forall|j: int| 0 <= j < parts.len() ==> (#[trigger] parts[j])@.len() <= parts[i]@.len()
    &&& is_marked_part(marks, parts[i]@, n)
}

/// Where a flood fill starts.
#[derive(Clone, Copy, Debug, PartialEq, Eq, Structural)]
pub enum Source {
    /// At a lane: the lanes that can be reached from it.
    Lane(LaneID),
    /// Nowhere: the lanes of a largest strongly connected component.
    LargestComponent,
}

/// Among the first `i` lanes, a driving lane lies on road `r`; with
/// `unmarked_only`, one that is not marked.
pub open spec fn road_has_lane(
    map: &RoadNetwork,
    marks: Seq<bool>,
    r: usize,
    i: int,
    unmarked_only: bool,
) -> bool {
    exists|l: int|
        0 <= l < i && l < map.lanes().len() && (#[trigger] map.lanes()[l]).driving
            && map.lanes()[l].parent.0 == r && (unmarked_only ==> !marks[l])
}

/// The colors of the first `i` lanes: each driving lane has the one color if
/// it is marked and the other if it is not; no other lane has a color.
pub open spec fn lane_coloring(
    map: &RoadNetwork,
    marks: Seq<bool>,
    reachable: Color,
    unreachable: Color,
    i: int,
) -> Map<usize, Color> {
    Map::new(
        |l: usize| l < i && map.lanes()[l as int].driving,
        |l: usize|
            if marks[l as int] {
                reachable
            } else {
                unreachable
            },
    )
}

/// The colors of the roads, going by the first `i` lanes: a road with a
/// driving lane that is not marked has the color for unreachable lanes, any
/// other road with a driving lane the color for reachable ones.
pub open spec fn road_coloring(
    map: &RoadNetwork,
    marks: Seq<bool>,
    reachable: Color,
    unreachable: Color,
    i: int,
) -> Map<usize, Color> {
    Map::new(
        |r: usize| road_has_lane(map, marks, r, i, false),
        |r: usize|
            if road_has_lane(map, marks, r, i, true) {
                unreachable
            } else {
                reachable
            },
    )
}

/// The driving lanes among the first `i` that are not marked, in their order.
pub open spec fn unreachable_lanes(map: &RoadNetwork, marks: Seq<bool>, i: int) -> Seq<LaneID>
    decreases i,
{
    if i <= 0 {
        Seq::empty()
    } else if map.lanes()[i - 1].driving && !marks[i - 1] {
        unreachable_lanes(map, marks, i - 1).push(LaneID((i - 1) as usize))
    } else {
        unreachable_lanes(map, marks, i - 1)
    }
}

/// A flood fill that was made, and the colors that show it.
pub struct Floodfiller {
    source: Source,
    reachable: Vec<bool>,
    unreachable: Vec<LaneID>,
    colorer: RoadColorer,
}

impl Floodfiller {
    pub closed spec fn source(&self) -> Source {
        self.source
    }

    /// One mark for each lane: set for the lanes that the fill reached.
    pub closed spec fn reachable(&self) -> Seq<bool> {
        self.reachable@
    }

    /// The driving lanes that the fill did not reach.
    pub closed spec fn unreachable(&self) -> Seq<LaneID> {
        self.unreachable@
    }

    pub closed spec fn lane_colors(&self) -> Map<usize, Color> {
        self.colorer.lane_colors()
    }

    pub closed spec fn road_colors(&self) -> Map<usize, Color> {
        self.colorer.road_colors()
    }

    /// The fill shows its marks on `map` in the two colors.
    pub open spec fn shows(&self, map: &RoadNetwork, reachable: Color, unreachable: Color) -> bool {
        let n = map.lanes().len() as int;
        &&& self.reachable().len() == n
        &&& self.unreachable() == unreachable_lanes(map, self.reachable(), n)
        &&& self.lane_colors() == lane_coloring(map, self.reachable(), reachable, unreachable, n)
        &&& self.road_colors() == road_coloring(map, self.reachable(), reachable, unreachable, n)
    }

    /// What the tool offers for the current selection: a fill from the
    /// selected lane if that is a driving lane, nothing for any other lane,
    /// and the largest component where no lane is selected.
    pub fn question(selection: &Option<ID>, map: &RoadNetwork) -> (q: Option<Source>)
        ensures
            q == (match *selection {
                Some(ID::Lane(l)) => if l.0 < map.lanes().len() && map.lanes()[l.0 as int].driving {
                    Some(Source::Lane(l))
                } else {
                    None
                },
                _ => Some(Source::LargestComponent),
            }),
    {
        match selection {
            Some(ID::Lane(l)) => {
                if l.0 < map.num_lanes() && map.lane(*l).driving {
                    Some(Source::Lane(*l))
                } else {
                    None
                }
            },
            _ => Some(Source::LargestComponent),
        }
    }

    /// Colors the map by the marks: driving lanes in the one color where
    /// marked and in the other where not, and each road in the color for
    /// unreachable lanes as soon as one of its driving lanes is not marked.
    pub fn colored(
        map: &RoadNetwork,
        source: Source,
        marks: Vec<bool>,
        reachable_color: Color,
        unreachable_color: Color,
    ) -> (f: Floodfiller)
        requires
            map.wf(),
            marks@.len() == map.lanes().len(),
        ensures
            f.source() == source,
            f.reachable() == marks@,
            f.shows(map, reachable_color, unreachable_color),
    {
        let mut prioritized: Vec<Color> = Vec::new();
        prioritized.push(unreachable_color);
        prioritized.push(reachable_color);
        let ghost colors = prioritized@;
        proof {
            assert(colors.drop_last() =~= seq![unreachable_color]);
            assert(colors.drop_last().drop_last() =~= Seq::<Color>::empty());
            assert(first_index(colors.drop_last().drop_last(), unreachable_color).is_none());
            assert(first_index(colors.drop_last().drop_last(), reachable_color).is_none());
            assert(first_index(colors.drop_last(), unreachable_color) == Some(0int));
            assert(first_index(colors, unreachable_color) == Some(0int));
            assert(first_index(colors.drop_last(), reachable_color) == (if reachable_color
                == unreachable_color {
                Some(0int)
            } else {
                None
            }));
            assert(first_index(colors, reachable_color) == Some(
                if reachable_color == unreachable_color {
                    0int
                } else {
                    1int
                },
            ));
        }
        let mut colorer = RoadColorerBuilder::new(prioritized);
        let mut unreachable: Vec<LaneID> = Vec::new();
        let n: usize = map.num_lanes();
        let mut i: usize = 0;
        proof {
            assert(colorer.lane_colors() =~= lane_coloring(
                map,
                marks@,
                reachable_color,
                unreachable_color,
                0,
            ));
            assert(colorer.road_colors() =~= road_coloring(
                map,
                marks@,
                reachable_color,
                unreachable_color,
                0,
            ));
        }
        while i < n
            invariant
                map.wf(),
                n == map.lanes().len(),
                marks@.len() == n,
                i <= n,
                colorer.prioritized() == colors,
                first_index(colors, unreachable_color) == Some(0int),
                first_index(colors, reachable_color) == Some(
                    if reachable_color == unreachable_color {
                        0int
                    } else {
                        1int
                    },
                ),
                unreachable@ == unreachable_lanes(map, marks@, i as int),
                colorer.lane_colors() == lane_coloring(
                    map,
                    marks@,
                    reachable_color,
                    unreachable_color,
                    i as int,
                ),
                colorer.road_colors() == road_coloring(
                    map,
                    marks@,
                    reachable_color,
                    unreachable_color,
                    i as int,
                ),
            decreases n - i,
        {
            let lane = map.lane(LaneID(i));
            let ghost roads_before = colorer.road_colors();
            if lane.driving {
                let color = if marks[i] {
                    reachable_color
                } else {
                    unreachable.push(LaneID(i));
                    unreachable_color
                };
                colorer.add(LaneID(i), color, map);
            }
            proof {
                let next = i + 1;
                assert(colorer.lane_colors() =~= lane_coloring(
                    map,
                    marks@,
                    reachable_color,
                    unreachable_color,
                    next,
                ));
                let after = road_coloring(map, marks@, reachable_color, unreachable_color, next);
                assert forall|r: usize| #![auto]
                    road_has_lane(map, marks@, r, next, false) <==> (road_has_lane(
                        map,
                        marks@,
                        r,
                        i as int,
                        false,
                    ) || (lane.driving && lane.parent.0 == r)) by {
                    if road_has_lane(map, marks@, r, next, false) {
                        let l = choose|l: int|
                            0 <= l < next && l < map.lanes().len() && (#[trigger] map.lanes()[l]).driving
                                && map.lanes()[l].parent.0 == r;
                        if l < i {
                            assert(road_has_lane(map, marks@, r, i as int, false));
                        }
                    }
                    if road_has_lane(map, marks@, r, i as int, false) {
                        let l = choose|l: int|
                            0 <= l < i && l < map.lanes().len() && (#[trigger] map.lanes()[l]).driving
                                && map.lanes()[l].parent.0 == r;
                        assert(0 <= l < next);
                    }
                    if lane.driving && lane.parent.0 == r {
                        assert(map.lanes()[i as int].driving);
                    }
                }
                assert forall|r: usize| #![auto]
                    road_has_lane(map, marks@, r, next, true) <==> (road_has_lane(
                        map,
                        marks@,
                        r,
                        i as int,
                        true,
                    ) || (lane.driving && lane.parent.0 == r && !marks@[i as int])) by {
                    if road_has_lane(map, marks@, r, next, true) {
                        let l = choose|l: int|
                            0 <= l < next && l < map.lanes().len() && (#[trigger] map.lanes()[l]).driving
                                && map.lanes()[l].parent.0 == r && !marks@[l];
                        if l < i {
                            assert(road_has_lane(map, marks@, r, i as int, true));
                        }
                    }
                    if road_has_lane(map, marks@, r, i as int, true) {
                        let l = choose|l: int|
                            0 <= l < i && l < map.lanes().len() && (#[trigger] map.lanes()[l]).driving
                                && map.lanes()[l].parent.0 == r && !marks@[l];
                        assert(0 <= l < next);
                    }
                    if lane.driving && lane.parent.0 == r && !marks@[i as int] {
                        assert(map.lanes()[i as int].driving);
                    }
                }
                if lane.driving {
                    let r = lane.parent.0;
                    if roads_before.contains_key(r) && !road_has_lane(map, marks@, r, i as int, true) {
                        assert(roads_before[r] == reachable_color);
                    }
                }
                assert(colorer.road_colors() =~= after);
            }
            i += 1;
        }
        Floodfiller { source, reachable: marks, unreachable, colorer: colorer.build() }
    }

    /// Makes the fill that `source` asks for and colors the map by it.
    /// `None` where the largest component is asked for and the graph of
    /// `drivable_turns` has no edge.
    pub fn new(
        map: &RoadNetwork,
        source: Source,
        reachable_color: Color,
        unreachable_color: Color,
    ) -> (r: Option<Floodfiller>)
        requires
            map.wf(),
            match source {
                Source::Lane(l) => l.0 < map.lanes().len(),
                Source::LargestComponent => true,
            },
        ensures
            r.is_none() <==> source == Source::LargestComponent && drivable_turns(map)
                =~= Set::<(usize, usize)>::empty(),
            r.is_some() ==> {
                &&& r.unwrap().source() == source
                &&& r.unwrap().shows(map, reachable_color, unreachable_color)
                &&& match source {
                    Source::Lane(start) => forall|l: int|
                        0 <= l < map.lanes().len() ==> (#[trigger] r.unwrap().reachable()[l]
                            <==> map.reaches(start.0 as int, l)),
                    Source::LargestComponent => exists|parts: Seq<Vec<usize>>, i: int| #[trigger]
                        marks_largest_of(
                            r.unwrap().reachable(),
                            map.lanes().len(),
                            drivable_turns(map),
                            parts,
                            i,
                        ),
                }
            },
    {
        let marks = match source {
            Source::Lane(start) => find_reachable_from(start, map),
            Source::LargestComponent => match largest_component(map) {
                Some(marks) => marks,
                None => {
                    return None;
                },
            },
        };
        let ghost marked = marks@;
        let f = Floodfiller::colored(map, source, marks, reachable_color, unreachable_color);
        let r = Some(f);
        proof {
            assert(r.unwrap().reachable() == marked);
        }
        r
    }

    /// How many driving lanes the fill did not reach.
    pub fn num_unreachable(&self) -> (n: usize)
        ensures
            n == self.unreachable().len(),
    {
        self.unreachable.len()
    }

    /// The driving lanes that the fill did not reach, in their order.
    pub fn unreachable_list(&self) -> (lanes: &Vec<LaneID>)
        ensures
            lanes@ == self.unreachable(),
    {
        &self.unreachable
    }

    /// Whether the fill reached the lane.
    pub fn reached(&self, l: LaneID) -> (b: bool)
        ensures
            b == (l.0 < self.reachable().len() && self.reachable()[l.0 as int]),
    {
        l.0 < self.reachable.len() && self.reachable[l.0]
    }

    pub fn started_from(&self) -> (s: Source)
        ensures
            s == self.source(),
    {
        self.source
    }

    pub fn colorer(&self) -> (c: &RoadColorer)
        ensures
            c.lane_colors() == self.lane_colors(),
            c.road_colors() == self.road_colors(),
    {
        &self.colorer
    }

    /// The tool goes when the user asks to quit, and stays otherwise.
    pub fn event(&self, quit_requested: bool) -> (t: Transition)
        ensures
            t == (if quit_requested {
                Transition::Pop
            } else {
                Transition::Keep
            }),
    {
        if quit_requested {
            Transition::Pop
        } else {
            Transition::Keep
        }
    }

    /// What to draw beside the menu: see `RoadColorer::draw`.
    pub fn draw(&self, zoomed_out: bool) -> (layer: Layer)
        ensures
            layer == (if zoomed_out {
                Layer::Roads
            } else {
                Layer::Lanes
            }),
    {
        self.colorer.draw(zoomed_out)
    }
}

} // verus!
