//! The part of the road network that the editor's tools read: lanes, the
//! roads they belong to, and the turns that lead from one lane to another.

use vstd::prelude::*;
use crate::ids::{LaneID, RoadID, TurnID};

verus! {

/// A movement from the lane that holds it to the lane `id.dst`.
#[derive(Clone, Copy, Debug, PartialEq, Eq, Structural)]
pub struct Turn {
    pub id: TurnID,
    /// Whether traffic rules allow the turn at present.
    pub allowed: bool,
    pub between_sidewalks: bool,
}

#[derive(Clone, Debug)]
pub struct Lane {
    pub id: LaneID,
    /// The road that the lane is part of.
    pub parent: RoadID,
    pub driving: bool,
    /// The turns that leave this lane.
    pub turns: Vec<Turn>,
}

/// Lanes, numbered as they are stored, on roads numbered below `num_roads`.
pub struct RoadNetwork {
    lanes: Vec<Lane>,
    num_roads: usize,
}

/// What makes a list of lanes a network: each lane is stored under its own
/// number and lies on a known road, and each turn leaves the lane that holds
/// it for a lane that exists.
pub open spec fn lanes_fit(lanes: Seq<Lane>, num_roads: usize) -> bool {
    forall|i: int|
        0 <= i < lanes.len() ==> {
            &&& (#[trigger] lanes[i]).id.0 == i
            &&& lanes[i].parent.0 < num_roads
            &&& forall|k: int|
                0 <= k < lanes[i].turns@.len() ==> {
                    &&& (#[trigger] lanes[i].turns@[k]).id.src == lanes[i].id
                    &&& lanes[i].turns@[k].id.dst.0 < lanes.len()
                }
        }
}

impl RoadNetwork {
    pub closed spec fn lanes(&self) -> Seq<Lane> {
        self.lanes@
    }

    pub closed spec fn num_roads(&self) -> usize {
        self.num_roads
    }

    pub open spec fn wf(&self) -> bool {
        lanes_fit(self.lanes(), self.num_roads())
    }

    /// An allowed turn leads from lane `a` to lane `b`.
    pub open spec fn step(&self, a: int, b: int) -> bool {
        &&& 0 <= a < self.lanes().len()
        &&& exists|k: int|
            0 <= k < self.lanes()[a].turns@.len() && (#[trigger] self.lanes()[a].turns@[k]).allowed
                && self.lanes()[a].turns@[k].id.dst.0 == b
    }

    /// `path` follows allowed turns from its first lane to its last.
    pub open spec fn is_path(&self, path: Seq<int>) -> bool {
        &&& path.len() > 0
        &&& forall|i: int| 0 <= i < path.len() - 1 ==> self.step(#[trigger] path[i], path[i + 1])
    }

    /// Lane `b` can be reached from lane `a` by allowed turns; every lane
    /// from itself.
    pub open spec fn reaches(&self, a: int, b: int) -> bool {
        exists|path: Seq<int>| #[trigger] self.is_path(path) && path[0] == a && path.last() == b
    }

    /// Makes a network of the lanes, if they fit together.
    pub fn new(lanes: Vec<Lane>, num_roads: usize) -> (r: Option<RoadNetwork>)
        ensures
            r.is_some() == lanes_fit(lanes@, num_roads),
            match r {
                Some(net) => net.wf() && net.lanes() == lanes@ && net.num_roads() == num_roads,
                None => true,
            },
    {
        let n: usize = lanes.len();
        let mut i: usize = 0;
        while i < n
            invariant
                n == lanes.len(),
                i <= n,
                forall|j: int|
                    0 <= j < i ==> {
                        &&& (#[trigger] lanes@[j]).id.0 == j
                        &&& lanes@[j].parent.0 < num_roads
                        &&& forall|k: int|
                            0 <= k < lanes@[j].turns@.len() ==> {
                                &&& (#[trigger] lanes@[j].turns@[k]).id.src == lanes@[j].id
                                &&& lanes@[j].turns@[k].id.dst.0 < n
                            }
                    },
            decreases n - i,
        {
            let lane = &lanes[i];
            if lane.id.0 != i || lane.parent.0 >= num_roads {
                return None;
            }
            let m: usize = lane.turns.len();
            let mut k: usize = 0;
            while k < m
                invariant
                    n == lanes.len(),
                    i < n,
                    lane == &lanes@[i as int],
                    m == lane.turns.len(),
                    k <= m,
                    forall|j: int|
                        0 <= j < k ==> {
                            &&& (#[trigger] lane.turns@[j]).id.src == lane.id
                            &&& lane.turns@[j].id.dst.0 < n
                        },
                decreases m - k,
            {
                let turn = &lane.turns[k];
                if turn.id.src != lane.id || turn.id.dst.0 >= n {
                    return None;
                }
                k += 1;
            }
            i += 1;
        }
        Some(RoadNetwork { lanes, num_roads })
    }

    pub fn num_lanes(&self) -> (n: usize)
        ensures
            n == self.lanes().len(),
    {
        self.lanes.len()
    }

    pub fn road_count(&self) -> (n: usize)
        ensures
            n == self.num_roads(),
    {
        self.num_roads
    }

    pub fn lane(&self, id: LaneID) -> (lane: &Lane)
        requires
            id.0 < self.lanes().len(),
        ensures
            *lane == self.lanes()[id.0 as int],
    {
        &self.lanes[id.0]
    }

    /// A closed set of lanes that holds `a` holds every lane that `a`
    /// reaches.
    pub proof fn lemma_closed_set_holds_reachable(&self, marks: Seq<bool>, path: Seq<int>)
        requires
            self.wf(),
            marks.len() == self.lanes().len(),
            self.is_path(path),
            0 <= path[0] < marks.len(),
            marks[path[0]],
            forall|a: int, b: int|
                0 <= a < marks.len() && marks[a] && #[trigger] self.step(a, b) ==> 0 <= b
                    < marks.len() && marks[b],
        ensures
            0 <= path.last() < marks.len(),
            marks[path.last()],
        decreases path.len(),
    {
        if path.len() > 1 {
            let shorter = path.drop_last();
            assert(self.is_path(shorter)) by {
                assert forall|i: int| 0 <= i < shorter.len() - 1 implies self.step(
                    #[trigger] shorter[i],
                    shorter[i + 1],
                ) by {
                    assert(self.step(path[i], path[i + 1]));
                }
            }
            self.lemma_closed_set_holds_reachable(marks, shorter);
            let i = path.len() - 2;
            assert(self.step(path[i], path[i + 1]));
        }
    }

    /// A path can be continued by one allowed turn.
    pub proof fn lemma_reaches_step(&self, a: int, b: int, c: int)
        requires
            self.reaches(a, b),
            self.step(b, c),
        ensures
            self.reaches(a, c),
    {
        let path = choose|path: Seq<int>|
            #[trigger] self.is_path(path) && path[0] == a && path.last() == b;
        let longer = path.push(c);
        assert forall|i: int| 0 <= i < longer.len() - 1 implies self.step(
            #[trigger] longer[i],
            longer[i + 1],
        ) by {
            if i < path.len() - 1 {
                assert(self.step(path[i], path[i + 1]));
            }
        }
        assert(self.is_path(longer) && longer[0] == a && longer.last() == c);
    }

    /// Every lane reaches itself.
    pub proof fn lemma_reaches_itself(&self, a: int)
        ensures
            self.reaches(a, a),
    {
        let path = seq![a];
        assert(self.is_path(path) && path[0] == a && path.last() == a);
    }
}

} // verus!
