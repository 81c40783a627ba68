//! Coloring roads by the colors of their lanes.
//!
//! Zoomed in, every lane that was given a color is drawn in it. Zoomed out,
//! a road is drawn in one color: of the colors that its lanes were given, the
//! one that ranks first.

use std::collections::HashMap;
use vstd::prelude::*;
use crate::helpers::Color;
use crate::ids::LaneID;
use crate::network::RoadNetwork;

verus! {

/// The place of the first occurrence of `color` in `colors`.
pub open spec fn first_index(colors: Seq<Color>, color: Color) -> Option<int>
    decreases colors.len(),
{
    if colors.len() == 0 {
        None
    } else {
        match first_index(colors.drop_last(), color) {
            Some(i) => Some(i),
            None => if colors.last() == color {
                Some(colors.len() - 1)
            } else {
                None
            },
        }
    }
}

/// The order of two places: no place at all comes before any place, and a
/// place before every later one.
pub open spec fn place_before(a: Option<int>, b: Option<int>) -> bool {
    match (a, b) {
        (None, Some(_)) => true,
        (Some(i), Some(j)) => i < j,
        _ => false,
    }
}

/// Whether `color` takes the place of `existing` as the color of a road.
pub open spec fn outranks(colors: Seq<Color>, color: Color, existing: Color) -> bool {
    place_before(first_index(colors, color), first_index(colors, existing))
}

/// What `first_index` finds.
pub proof fn lemma_first_index(colors: Seq<Color>, color: Color)
    ensures
        match first_index(colors, color) {
            Some(i) => 0 <= i < colors.len() && colors[i] == color && forall|j: int|
                0 <= j < i ==> colors[j] != color,
            None => forall|j: int| 0 <= j < colors.len() ==> colors[j] != color,
        },
    decreases colors.len(),
{
    if colors.len() > 0 {
        lemma_first_index(colors.drop_last(), color);
        match first_index(colors.drop_last(), color) {
            Some(i) => {
                assert(colors.drop_last()[i] == colors[i]);
                assert forall|j: int| 0 <= j < i implies colors[j] != color by {
                    assert(colors.drop_last()[j] == colors[j]);
                }
            },
            None => {
                assert forall|j: int| 0 <= j < colors.len() - 1 implies colors[j] != color by {
                    assert(colors.drop_last()[j] == colors[j]);
                }
            },
        }
    }
}

/// The place of the first occurrence of `color` in `colors`.
pub fn position(colors: &Vec<Color>, color: Color) -> (r: Option<usize>)
    ensures
        match r {
            Some(i) => first_index(colors@, color) == Some(i as int),
            None => first_index(colors@, color).is_none(),
        },
{
    let n: usize = colors.len();
    let mut i: usize = 0;
    while i < n
        invariant
            n == colors@.len(),
            i <= n,
            forall|j: int| 0 <= j < i ==> colors@[j] != color,
        decreases n - i,
    {
        if colors[i] == color {
            proof {
                lemma_first_index(colors@, color);
            }
            return Some(i);
        }
        i += 1;
    }
    proof {
        lemma_first_index(colors@, color);
    }
    None
}

/// The colors given so far.
pub struct RoadColorerBuilder {
    prioritized_colors: Vec<Color>,
    zoomed_override_colors: HashMap<usize, Color>,
    roads: HashMap<usize, Color>,
}

/// The colors to draw.
pub struct RoadColorer {
    zoomed_override_colors: HashMap<usize, Color>,
    roads: HashMap<usize, Color>,
}

/// What `RoadColorer::draw` asks its caller to draw.
#[derive(Clone, Copy, Debug, PartialEq, Eq, Structural)]
pub enum Layer {
    /// The map as it is, and over it each road in its color.
    Roads,
    /// The map with each colored lane in its color.
    Lanes,
}

impl RoadColorerBuilder {
    /// The colors in the order of their rank.
    pub closed spec fn prioritized(&self) -> Seq<Color> {
        self.prioritized_colors@
    }

    /// The color of each lane that has one, by the lane's number.
    pub closed spec fn lane_colors(&self) -> Map<usize, Color> {
        self.zoomed_override_colors@
    }

    /// The color of each road that has one, by the road's number.
    pub closed spec fn road_colors(&self) -> Map<usize, Color> {
        self.roads@
    }

    /// Colors listed earlier override those listed later.
    pub fn new(prioritized_colors: Vec<Color>) -> (b: RoadColorerBuilder)
        ensures
            b.prioritized() == prioritized_colors@,
            b.lane_colors() == Map::<usize, Color>::empty(),
            b.road_colors() == Map::<usize, Color>::empty(),
    {
        RoadColorerBuilder {
            prioritized_colors,
            zoomed_override_colors: HashMap::new(),
            roads: HashMap::new(),
        }
    }

    /// Gives lane `l` the color. The lane's road takes the color too, unless
    /// it has one already that the new one does not outrank.
    pub fn add(&mut self, l: LaneID, color: Color, map: &RoadNetwork)
        requires
            l.0 < map.lanes().len(),
        ensures
            final(self).prioritized() == old(self).prioritized(),
            final(self).lane_colors() == old(self).lane_colors().insert(l.0, color),
            final(self).road_colors() == ({
                let r = map.lanes()[l.0 as int].parent.0;
                if old(self).road_colors().contains_key(r) && !outranks(
                    old(self).prioritized(),
                    color,
                    old(self).road_colors()[r],
                ) {
                    old(self).road_colors()
                } else {
                    old(self).road_colors().insert(r, color)
                }
            }),
    {
        broadcast use vstd::std_specs::hash::group_hash_axioms;

        self.zoomed_override_colors.insert(l.0, color);
        let r: usize = map.lane(l).parent.0;
        let existing: Option<Color> = match self.roads.get(&r) {
            Some(c) => Some(*c),
            None => None,
        };
        match existing {
            Some(existing) => {
                let new_place = position(&self.prioritized_colors, color);
                let old_place = position(&self.prioritized_colors, existing);
                let before = match (new_place, old_place) {
                    (None, Some(_)) => true,
                    (Some(i), Some(j)) => i < j,
                    _ => false,
                };
                if before {
                    self.roads.insert(r, color);
                }
            },
            None => {
                self.roads.insert(r, color);
            },
        }
    }

    pub fn build(self) -> (c: RoadColorer)
        ensures
            c.lane_colors() == self.lane_colors(),
            c.road_colors() == self.road_colors(),
    {
        RoadColorer { zoomed_override_colors: self.zoomed_override_colors, roads: self.roads }
    }
}

impl RoadColorer {
    pub closed spec fn lane_colors(&self) -> Map<usize, Color> {
        self.zoomed_override_colors@
    }

    pub closed spec fn road_colors(&self) -> Map<usize, Color> {
        self.roads@
    }

    /// The color in which to draw lane `l` when zoomed in, if it has one.
    pub fn lane_color(&self, l: LaneID) -> (c: Option<Color>)
        ensures
            c == (if self.lane_colors().contains_key(l.0) {
                Some(self.lane_colors()[l.0])
            } else {
                None
            }),
    {
        broadcast use vstd::std_specs::hash::group_hash_axioms;

        match self.zoomed_override_colors.get(&l.0) {
            Some(c) => Some(*c),
            None => None,
        }
    }

    /// The color in which to draw road `r` when zoomed out, if it has one.
    pub fn road_color(&self, r: usize) -> (c: Option<Color>)
        ensures
            c == (if self.road_colors().contains_key(r) {
                Some(self.road_colors()[r])
            } else {
                None
            }),
    {
        broadcast use vstd::std_specs::hash::group_hash_axioms;

        match self.roads.get(&r) {
            Some(c) => Some(*c),
            None => None,
        }
    }

    /// What to draw: the roads in their colors while the view is zoomed out
    /// too far for detail, the lanes in theirs otherwise.
    pub fn draw(&self, zoomed_out: bool) -> (layer: Layer)
        ensures
            layer == (if zoomed_out {
                Layer::Roads
            } else {
                Layer::Lanes
            }),
    {
        if zoomed_out {
            Layer::Roads
        } else {
            Layer::Lanes
        }
    }
}

} // verus!
