//! The vehicle agent and its per-step state machine.
//!
//! A vehicle walks a precomputed path of OSM ids over a local partition
//! graph.  One `step` resynchronises the current edge with the path if
//! needed, consumes the edge's length at the vehicle's speed, carrying
//! the residual distance in `delta`, and advances along the path; a
//! vehicle parks at the end of its path, and is marked for deletion when
//! the path leaves the local partition.

use vstd::prelude::*;
use crate::codec::{
    bool_byte, le_bytes, lemma_le_bytes_len, lemma_parse_bool_of_enc, lemma_parse_u64_of_enc,
    parse_bool_at, parse_u64_at, parse_usize_at, push_bool, push_u64_le, take_bool, take_u64,
    take_usize,
};
use crate::error::Error;
use crate::graph::gmap::{
    gm_contains_edge, gm_contains_node, gm_edge_weight, gm_edges, gm_nodes, gm_nodes_vec, Osmid,
    RoadGraph,
};
use crate::graph::osm_graph::{graph_wf, OSMGraph, MAX_EDGE_LEN};
use crate::graph::{astar_shortest, is_path};
use crate::models::vehicle_builder::VehicleBuilder;
use crate::utils::{get_random_vector_element, random_velocity, MpiMessageContent};

verus! {

/// Largest speed a vehicle may have, in fixed-point metres per step.
pub const MAX_SPEED: u64 = 0xFFFF_FFFF;

/// Largest residual distance a vehicle at rest may carry.
pub const MAX_DELTA: u64 = 0x4000_0000_0000_0000;

/// Largest residual distance `step` accepts without overflowing.
pub const STEP_DELTA_LIMIT: u64 = u64::MAX - MAX_EDGE_LEN;

/// The mathematical state of a vehicle.
pub ghost struct VehicleV {
    pub id: Seq<char>,
    pub path_ids: Seq<Osmid>,
    pub speed: u64,
    pub delta: u64,
    pub next_id: Osmid,
    pub prev_id: Osmid,
    pub is_parked: bool,
    pub distance_remaining: u64,
    pub marked_for_deletion: bool,
    pub steps: u64,
}

/// A vehicle that can move within a road graph.
#[derive(Debug)]
pub struct Vehicle {
    /// The unique identifier of the vehicle.
    pub id: String,
    /// The path of OSM ids the vehicle follows.
    pub path_ids: Vec<Osmid>,
    /// The speed of the vehicle, in fixed-point metres per step.
    pub speed: u64,
    /// The residual distance carried into the next edge.
    pub delta: u64,
    /// The node the vehicle is moving toward.
    pub next_id: Osmid,
    /// The node the vehicle last came from.
    pub prev_id: Osmid,
    /// Whether the vehicle has reached the end of its path.
    pub is_parked: bool,
    /// The distance still to travel on the current edge.
    pub distance_remaining: u64,
    /// Whether the vehicle has left the local partition.
    pub marked_for_deletion: bool,
    /// How many steps the vehicle has taken.
    pub steps: u64,
}

impl View for Vehicle {
    type V = VehicleV;

    open spec fn view(&self) -> VehicleV {
        VehicleV {
            id: self.id@,
            path_ids: self.path_ids@,
            speed: self.speed,
            delta: self.delta,
            next_id: self.next_id,
            prev_id: self.prev_id,
            is_parked: self.is_parked,
            distance_remaining: self.distance_remaining,
            marked_for_deletion: self.marked_for_deletion,
            steps: self.steps,
        }
    }
}

/// The structural part of vehicle well-formedness: a path of at least
/// two distinct nodes and a positive, bounded speed.
pub open spec fn vehicle_path_wf(v: VehicleV) -> bool {
    &&& v.path_ids.len() >= 2
    &&& v.path_ids.no_duplicates()
    &&& 1 <= v.speed <= MAX_SPEED
}

/// Well-formedness of a vehicle at rest.
pub open spec fn vehicle_wf(v: VehicleV) -> bool {
    &&& vehicle_path_wf(v)
    &&& v.delta <= MAX_DELTA
}

/// The first position of `x` in `p`, if any.
pub open spec fn first_index_of(p: Seq<Osmid>, x: Osmid) -> Option<int>
    decreases p.len(),
{
    if p.len() == 0 {
        None
    } else if p[0] == x {
        Some(0)
    } else {
        match first_index_of(p.drop_first(), x) {
            Some(j) => Some(j + 1),
            None => None,
        }
    }
}

/// What `first_index_of` returns: the least position holding `x`, or
/// nothing when `x` does not occur.
pub proof fn lemma_first_index_of(p: Seq<Osmid>, x: Osmid)
    ensures
        match first_index_of(p, x) {
            Some(j) => 0 <= j < p.len() && p[j] == x && forall|t: int| 0 <= t < j ==> p[t] != x,
            None => forall|t: int| 0 <= t < p.len() ==> p[t] != x,
        },
    decreases p.len(),
{
    if p.len() > 0 && p[0] != x {
        let rest = p.drop_first();
        lemma_first_index_of(rest, x);
        match first_index_of(rest, x) {
            Some(j) => {
                assert(p[j + 1] == rest[j]);
                assert forall|t: int| 0 <= t < j + 1 implies p[t] != x by {
                    if t > 0 {
                        assert(rest[t - 1] != x);
                    }
                }
            },
            None => {
                assert forall|t: int| 0 <= t < p.len() implies p[t] != x by {
                    if t > 0 {
                        assert(rest[t - 1] != x);
                    }
                }
            },
        }
    }
}

/// In a duplicate-free path the first position of the element at `j` is
/// `j` itself.
pub proof fn lemma_first_index_of_self(p: Seq<Osmid>, j: int)
    requires
        p.no_duplicates(),
        0 <= j < p.len(),
    ensures
        first_index_of(p, p[j]) == Some(j),
{
    lemma_first_index_of(p, p[j]);
    match first_index_of(p, p[j]) {
        Some(t) => {
            if t != j {
                assert(p[t] == p[j]);
            }
        },
        None => {
            assert(p[j] == p[j]);
        },
    }
}

/// The path lookahead: given the node the vehicle just reached, the node
/// the path names next, together with the bookkeeping the lookahead
/// performs on the vehicle.  Parks the vehicle when the node is at the
/// end of the path; marks it for deletion, and encodes the first edge of
/// the next partition in (`prev_id`, `next_id`), when the next node is
/// not local.
pub open spec fn gnn_step(v: VehicleV, p: Osmid, nodes: Set<Osmid>) -> (VehicleV, Option<Osmid>)
    recommends
        v.path_ids.len() >= 2,
{
    let path = v.path_ids;
    let m = path.len() as int;
    if path[m - 1] == p || path[m - 2] == p {
        (VehicleV { is_parked: true, ..v }, None)
    } else {
        match first_index_of(path, p) {
            None => (v, None),
            Some(idx) => {
                let nxt = path[idx + 1];
                if !nodes.contains(nxt) {
                    (
                        VehicleV {
                            marked_for_deletion: true,
                            prev_id: nxt,
                            next_id: path[idx + 2],
                            ..v
                        },
                        None,
                    )
                } else {
                    (v, Some(nxt))
                }
            },
        }
    }
}

/// The residual distance after repeatedly consuming `s` from `d` while
/// more than `s` remains.
pub open spec fn residual(d: int, s: int) -> int
    recommends
        s >= 1,
    decreases d
        when s >= 1 && d >= 0

{
    if s >= 1 && d > s {
        residual(d - s, s)
    } else {
        d
    }
}

/// One discrete advance of a vehicle over the graph described by `edges`
/// and `nodes`: the whole transition of `step`.
pub open spec fn step_v(v: VehicleV, edges: Map<(Osmid, Osmid), u64>, nodes: Set<Osmid>) -> VehicleV
    recommends
        v.path_ids.len() >= 2,
        v.speed >= 1,
{
    if v.is_parked {
        v
    } else {
        let v1 = VehicleV {
            steps: if v.steps < u64::MAX {
                (v.steps + 1) as u64
            } else {
                v.steps
            },
            ..v
        };
        let resync = !edges.contains_key((v1.prev_id, v1.next_id));
        let (v2, halted) = if resync {
            let vpre = VehicleV { prev_id: v1.next_id, ..v1 };
            let (vg, r) = gnn_step(vpre, v1.next_id, nodes);
            match r {
                Some(id) => (VehicleV { next_id: id, ..vg }, false),
                None => {
                    if vg.marked_for_deletion || vg.is_parked {
                        (vg, true)
                    } else {
                        (VehicleV { prev_id: v1.prev_id, ..vg }, false)
                    }
                },
            }
        } else {
            (v1, false)
        };
        if halted {
            v2
        } else if !edges.contains_key((v2.prev_id, v2.next_id)) {
            VehicleV { marked_for_deletion: true, ..v2 }
        } else {
            let len = edges[(v2.prev_id, v2.next_id)];
            let v3 = VehicleV {
                delta: residual(len + v2.delta, v2.speed as int) as u64,
                distance_remaining: 0,
                ..v2
            };
            let (vg2, r2) = gnn_step(v3, v3.next_id, nodes);
            match r2 {
                None => {
                    if vg2.marked_for_deletion {
                        vg2
                    } else {
                        VehicleV { is_parked: true, ..vg2 }
                    }
                },
                Some(tmp) => {
                    let v4 = VehicleV { prev_id: v3.next_id, next_id: tmp, ..vg2 };
                    if v4.next_id == 0 {
                        VehicleV { is_parked: true, ..v4 }
                    } else {
                        v4
                    }
                },
            }
        }
    }
}

/// The `n`-fold iterate of the step transition: the state a vehicle
/// reaches after `n` discrete advances over the graph described by
/// `edges` and `nodes`.
pub open spec fn iter_step(
    v: VehicleV,
    edges: Map<(Osmid, Osmid), u64>,
    nodes: Set<Osmid>,
    n: nat,
) -> VehicleV
    decreases n,
{
    if n == 0 {
        v
    } else {
        step_v(iter_step(v, edges, nodes, (n - 1) as nat), edges, nodes)
    }
}

/// The termination measure of driving: zero once the vehicle is parked
/// or handed off, and otherwise bounded by how much of the path is still
/// ahead of `next_id`.
pub open spec fn drive_measure(v: VehicleV) -> int {
    if v.is_parked || v.marked_for_deletion {
        0
    } else {
        match first_index_of(v.path_ids, v.next_id) {
            None => 1,
            Some(j) => 2 + v.path_ids.len() - j,
        }
    }
}

/// A moveable agent over a road graph.
pub trait Moveable {
    /// The state the agent must be in to step or drive.
    spec fn step_inv(&self, graph: &OSMGraph) -> bool;

    /// Whether the agent is marked for handoff.
    spec fn spec_marked(&self) -> bool;

    /// The state the agent must be in for a path lookahead.
    spec fn lookahead_inv(&self) -> bool;

    /// The state the agent must be in for one sub-step.
    spec fn substep_inv(&self) -> bool;

    /// Steps the agent until it is parked or marked for handoff.
    fn drive(&mut self, graph: &OSMGraph)
        requires
            old(self).step_inv(graph),
    ;

    /// Performs one discrete advance.
    fn step(&mut self, graph: &OSMGraph)
        requires
            old(self).step_inv(graph),
            !old(self).spec_marked(),
    ;

    /// Looks one node ahead along the path.
    fn get_next_node(&mut self, prev_id: Osmid, current_graph: &OSMGraph) -> Option<Osmid>
        requires
            old(self).lookahead_inv(),
    ;

    /// Consumes one speed unit of the remaining distance.
    fn calculate_step(&mut self)
        requires
            old(self).substep_inv(),
    ;
}

impl Moveable for Vehicle {
    open spec fn step_inv(&self, graph: &OSMGraph) -> bool {
        &&& vehicle_path_wf(self@)
        &&& self.delta <= STEP_DELTA_LIMIT
        &&& graph_wf(graph.graph)
    }

    open spec fn spec_marked(&self) -> bool {
        self.marked_for_deletion
    }

    open spec fn lookahead_inv(&self) -> bool {
        self.path_ids@.len() >= 2
    }

    open spec fn substep_inv(&self) -> bool {
        self.distance_remaining >= self.speed
    }

    /// Steps the vehicle until it parks or leaves the partition: the
    /// final state is some iterate of the step transition on the
    /// starting state, and a vehicle that starts in flight takes at
    /// least one step.
    fn drive(&mut self, osm_graph: &OSMGraph)
        ensures
            final(self).is_parked || final(self).marked_for_deletion,
            exists|n: nat|
                final(self)@ == iter_step(
                    old(self)@,
                    gm_edges(osm_graph.graph),
                    gm_nodes(osm_graph.graph),
                    n,
                ),
            !old(self).is_parked && !old(self).marked_for_deletion && old(self)@.steps < u64::MAX
                ==> final(self)@.steps > old(self)@.steps,
            final(self)@.steps >= old(self)@.steps,
            final(self)@.path_ids == old(self)@.path_ids,
            final(self)@.id == old(self)@.id,
            final(self)@.speed == old(self)@.speed,
            final(self)@.delta <= old(self)@.delta || final(self)@.delta <= old(self)@.speed,
    {
        let ghost v0 = self@;
        let ghost em = gm_edges(osm_graph.graph);
        let ghost ns = gm_nodes(osm_graph.graph);
        let ghost mut n: nat = 0;
        while !self.is_parked && !self.marked_for_deletion
            invariant
                self.step_inv(osm_graph),
                em == gm_edges(osm_graph.graph),
                ns == gm_nodes(osm_graph.graph),
                self@ == iter_step(v0, em, ns, n),
                n == 0 ==> self@ == v0,
                n >= 1 && v0.steps < u64::MAX ==> self@.steps > v0.steps,
                self@.steps >= v0.steps,
                self@.path_ids == v0.path_ids,
                self@.id == v0.id,
                self@.speed == v0.speed,
                self@.delta <= v0.delta || self@.delta <= v0.speed,
            decreases drive_measure(self@),
        {
            proof {
                lemma_first_index_of(self@.path_ids, self@.next_id);
            }
            let ghost vprev = self@;
            self.step(osm_graph);
            proof {
                assert(self@ == step_v(vprev, em, ns));
                assert(iter_step(v0, em, ns, n + 1) == step_v(iter_step(v0, em, ns, n), em, ns));
                n = n + 1;
                lemma_first_index_of(self@.path_ids, self@.next_id);
            }
        }
        proof {
            assert(self@ == iter_step(v0, em, ns, n));
        }
    }

    /// One sub-step: the vehicle travels one speed unit of the current
    /// edge.
    fn calculate_step(&mut self)
        ensures
            final(self)@ == (VehicleV {
                distance_remaining: (old(self)@.distance_remaining - old(self)@.speed) as u64,
                ..old(self)@
            }),
    {
        self.distance_remaining = self.distance_remaining - self.speed;
    }

    /// One discrete advance, exactly the transition `step_v` describes.
    /// A parked vehicle is left untouched, and the step counter never
    /// decreases.
    #[verifier::spinoff_prover]
    #[verifier::rlimit(60)]
    fn step(&mut self, osm_graph: &OSMGraph)
        ensures
            final(self)@ == step_v(old(self)@, gm_edges(osm_graph.graph), gm_nodes(osm_graph.graph)),
            old(self).is_parked ==> final(self)@ == old(self)@,
            final(self)@.steps >= old(self)@.steps,
            final(self)@.path_ids == old(self)@.path_ids,
            final(self)@.id == old(self)@.id,
            final(self)@.speed == old(self)@.speed,
            final(self)@.delta <= old(self)@.delta || final(self)@.delta <= old(self)@.speed,
            !old(self).is_parked && old(self)@.steps < u64::MAX ==> final(self)@.steps == old(
                self,
            )@.steps + 1,
            !old(self).is_parked ==> drive_measure(final(self)@) < drive_measure(old(self)@),
    {
        let ghost em = gm_edges(osm_graph.graph);
        let ghost ns = gm_nodes(osm_graph.graph);
        let ghost v0 = self@;

        if self.is_parked {
            return ;
        }
        if self.steps < u64::MAX {
            self.steps = self.steps + 1;
        }
        let ghost v1 = self@;
        proof {
            lemma_first_index_of(v0.path_ids, v0.next_id);
        }

        if !gm_contains_edge(&osm_graph.graph, self.prev_id, self.next_id) {
            let old_prev = self.prev_id;
            let arg = self.next_id;
            self.prev_id = arg;
            let ghost vpre = self@;
            let r = self.get_next_node(arg, osm_graph);
            match r {
                Some(id) => {
                    self.next_id = id;
                },
                None => {
                    if self.marked_for_deletion || self.is_parked {
                        proof {
                            assert(self@ == step_v(v0, em, ns));
                        }
                        return ;
                    }
                    self.prev_id = old_prev;
                },
            }
        }
        let ghost v2 = self@;

        let wopt = gm_edge_weight(&osm_graph.graph, self.prev_id, self.next_id);
        let length = match wopt {
            Some(l) => l,
            None => {
                self.marked_for_deletion = true;
                proof {
                    assert(self@ == step_v(v0, em, ns));
                }
                return ;
            },
        };

        self.distance_remaining = length + self.delta;
        let ghost d0 = self.distance_remaining as int;
        while self.distance_remaining > self.speed
            invariant
                self.speed >= 1,
                residual(self.distance_remaining as int, self.speed as int) == residual(
                    d0,
                    self.speed as int,
                ),
                self@ == (VehicleV { distance_remaining: self.distance_remaining, ..v2 }),
            decreases self.distance_remaining,
        {
            self.calculate_step();
        }
        proof {
            assert(residual(self.distance_remaining as int, self.speed as int)
                == self.distance_remaining as int);
        }
        self.delta = self.distance_remaining;
        self.distance_remaining = 0;
        let ghost v3 = self@;

        let arg2 = self.next_id;
        let r2 = self.get_next_node(arg2, osm_graph);
        match r2 {
            None => {
                if self.marked_for_deletion {
                    proof {
                        assert(self@ == step_v(v0, em, ns));
                    }
                    return ;
                }
                self.is_parked = true;
                proof {
                    assert(self@ == step_v(v0, em, ns));
                }
                return ;
            },
            Some(tmp) => {
                self.prev_id = arg2;
                self.next_id = tmp;
            },
        }
        if self.next_id == 0 {
            self.is_parked = true;
        }
        proof {
            let path = v0.path_ids;
            match first_index_of(path, v0.next_id) {
                Some(j0) => {
                    lemma_first_index_of_self(path, j0);
                    if j0 + 1 < path.len() {
                        lemma_first_index_of_self(path, j0 + 1);
                    }
                    if j0 + 2 < path.len() {
                        lemma_first_index_of_self(path, j0 + 2);
                    }
                },
                None => {},
            }
            lemma_first_index_of(path, v3.next_id);
            match first_index_of(path, v3.next_id) {
                Some(j2) => {
                    lemma_first_index_of_self(path, j2);
                    if j2 + 1 < path.len() {
                        lemma_first_index_of_self(path, j2 + 1);
                    }
                },
                None => {},
            }
            lemma_first_index_of(path, self@.next_id);
            assert(self@ == step_v(v0, em, ns));
        }
    }

    /// The path lookahead, exactly the transition `gnn_step` describes.
    fn get_next_node(&mut self, prev_id: Osmid, current_graph: &OSMGraph) -> (r: Option<Osmid>)
        ensures
            (final(self)@, r) == gnn_step(old(self)@, prev_id, gm_nodes(current_graph.graph)),
    {
        let ghost ns = gm_nodes(current_graph.graph);
        let m = self.path_ids.len();
        if self.path_ids[m - 1] == prev_id || self.path_ids[m - 2] == prev_id {
            self.is_parked = true;
            return None;
        }

        let idx = match find_first(&self.path_ids, prev_id) {
            Some(i) => i,
            None => {
                proof {
                    assert((self@, None::<Osmid>) == gnn_step(old(self)@, prev_id, ns));
                }
                return None;
            },
        };
        proof {
            lemma_first_index_of(self.path_ids@, prev_id);
            // The two final positions hold other values, so the first
            // occurrence leaves room for two more path entries.
            assert(idx + 2 < m);
        }

        let next_id = self.path_ids[idx + 1];
        if !gm_contains_node(&current_graph.graph, next_id) {
            self.marked_for_deletion = true;
            self.prev_id = next_id;
            self.next_id = self.path_ids[idx + 2];
            return None;
        }

        Some(next_id)
    }
}

/// Finds the first position of `x` in `p`.
fn find_first(p: &Vec<Osmid>, x: Osmid) -> (r: Option<usize>)
    ensures
        match r {
            Some(i) => first_index_of(p@, x) == Some(i as int),
            None => first_index_of(p@, x) is None,
        },
{
    let n = p.len();
    let mut i: usize = 0;
    while i < n
        invariant
            0 <= i <= n,
            n == p@.len(),
            forall|t: int| 0 <= t < i ==> p@[t] != x,
        decreases n - i,
    {
        if p[i] == x {
            proof {
                lemma_first_index_of(p@, x);
                match first_index_of(p@, x) {
                    Some(j) => {
                        if j < i as int {
                            assert(p@[j] != x);
                        }
                        if j > i as int {
                            assert(p@[i as int] != x);
                        }
                    },
                    None => {
                        assert(p@[i as int] != x);
                    },
                }
            }
            return Some(i);
        }
        i = i + 1;
    }
    proof {
        lemma_first_index_of(p@, x);
        match first_index_of(p@, x) {
            Some(j) => {
                assert(p@[j] != x);
            },
            None => {},
        }
    }
    None
}


/// Distance conservation: consuming a distance `len` at speed `s`
/// leaves a residual that is congruent to `len` modulo `s` and within
/// one speed unit of it (the residual lies between zero and `s`, both
/// inclusive, so it differs from `len % s` by at most `s`).
pub proof fn lemma_distance_conservation(len: int, s: int)
    requires
        s >= 1,
        0 <= len,
    ensures
        residual(len, s) % s == len % s,
        0 <= residual(len, s) <= s,
    decreases len,
{
    if len > s {
        lemma_distance_conservation(len - s, s);
        vstd::arithmetic::div_mod::lemma_mod_sub_multiples_vanish(len, s);
        assert(-s + len == len - s);
    } else if len == s {
        vstd::arithmetic::div_mod::lemma_mod_self_0(s);
    } else {
        vstd::arithmetic::div_mod::lemma_small_mod(len as nat, s as nat);
    }
}


/// The wire bytes of a path: eight bytes for each id, in order.
pub open spec fn ids_bytes(p: Seq<Osmid>) -> Seq<u8>
    decreases p.len(),
{
    if p.len() == 0 {
        Seq::empty()
    } else {
        le_bytes(p[0] as int, 8) + ids_bytes(p.drop_first())
    }
}

/// A path's wire bytes take eight bytes per id.
pub proof fn lemma_ids_bytes_len(p: Seq<Osmid>)
    ensures
        ids_bytes(p).len() == 8 * p.len(),
    decreases p.len(),
{
    if p.len() > 0 {
        lemma_le_bytes_len(p[0] as int, 8);
        lemma_ids_bytes_len(p.drop_first());
    }
}

/// Appending an id to a path appends its eight bytes to the path's wire
/// bytes.
pub proof fn lemma_ids_bytes_push(p: Seq<Osmid>, x: Osmid)
    ensures
        ids_bytes(p.push(x)) == ids_bytes(p) + le_bytes(x as int, 8),
    decreases p.len(),
{
    if p.len() == 0 {
        assert(p.push(x)[0] == x);
        assert(p.push(x).drop_first() =~= Seq::<Osmid>::empty());
        assert(ids_bytes(Seq::<Osmid>::empty()) =~= Seq::<u8>::empty());
        assert(le_bytes(x as int, 8) + Seq::<u8>::empty() =~= le_bytes(x as int, 8));
        assert(ids_bytes(p.push(x)) =~= le_bytes(x as int, 8));
        assert(ids_bytes(p) + le_bytes(x as int, 8) =~= le_bytes(x as int, 8));
    } else {
        assert(p.push(x).drop_first() =~= p.drop_first().push(x));
        lemma_ids_bytes_push(p.drop_first(), x);
        assert(p.push(x)[0] == p[0]);
        assert(le_bytes(p[0] as int, 8) + (ids_bytes(p.drop_first()) + le_bytes(x as int, 8))
            =~= (le_bytes(p[0] as int, 8) + ids_bytes(p.drop_first())) + le_bytes(x as int, 8));
    }
}

/// The wire bytes of a vehicle: the id's UTF-8 bytes and the path, each
/// length-prefixed, followed by the scalar fields in declaration order.
pub open spec fn enc_vehicle(v: VehicleV) -> Seq<u8> {
    let idb = vstd::utf8::encode_utf8(v.id);
    le_bytes(idb.len() as int, 8) + idb + le_bytes(v.path_ids.len() as int, 8) + ids_bytes(
        v.path_ids,
    ) + le_bytes(v.speed as int, 8) + le_bytes(v.delta as int, 8) + le_bytes(v.next_id as int, 8)
        + le_bytes(v.prev_id as int, 8) + seq![bool_byte(v.is_parked)] + le_bytes(
        v.distance_remaining as int,
        8,
    ) + seq![bool_byte(v.marked_for_deletion)] + le_bytes(v.steps as int, 8)
}

/// Reads `count` ids of eight bytes each.
pub open spec fn parse_ids(bs: Seq<u8>, pos: int, count: int) -> Option<(Seq<Osmid>, int)>
    decreases count,
{
    if count <= 0 {
        Some((Seq::empty(), pos))
    } else {
        match parse_usize_at(bs, pos) {
            Some((x, p)) => match parse_ids(bs, p, count - 1) {
                Some((rest, p2)) => Some((seq![x] + rest, p2)),
                None => None,
            },
            None => None,
        }
    }
}

/// The vehicle a wire buffer denotes, if any: every field in order, with
/// nothing left over.
pub open spec fn parse_vehicle(bs: Seq<u8>) -> Option<VehicleV> {
    match parse_usize_at(bs, 0) {
        Some((idlen, p1)) => if p1 + idlen <= bs.len() && vstd::utf8::valid_utf8(
            bs.subrange(p1, p1 + idlen),
        ) {
            let id = vstd::utf8::decode_utf8(bs.subrange(p1, p1 + idlen));
            match parse_usize_at(bs, p1 + idlen) {
                Some((cnt, p3)) => match parse_ids(bs, p3, cnt as int) {
                    Some((path, p4)) => match parse_u64_at(bs, p4) {
                        Some((speed, p5)) => match parse_u64_at(bs, p5) {
                            Some((delta, p6)) => match parse_usize_at(bs, p6) {
                                Some((next, p7)) => match parse_usize_at(bs, p7) {
                                    Some((prev, p8)) => match parse_bool_at(bs, p8) {
                                        Some((parked, p9)) => match parse_u64_at(bs, p9) {
                                            Some((dist, p10)) => match parse_bool_at(bs, p10) {
                                                Some((marked, p11)) => match parse_u64_at(
                                                    bs,
                                                    p11,
                                                ) {
                                                    Some((steps, p12)) => if p12 == bs.len()
                                                        && path.len() == cnt {
                                                        Some(
                                                            VehicleV {
                                                                id,
                                                                path_ids: path,
                                                                speed,
                                                                delta,
                                                                next_id: next,
                                                                prev_id: prev,
                                                                is_parked: parked,
                                                                distance_remaining: dist,
                                                                marked_for_deletion: marked,
                                                                steps,
                                                            },
                                                        )
                                                    } else {
                                                        None
                                                    },
                                                    None => None,
                                                },
                                                None => None,
                                            },
                                            None => None,
                                        },
                                        None => None,
                                    },
                                    None => None,
                                },
                                None => None,
                            },
                            None => None,
                        },
                        None => None,
                    },
                    None => None,
                },
                None => None,
            }
        } else {
            None
        },
        None => None,
    }
}


/// Reading a path where an encoder just wrote one yields it back.
proof fn lemma_parse_ids_of_enc(pre: Seq<u8>, p: Seq<Osmid>, rest: Seq<u8>)
    ensures
        parse_ids(pre + ids_bytes(p) + rest, pre.len() as int, p.len() as int) == Some((
            p,
            pre.len() as int + 8 * p.len() as int,
        )),
    decreases p.len(),
{
    if p.len() == 0 {
        assert(p =~= Seq::<Osmid>::empty());
    } else {
        let whole = pre + ids_bytes(p) + rest;
        let tail = ids_bytes(p.drop_first()) + rest;
        assert(whole =~= pre + le_bytes(p[0] as int, 8) + tail);
        lemma_parse_u64_of_enc(pre, pre.len() as int, p[0] as u64, tail);
        let pre2 = pre + le_bytes(p[0] as int, 8);
        lemma_le_bytes_len(p[0] as int, 8);
        assert(whole =~= pre2 + ids_bytes(p.drop_first()) + rest);
        lemma_parse_ids_of_enc(pre2, p.drop_first(), rest);
        assert(seq![p[0]] + p.drop_first() =~= p);
    }
}

/// Round trip: parsing an encoded vehicle gives its state back
/// unchanged, for any vehicle whose id and path have machine-sized
/// lengths.
#[verifier::spinoff_prover]
#[verifier::rlimit(60)]
pub proof fn lemma_vehicle_round_trip(v: VehicleV)
    requires
        vstd::utf8::encode_utf8(v.id).len() <= usize::MAX,
        v.path_ids.len() <= usize::MAX,
    ensures
        parse_vehicle(enc_vehicle(v)) == Some(v),
{
    let idb = vstd::utf8::encode_utf8(v.id);
    let c1 = le_bytes(idb.len() as int, 8);
    let c2 = idb;
    let c3 = le_bytes(v.path_ids.len() as int, 8);
    let c4 = ids_bytes(v.path_ids);
    let c5 = le_bytes(v.speed as int, 8);
    let c6 = le_bytes(v.delta as int, 8);
    let c7 = le_bytes(v.next_id as int, 8);
    let c8 = le_bytes(v.prev_id as int, 8);
    let c9 = seq![bool_byte(v.is_parked)];
    let c10 = le_bytes(v.distance_remaining as int, 8);
    let c11 = seq![bool_byte(v.marked_for_deletion)];
    let c12 = le_bytes(v.steps as int, 8);
    let bs = enc_vehicle(v);

    lemma_le_bytes_len(idb.len() as int, 8);
    lemma_le_bytes_len(v.path_ids.len() as int, 8);
    lemma_le_bytes_len(v.speed as int, 8);
    lemma_le_bytes_len(v.delta as int, 8);
    lemma_le_bytes_len(v.next_id as int, 8);
    lemma_le_bytes_len(v.prev_id as int, 8);
    lemma_le_bytes_len(v.distance_remaining as int, 8);
    lemma_le_bytes_len(v.steps as int, 8);
    lemma_ids_bytes_len(v.path_ids);

    // Prefixes of the encoding, one per chunk, and matching suffixes.
    let q1 = c1;
    let q2 = q1 + c2;
    let q3 = q2 + c3;
    let q4 = q3 + c4;
    let q5 = q4 + c5;
    let q6 = q5 + c6;
    let q7 = q6 + c7;
    let q8 = q7 + c8;
    let q9 = q8 + c9;
    let q10 = q9 + c10;
    let q11 = q10 + c11;
    let q12 = q11 + c12;
    assert(bs == q12);

    let s13 = Seq::<u8>::empty();
    let s12 = c12 + s13;
    let s11 = c11 + s12;
    let s10 = c10 + s11;
    let s9 = c9 + s10;
    let s8 = c8 + s9;
    let s7 = c7 + s8;
    let s6 = c6 + s7;
    let s5 = c5 + s6;
    let s4 = c4 + s5;
    let s3 = c3 + s4;
    let s2 = c2 + s3;

    assert(q12 + s13 =~= q12);
    assert(q11 + s12 =~= (q11 + c12) + s13);
    assert(q10 + s11 =~= (q10 + c11) + s12);
    assert(q9 + s10 =~= (q9 + c10) + s11);
    assert(q8 + s9 =~= (q8 + c9) + s10);
    assert(q7 + s8 =~= (q7 + c8) + s9);
    assert(q6 + s7 =~= (q6 + c7) + s8);
    assert(q5 + s6 =~= (q5 + c6) + s7);
    assert(q4 + s5 =~= (q4 + c5) + s6);
    assert(q3 + s4 =~= (q3 + c4) + s5);
    assert(q2 + s3 =~= (q2 + c3) + s4);
    assert(q1 + s2 =~= (q1 + c2) + s3);

    // the id length
    assert(Seq::<u8>::empty() + le_bytes((idb.len() as u64) as int, 8) + s2 =~= bs);
    lemma_parse_u64_of_enc(Seq::empty(), 0, idb.len() as u64, s2);
    assert(parse_usize_at(bs, 0) == Some((idb.len() as usize, 8int)));

    // the id bytes
    assert(bs.subrange(8, 8 + idb.len() as int) =~= idb);
    vstd::utf8::encode_utf8_valid_utf8(v.id);
    vstd::utf8::encode_utf8_decode_utf8(v.id);

    // the path length
    assert(q2 + le_bytes((v.path_ids.len() as u64) as int, 8) + s4 =~= bs);
    lemma_parse_u64_of_enc(q2, q2.len() as int, v.path_ids.len() as u64, s4);
    assert(parse_usize_at(bs, q2.len() as int) == Some((
        v.path_ids.len() as usize,
        q3.len() as int,
    )));

    // the path
    assert(q3 + c4 + s5 =~= bs);
    lemma_parse_ids_of_enc(q3, v.path_ids, s5);
    assert(parse_ids(bs, q3.len() as int, v.path_ids.len() as int) == Some((
        v.path_ids,
        q4.len() as int,
    )));

    // the scalar fields
    lemma_parse_u64_of_enc(q4, q4.len() as int, v.speed, s6);
    lemma_parse_u64_of_enc(q5, q5.len() as int, v.delta, s7);
    assert(q6 + le_bytes((v.next_id as u64) as int, 8) + s8 =~= bs);
    lemma_parse_u64_of_enc(q6, q6.len() as int, v.next_id as u64, s8);
    assert(q7 + le_bytes((v.prev_id as u64) as int, 8) + s9 =~= bs);
    lemma_parse_u64_of_enc(q7, q7.len() as int, v.prev_id as u64, s9);
    lemma_parse_bool_of_enc(q8, v.is_parked, s10);
    lemma_parse_u64_of_enc(q9, q9.len() as int, v.distance_remaining, s11);
    lemma_parse_bool_of_enc(q10, v.marked_for_deletion, s12);
    lemma_parse_u64_of_enc(q11, q11.len() as int, v.steps, s13);
    assert(q11 + c12 + s13 =~= bs);

    assert(parse_vehicle(bs) == Some(v));
}


impl MpiMessageContent<Vehicle> for Vehicle {
    /// Encodes a vehicle as its wire bytes; this never fails.
    #[verifier::spinoff_prover]
    #[verifier::rlimit(60)]
    fn to_bytes(data: Vehicle) -> (r: Result<Vec<u8>, Error>)
        ensures
            match r {
                Ok(bs) => bs@ == enc_vehicle(data@),
                Err(_) => false,
            },
    {
        let ghost v = data@;
        let mut buf: Vec<u8> = Vec::new();

        let idb: Vec<u8> = vstd::slice::slice_to_vec(data.id.as_str().as_bytes());
        push_u64_le(&mut buf, idb.len() as u64);
        let ghost q1 = buf@;
        let ni = idb.len();
        let mut t: usize = 0;
        while t < ni
            invariant
                0 <= t <= ni,
                ni == idb@.len(),
                buf@ == q1 + idb@.take(t as int),
            decreases ni - t,
        {
            buf.push(idb[t]);
            proof {
                assert(idb@.take(t + 1) =~= idb@.take(t as int).push(idb@[t as int]));
                assert(q1 + idb@.take(t as int).push(idb@[t as int]) =~= (q1 + idb@.take(
                    t as int,
                )).push(idb@[t as int]));
            }
            t = t + 1;
        }
        proof {
            assert(idb@.take(ni as int) =~= idb@);
        }

        push_u64_le(&mut buf, data.path_ids.len() as u64);
        let ghost q3 = buf@;
        let np = data.path_ids.len();
        let mut t: usize = 0;
        while t < np
            invariant
                0 <= t <= np,
                np == data.path_ids@.len(),
                buf@ == q3 + ids_bytes(data.path_ids@.take(t as int)),
            decreases np - t,
        {
            let ghost pre = data.path_ids@.take(t as int);
            push_u64_le(&mut buf, data.path_ids[t] as u64);
            proof {
                lemma_ids_bytes_push(pre, data.path_ids@[t as int]);
                assert(data.path_ids@.take(t + 1) =~= pre.push(data.path_ids@[t as int]));
                assert(q3 + (ids_bytes(pre) + le_bytes(data.path_ids@[t as int] as int, 8)) =~= (q3
                    + ids_bytes(pre)) + le_bytes(data.path_ids@[t as int] as int, 8));
            }
            t = t + 1;
        }
        proof {
            assert(data.path_ids@.take(np as int) =~= data.path_ids@);
        }

        push_u64_le(&mut buf, data.speed);
        push_u64_le(&mut buf, data.delta);
        push_u64_le(&mut buf, data.next_id as u64);
        push_u64_le(&mut buf, data.prev_id as u64);
        push_bool(&mut buf, data.is_parked);
        push_u64_le(&mut buf, data.distance_remaining);
        push_bool(&mut buf, data.marked_for_deletion);
        push_u64_le(&mut buf, data.steps);

        proof {
            assert(buf@ =~= enc_vehicle(v));
        }
        Ok(buf)
    }

    /// Decodes a vehicle from wire bytes; fails exactly on buffers the
    /// encoder cannot produce.
    #[verifier::spinoff_prover]
    #[verifier::rlimit(60)]
    fn from_bytes(data: Vec<u8>) -> (r: Result<Vehicle, Error>)
        ensures
            match parse_vehicle(data@) {
                Some(w) => (r matches Ok(veh) && veh@ == w),
                None => (r matches Err(e) && e == Error::SerializationError),
            },
    {
        let ghost bs = data@;

        let (idlen, p1) = match take_usize(&data, 0) {
            Some(x) => x,
            None => {
                return Err(Error::SerializationError);
            },
        };
        let dn = data.len();
        if dn - p1 < idlen {
            return Err(Error::SerializationError);
        }
        let mut idb: Vec<u8> = Vec::new();
        let mut t: usize = 0;
        while t < idlen
            invariant
                0 <= t <= idlen,
                dn == data@.len(),
                p1 + idlen <= dn,
                data@ == bs,
                idb@ == bs.subrange(p1 as int, p1 + t),
            decreases idlen - t,
        {
            idb.push(data[p1 + t]);
            proof {
                assert(bs.subrange(p1 as int, p1 + t + 1) =~= bs.subrange(p1 as int, p1 + t).push(
                    bs[p1 + t],
                ));
            }
            t = t + 1;
        }
        let id = match String::from_utf8(idb) {
            Ok(st) => st,
            Err(_) => {
                return Err(Error::SerializationError);
            },
        };
        let p2 = p1 + idlen;

        let (cnt, p3) = match take_usize(&data, p2) {
            Some(x) => x,
            None => {
                return Err(Error::SerializationError);
            },
        };
        let mut path_ids: Vec<Osmid> = Vec::new();
        let mut pos: usize = p3;
        let mut t: usize = 0;
        while t < cnt
            invariant
                0 <= t <= cnt,
                data@ == bs,
                path_ids@.len() == t,
                pos <= bs.len(),
                parse_usize_at(bs, 0) == Some((idlen, p1 as int)),
                p2 == p1 + idlen,
                p1 + idlen <= bs.len(),
                vstd::utf8::valid_utf8(bs.subrange(p1 as int, p1 + idlen)),
                parse_usize_at(bs, p2 as int) == Some((cnt, p3 as int)),
                parse_ids(bs, p3 as int, cnt as int) == (match parse_ids(
                    bs,
                    pos as int,
                    cnt - t,
                ) {
                    Some((rest, pe)) => Some((path_ids@ + rest, pe)),
                    None => None::<(Seq<Osmid>, int)>,
                }),
            decreases cnt - t,
        {
            let ghost path_pre = path_ids@;
            let ghost pos_pre = pos as int;
            let (x, pnew) = match take_usize(&data, pos) {
                Some(x) => x,
                None => {
                    return Err(Error::SerializationError);
                },
            };
            path_ids.push(x);
            pos = pnew;
            proof {
                match parse_ids(bs, pos as int, cnt - t - 1) {
                    Some((rest, pe)) => {
                        assert(path_pre + (seq![x] + rest) =~= path_ids@ + rest);
                    },
                    None => {},
                }
            }
            t = t + 1;
        }
        proof {
            assert(parse_ids(bs, pos as int, 0) == Some((Seq::<Osmid>::empty(), pos as int)));
            assert(path_ids@ + Seq::<Osmid>::empty() =~= path_ids@);
        }

        let (speed, p5) = match take_u64(&data, pos) {
            Some(x) => x,
            None => {
                return Err(Error::SerializationError);
            },
        };
        let (delta, p6) = match take_u64(&data, p5) {
            Some(x) => x,
            None => {
                return Err(Error::SerializationError);
            },
        };
        let (next_id, p7) = match take_usize(&data, p6) {
            Some(x) => x,
            None => {
                return Err(Error::SerializationError);
            },
        };
        let (prev_id, p8) = match take_usize(&data, p7) {
            Some(x) => x,
            None => {
                return Err(Error::SerializationError);
            },
        };
        let (is_parked, p9) = match take_bool(&data, p8) {
            Some(x) => x,
            None => {
                return Err(Error::SerializationError);
            },
        };
        let (distance_remaining, p10) = match take_u64(&data, p9) {
            Some(x) => x,
            None => {
                return Err(Error::SerializationError);
            },
        };
        let (marked_for_deletion, p11) = match take_bool(&data, p10) {
            Some(x) => x,
            None => {
                return Err(Error::SerializationError);
            },
        };
        let (steps, p12) = match take_u64(&data, p11) {
            Some(x) => x,
            None => {
                return Err(Error::SerializationError);
            },
        };
        if p12 != data.len() {
            return Err(Error::SerializationError);
        }

        let veh = Vehicle {
            id,
            path_ids,
            speed,
            delta,
            next_id,
            prev_id,
            is_parked,
            distance_remaining,
            marked_for_deletion,
            steps,
        };
        Ok(veh)
    }
}


/// How many times the factory retries a random route before giving up;
/// callers may simply call again.
pub const GENERATE_ATTEMPTS: u32 = 64;

impl Vehicle {
    /// Generates a vehicle with a random route of at least five nodes
    /// through the graph and a random speed in the given range.  Fails
    /// when the graph has no nodes, when no long-enough route between
    /// randomly drawn nodes was found after a bounded number of draws,
    /// or when the drawn route starts at the reserved node id zero.
    pub fn generate_default(graph: &RoadGraph, min_speed: u64, max_speed: u64) -> (r: Result<
        Vehicle,
        Error,
    >)
        requires
            graph_wf(*graph),
            1 <= min_speed <= max_speed <= MAX_SPEED,
        ensures
            match r {
                Ok(v) => {
                    &&& vehicle_wf(v@)
                    &&& v@.path_ids.len() >= 5
                    &&& is_path(
                        gm_edges(*graph),
                        v@.path_ids,
                        v@.path_ids[0],
                        v@.path_ids[v@.path_ids.len() - 1],
                    )
                    &&& v.prev_id == v@.path_ids[0]
                    &&& v.next_id == v@.path_ids[1]
                    &&& min_speed <= v.speed <= max_speed
                    &&& v.delta == 0
                    &&& v.steps == 0
                    &&& !v.is_parked
                    &&& !v.marked_for_deletion
                    &&& v.distance_remaining == 0
                },
                Err(e) => e == Error::Generic,
            },
            gm_nodes(*graph).len() == 0 ==> r is Err,
    {
        let vtx = gm_nodes_vec(graph);
        let mut attempts: u32 = GENERATE_ATTEMPTS;
        while attempts > 0
            invariant
                graph_wf(*graph),
                1 <= min_speed <= max_speed <= MAX_SPEED,
                vtx@.to_set() == gm_nodes(*graph),
            decreases attempts,
        {
            attempts = attempts - 1;

            let start = match get_random_vector_element(&vtx) {
                Some(s) => *s,
                None => {
                    return Err(Error::Generic);
                },
            };
            let end = match get_random_vector_element(&vtx) {
                Some(s) => *s,
                None => {
                    return Err(Error::Generic);
                },
            };

            match astar_shortest(graph, start, end) {
                Some(found) => {
                    let path = found.1;
                    if path.len() >= 5 {
                        let velocity = random_velocity(min_speed, max_speed);
                        let p0 = path[0];
                        let p1 = path[1];
                        let built = VehicleBuilder::new().with_delta(0).with_is_parked(
                            false,
                        ).with_speed(velocity).with_path_ids(path).with_prev_id(p0).with_next_id(
                            p1,
                        ).build();
                        proof {
                            // A successful draw shows the node set is
                            // inhabited, so the empty-graph failure
                            // clause holds vacuously here.
                            assert(vtx@.to_set().contains(vtx@[0])) by {
                                assert(vtx@.contains(vtx@[0]));
                            }
                            if gm_nodes(*graph).len() == 0 {
                                gm_nodes(*graph).lemma_len0_is_empty();
                            }
                        }
                        return match built {
                            Ok(veh) => Ok(veh),
                            Err(e) => Err(e),
                        };
                    }
                },
                None => {},
            }
        }
        Err(Error::Generic)
    }
}

} // verus!
