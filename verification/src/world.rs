//! The simulation drivers: the root coordinator's decisions, the leaf
//! worker's vehicle processing, and the local (non-distributed) run.
//!
//! Everything here is the decision core of the event loops; the loops
//! themselves, which block on the wire, live with the program around the
//! library and hand plain values in and out.

use vstd::prelude::*;
use crate::error::Error;
use crate::graph::gmap::{gm_edge_weight, gm_edges, gm_node_count, gm_nodes, gm_nodes_vec, Osmid};
use crate::graph::osm_graph::{
    graph_wf, lemma_partition_coverage, part_nodes, parts_union, GPartition, OSMGraph,
};
use crate::graph::{get_path_length, shortest_response};
use crate::models::vehicle::{
    iter_step, vehicle_wf, Moveable, Vehicle, VehicleV, MAX_DELTA, MAX_SPEED,
};
use crate::utils::MAX_NUMBER_OF_VEHICLES;
use crate::cli::Parallelism;
use crate::vmpi::{
    EDGE_LENGTH_REQUEST, EDGE_LENGTH_RESPONSE, LEAF_ROOT_VEHICLE, LEAF_ROOT_VEHICLE_FINISH,
    ROOT_LEAF_TERMINATE, ROOT_LEAF_VEHICLE,
};

verus! {

broadcast use vstd::std_specs::hash::group_hash_axioms;

/// One million: the denominator of the error-rate scale, in parts per
/// million.
pub const ERROR_RATE_SCALE: u64 = 1_000_000;

/// Validates the startup choices: the vehicle count must stay below the
/// overflow guard, and the distributed mode needs concurrent vehicle
/// processing.
pub fn validate_run_config(num_vehicles: usize, mpi: bool, parallelism: Parallelism) -> (r: Result<
    (),
    Error,
>)
    ensures
        match r {
            Ok(()) => num_vehicles <= MAX_NUMBER_OF_VEHICLES && !(mpi && parallelism
                == Parallelism::SingleThreaded),
            Err(e) => (num_vehicles > MAX_NUMBER_OF_VEHICLES || (mpi && parallelism
                == Parallelism::SingleThreaded)) && e == Error::InvariantViolation,
        },
{
    if num_vehicles > MAX_NUMBER_OF_VEHICLES {
        return Err(Error::InvariantViolation);
    }
    if mpi && parallelism == Parallelism::SingleThreaded {
        return Err(Error::InvariantViolation);
    }
    Ok(())
}

/// Validates the world size: the distributed mode needs the root and at
/// least one leaf.
pub fn validate_world_size(size: i32) -> (r: Result<(), Error>)
    ensures
        match r {
            Ok(()) => size >= 2,
            Err(e) => size < 2 && e == Error::InvariantViolation,
        },
{
    if size < 2 {
        Err(Error::InvariantViolation)
    } else {
        Ok(())
    }
}

/// The number of finish notifications after which the root terminates
/// the run: the vehicle count scaled down by the error rate, rounded up.
pub fn compute_finishing_threshold(num_vehicles: usize, error_rate_ppm: u64) -> (r: usize)
    requires
        error_rate_ppm <= ERROR_RATE_SCALE,
    ensures
        r as int == (num_vehicles * (ERROR_RATE_SCALE - error_rate_ppm) + (ERROR_RATE_SCALE - 1))
            / (ERROR_RATE_SCALE as int),
        r <= num_vehicles,
{
    let keep: u128 = (ERROR_RATE_SCALE - error_rate_ppm) as u128;
    proof {
        assert((num_vehicles as int) * (keep as int) + (ERROR_RATE_SCALE - 1)
            < 0x1_0000_0000_0000_0000_0000_0000_0000_0000) by (nonlinear_arith)
            requires
                0 <= num_vehicles <= 0xFFFF_FFFF_FFFF_FFFF,
                0 <= keep <= 1_000_000,
        ;
    }
    let total: u128 = (num_vehicles as u128) * keep + ((ERROR_RATE_SCALE - 1) as u128);
    let t: u128 = total / (ERROR_RATE_SCALE as u128);
    proof {
        let nv = num_vehicles as int;
        let k = keep as int;
        let m = ERROR_RATE_SCALE as int;
        assert(0 <= nv * k && nv * k + (m - 1) <= nv * m + (m - 1)) by (nonlinear_arith)
            requires
                0 <= k <= m,
                0 <= nv,
        ;
        vstd::arithmetic::div_mod::lemma_div_is_ordered(nv * k + (m - 1), nv * m + (m - 1), m);
        vstd::arithmetic::div_mod::lemma_fundamental_div_mod_converse(nv * m + (m - 1), m, nv, m - 1);
    }
    t as usize
}

/// The root's termination bookkeeping.
#[derive(Debug)]
pub struct RootState {
    /// How many vehicles the run dispatched.
    pub num_vehicles: usize,
    /// After how many finish notifications the run terminates.
    pub finishing_threshold: usize,
    /// How many finish notifications arrived so far.
    pub finished_vehicle_counter: usize,
    /// The total steps the finished vehicles reported.
    pub step_accumulator: u64,
}

/// Accounts one finish notification: the finished counter grows by one
/// and never shrinks, the reported steps are added to the accumulator,
/// and the run terminates exactly when the counter reaches the
/// threshold.
pub fn handle_finish(state: &mut RootState, steps: u64) -> (terminate: bool)
    requires
        old(state).finished_vehicle_counter < old(state).finishing_threshold,
    ensures
        final(state).finished_vehicle_counter == old(state).finished_vehicle_counter + 1,
        final(state).finished_vehicle_counter > old(state).finished_vehicle_counter,
        final(state).step_accumulator as int == if old(state).step_accumulator + steps
            <= u64::MAX {
            old(state).step_accumulator + steps
        } else {
            u64::MAX as int
        },
        final(state).num_vehicles == old(state).num_vehicles,
        final(state).finishing_threshold == old(state).finishing_threshold,
        terminate == (final(state).finished_vehicle_counter >= final(state).finishing_threshold),
{
    state.finished_vehicle_counter = state.finished_vehicle_counter + 1;
    if steps <= u64::MAX - state.step_accumulator {
        state.step_accumulator = state.step_accumulator + steps;
    } else {
        state.step_accumulator = u64::MAX;
    }
    state.finished_vehicle_counter >= state.finishing_threshold
}

/// What a message means to the root.
#[derive(Copy, Clone, Debug, PartialEq, Eq, Structural)]
pub enum RootEvent {
    /// A leaf handed an in-flight vehicle back.
    VehicleReturned,
    /// A leaf asked for an edge length.
    EdgeLengthRequested,
    /// A leaf reported a finished vehicle.
    VehicleFinished,
    /// A message with an unknown tag.
    Unknown,
}

/// The root's reading of a message tag.
pub open spec fn spec_classify_root_event(tag: i32) -> RootEvent {
    if tag == LEAF_ROOT_VEHICLE {
        RootEvent::VehicleReturned
    } else if tag == EDGE_LENGTH_REQUEST {
        RootEvent::EdgeLengthRequested
    } else if tag == LEAF_ROOT_VEHICLE_FINISH {
        RootEvent::VehicleFinished
    } else {
        RootEvent::Unknown
    }
}

/// Classifies a message tag the root received.
pub fn classify_root_event(tag: i32) -> (r: RootEvent)
    ensures
        r == spec_classify_root_event(tag),
{
    if tag == LEAF_ROOT_VEHICLE {
        RootEvent::VehicleReturned
    } else if tag == EDGE_LENGTH_REQUEST {
        RootEvent::EdgeLengthRequested
    } else if tag == LEAF_ROOT_VEHICLE_FINISH {
        RootEvent::VehicleFinished
    } else {
        RootEvent::Unknown
    }
}

/// What a message means to a leaf.
#[derive(Copy, Clone, Debug, PartialEq, Eq, Structural)]
pub enum LeafEvent {
    /// The root dispatched a vehicle to this leaf.
    VehicleArrived,
    /// The root terminated the run.
    Terminate,
    /// An edge-length response must be forwarded to the waiting worker.
    ForwardResponse,
    /// A message with an unknown tag.
    Unknown,
}

/// A leaf's reading of a message tag.
pub open spec fn spec_classify_leaf_event(tag: i32) -> LeafEvent {
    if tag == ROOT_LEAF_VEHICLE {
        LeafEvent::VehicleArrived
    } else if tag == ROOT_LEAF_TERMINATE {
        LeafEvent::Terminate
    } else if tag == EDGE_LENGTH_RESPONSE {
        LeafEvent::ForwardResponse
    } else {
        LeafEvent::Unknown
    }
}

/// Classifies a message tag a leaf received.
pub fn classify_leaf_event(tag: i32) -> (r: LeafEvent)
    ensures
        r == spec_classify_leaf_event(tag),
{
    if tag == ROOT_LEAF_VEHICLE {
        LeafEvent::VehicleArrived
    } else if tag == ROOT_LEAF_TERMINATE {
        LeafEvent::Terminate
    } else if tag == EDGE_LENGTH_RESPONSE {
        LeafEvent::ForwardResponse
    } else {
        LeafEvent::Unknown
    }
}

/// The root's answer to an edge-length request: the stored length of the
/// edge, or, when the full graph lacks it, the length of the shortest
/// path between the two nodes, or zero when no path exists.
pub fn edge_length_response(g: &OSMGraph, from: Osmid, to: Osmid) -> (r: u64)
    requires
        graph_wf(g.graph),
    ensures
        gm_edges(g.graph).contains_key((from, to)) ==> r == gm_edges(g.graph)[(from, to)],
        !gm_edges(g.graph).contains_key((from, to)) ==> shortest_response(
            gm_edges(g.graph),
            from,
            to,
            r,
        ),
{
    match gm_edge_weight(&g.graph, from, to) {
        Some(el) => el,
        None => get_path_length(from, to, &g.graph),
    }
}


/// Records one partition's nodes in the rank map, all under the given
/// rank.
#[verifier::spinoff_prover]
#[verifier::rlimit(30)]
fn insert_partition_nodes(
    m: &mut std::collections::HashMap<Osmid, i32>,
    ids: &Vec<Osmid>,
    rank: i32,
    Ghost(vs): Ghost<Seq<crate::models::graph_input::Vertex>>,
    Ghost(em): Ghost<Map<(Osmid, Osmid), u64>>,
    Ghost(pn): Ghost<Set<Osmid>>,
    Ghost(np): Ghost<int>,
    Ghost(j): Ghost<int>,
)
    requires
        ids@.to_set() == part_nodes(vs, em, pn, np, j),
        rank == j + 1,
        0 <= j < np,
        j + 1 <= 0x7FFF_FFFF,
        old(m)@.dom() == parts_union(vs, em, pn, np, j),
        forall|node: Osmid| #[trigger]
            old(m)@.contains_key(node) ==> 1 <= old(m)@[node] <= j && part_nodes(
                vs,
                em,
                pn,
                np,
                old(m)@[node] - 1,
            ).contains(node),
    ensures
        final(m)@.dom() == parts_union(vs, em, pn, np, j + 1),
        forall|node: Osmid| #[trigger]
            final(m)@.contains_key(node) ==> 1 <= final(m)@[node] <= j + 1 && part_nodes(
                vs,
                em,
                pn,
                np,
                final(m)@[node] - 1,
            ).contains(node),
{
    let n = ids.len();
    let mut t: usize = 0;
    while t < n
        invariant
            0 <= t <= n,
            n == ids@.len(),
            ids@.to_set() == part_nodes(vs, em, pn, np, j),
            rank == j + 1,
            0 <= j < np,
            j + 1 <= 0x7FFF_FFFF,
            m@.dom() =~= parts_union(vs, em, pn, np, j).union(
                Set::new(|id: Osmid| exists|q: int| 0 <= q < t && ids@[q] == id),
            ),
            forall|node: Osmid| #[trigger]
                m@.contains_key(node) ==> 1 <= m@[node] <= j + 1 && part_nodes(
                    vs,
                    em,
                    pn,
                    np,
                    m@[node] - 1,
                ).contains(node),
        decreases n - t,
    {
        let ghost before = m@;
        m.insert(ids[t], rank);
        proof {
            assert(ids@.to_set().contains(ids@[t as int])) by {
                assert(ids@.contains(ids@[t as int]));
            }
            assert(m@.dom() =~= parts_union(vs, em, pn, np, j).union(
                Set::new(|id: Osmid| exists|q: int| 0 <= q < t + 1 && ids@[q] == id),
            )) by {
                assert forall|id: Osmid|
                    before.insert(ids@[t as int], rank).dom().contains(id) <==> (parts_union(
                        vs,
                        em,
                        pn,
                        np,
                        j,
                    ).contains(id) || exists|q: int| 0 <= q < t + 1 && ids@[q] == id) by {
                    if before.insert(ids@[t as int], rank).dom().contains(id) {
                        if !before.dom().contains(id) {
                            assert(ids@[t as int] == id);
                        }
                    } else {
                        if exists|q: int| 0 <= q < t + 1 && ids@[q] == id {
                            let q = choose|q: int| 0 <= q < t + 1 && ids@[q] == id;
                            assert(q == t);
                            assert(before.insert(ids@[t as int], rank).dom().contains(id));
                        }
                    }
                }
            }
        }
        t = t + 1;
    }
    proof {
        assert(Set::new(|id: Osmid| exists|q: int| 0 <= q < n && ids@[q] == id) =~= ids@.to_set())
            by {
            assert forall|id: Osmid|
                (exists|q: int| 0 <= q < n && ids@[q] == id) <==> ids@.contains(id) by {}
        }
        assert(m@.dom() =~= parts_union(vs, em, pn, np, j + 1));
    }
}

/// Builds the node-to-rank map: for each leaf rank `r`, every node of
/// partition `r - 1` maps to `r`.  By partition coverage the map covers
/// the whole node set; the run-time size check of that fact is kept and
/// provably never fires.
#[verifier::spinoff_prover]
#[verifier::rlimit(30)]
pub fn build_node_to_rank(g: &OSMGraph, size: i32) -> (r: Result<
    std::collections::HashMap<Osmid, i32>,
    Error,
>)
    requires
        g.wf(),
        size >= 2,
    ensures
        match r {
            Ok(m) => {
                &&& g.spec_vertices().len() > 0
                &&& m@.dom() == gm_nodes(g.graph)
                &&& forall|node: Osmid| #[trigger]
                    m@.contains_key(node) ==> 1 <= m@[node] < size && part_nodes(
                        g.spec_vertices(),
                        gm_edges(g.graph),
                        gm_nodes(g.graph),
                        size - 1,
                        m@[node] - 1,
                    ).contains(node)
            },
            Err(e) => e == Error::EmptyInput && g.spec_vertices().len() == 0,
        },
{
    let ghost vs = g.spec_vertices();
    let ghost em = gm_edges(g.graph);
    let ghost pn = gm_nodes(g.graph);
    let partitions: usize = (size - 1) as usize;
    let ghost np = partitions as int;

    let mut node_to_rank: std::collections::HashMap<Osmid, i32> =
        std::collections::HashMap::new();
    let mut j: usize = 0;
    while j < partitions
        invariant
            0 <= j <= partitions,
            g.wf(),
            vs == g.spec_vertices(),
            em == gm_edges(g.graph),
            pn == gm_nodes(g.graph),
            np == partitions as int,
            partitions == size - 1,
            size >= 2,
            j > 0 ==> vs.len() > 0,
            node_to_rank@.dom() == parts_union(vs, em, pn, np, j as int),
            forall|node: Osmid| #[trigger]
                node_to_rank@.contains_key(node) ==> 1 <= node_to_rank@[node] <= j && part_nodes(
                    vs,
                    em,
                    pn,
                    np,
                    node_to_rank@[node] - 1,
                ).contains(node),
        decreases partitions - j,
    {
        let part = match g.partition(partitions, j) {
            Ok(p) => p,
            Err(e) => {
                return Err(e);
            },
        };
        let ids = gm_nodes_vec(&part.graph);
        let rank: i32 = (j + 1) as i32;
        insert_partition_nodes(
            &mut node_to_rank,
            &ids,
            rank,
            Ghost(vs),
            Ghost(em),
            Ghost(pn),
            Ghost(np),
            Ghost(j as int),
        );
        j = j + 1;
    }

    proof {
        lemma_partition_coverage(vs, em, pn, np);
        assert(node_to_rank@.dom() =~= pn);
    }

    // The coverage assertion of the coordinator, kept at run time; the
    // proof above shows it can never fire.
    let count = gm_node_count(&g.graph);
    if node_to_rank.len() != count {
        proof {
            assert(false);
        }
        return Err(Error::EmptyInput);
    }
    Ok(node_to_rank)
}


/// How a leaf finished with a vehicle.
#[derive(Copy, Clone, Debug, PartialEq, Eq, Structural)]
pub enum DriveOutcome {
    /// The vehicle reached the end of its path; the root must be sent a
    /// finish notification.
    Finished,
    /// The vehicle left the partition; it must be handed back to the
    /// root for re-routing.
    HandedBack,
}

/// Whether a received vehicle and edge-length response are fit for
/// processing.
pub open spec fn process_ready(v: VehicleV, edge_len: u64) -> bool {
    &&& vehicle_wf(v)
    &&& edge_len <= MAX_DELTA
}

/// The state a received in-flight vehicle is driven from: the handoff
/// mark cleared and the root's edge-length response added to the
/// carried distance.
pub open spec fn adjusted_for_drive(v: VehicleV, edge_len: u64) -> VehicleV {
    VehicleV { marked_for_deletion: false, delta: (v.delta + edge_len) as u64, ..v }
}

/// Whether a vector holds no id twice.
fn ids_unique(p: &Vec<Osmid>) -> (r: bool)
    ensures
        r == p@.no_duplicates(),
{
    let n = p.len();
    let mut i: usize = 0;
    while i < n
        invariant
            0 <= i <= n,
            n == p@.len(),
            forall|a: int, b: int| 0 <= a < b < n && a < i ==> p@[a] != p@[b],
        decreases n - i,
    {
        let mut j: usize = i + 1;
        while j < n
            invariant
                i < j <= n,
                i < n,
                n == p@.len(),
                forall|b: int| i < b < j ==> p@[i as int] != p@[b],
            decreases n - j,
        {
            if p[i] == p[j] {
                return false;
            }
            j = j + 1;
        }
        i = i + 1;
    }
    true
}

/// A leaf's work on one received vehicle: an already-terminal vehicle
/// counts as finished at once; otherwise the handoff mark is cleared,
/// the root's edge-length response is added to the carried distance, and
/// the vehicle is driven until it parks or leaves the partition.
/// Vehicles whose fields are out of bounds are rejected.
pub fn process_vehicle(v: &mut Vehicle, part: &OSMGraph, edge_len: u64) -> (r: Result<
    DriveOutcome,
    Error,
>)
    requires
        graph_wf(part.graph),
    ensures
        match r {
            Ok(outcome) => process_ready(old(v)@, edge_len) && if old(v).is_parked || old(v).prev_id == old(v).next_id {
                outcome == DriveOutcome::Finished && final(v)@ == old(v)@
            } else {
                &&& (outcome == DriveOutcome::Finished <==> final(v).is_parked)
                &&& (outcome == DriveOutcome::HandedBack <==> !final(v).is_parked && final(v).marked_for_deletion)
                &&& (final(v).is_parked || final(v).marked_for_deletion)
                &&& exists|n: nat|
                    final(v)@ == iter_step(
                        adjusted_for_drive(old(v)@, edge_len),
                        gm_edges(part.graph),
                        gm_nodes(part.graph),
                        n,
                    )
                &&& final(v)@.steps >= old(v)@.steps
                &&& final(v)@.path_ids == old(v)@.path_ids
                &&& final(v)@.id == old(v)@.id
                &&& final(v)@.speed == old(v)@.speed
            },
            Err(e) => !process_ready(old(v)@, edge_len) && e == Error::Generic && final(v)@ == old(v)@,
        },
{
    if v.path_ids.len() < 2 || v.speed < 1 || v.speed > MAX_SPEED || v.delta > MAX_DELTA
        || edge_len > MAX_DELTA || !ids_unique(&v.path_ids) {
        return Err(Error::Generic);
    }

    if v.is_parked || v.prev_id == v.next_id {
        return Ok(DriveOutcome::Finished);
    }

    v.marked_for_deletion = false;
    v.delta = v.delta + edge_len;
    let ghost va = v@;

    v.drive(part);
    proof {
        assert(va == adjusted_for_drive(old(v)@, edge_len));
        let n = choose|n: nat|
            v@ == iter_step(va, gm_edges(part.graph), gm_nodes(part.graph), n);
        assert(v@ == iter_step(
            adjusted_for_drive(old(v)@, edge_len),
            gm_edges(part.graph),
            gm_nodes(part.graph),
            n,
        ));
    }

    if v.is_parked {
        Ok(DriveOutcome::Finished)
    } else {
        Ok(DriveOutcome::HandedBack)
    }
}

/// The sum of two step counts, saturating at the counter's ceiling.
pub open spec fn sat_add(a: u64, b: u64) -> u64 {
    if a + b <= u64::MAX {
        (a + b) as u64
    } else {
        u64::MAX
    }
}

/// The saturating sum of a sequence of step counts.
pub open spec fn sat_sum(s: Seq<u64>) -> u64
    decreases s.len(),
{
    if s.len() == 0 {
        0
    } else {
        sat_add(sat_sum(s.drop_last()), s.last())
    }
}

/// Runs the whole simulation locally: generates `num_vehicles` vehicles
/// against the full graph, drives each to the end of its path, and
/// returns the saturating total of the steps the vehicles took.  Each
/// generated vehicle starts in flight, so each contributes at least one
/// step; the run fails, with the generator's error, exactly when a
/// vehicle could not be generated.
pub fn run_local(g: &OSMGraph, num_vehicles: usize, min_speed: u64, max_speed: u64) -> (r: Result<
    u64,
    Error,
>)
    requires
        graph_wf(g.graph),
        1 <= min_speed <= max_speed <= MAX_SPEED,
    ensures
        num_vehicles == 0 ==> (r matches Ok(acc) && acc == 0),
        r matches Err(e) ==> e == Error::Generic,
        r matches Ok(acc) ==> exists|s: Seq<u64>|
            s.len() == num_vehicles && (forall|k: int|
                0 <= k < s.len() ==> #[trigger] s[k] >= 1) && acc == sat_sum(s),
        num_vehicles >= 1 ==> (r matches Ok(acc) ==> acc >= 1),
{
    let mut step_accumulator: u64 = 0;
    let mut i: usize = 0;
    let ghost mut counts: Seq<u64> = Seq::empty();
    while i < num_vehicles
        invariant
            0 <= i <= num_vehicles,
            graph_wf(g.graph),
            1 <= min_speed <= max_speed <= MAX_SPEED,
            counts.len() == i,
            forall|k: int| 0 <= k < counts.len() ==> #[trigger] counts[k] >= 1,
            step_accumulator == sat_sum(counts),
            i >= 1 ==> step_accumulator >= 1,
        decreases num_vehicles - i,
    {
        let mut veh = match Vehicle::generate_default(&g.graph, min_speed, max_speed) {
            Ok(v) => v,
            Err(e) => {
                return Err(e);
            },
        };
        veh.drive(g);
        if veh.steps <= u64::MAX - step_accumulator {
            step_accumulator = step_accumulator + veh.steps;
        } else {
            step_accumulator = u64::MAX;
        }
        proof {
            let prev = counts;
            counts = counts.push(veh.steps);
            assert(counts.drop_last() =~= prev);
        }
        i = i + 1;
    }
    proof {
        assert(counts.len() == num_vehicles && (forall|k: int|
            0 <= k < counts.len() ==> #[trigger] counts[k] >= 1) && step_accumulator == sat_sum(
            counts,
        ));
    }
    Ok(step_accumulator)
}


} // verus!
