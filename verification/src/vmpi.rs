//! The wire protocol between the root rank and the leaf ranks: message
//! tags, the edge-length request record, and vehicle routing.

use vstd::prelude::*;
use crate::codec::{
    le_bytes, lemma_le_bytes_len, lemma_parse_u64_of_enc, parse_usize_at, push_u64_le, read_u64_le,
};
use crate::error::Error;
use crate::graph::gmap::Osmid;
use crate::models::vehicle::Vehicle;
use crate::utils::MpiMessageContent;

verus! {

broadcast use vstd::std_specs::hash::group_hash_axioms;

/// Root sends a vehicle to a leaf.
pub const ROOT_LEAF_VEHICLE: i32 = 1;

/// Leaf hands an in-flight vehicle back to root.
pub const LEAF_ROOT_VEHICLE: i32 = 2;

/// Leaf asks root for an edge length.
pub const EDGE_LENGTH_REQUEST: i32 = 3;

/// Root answers a leaf with an edge length.
pub const EDGE_LENGTH_RESPONSE: i32 = 4;

/// Leaf notifies root that a vehicle finished.
pub const LEAF_ROOT_VEHICLE_FINISH: i32 = 5;

/// Root tells every leaf to shut down.
pub const ROOT_LEAF_TERMINATE: i32 = 6;

/// The coordinator's rank.
pub const ROOT_RANK: i32 = 0;

/// A leaf's question to the root: how long is the edge from `from` to
/// `to`?
#[derive(Debug, Clone, Copy, PartialEq, Eq, Structural)]
pub struct EdgeLengthRequest {
    pub from: Osmid,
    pub to: Osmid,
}

/// The wire bytes of an edge-length request.
pub open spec fn enc_request(rq: EdgeLengthRequest) -> Seq<u8> {
    le_bytes(rq.from as int, 8) + le_bytes(rq.to as int, 8)
}

/// The request a wire buffer denotes, if any: two node ids, with nothing
/// following them.
pub open spec fn parse_request(bs: Seq<u8>) -> Option<EdgeLengthRequest> {
    match parse_usize_at(bs, 0) {
        Some((from, p1)) => match parse_usize_at(bs, p1) {
            Some((to, p2)) => if p2 == bs.len() {
                Some(EdgeLengthRequest { from, to })
            } else {
                None
            },
            None => None,
        },
        None => None,
    }
}

impl MpiMessageContent<EdgeLengthRequest> for EdgeLengthRequest {
    /// Encodes the request as its wire bytes; this never fails.
    fn to_bytes(data: EdgeLengthRequest) -> (r: Result<Vec<u8>, Error>)
        ensures
            match r {
                Ok(bs) => bs@ == enc_request(data),
                Err(_) => false,
            },
    {
        let mut buf: Vec<u8> = Vec::new();
        push_u64_le(&mut buf, data.from as u64);
        push_u64_le(&mut buf, data.to as u64);
        proof {
            assert(buf@ =~= enc_request(data));
        }
        Ok(buf)
    }

    /// Decodes a request from wire bytes; fails exactly on buffers the
    /// encoder cannot produce.
    fn from_bytes(data: Vec<u8>) -> (r: Result<EdgeLengthRequest, Error>)
        ensures
            match r {
                Ok(rq) => parse_request(data@) == Some(rq),
                Err(e) => parse_request(data@) is None && e == Error::SerializationError,
            },
    {
        if data.len() != 16 {
            return Err(Error::SerializationError);
        }
        let from64 = read_u64_le(&data, 0);
        let to64 = read_u64_le(&data, 8);
        if from64 > usize::MAX as u64 || to64 > usize::MAX as u64 {
            return Err(Error::SerializationError);
        }
        Ok(EdgeLengthRequest { from: from64 as usize, to: to64 as usize })
    }
}

/// Round trip: decoding an encoded edge-length request gives it back
/// unchanged.
pub proof fn lemma_request_round_trip(rq: EdgeLengthRequest)
    ensures
        parse_request(enc_request(rq)) == Some(rq),
{
    let bs = enc_request(rq);
    lemma_le_bytes_len(rq.from as int, 8);
    lemma_le_bytes_len(rq.to as int, 8);
    lemma_parse_u64_of_enc(Seq::empty(), 0, rq.from as u64, le_bytes(rq.to as int, 8));
    assert(Seq::<u8>::empty() + le_bytes(rq.from as int, 8) + le_bytes(rq.to as int, 8) =~= bs);
    lemma_parse_u64_of_enc(le_bytes(rq.from as int, 8), 8, rq.to as u64, Seq::empty());
    assert(le_bytes(rq.from as int, 8) + le_bytes(rq.to as int, 8) + Seq::<u8>::empty() =~= bs);
}

/// The rank that must receive a vehicle next: the owner of the node the
/// vehicle is moving toward.  A vehicle whose next node no rank owns
/// cannot be routed.
pub fn map_vehicle_to_rank(v: &Vehicle, node_to_rank: &std::collections::HashMap<Osmid, i32>) -> (r:
    Result<i32, Error>)
    ensures
        match r {
            Ok(rank) => node_to_rank@.contains_key(v.next_id) && node_to_rank@[v.next_id] == rank,
            Err(e) => !node_to_rank@.contains_key(v.next_id) && e == Error::MissingMapping,
        },
{
    match node_to_rank.get(&v.next_id) {
        Some(rank) => Ok(*rank),
        None => Err(Error::MissingMapping),
    }
}

} // verus!
