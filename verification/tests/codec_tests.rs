//! The wire codec: round trips and rejection of malformed buffers.

use streets_sim::error::Error;
use streets_sim::models::vehicle::Vehicle;
use streets_sim::utils::MpiMessageContent;
use streets_sim::vmpi::EdgeLengthRequest;

fn sample_vehicle() -> Vehicle {
    Vehicle {
        id: String::from("ab34f0"),
        path_ids: vec![5, 9, 13, 2],
        speed: 12,
        delta: 7,
        next_id: 9,
        prev_id: 5,
        is_parked: false,
        distance_remaining: 0,
        marked_for_deletion: true,
        steps: 42,
    }
}

#[test]
fn vehicle_round_trip_is_identity() {
    let v = sample_vehicle();
    let bytes = Vehicle::to_bytes(sample_vehicle()).unwrap();
    let w = Vehicle::from_bytes(bytes).unwrap();
    assert_eq!(w.id, v.id);
    assert_eq!(w.path_ids, v.path_ids);
    assert_eq!(w.speed, v.speed);
    assert_eq!(w.delta, v.delta);
    assert_eq!(w.next_id, v.next_id);
    assert_eq!(w.prev_id, v.prev_id);
    assert_eq!(w.is_parked, v.is_parked);
    assert_eq!(w.distance_remaining, v.distance_remaining);
    assert_eq!(w.marked_for_deletion, v.marked_for_deletion);
    assert_eq!(w.steps, v.steps);
}

#[test]
fn vehicle_round_trip_keeps_unicode_ids() {
    let mut v = sample_vehicle();
    v.id = String::from("wagen-\u{263a}-7");
    let bytes = Vehicle::to_bytes(Vehicle { id: v.id.clone(), ..sample_vehicle() }).unwrap();
    let w = Vehicle::from_bytes(bytes).unwrap();
    assert_eq!(w.id, v.id);
}

#[test]
fn truncated_vehicle_buffer_is_rejected() {
    let mut bytes = Vehicle::to_bytes(sample_vehicle()).unwrap();
    bytes.pop();
    assert_eq!(Vehicle::from_bytes(bytes).unwrap_err(), Error::SerializationError);
}

#[test]
fn trailing_garbage_is_rejected() {
    let mut bytes = Vehicle::to_bytes(sample_vehicle()).unwrap();
    bytes.push(0);
    assert_eq!(Vehicle::from_bytes(bytes).unwrap_err(), Error::SerializationError);
}

#[test]
fn junk_vehicle_buffer_is_rejected() {
    assert_eq!(
        Vehicle::from_bytes(vec![1, 2, 3]).unwrap_err(),
        Error::SerializationError
    );
}

#[test]
fn bad_flag_byte_is_rejected() {
    let v = Vehicle { id: String::new(), path_ids: vec![1, 2], ..sample_vehicle() };
    let mut bytes = Vehicle::to_bytes(v).unwrap();
    // The parked flag sits right after the id, the path, and four
    // eight-byte numbers; only the two canonical flag bytes decode.
    let flag_at = 8 + 0 + 8 + 2 * 8 + 4 * 8;
    bytes[flag_at] = 7;
    assert_eq!(Vehicle::from_bytes(bytes).unwrap_err(), Error::SerializationError);
}

#[test]
fn request_round_trip_is_identity() {
    let rq = EdgeLengthRequest { from: 123456, to: 987 };
    let bytes = EdgeLengthRequest::to_bytes(rq).unwrap();
    assert_eq!(bytes.len(), 16);
    let back = EdgeLengthRequest::from_bytes(bytes).unwrap();
    assert_eq!(back, rq);
}

#[test]
fn short_request_buffer_is_rejected() {
    assert_eq!(
        EdgeLengthRequest::from_bytes(vec![0; 15]).unwrap_err(),
        Error::SerializationError
    );
}

#[test]
fn request_encoding_is_little_endian() {
    let rq = EdgeLengthRequest { from: 1, to: 0x0203 };
    let bytes = EdgeLengthRequest::to_bytes(rq).unwrap();
    assert_eq!(bytes[0], 1);
    assert_eq!(bytes[1..8], [0, 0, 0, 0, 0, 0, 0]);
    assert_eq!(bytes[8], 3);
    assert_eq!(bytes[9], 2);
    assert_eq!(bytes[10..16], [0, 0, 0, 0, 0, 0]);
}
