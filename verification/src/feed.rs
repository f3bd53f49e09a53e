//! Turning a decoded realtime vehicle position into a vehicle event.

use vstd::prelude::*;
use crate::vehicle::{Vehicle, opt_view};

verus! {

/// The vehicle event of a position report: present only where the report
/// carries a vehicle id, a position (`f32` bit patterns of latitude and
/// longitude) and a timestamp; the trip id is the report's trip descriptor's
/// (as its accessor reads it), absent where there is no trip descriptor.
pub open spec fn position_event(
    vehicle_id: Option<String>,
    position: Option<(u32, u32)>,
    trip_id: Option<String>,
    timestamp: Option<u64>,
    r: Option<Vehicle>,
) -> bool {
    match (vehicle_id, position, timestamp) {
        (Some(id), Some(pos), Some(ts)) => r matches Some(v) && {
            &&& v.id@ == id@
            &&& v.lat == pos.0
            &&& v.lng == pos.1
            &&& v.timestamp == ts
            &&& opt_view(v.trip_id) == opt_view(trip_id)
            &&& v.metadata is None
            &&& v.delay is None
            &&& v.stop_seq is None
        },
        _ => r is None,
    }
}

/// Builds the vehicle event of a position report (see `position_event`).
pub fn vehicle_from_position(
    vehicle_id: Option<String>,
    position: Option<(u32, u32)>,
    trip_id: Option<String>,
    timestamp: Option<u64>,
) -> (r: Option<Vehicle>)
    ensures
        position_event(vehicle_id, position, trip_id, timestamp, r),
{
    match (vehicle_id, position, timestamp) {
        (Some(id), Some(pos), Some(ts)) => Some(
            Vehicle {
                id,
                lat: pos.0,
                lng: pos.1,
                timestamp: ts,
                trip_id,
                metadata: None,
                delay: None,
                stop_seq: None,
            },
        ),
        _ => None,
    }
}

} // verus!
