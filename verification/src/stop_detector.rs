//! Recording, per vehicle, the time at which each stop of its current trip
//! was first reached.

use vstd::prelude::*;
use vstd::hash_map::StringHashMap;
use crate::features::METRO_ROUTE_TYPE;
use crate::vehicle::{Vehicle, VehicleView, MetadataView, StopView, clone_times};

verus! {

/// The observed stop times kept for one vehicle: its trip and, per stop of
/// that trip, the first time it was seen there.
pub type TripTimes = (Seq<char>, Seq<Option<u64>>);

/// The stop times of the vehicle's trip before this event: those kept for
/// the vehicle where they belong to the same trip, otherwise none reached.
pub open spec fn current_times(state: Map<Seq<char>, TripTimes>, id: Seq<char>, trip: Seq<char>, n: nat) -> Seq<Option<u64>> {
    if state.contains_key(id) && state[id].0 == trip {
        state[id].1
    } else {
        Seq::new(n, |i: int| None::<u64>)
    }
}

/// The vehicle with its metadata's observed stop times replaced.
pub open spec fn with_times(v: VehicleView, times: Seq<Option<u64>>) -> VehicleView {
    VehicleView {
        metadata: match v.metadata {
            Some(md) => Some(MetadataView { real_stop_times: Some(times), ..md }),
            None => None,
        },
        ..v
    }
}

/// What stop detection does with a vehicle, given the stop times kept per
/// vehicle id and the stop `reached` that the vehicle is within detection
/// distance of (None where it is near none): the new state and vehicle, or
/// None where processing aborts.
///
/// Only metro vehicles with stops in their metadata are handled. Their trip's
/// stop times are taken from the state (restarted when the vehicle is on a
/// new trip), the reached stop's time is set to the event time unless
/// already known, and the times are stored and attached to the vehicle.
pub open spec fn detect_spec(state: Map<Seq<char>, TripTimes>, v: VehicleView, reached: Option<usize>) -> Option<(Map<Seq<char>, TripTimes>, VehicleView)> {
    match v.metadata {
        None => Some((state, v)),
        Some(md) => if md.route_type != Some(METRO_ROUTE_TYPE) {
            Some((state, v))
        } else {
            match md.stops {
                None => Some((state, v)),
                Some(stops) => match v.trip_id {
                    None => None,
                    Some(trip) => {
                        let times = current_times(state, v.id, trip, stops.len());
                        match reached {
                            Some(k) if k >= times.len() => None,
                            _ => {
                                let next = match reached {
                                    Some(k) => if times[k as int] is None {
                                        times.update(k as int, Some(v.timestamp))
                                    } else {
                                        times
                                    },
                                    None => times,
                                };
                                Some((state.insert(v.id, (trip, next)), with_times(v, next)))
                            },
                        }
                    },
                },
            }
        },
    }
}

/// Detects when metro vehicles reach the stops of their trips.
pub struct StopDetector {
    /// vehicle id -> (trip id, real stop times)
    real_stop_times: StringHashMap<(String, Vec<Option<u64>>)>,
}

impl View for StopDetector {
    type V = Map<Seq<char>, TripTimes>;

    closed spec fn view(&self) -> Map<Seq<char>, TripTimes> {
        self.real_stop_times@.map_values(|p: (String, Vec<Option<u64>>)| (p.0@, p.1@))
    }
}

impl StopDetector {
    pub fn init() -> (r: Self)
        ensures
            r@ == Map::<Seq<char>, TripTimes>::empty(),
    {
        let r = StopDetector { real_stop_times: StringHashMap::new() };
        assert(r@ =~= Map::<Seq<char>, TripTimes>::empty());
        r
    }

    /// Applies the step to a vehicle (see `detect_spec`); `reached` is the
    /// index of the closest stop of the trip where the vehicle is within
    /// detection distance of it. None where processing aborts; the vehicle
    /// is always kept and no message is sent.
    pub fn apply(&mut self, vehicle: &mut Vehicle, reached: Option<usize>) -> (r: Option<(bool, Option<(String, Vec<u8>)>)>)
        ensures
            match detect_spec(old(self)@, old(vehicle)@, reached) {
                None => r is None,
                Some(res) => {
                    &&& final(self)@ == res.0
                    &&& final(vehicle)@ == res.1
                    &&& r matches Some(out) && out.0 && out.1 is None
                },
            },
    {
        let ghost state = self@;
        let n = match &vehicle.metadata {
            None => return Some((true, None)),
            Some(md) => {
                let metro = match md.route_type {
                    Some(t) => t == METRO_ROUTE_TYPE,
                    None => false,
                };
                if !metro {
                    return Some((true, None));
                }
                match &md.stops {
                    None => return Some((true, None)),
                    Some(stops) => stops.len(),
                }
            },
        };
        let trip = match &vehicle.trip_id {
            None => return None,
            Some(t) => t.clone(),
        };
        let mut times: Vec<Option<u64>> = match self.real_stop_times.get(vehicle.id.as_str()) {
            Some(entry) => {
                if entry.0 == trip {
                    clone_times(&entry.1)
                } else {
                    vec![None; n]
                }
            },
            None => vec![None; n],
        };
        assert(times@ =~= current_times(state, vehicle@.id, trip@, n as nat));
        if let Some(k) = reached {
            if k >= times.len() {
                return None;
            }
            if times[k].is_none() {
                times.set(k, Some(vehicle.timestamp));
            }
        }
        let attached = clone_times(&times);
        self.real_stop_times.insert(vehicle.id.clone(), (trip, times));
        assert(self@ =~= state.insert(vehicle@.id, (trip@, attached@)));
        let mut md = vehicle.metadata.take().unwrap();
        md.real_stop_times = Some(attached);
        vehicle.metadata = Some(md);
        Some((true, None))
    }
}


/// A stop time, once recorded for a vehicle's trip, is kept while the
/// vehicle stays on that trip.
pub proof fn lemma_first_reach_kept(state: Map<Seq<char>, TripTimes>, v: VehicleView, reached: Option<usize>, k: int)
    requires
        detect_spec(state, v, reached) is Some,
        state.contains_key(v.id),
        v.trip_id == Some(state[v.id].0),
        0 <= k < state[v.id].1.len(),
        state[v.id].1[k] is Some,
    ensures
        ({
            let next = detect_spec(state, v, reached)->0;
            next.0.contains_key(v.id) && next.0[v.id].1[k] == state[v.id].1[k]
        }),
{
}

/// A metro vehicle with stops on a trip whose stop `k` has no recorded time.
pub open spec fn newly_reached(state: Map<Seq<char>, TripTimes>, v: VehicleView, k: usize) -> bool {
    match (v.metadata, v.trip_id) {
        (Some(md), Some(trip)) => match md.stops {
            Some(stops) => md.route_type == Some(METRO_ROUTE_TYPE) && current_times(
                state,
                v.id,
                trip,
                stops.len(),
            )[k as int] is None,
            None => false,
        },
        _ => false,
    }
}

/// When a vehicle reaches a stop of its trip not reached before, the event
/// time is recorded for that stop and attached to the vehicle.
pub proof fn lemma_reach_recorded(state: Map<Seq<char>, TripTimes>, v: VehicleView, k: usize)
    requires
        detect_spec(state, v, Some(k)) is Some,
        newly_reached(state, v, k),
    ensures
        ({
            let next = detect_spec(state, v, Some(k))->0;
            &&& next.0[v.id].1[k as int] == Some(v.timestamp)
            &&& next.1.metadata matches Some(m) && m.real_stop_times == Some(next.0[v.id].1)
        }),
{
}

/// The stops of a metro vehicle's trip, where the vehicle is a metro with
/// stops in its metadata.
pub open spec fn metro_stops(v: VehicleView) -> Option<Seq<StopView>> {
    match v.metadata {
        Some(md) => if md.route_type == Some(METRO_ROUTE_TYPE) {
            md.stops
        } else {
            None
        },
        None => None,
    }
}

/// The observed stop times attached to a vehicle, if any.
pub open spec fn attached_times(v: VehicleView) -> Option<Seq<Option<u64>>> {
    match v.metadata {
        Some(md) => md.real_stop_times,
        None => None,
    }
}

/// A fresh detector has recorded nothing: for a metro vehicle on a trip,
/// reported at one of its trip's stops or at none, the attached stop times
/// hold one entry per stop, and only the reported stop has a time, the
/// event time.
pub proof fn lemma_fresh_detection(v: VehicleView, reached: Option<usize>)
    requires
        v.trip_id is Some,
        metro_stops(v) is Some,
        reached matches Some(k) ==> k < metro_stops(v)->0.len(),
    ensures
        detect_spec(Map::<Seq<char>, TripTimes>::empty(), v, reached) matches Some(res) && attached_times(res.1)
            matches Some(r) && r.len() == metro_stops(v)->0.len() && forall|i: int|
            0 <= i < r.len() && (#[trigger] r[i]) is Some ==> reached == Some(i as usize) && r[i] == Some(
                v.timestamp,
            ),
{
}

/// Where a vehicle stays on the trip recorded for it, stop detection keeps
/// every recorded time and changes at most the reported stop, which it sets
/// to the event time where it had none.
pub proof fn lemma_detection_changes_one(state: Map<Seq<char>, TripTimes>, v: VehicleView, reached: Option<usize>)
    requires
        detect_spec(state, v, reached) is Some,
        metro_stops(v) is Some,
        v.trip_id is Some,
        state.contains_key(v.id),
        state[v.id].0 == v.trip_id->0,
    ensures
        ({
            let r0 = state[v.id].1;
            let res = detect_spec(state, v, reached)->0;
            attached_times(res.1) matches Some(r) && r.len() == r0.len() && forall|i: int|
                0 <= i < r0.len() ==> ((#[trigger] r0[i]) is Some ==> r[i] == r0[i]) && (r[i] != r0[i] ==> r0[i]
                    is None && r[i] == Some(v.timestamp) && reached == Some(i as usize))
        }),
{
}

} // verus!
