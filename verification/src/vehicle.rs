//! The vehicle events that flow through the stream, and the static trip
//! metadata joined onto them.

use vstd::prelude::*;

verus! {

/// The characters of an optional string.
pub open spec fn opt_view(s: Option<String>) -> Option<Seq<char>> {
    match s {
        Some(x) => Some(x@),
        None => None,
    }
}

/// A scheduled stop of a trip. Coordinates and distances are carried as the
/// IEEE-754 bit patterns of the `f32` values (`f32::to_bits`).
#[derive(Debug)]
pub struct Stop {
    pub stop_sequence: u16,
    pub stop_id: String,
    pub stop_name: String,
    pub arrival_time: String,
    pub departure_time: String,
    pub stop_lat: u32,
    pub stop_lon: u32,
    pub shape_dist_traveled: u32,
}

/// A stop as plain values.
pub struct StopView {
    pub stop_sequence: u16,
    pub stop_id: Seq<char>,
    pub stop_name: Seq<char>,
    pub arrival_time: Seq<char>,
    pub departure_time: Seq<char>,
    pub stop_lat: u32,
    pub stop_lon: u32,
    pub shape_dist_traveled: u32,
}

impl View for Stop {
    type V = StopView;

    open spec fn view(&self) -> StopView {
        StopView {
            stop_sequence: self.stop_sequence,
            stop_id: self.stop_id@,
            stop_name: self.stop_name@,
            arrival_time: self.arrival_time@,
            departure_time: self.departure_time@,
            stop_lat: self.stop_lat,
            stop_lon: self.stop_lon,
            shape_dist_traveled: self.shape_dist_traveled,
        }
    }
}

/// The views of a list of stops.
pub open spec fn stops_view(v: Seq<Stop>) -> Seq<StopView> {
    v.map_values(|s: Stop| s@)
}

impl Clone for Stop {
    fn clone(&self) -> (r: Self)
        ensures
            r@ == self@,
    {
        Stop {
            stop_sequence: self.stop_sequence,
            stop_id: self.stop_id.clone(),
            stop_name: self.stop_name.clone(),
            arrival_time: self.arrival_time.clone(),
            departure_time: self.departure_time.clone(),
            stop_lat: self.stop_lat,
            stop_lon: self.stop_lon,
            shape_dist_traveled: self.shape_dist_traveled,
        }
    }
}

/// Copies a list of stops.
pub fn clone_stops(v: &Vec<Stop>) -> (r: Vec<Stop>)
    ensures
        stops_view(r@) == stops_view(v@),
{
    let mut r: Vec<Stop> = Vec::new();
    let mut i: usize = 0;
    while i < v.len()
        invariant
            i <= v.len(),
            stops_view(r@) == stops_view(v@.take(i as int)),
        decreases v.len() - i,
    {
        let s = v[i].clone();
        r.push(s);
        assert(stops_view(v@.take(i + 1)) == stops_view(v@.take(i as int)).push(v@[i as int]@));
        assert(stops_view(r@) == stops_view(v@.take(i + 1)));
        i = i + 1;
    }
    assert(v@.take(v.len() as int) == v@);
    r
}

/// Copies an optional string.
pub fn clone_opt_string(s: &Option<String>) -> (r: Option<String>)
    ensures
        opt_view(r) == opt_view(*s),
{
    match s {
        Some(x) => Some(x.clone()),
        None => None,
    }
}

/// Copies a list of optional times.
pub fn clone_times(v: &Vec<Option<u64>>) -> (r: Vec<Option<u64>>)
    ensures
        r@ == v@,
{
    let mut r: Vec<Option<u64>> = Vec::new();
    let mut i: usize = 0;
    while i < v.len()
        invariant
            i <= v.len(),
            r@ == v@.take(i as int),
        decreases v.len() - i,
    {
        r.push(v[i]);
        assert(v@.take(i + 1) == v@.take(i as int).push(v@[i as int]));
        i = i + 1;
    }
    assert(v@.take(v.len() as int) == v@);
    r
}

/// Static metadata of a trip, joined onto the vehicles that run it.
#[derive(Debug)]
pub struct VehicleMetadata {
    pub trip_id: String,
    pub route_type: Option<u64>,
    pub agency_name: Option<String>,
    pub route_short_name: Option<String>,
    pub route_long_name: Option<String>,
    pub trip_headsign: Option<String>,
    pub shape_id: Option<u64>,
    pub route_id: Option<String>,
    pub direction_id: Option<u8>,
    /// the stops of the trip, in the order the table lists them
    pub stops: Option<Vec<Stop>>,
    /// for each stop, the event time at which the vehicle was first seen there
    pub real_stop_times: Option<Vec<Option<u64>>>,
}

/// Trip metadata as plain values.
pub struct MetadataView {
    pub trip_id: Seq<char>,
    pub route_type: Option<u64>,
    pub agency_name: Option<Seq<char>>,
    pub route_short_name: Option<Seq<char>>,
    pub route_long_name: Option<Seq<char>>,
    pub trip_headsign: Option<Seq<char>>,
    pub shape_id: Option<u64>,
    pub route_id: Option<Seq<char>>,
    pub direction_id: Option<u8>,
    pub stops: Option<Seq<StopView>>,
    pub real_stop_times: Option<Seq<Option<u64>>>,
}

impl View for VehicleMetadata {
    type V = MetadataView;

    open spec fn view(&self) -> MetadataView {
        MetadataView {
            trip_id: self.trip_id@,
            route_type: self.route_type,
            agency_name: opt_view(self.agency_name),
            route_short_name: opt_view(self.route_short_name),
            route_long_name: opt_view(self.route_long_name),
            trip_headsign: opt_view(self.trip_headsign),
            shape_id: self.shape_id,
            route_id: opt_view(self.route_id),
            direction_id: self.direction_id,
            stops: match self.stops {
                Some(v) => Some(stops_view(v@)),
                None => None,
            },
            real_stop_times: match self.real_stop_times {
                Some(v) => Some(v@),
                None => None,
            },
        }
    }
}

impl Clone for VehicleMetadata {
    fn clone(&self) -> (r: Self)
        ensures
            r@ == self@,
    {
        VehicleMetadata {
            trip_id: self.trip_id.clone(),
            route_type: self.route_type,
            agency_name: clone_opt_string(&self.agency_name),
            route_short_name: clone_opt_string(&self.route_short_name),
            route_long_name: clone_opt_string(&self.route_long_name),
            trip_headsign: clone_opt_string(&self.trip_headsign),
            shape_id: self.shape_id,
            route_id: clone_opt_string(&self.route_id),
            direction_id: self.direction_id,
            stops: match &self.stops {
                Some(v) => Some(clone_stops(v)),
                None => None,
            },
            real_stop_times: match &self.real_stop_times {
                Some(v) => Some(clone_times(v)),
                None => None,
            },
        }
    }
}

/// A position report of one vehicle. `lng` and `lat` are the bit patterns of
/// the `f32` coordinates. `delay` and `stop_seq` are filled in by delay
/// tracking.
#[derive(Debug)]
pub struct Vehicle {
    pub id: String,
    pub lng: u32,
    pub lat: u32,
    pub timestamp: u64,
    pub trip_id: Option<String>,
    pub metadata: Option<VehicleMetadata>,
    pub delay: Option<i32>,
    pub stop_seq: Option<u16>,
}

/// A vehicle event as plain values.
pub struct VehicleView {
    pub id: Seq<char>,
    pub lng: u32,
    pub lat: u32,
    pub timestamp: u64,
    pub trip_id: Option<Seq<char>>,
    pub metadata: Option<MetadataView>,
    pub delay: Option<i32>,
    pub stop_seq: Option<u16>,
}

impl View for Vehicle {
    type V = VehicleView;

    open spec fn view(&self) -> VehicleView {
        VehicleView {
            id: self.id@,
            lng: self.lng,
            lat: self.lat,
            timestamp: self.timestamp,
            trip_id: opt_view(self.trip_id),
            metadata: match self.metadata {
                Some(m) => Some(m@),
                None => None,
            },
            delay: self.delay,
            stop_seq: self.stop_seq,
        }
    }
}

impl Clone for Vehicle {
    fn clone(&self) -> (r: Self)
        ensures
            r@ == self@,
    {
        Vehicle {
            id: self.id.clone(),
            lng: self.lng,
            lat: self.lat,
            timestamp: self.timestamp,
            trip_id: clone_opt_string(&self.trip_id),
            metadata: match &self.metadata {
                Some(m) => Some(m.clone()),
                None => None,
            },
            delay: self.delay,
            stop_seq: self.stop_seq,
        }
    }
}


/// What the frontend is sent of a stop.
#[derive(Debug)]
pub struct FrontendStop {
    pub stop_sequence: u16,
    pub stop_name: String,
    pub stop_lon: u32,
    pub stop_lat: u32,
    pub arrival_time: String,
}

/// The fields sent to the frontend for one vehicle. `trip_id` is always sent
/// (as null when absent); each other optional field is sent only when present.
#[derive(Debug)]
pub struct FrontendRecord {
    pub id: String,
    pub lat: u32,
    pub lng: u32,
    pub trip_id: Option<String>,
    pub route_type: Option<u64>,
    pub agency_name: Option<String>,
    pub route_short_name: Option<String>,
    pub route_long_name: Option<String>,
    pub trip_headsign: Option<String>,
    pub stops: Option<Vec<FrontendStop>>,
}

/// `f` is what the frontend is sent of stop `s`: its sequence number, name,
/// coordinates and scheduled arrival time.
pub open spec fn frontend_stop_of(s: StopView, f: FrontendStop) -> bool {
    &&& f.stop_sequence == s.stop_sequence
    &&& f.stop_name@ == s.stop_name
    &&& f.stop_lon == s.stop_lon
    &&& f.stop_lat == s.stop_lat
    &&& f.arrival_time@ == s.arrival_time
}

/// `r` is the record sent to the frontend for `v`: identity, position and
/// trip id always; route type, agency, route names, headsign and stops only
/// where the vehicle's metadata holds them.
pub open spec fn frontend_record_of(v: VehicleView, r: FrontendRecord) -> bool {
    &&& r.id@ == v.id
    &&& r.lat == v.lat
    &&& r.lng == v.lng
    &&& opt_view(r.trip_id) == v.trip_id
    &&& match v.metadata {
        Some(m) => {
            &&& r.route_type == m.route_type
            &&& opt_view(r.agency_name) == m.agency_name
            &&& opt_view(r.route_short_name) == m.route_short_name
            &&& opt_view(r.route_long_name) == m.route_long_name
            &&& opt_view(r.trip_headsign) == m.trip_headsign
            &&& match (m.stops, r.stops) {
                (Some(st), Some(fs)) => fs@.len() == st.len() && forall|i: int|
                    0 <= i < st.len() ==> frontend_stop_of(st[i], #[trigger] fs@[i]),
                (None, None) => true,
                _ => false,
            }
        },
        None => {
            &&& r.route_type is None
            &&& r.agency_name is None
            &&& r.route_short_name is None
            &&& r.route_long_name is None
            &&& r.trip_headsign is None
            &&& r.stops is None
        },
    }
}

impl Stop {
    /// The fields of the stop that the frontend is sent.
    pub fn frontend_fields(&self) -> (r: FrontendStop)
        ensures
            frontend_stop_of(self@, r),
    {
        FrontendStop {
            stop_sequence: self.stop_sequence,
            stop_name: self.stop_name.clone(),
            stop_lon: self.stop_lon,
            stop_lat: self.stop_lat,
            arrival_time: self.arrival_time.clone(),
        }
    }
}

impl Vehicle {
    /// The fields of the vehicle that the frontend is sent.
    pub fn frontend_fields(&self) -> (r: FrontendRecord)
        ensures
            frontend_record_of(self@, r),
    {
        let mut record = FrontendRecord {
            id: self.id.clone(),
            lat: self.lat,
            lng: self.lng,
            trip_id: clone_opt_string(&self.trip_id),
            route_type: None,
            agency_name: None,
            route_short_name: None,
            route_long_name: None,
            trip_headsign: None,
            stops: None,
        };
        if let Some(m) = &self.metadata {
            record.route_type = m.route_type;
            record.agency_name = clone_opt_string(&m.agency_name);
            record.route_short_name = clone_opt_string(&m.route_short_name);
            record.route_long_name = clone_opt_string(&m.route_long_name);
            record.trip_headsign = clone_opt_string(&m.trip_headsign);
            if let Some(st) = &m.stops {
                let mut out: Vec<FrontendStop> = Vec::new();
                let mut i: usize = 0;
                while i < st.len()
                    invariant
                        i <= st.len(),
                        out@.len() == i,
                        forall|k: int| 0 <= k < i ==> frontend_stop_of(st@[k]@, #[trigger] out@[k]),
                    decreases st.len() - i,
                {
                    out.push(st[i].frontend_fields());
                    i = i + 1;
                }
                record.stops = Some(out);
            }
        }
        record
    }
}

} // verus!
