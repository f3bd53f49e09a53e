//! The static trip metadata table: decompressing the published table,
//! assembling the per-trip stop lists from its '|'-separated columns, and
//! looking trips up to join metadata onto vehicles.

use std::io::Read;
use vstd::prelude::*;
use vstd::hash_map::StringHashMap;
use crate::text::{chars_of, split_chars, split_spec, parse_unsigned, parse_unsigned_spec, string_from_chars};
use crate::vehicle::{
    Stop, StopView, Vehicle, VehicleView, VehicleMetadata, MetadataView, opt_view, clone_opt_string,
};

verus! {

#[verifier::external_type_specification]
#[verifier::external_body]
pub struct ExIoError(std::io::Error);

/// The bytes that flate2's `GzDecoder` reads out of the gzip data `data`,
/// or None where it reports an error.
pub uninterp spec fn gunzip_spec(data: Seq<u8>) -> Option<Seq<u8>>;

/// Decompresses gzip data with flate2 (`GzDecoder::new(data)` read to its
/// end). The contract names the result: `Ok` exactly where `gunzip_spec`
/// gives bytes, and then those bytes.
#[verifier::external_body]
fn gunzip(data: &[u8]) -> (r: Result<Vec<u8>, std::io::Error>)
    ensures
        match r {
            Ok(v) => gunzip_spec(data@) == Some(v@),
            Err(_) => gunzip_spec(data@) is None,
        },
{
    let mut buffer: Vec<u8> = Vec::new();
    flate2::read::GzDecoder::new(data).read_to_end(&mut buffer).map(|_| buffer)
}

/// Why decoding a metadata table failed.
#[derive(Debug)]
pub enum DecodeError {
    /// The body is not valid gzip data.
    Gzip,
}

/// Decompresses a gzip body (the metadata table and the archived position
/// files are published gzip-compressed without a content-encoding header).
pub fn decode_gzip(body: &[u8]) -> (r: Result<Vec<u8>, DecodeError>)
    ensures
        match gunzip_spec(body@) {
            Some(b) => r matches Ok(v) && v@ == b,
            None => r matches Err(DecodeError::Gzip),
        },
{
    match gunzip(body) {
        Ok(v) => Ok(v),
        Err(_) => Err(DecodeError::Gzip),
    }
}

/// A row of the published metadata table: per trip, the stop columns hold
/// one value per stop, separated by '|'.
#[derive(Debug)]
pub struct IntermediateVehicleMetadata {
    pub trip_id: String,
    pub route_id: Option<String>,
    pub route_type: Option<u64>,
    pub agency_name: Option<String>,
    pub route_short_name: Option<String>,
    pub route_long_name: Option<String>,
    pub trip_headsign: Option<String>,
    pub shape_id: Option<u64>,
    pub direction_id: Option<u8>,
    pub stop_id: Option<String>,
    pub stop_name: Option<String>,
    pub stop_sequence: Option<String>,
    pub stop_lat: Option<String>,
    pub stop_lon: Option<String>,
    pub arrival_time: Option<String>,
    pub departure_time: Option<String>,
    pub shape_dist_traveled: Option<String>,
}

/// The values of a '|'-separated column; an absent column has none.
pub open spec fn column(s: Option<String>) -> Seq<Seq<char>> {
    match s {
        Some(x) => split_spec(x@, '|'),
        None => Seq::<Seq<char>>::empty(),
    }
}

/// Splits an optional '|'-separated column into its values.
pub fn split_column(s: &Option<String>) -> (r: Vec<String>)
    ensures
        r@.len() == column(*s).len(),
        forall|i: int| 0 <= i < r@.len() ==> #[trigger] r@[i]@ == column(*s)[i],
{
    match s {
        None => Vec::new(),
        Some(x) => {
            let cs = chars_of(x.as_str());
            let pieces = split_chars(&cs, '|');
            let mut out: Vec<String> = Vec::new();
            let mut i: usize = 0;
            while i < pieces.len()
                invariant
                    i <= pieces.len(),
                    pieces@.len() == split_spec(x@, '|').len(),
                    forall|k: int| 0 <= k < pieces@.len() ==> #[trigger] pieces@[k]@ == split_spec(x@, '|')[k],
                    out@.len() == i,
                    forall|k: int| 0 <= k < i ==> #[trigger] out@[k]@ == split_spec(x@, '|')[k],
                decreases pieces.len() - i,
            {
                out.push(string_from_chars(&pieces[i]));
                i = i + 1;
            }
            out
        },
    }
}

/// Every value of the column parses as a `u16`.
pub open spec fn column_parses_u16(c: Seq<Seq<char>>) -> bool {
    forall|i: int| 0 <= i < c.len() ==> (#[trigger] parse_unsigned_spec(c[i], 65535)) is Some
}

/// The stop assembled from position `i` of the columns.
pub open spec fn stop_at(
    raw: IntermediateVehicleMetadata,
    lats: Seq<u32>,
    lons: Seq<u32>,
    dists: Seq<u32>,
    i: int,
) -> StopView {
    StopView {
        stop_sequence: parse_unsigned_spec(column(raw.stop_sequence)[i], 65535)->0 as u16,
        stop_id: column(raw.stop_id)[i],
        stop_name: column(raw.stop_name)[i],
        arrival_time: column(raw.arrival_time)[i],
        departure_time: column(raw.departure_time)[i],
        stop_lat: lats[i],
        stop_lon: lons[i],
        shape_dist_traveled: dists[i],
    }
}

/// A table row whose stop columns fit together: every stop sequence value
/// is a `u16`, and no column (nor the parsed latitudes, longitudes and
/// distances) is shorter than the stop-id column. Processing aborts on any
/// other row.
pub open spec fn row_well_formed(
    raw: IntermediateVehicleMetadata,
    lats: Seq<u32>,
    lons: Seq<u32>,
    dists: Seq<u32>,
) -> bool {
    let n = column(raw.stop_id).len();
    &&& column_parses_u16(column(raw.stop_sequence))
    &&& column(raw.stop_name).len() >= n
    &&& lats.len() >= n
    &&& lons.len() >= n
    &&& column(raw.stop_sequence).len() >= n
    &&& column(raw.arrival_time).len() >= n
    &&& column(raw.departure_time).len() >= n
    &&& dists.len() >= n
}

/// The metadata of a well-formed table row, whose latitude, longitude and
/// distance columns have been parsed into `lats`, `lons` and `dists` (as
/// `f32` bit patterns): one stop per value of the stop-id column, taking the
/// value at the same position of every other column; no stops where the
/// stop-id column is absent.
pub open spec fn deserialize_spec(
    raw: IntermediateVehicleMetadata,
    lats: Seq<u32>,
    lons: Seq<u32>,
    dists: Seq<u32>,
) -> MetadataView {
    let n = column(raw.stop_id).len();
    MetadataView {
        trip_id: raw.trip_id@,
        route_type: raw.route_type,
        agency_name: opt_view(raw.agency_name),
        route_short_name: opt_view(raw.route_short_name),
        route_long_name: opt_view(raw.route_long_name),
        trip_headsign: opt_view(raw.trip_headsign),
        shape_id: raw.shape_id,
        route_id: opt_view(raw.route_id),
        direction_id: raw.direction_id,
        stops: if n > 0 {
            Some(Seq::new(n, |i: int| stop_at(raw, lats, lons, dists, i)))
        } else {
            None
        },
        real_stop_times: None,
    }
}

/// A table row's stops: one per value of the stop-id column, in column
/// order, each taking its id, name, times and sequence number from the
/// values at its position of the text columns, and its latitude, longitude
/// and distance from the parsed columns at its position; no stop list where
/// the stop-id column is empty or absent. The trip's own fields are the
/// row's.
pub proof fn lemma_stops_from_columns(
    raw: IntermediateVehicleMetadata,
    lats: Seq<u32>,
    lons: Seq<u32>,
    dists: Seq<u32>,
)
    requires
        row_well_formed(raw, lats, lons, dists),
    ensures
        ({
            let n = column(raw.stop_id).len();
            let m = deserialize_spec(raw, lats, lons, dists);
            &&& m.trip_id == raw.trip_id@
            &&& m.route_id == opt_view(raw.route_id)
            &&& m.route_type == raw.route_type
            &&& m.direction_id == raw.direction_id
            &&& m.real_stop_times is None
            &&& (m.stops is None <==> n == 0)
            &&& m.stops matches Some(s) ==> s.len() == n && forall|i: int|
                0 <= i < n ==> {
                    &&& (#[trigger] s[i]).stop_id == column(raw.stop_id)[i]
                    &&& s[i].stop_name == column(raw.stop_name)[i]
                    &&& s[i].arrival_time == column(raw.arrival_time)[i]
                    &&& s[i].departure_time == column(raw.departure_time)[i]
                    &&& s[i].stop_lat == lats[i]
                    &&& s[i].stop_lon == lons[i]
                    &&& s[i].shape_dist_traveled == dists[i]
                    &&& parse_unsigned_spec(column(raw.stop_sequence)[i], 65535) == Some(s[i].stop_sequence as nat)
                }
        }),
{
    let n = column(raw.stop_id).len();
    assert forall|i: int| 0 <= i < n implies (#[trigger] parse_unsigned_spec(column(raw.stop_sequence)[i], 65535)) is Some by {}
}

/// Whether a table row's stop columns fit together (see `row_well_formed`).
pub fn stop_columns_fit(
    raw: &IntermediateVehicleMetadata,
    lats: &Vec<u32>,
    lons: &Vec<u32>,
    dists: &Vec<u32>,
) -> (r: bool)
    ensures
        r == row_well_formed(*raw, lats@, lons@, dists@),
{
    let n = split_column(&raw.stop_id).len();
    let sequence_texts = split_column(&raw.stop_sequence);
    let ghost seqs = column(raw.stop_sequence);
    let mut k: usize = 0;
    while k < sequence_texts.len()
        invariant
            k <= sequence_texts@.len(),
            seqs == column(raw.stop_sequence),
            sequence_texts@.len() == seqs.len(),
            forall|j: int| 0 <= j < sequence_texts@.len() ==> #[trigger] sequence_texts@[j]@ == seqs[j],
            forall|j: int| 0 <= j < k ==> (#[trigger] parse_unsigned_spec(seqs[j], 65535)) is Some,
        decreases sequence_texts.len() - k,
    {
        let cs = chars_of(sequence_texts[k].as_str());
        if parse_unsigned(&cs, 65535).is_none() {
            assert(!column_parses_u16(seqs));
            return false;
        }
        k = k + 1;
    }
    split_column(&raw.stop_name).len() >= n && lats.len() >= n && lons.len() >= n && sequence_texts.len() >= n
        && split_column(&raw.arrival_time).len() >= n && split_column(&raw.departure_time).len() >= n
        && dists.len() >= n
}

/// Assembles the metadata of a well-formed table row (see
/// `deserialize_spec`).
pub fn deserialize_stops(
    raw: IntermediateVehicleMetadata,
    lats: Vec<u32>,
    lons: Vec<u32>,
    dists: Vec<u32>,
) -> (r: VehicleMetadata)
    requires
        row_well_formed(raw, lats@, lons@, dists@),
    ensures
        r@ == deserialize_spec(raw, lats@, lons@, dists@),
{
    let stop_ids = split_column(&raw.stop_id);
    let stop_names = split_column(&raw.stop_name);
    let sequence_texts = split_column(&raw.stop_sequence);
    let arrival_times = split_column(&raw.arrival_time);
    let departure_times = split_column(&raw.departure_time);
    let ghost seqs = column(raw.stop_sequence);
    let mut sequences: Vec<u16> = Vec::new();
    let mut k: usize = 0;
    while k < sequence_texts.len()
        invariant
            k <= sequence_texts@.len(),
            seqs == column(raw.stop_sequence),
            column_parses_u16(seqs),
            sequence_texts@.len() == seqs.len(),
            forall|j: int| 0 <= j < sequence_texts@.len() ==> #[trigger] sequence_texts@[j]@ == seqs[j],
            sequences@.len() == k,
            forall|j: int| 0 <= j < k ==> (#[trigger] parse_unsigned_spec(seqs[j], 65535)) is Some,
            forall|j: int| 0 <= j < k ==> sequences@[j] == parse_unsigned_spec(seqs[j], 65535)->0 as u16,
        decreases sequence_texts.len() - k,
    {
        let cs = chars_of(sequence_texts[k].as_str());
        match parse_unsigned(&cs, 65535) {
            None => {
                assert(false);
                sequences.push(0);
            },
            Some(v) => {
                sequences.push(v as u16);
            },
        }
        k = k + 1;
    }
    let n = stop_ids.len();
    let mut stops: Vec<Stop> = Vec::new();
    let mut i: usize = 0;
    while i < n
        invariant
            i <= n,
            n == stop_ids@.len(),
            n <= stop_names@.len() && n <= lats@.len() && n <= lons@.len() && n <= sequences@.len(),
            n <= arrival_times@.len() && n <= departure_times@.len() && n <= dists@.len(),
            n == column(raw.stop_id).len(),
            forall|j: int| 0 <= j < n ==> #[trigger] stop_ids@[j]@ == column(raw.stop_id)[j],
            forall|j: int| 0 <= j < n ==> #[trigger] stop_names@[j]@ == column(raw.stop_name)[j],
            forall|j: int| 0 <= j < n ==> #[trigger] arrival_times@[j]@ == column(raw.arrival_time)[j],
            forall|j: int| 0 <= j < n ==> #[trigger] departure_times@[j]@ == column(raw.departure_time)[j],
            forall|j: int| 0 <= j < n ==> #[trigger] sequences@[j] == parse_unsigned_spec(seqs[j], 65535)->0 as u16,
            seqs == column(raw.stop_sequence),
            stops@.len() == i,
            forall|j: int| 0 <= j < i ==> #[trigger] stops@[j]@ == stop_at(raw, lats@, lons@, dists@, j),
        decreases n - i,
    {
        stops.push(Stop {
            stop_sequence: sequences[i],
            stop_id: stop_ids[i].clone(),
            stop_name: stop_names[i].clone(),
            arrival_time: arrival_times[i].clone(),
            departure_time: departure_times[i].clone(),
            stop_lat: lats[i],
            stop_lon: lons[i],
            shape_dist_traveled: dists[i],
        });
        i = i + 1;
    }
    let md = VehicleMetadata {
        trip_id: raw.trip_id,
        route_type: raw.route_type,
        agency_name: raw.agency_name,
        route_short_name: raw.route_short_name,
        route_long_name: raw.route_long_name,
        trip_headsign: raw.trip_headsign,
        shape_id: raw.shape_id,
        route_id: raw.route_id,
        direction_id: raw.direction_id,
        stops: if n > 0 {
            Some(stops)
        } else {
            None
        },
        real_stop_times: None,
    };
    proof {
        if n > 0 {
            assert(crate::vehicle::stops_view(stops@) =~= Seq::new(
                n as nat,
                |i: int| stop_at(raw, lats@, lons@, dists@, i),
            ));
        }
    }
    md
}


/// The metadata table: trip id to trip metadata.
pub struct MetadataTable {
    table: StringHashMap<VehicleMetadata>,
}

impl View for MetadataTable {
    type V = Map<Seq<char>, MetadataView>;

    closed spec fn view(&self) -> Map<Seq<char>, MetadataView> {
        self.table@.map_values(|m: VehicleMetadata| m@)
    }
}

impl MetadataTable {
    /// An empty table.
    pub fn new() -> (r: Self)
        ensures
            r@ == Map::<Seq<char>, MetadataView>::empty(),
    {
        let r = MetadataTable { table: StringHashMap::new() };
        assert(r@ =~= Map::<Seq<char>, MetadataView>::empty());
        r
    }

    /// Adds a row under its trip id, replacing an earlier row of that trip.
    pub fn insert(&mut self, item: VehicleMetadata)
        ensures
            final(self)@ == old(self)@.insert(item@.trip_id, item@),
    {
        let ghost key = item.trip_id@;
        let ghost value = item@;
        let k = item.trip_id.clone();
        self.table.insert(k, item);
        assert(self@ =~= old(self)@.insert(key, value));
    }

    /// The metadata of a trip.
    pub fn get(&self, trip_id: &str) -> (r: Option<VehicleMetadata>)
        ensures
            match r {
                Some(m) => self@.contains_key(trip_id@) && m@ == self@[trip_id@],
                None => !self@.contains_key(trip_id@),
            },
    {
        match self.table.get(trip_id) {
            Some(m) => Some(m.clone()),
            None => None,
        }
    }
}

/// A table loaded `secs` seconds and `nanos` nanoseconds ago is due for
/// reloading once more than a day has passed.
pub open spec fn refresh_due_spec(secs: u64, nanos: u32) -> bool {
    secs > 86400 || (secs == 86400 && nanos > 0)
}

/// Whether a table loaded `secs` seconds and `nanos` nanoseconds ago is due
/// for reloading.
pub fn refresh_due(secs: u64, nanos: u32) -> (r: bool)
    ensures
        r == refresh_due_spec(secs, nanos),
{
    secs > 86400 || (secs == 86400 && nanos > 0)
}

/// Whether the cached table must be (re)loaded: always where none was
/// loaded yet, otherwise where the time since the last load (seconds and
/// nanoseconds) makes it due.
pub fn reload_needed(since_loaded: Option<(u64, u32)>) -> (r: bool)
    ensures
        r == match since_loaded {
            None => true,
            Some(e) => refresh_due_spec(e.0, e.1),
        },
{
    match since_loaded {
        None => true,
        Some(e) => refresh_due(e.0, e.1),
    }
}

/// The vehicle with the metadata of its trip attached; a vehicle without a
/// trip is left as it is, and one whose trip the table lacks gets none.
pub open spec fn join_spec(table: Map<Seq<char>, MetadataView>, v: VehicleView) -> VehicleView {
    match v.trip_id {
        Some(t) => VehicleView {
            metadata: if table.contains_key(t) {
                Some(table[t])
            } else {
                None
            },
            ..v
        },
        None => v,
    }
}

/// Joins static trip metadata onto vehicles.
pub struct MetadataJoiner {
    table: MetadataTable,
}

impl View for MetadataJoiner {
    type V = Map<Seq<char>, MetadataView>;

    closed spec fn view(&self) -> Map<Seq<char>, MetadataView> {
        self.table@
    }
}

impl MetadataJoiner {
    /// A joiner over a loaded metadata table.
    pub fn init(table: MetadataTable) -> (r: Self)
        ensures
            r@ == table@,
    {
        MetadataJoiner { table }
    }

    /// Attaches the metadata of the vehicle's trip (see `join_spec`).
    pub fn join_metadata(&self, vehicle: &mut Vehicle)
        ensures
            final(vehicle)@ == join_spec(self@, old(vehicle)@),
    {
        let found = match &vehicle.trip_id {
            Some(trip_id) => Some(self.table.get(trip_id.as_str())),
            None => None,
        };
        if let Some(m) = found {
            vehicle.metadata = m;
        }
    }

    /// The processing step: joins metadata and keeps exactly the vehicles
    /// that have a trip id; no message is sent.
    pub fn apply(&mut self, vehicle: &mut Vehicle, _low_watermark: u64) -> (r: (bool, Option<(String, Vec<u8>)>))
        ensures
            final(self)@ == old(self)@,
            final(vehicle)@ == join_spec(old(self)@, old(vehicle)@),
            r.0 == (old(vehicle)@.trip_id is Some),
            r.1 is None,
    {
        self.join_metadata(vehicle);
        (vehicle.trip_id.is_some(), None)
    }
}


/// A vehicle on a trip gets the metadata last added to the table for that
/// trip.
pub proof fn lemma_join_after_insert(table: Map<Seq<char>, MetadataView>, m: MetadataView, v: VehicleView)
    requires
        v.trip_id == Some(m.trip_id),
    ensures
        join_spec(table.insert(m.trip_id, m), v).metadata == Some(m),
        join_spec(table.insert(m.trip_id, m), v).id == v.id,
{
}

} // verus!
