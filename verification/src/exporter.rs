//! The archive exporter's view of the published vehicle stream: flattening
//! a vehicle and its metadata into one row of the archive.

use vstd::prelude::*;
use crate::vehicle::{clone_opt_string, opt_view};

verus! {

/// The trip metadata the exporter reads from the stream.
#[derive(Debug)]
pub struct VehicleMetadata {
    pub trip_id: String,
    pub route_type: Option<u64>,
    pub agency_name: Option<String>,
    pub route_short_name: Option<String>,
    pub route_long_name: Option<String>,
    pub trip_headsign: Option<String>,
}

/// A vehicle as the exporter reads it from the stream. `lng` and `lat` are
/// `f32` bit patterns.
#[derive(Debug)]
pub struct Vehicle {
    pub id: String,
    pub lng: u32,
    pub lat: u32,
    pub timestamp: u64,
    pub trip_id: Option<String>,
    pub metadata: Option<VehicleMetadata>,
}

/// One row of the archive.
#[derive(Debug)]
pub struct CsvSerializableVehicle {
    pub id: String,
    pub lng: u32,
    pub lat: u32,
    pub timestamp: u64,
    pub trip_id: Option<String>,
    pub route_type: Option<u64>,
    pub agency_name: Option<String>,
    pub route_short_name: Option<String>,
    pub route_long_name: Option<String>,
    pub trip_headsign: Option<String>,
}

/// `row` is the archive row of `v`: the vehicle's own fields, and the
/// metadata fields where the vehicle has metadata (all absent otherwise).
pub open spec fn row_of(v: Vehicle, row: CsvSerializableVehicle) -> bool {
    &&& row.id@ == v.id@
    &&& row.lng == v.lng
    &&& row.lat == v.lat
    &&& row.timestamp == v.timestamp
    &&& opt_view(row.trip_id) == opt_view(v.trip_id)
    &&& match v.metadata {
        Some(m) => {
            &&& row.route_type == m.route_type
            &&& opt_view(row.agency_name) == opt_view(m.agency_name)
            &&& opt_view(row.route_short_name) == opt_view(m.route_short_name)
            &&& opt_view(row.route_long_name) == opt_view(m.route_long_name)
            &&& opt_view(row.trip_headsign) == opt_view(m.trip_headsign)
        },
        None => {
            &&& row.route_type is None
            &&& row.agency_name is None
            &&& row.route_short_name is None
            &&& row.route_long_name is None
            &&& row.trip_headsign is None
        },
    }
}

/// Flattens a vehicle and its metadata into an archive row.
pub fn make_vehicle_serializable(vehicle: Vehicle) -> (r: CsvSerializableVehicle)
    ensures
        row_of(vehicle, r),
{
    match vehicle.metadata {
        Some(metadata) => CsvSerializableVehicle {
            id: vehicle.id,
            lng: vehicle.lng,
            lat: vehicle.lat,
            timestamp: vehicle.timestamp,
            trip_id: vehicle.trip_id,
            route_type: metadata.route_type,
            agency_name: metadata.agency_name,
            route_short_name: metadata.route_short_name,
            route_long_name: metadata.route_long_name,
            trip_headsign: metadata.trip_headsign,
        },
        None => CsvSerializableVehicle {
            id: vehicle.id,
            lng: vehicle.lng,
            lat: vehicle.lat,
            timestamp: vehicle.timestamp,
            trip_id: vehicle.trip_id,
            route_type: None,
            agency_name: None,
            route_short_name: None,
            route_long_name: None,
            trip_headsign: None,
        },
    }
}

/// What happened while collecting archive rows.
pub enum CollectEvent {
    /// A message arrived; `true` where it was decoded and written as a row.
    Message(bool),
    /// The quiet timer fired: no row was written for a while.
    Quiet,
}

/// What the collecting loop does next.
pub enum CollectAction {
    /// Restart the quiet timer with this many milliseconds.
    ResetTimer(u64),
    /// Leave the quiet timer running.
    KeepTimer,
    /// Close the file and hand it over for upload.
    Finish,
}

/// Milliseconds without a new row after which the collector looks at its count.
pub const ROW_TIMEOUT_MS: u64 = 200;

/// Milliseconds before the collector looks again after a quiet spell that
/// did not finish the file.
pub const QUIET_RETRY_MS: u64 = 2000;

/// The decisions of collecting one archive file: rows are counted as they
/// are written, and the file is finished at the first quiet spell after more
/// than the minimum number of rows.
pub struct RowCollector {
    rows_written: u64,
    min_rows: u64,
}

impl RowCollector {
    pub closed spec fn rows(&self) -> nat {
        self.rows_written as nat
    }

    pub closed spec fn min_rows(&self) -> nat {
        self.min_rows as nat
    }

    /// A collector for a file of more than `min_rows` rows.
    pub fn new(min_rows: u64) -> (r: Self)
        ensures
            r.rows() == 0,
            r.min_rows() == min_rows,
    {
        RowCollector { rows_written: 0, min_rows }
    }

    /// The number of rows written so far.
    pub fn rows_written(&self) -> (r: u64)
        ensures
            r == self.rows(),
    {
        self.rows_written
    }

    /// Takes one event and says what to do next: a written row is counted
    /// and restarts the row timer; a message that gave no row changes
    /// nothing; a quiet spell finishes the file where more than the minimum
    /// number of rows were written, and otherwise restarts the timer with
    /// the longer retry time.
    pub fn on_event(&mut self, event: CollectEvent) -> (a: CollectAction)
        requires
            event matches CollectEvent::Message(true) ==> old(self).rows() < u64::MAX,
        ensures
            final(self).min_rows() == old(self).min_rows(),
            match event {
                CollectEvent::Message(true) => {
                    &&& final(self).rows() == old(self).rows() + 1
                    &&& a == CollectAction::ResetTimer(ROW_TIMEOUT_MS)
                },
                CollectEvent::Message(false) => {
                    &&& final(self).rows() == old(self).rows()
                    &&& a is KeepTimer
                },
                CollectEvent::Quiet => {
                    &&& final(self).rows() == old(self).rows()
                    &&& if old(self).rows() > old(self).min_rows() {
                        a is Finish
                    } else {
                        a == CollectAction::ResetTimer(QUIET_RETRY_MS)
                    }
                },
            },
    {
        match event {
            CollectEvent::Message(true) => {
                self.rows_written = self.rows_written + 1;
                CollectAction::ResetTimer(ROW_TIMEOUT_MS)
            },
            CollectEvent::Message(false) => CollectAction::KeepTimer,
            CollectEvent::Quiet => {
                if self.rows_written > self.min_rows {
                    CollectAction::Finish
                } else {
                    CollectAction::ResetTimer(QUIET_RETRY_MS)
                }
            },
        }
    }
}

} // verus!
