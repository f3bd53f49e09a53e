use std::io::Write;

use sparkling::delay::{DelayProcessor, Event, StopTimeUpdate, TripUpdate};
use sparkling::exporter::{
    make_vehicle_serializable, CollectAction, CollectEvent, RowCollector, Vehicle as ExportVehicle,
    VehicleMetadata as ExportMetadata,
};
use sparkling::feed::vehicle_from_position;
use sparkling::metadata::{
    decode_gzip, deserialize_stops, refresh_due, stop_columns_fit, reload_needed, DecodeError, IntermediateVehicleMetadata, MetadataJoiner,
    MetadataTable,
};
use sparkling::stats::{Moment, SiteStats};
use sparkling::time::DateTime;
use sparkling::training_data::{CsvVehicle, FileInfo, FileListing, NextFile, TrainingDataClient};
use sparkling::vehicle::{Stop, Vehicle, VehicleMetadata};

fn stop(seq: u16, arrival: &str) -> Stop {
    Stop {
        stop_sequence: seq,
        stop_id: format!("s{}", seq),
        stop_name: format!("Stop {}", seq),
        arrival_time: arrival.to_string(),
        departure_time: arrival.to_string(),
        stop_lat: 0,
        stop_lon: 0,
        shape_dist_traveled: 0,
    }
}

fn trip_vehicle(stops: Vec<Stop>) -> Vehicle {
    Vehicle {
        id: "v1".to_string(),
        lng: 0,
        lat: 0,
        timestamp: 0,
        trip_id: Some("trip1".to_string()),
        metadata: Some(VehicleMetadata {
            trip_id: "trip1".to_string(),
            route_type: Some(700),
            agency_name: None,
            route_short_name: None,
            route_long_name: None,
            trip_headsign: None,
            shape_id: None,
            route_id: None,
            direction_id: None,
            stops: Some(stops),
            real_stop_times: None,
        }),
        delay: None,
        stop_seq: None,
    }
}

const DAY: i64 = 19723 * 86400;

fn at(h: i64, m: i64, s: i64) -> DateTime {
    DateTime { seconds: DAY + h * 3600 + m * 60 + s, nanos: 0 }
}

#[test]
fn vehicle_reports_next_stop_delay() {
    let mut p = DelayProcessor::init();
    let mut e = Event::Vehicle(trip_vehicle(vec![stop(1, "10:00:00"), stop(2, "10:05:00"), stop(3, "10:10:00")]));
    assert_eq!(p.read_key(&e), Some("delays:trip1".to_string()));
    let out = p.apply(&mut e, Some(vec![0, 60, 0]), at(10, 6, 0)).unwrap();
    assert!(out.keep);
    assert!(out.store.is_none());
    match e {
        Event::Vehicle(v) => {
            assert_eq!(v.delay, Some(60));
            assert_eq!(v.stop_seq, Some(2));
        },
        _ => panic!("vehicle expected"),
    }
}

#[test]
fn vehicle_past_last_stop_reports_trip_end() {
    let mut p = DelayProcessor::init();
    let mut e = Event::Vehicle(trip_vehicle(vec![stop(1, "10:00:00"), stop(2, "10:05:00")]));
    p.apply(&mut e, None, at(11, 0, 0)).unwrap();
    match e {
        Event::Vehicle(v) => {
            assert_eq!(v.delay, Some(0));
            assert_eq!(v.stop_seq, Some(3));
        },
        _ => panic!("vehicle expected"),
    }
}

#[test]
fn vehicle_with_too_few_delays_aborts() {
    let mut p = DelayProcessor::init();
    let mut e = Event::Vehicle(trip_vehicle(vec![stop(1, "10:00:00"), stop(2, "10:05:00")]));
    assert!(p.apply(&mut e, Some(vec![0]), at(9, 0, 0)).is_none());
}

#[test]
fn trip_update_merges_delays() {
    let mut p = DelayProcessor::init();
    let mut e = Event::Vehicle(trip_vehicle(vec![stop(1, "10:00:00"), stop(2, "10:05:00"), stop(3, "10:10:00")]));
    p.apply(&mut e, None, at(9, 0, 0)).unwrap();
    let mut u = Event::TripUpdate(TripUpdate {
        trip_id: "trip1".to_string(),
        time_updates: vec![
            StopTimeUpdate { stop_sequence: 2, delay_secs: Some(30) },
            StopTimeUpdate { stop_sequence: 5, delay_secs: Some(90) },
        ],
    });
    assert_eq!(p.read_key(&u), Some("delays:trip1".to_string()));
    let out = p.apply(&mut u, Some(vec![0, 60, 0]), at(9, 0, 0)).unwrap();
    assert!(!out.keep);
    let (key, delays) = out.store.unwrap();
    assert_eq!(key, "delays:trip1");
    assert_eq!(delays, vec![0, 30, 0, 0, 90]);
}

#[test]
fn trip_update_extends_to_stop_count() {
    let mut p = DelayProcessor::init();
    let mut e = Event::Vehicle(trip_vehicle(vec![stop(1, "10:00:00"), stop(2, "10:05:00"), stop(3, "10:10:00")]));
    p.apply(&mut e, None, at(9, 0, 0)).unwrap();
    let mut u = Event::TripUpdate(TripUpdate {
        trip_id: "trip1".to_string(),
        time_updates: vec![StopTimeUpdate { stop_sequence: 1, delay_secs: Some(-20) }],
    });
    let out = p.apply(&mut u, None, at(9, 0, 0)).unwrap();
    assert_eq!(out.store.unwrap().1, vec![-20, 0, 0]);
}

#[test]
fn trip_update_of_unknown_trip_is_dropped() {
    let mut p = DelayProcessor::init();
    let mut u = Event::TripUpdate(TripUpdate { trip_id: "x".to_string(), time_updates: vec![] });
    assert_eq!(p.read_key(&u), None);
    let out = p.apply(&mut u, None, at(9, 0, 0)).unwrap();
    assert!(!out.keep);
    assert!(out.store.is_none());
}

#[test]
fn trip_update_for_stop_zero_aborts() {
    let mut p = DelayProcessor::init();
    let mut e = Event::Vehicle(trip_vehicle(vec![stop(1, "10:00:00")]));
    p.apply(&mut e, None, at(9, 0, 0)).unwrap();
    let mut u = Event::TripUpdate(TripUpdate {
        trip_id: "trip1".to_string(),
        time_updates: vec![StopTimeUpdate { stop_sequence: 0, delay_secs: Some(5) }],
    });
    assert!(p.apply(&mut u, None, at(9, 0, 0)).is_none());
}

fn raw_row() -> IntermediateVehicleMetadata {
    IntermediateVehicleMetadata {
        trip_id: "t1".to_string(),
        route_id: Some("r".to_string()),
        route_type: Some(401),
        agency_name: Some("SL".to_string()),
        route_short_name: None,
        route_long_name: None,
        trip_headsign: None,
        shape_id: Some(4),
        direction_id: Some(1),
        stop_id: Some("a|b".to_string()),
        stop_name: Some("Alvik|Odenplan".to_string()),
        stop_sequence: Some("1|2".to_string()),
        stop_lat: Some("59.3|59.4".to_string()),
        stop_lon: Some("18.0|18.1".to_string()),
        arrival_time: Some("10:00:00|10:02:00".to_string()),
        departure_time: Some("10:00:30|10:02:30".to_string()),
        shape_dist_traveled: Some("0|1.5".to_string()),
    }
}

#[test]
fn metadata_rows_become_stop_lists() {
    let lats = vec![59.3f32.to_bits(), 59.4f32.to_bits()];
    let lons = vec![18.0f32.to_bits(), 18.1f32.to_bits()];
    let dists = vec![0.0f32.to_bits(), 1.5f32.to_bits()];
    assert!(stop_columns_fit(&raw_row(), &lats, &lons, &dists));
    let md = deserialize_stops(raw_row(), lats.clone(), lons, dists);
    let stops = md.stops.unwrap();
    assert_eq!(stops.len(), 2);
    assert_eq!(stops[1].stop_id, "b");
    assert_eq!(stops[1].stop_name, "Odenplan");
    assert_eq!(stops[1].stop_sequence, 2);
    assert_eq!(stops[1].departure_time, "10:02:30");
    assert_eq!(stops[0].stop_lat, lats[0]);
    assert_eq!(md.direction_id, Some(1));
    assert!(md.real_stop_times.is_none());
}

#[test]
fn metadata_row_without_stops() {
    let mut raw = raw_row();
    raw.stop_id = None;
    assert!(stop_columns_fit(&raw, &vec![], &vec![], &vec![]));
    let md = deserialize_stops(raw, vec![], vec![], vec![]);
    assert!(md.stops.is_none());
}

#[test]
fn metadata_row_with_short_column_aborts() {
    let mut raw = raw_row();
    raw.stop_name = Some("Alvik".to_string());
    assert!(!stop_columns_fit(&raw, &vec![0, 0], &vec![0, 0], &vec![0, 0]));
    let mut raw2 = raw_row();
    raw2.stop_sequence = Some("1|x".to_string());
    assert!(!stop_columns_fit(&raw2, &vec![0, 0], &vec![0, 0], &vec![0, 0]));
    assert!(!stop_columns_fit(&raw_row(), &vec![0], &vec![0, 0], &vec![0, 0]));
    assert!(stop_columns_fit(&raw_row(), &vec![0, 0], &vec![0, 0], &vec![0, 0]));
}

#[test]
fn gzip_bodies_are_decoded() {
    let mut enc = flate2::write::GzEncoder::new(Vec::new(), flate2::Compression::default());
    enc.write_all(b"trip_id,route_id\nt1,r\n").unwrap();
    let body = enc.finish().unwrap();
    assert_eq!(decode_gzip(&body).unwrap(), b"trip_id,route_id\nt1,r\n".to_vec());
    assert!(matches!(decode_gzip(b"not gzip"), Err(DecodeError::Gzip)));
}

#[test]
fn table_lookup_and_join() {
    let mut t = MetadataTable::new();
    let mut raw = raw_row();
    raw.stop_id = None;
    let md = deserialize_stops(raw, vec![], vec![], vec![]);
    t.insert(md);
    assert_eq!(t.get("t1").unwrap().agency_name.as_deref(), Some("SL"));
    assert!(t.get("t2").is_none());
    let j = MetadataJoiner::init(t);
    let mut v = Vehicle {
        id: "v".to_string(),
        lng: 0,
        lat: 0,
        timestamp: 1,
        trip_id: Some("t1".to_string()),
        metadata: None,
        delay: None,
        stop_seq: None,
    };
    j.join_metadata(&mut v);
    assert_eq!(v.metadata.unwrap().shape_id, Some(4));
}

#[test]
fn refresh_after_a_day() {
    assert!(!refresh_due(86400, 0));
    assert!(refresh_due(86400, 1));
    assert!(refresh_due(90000, 0));
    assert!(!refresh_due(10, 999));
    assert!(reload_needed(None));
    assert!(!reload_needed(Some((3600, 0))));
    assert!(reload_needed(Some((86401, 0))));
}

#[test]
fn frontend_fields_follow_metadata() {
    let v = trip_vehicle(vec![stop(1, "10:00:00")]);
    let r = v.frontend_fields();
    assert_eq!(r.id, "v1");
    assert_eq!(r.trip_id.as_deref(), Some("trip1"));
    assert_eq!(r.route_type, Some(700));
    let stops = r.stops.unwrap();
    assert_eq!(stops[0].stop_name, "Stop 1");
    assert_eq!(stops[0].arrival_time, "10:00:00");
    let mut bare = trip_vehicle(vec![]);
    bare.metadata = None;
    let r2 = bare.frontend_fields();
    assert!(r2.route_type.is_none() && r2.stops.is_none());
}

fn row(id: &str, route_type: Option<u64>) -> CsvVehicle {
    CsvVehicle {
        id: id.to_string(),
        lng: 1,
        lat: 2,
        timestamp: 3,
        trip_id: Some("t".to_string()),
        route_type,
        agency_name: None,
        route_short_name: None,
        route_long_name: None,
        trip_headsign: None,
        shape_id: None,
        direction_id: None,
    }
}

#[test]
fn replay_sends_metro_rows_only() {
    let rows = vec![row("a", Some(401)), row("b", Some(700)), row("c", None), row("d", Some(401))];
    let v = TrainingDataClient::metro_vehicles(&rows);
    assert_eq!(v.len(), 2);
    assert_eq!(v[0].id, "a");
    assert_eq!(v[1].id, "d");
    assert!(v[1].metadata.is_none());
}

#[test]
fn replay_walks_the_file_list() {
    let files = vec![FileInfo::new("b".to_string(), "f1".to_string())];
    let mut c = TrainingDataClient::default(files);
    match c.next_file() {
        NextFile::Download(f) => assert_eq!(f.name(), "f1"),
        _ => panic!("download expected"),
    }
    c.advance();
    assert!(matches!(c.next_file(), NextFile::Abort));
    let done = TrainingDataClient::init(5, vec![]);
    assert!(matches!(done.next_file(), NextFile::Finished));
}

#[test]
fn export_rows_flatten_metadata() {
    let v = ExportVehicle {
        id: "x".to_string(),
        lng: 1,
        lat: 2,
        timestamp: 3,
        trip_id: None,
        metadata: Some(ExportMetadata {
            trip_id: "t".to_string(),
            route_type: Some(401),
            agency_name: Some("SL".to_string()),
            route_short_name: None,
            route_long_name: None,
            trip_headsign: Some("H".to_string()),
        }),
    };
    let r = make_vehicle_serializable(v);
    assert_eq!(r.route_type, Some(401));
    assert_eq!(r.trip_headsign.as_deref(), Some("H"));
    let bare = ExportVehicle { id: "y".to_string(), lng: 0, lat: 0, timestamp: 0, trip_id: None, metadata: None };
    assert!(make_vehicle_serializable(bare).agency_name.is_none());
}

#[test]
fn position_reports_need_id_position_and_time() {
    let v = vehicle_from_position(Some("9031".to_string()), Some((1, 2)), None, Some(7)).unwrap();
    assert_eq!(v.lat, 1);
    assert_eq!(v.lng, 2);
    assert_eq!(v.timestamp, 7);
    assert!(vehicle_from_position(None, Some((1, 2)), None, Some(7)).is_none());
    assert!(vehicle_from_position(Some("a".to_string()), None, None, Some(7)).is_none());
    assert!(vehicle_from_position(Some("a".to_string()), Some((1, 2)), None, None).is_none());
}

#[test]
fn site_statistics() {
    let mut s = SiteStats::new();
    s.inc_site_visits(Moment { secs: 1000, nanos: 0 });
    s.inc_site_visits(Moment { secs: 5000, nanos: 0 });
    s.inc_site_visits(Moment { secs: 96400, nanos: 0 });
    let text = s.stats_handler(Moment { secs: 100000, nanos: 0 }).unwrap();
    assert_eq!(
        text,
        "Site visits in the last hour: 0\nSite visits in the last 24h: 1\nSite visits since last system reboot: 3"
    );
    let text2 = s.stats_handler(Moment { secs: 99999, nanos: 999_999_999 }).unwrap();
    assert!(text2.starts_with("Site visits in the last hour: 1\n"));
    assert!(s.stats_handler(Moment { secs: 2000, nanos: 0 }).is_none());
}

#[test]
fn archive_file_finishes_after_quiet_spell_past_minimum() {
    let mut c = RowCollector::new(2);
    assert!(matches!(c.on_event(CollectEvent::Quiet), CollectAction::ResetTimer(2000)));
    assert!(matches!(c.on_event(CollectEvent::Message(true)), CollectAction::ResetTimer(200)));
    assert!(matches!(c.on_event(CollectEvent::Message(false)), CollectAction::KeepTimer));
    assert!(matches!(c.on_event(CollectEvent::Message(true)), CollectAction::ResetTimer(200)));
    assert_eq!(c.rows_written(), 2);
    // exactly the minimum is not enough
    assert!(matches!(c.on_event(CollectEvent::Quiet), CollectAction::ResetTimer(2000)));
    assert!(matches!(c.on_event(CollectEvent::Message(true)), CollectAction::ResetTimer(200)));
    assert_eq!(c.rows_written(), 3);
    assert!(matches!(c.on_event(CollectEvent::Quiet), CollectAction::Finish));
}

#[test]
fn trip_update_keeps_stored_delays_and_last_report_wins() {
    let mut p = DelayProcessor::init();
    let mut e = Event::Vehicle(trip_vehicle(vec![stop(1, "10:00:00"), stop(2, "10:05:00"), stop(3, "10:10:00")]));
    p.apply(&mut e, None, at(9, 0, 0)).unwrap();
    let mut u = Event::TripUpdate(TripUpdate {
        trip_id: "trip1".to_string(),
        time_updates: vec![
            StopTimeUpdate { stop_sequence: 2, delay_secs: Some(30) },
            StopTimeUpdate { stop_sequence: 2, delay_secs: Some(45) },
            StopTimeUpdate { stop_sequence: 3, delay_secs: None },
        ],
    });
    let out = p.apply(&mut u, Some(vec![7, 60, 8]), at(9, 0, 0)).unwrap();
    assert_eq!(out.store.unwrap().1, vec![7, 45, 8]);
}

#[test]
fn archive_listing_collects_pages_in_order() {
    let f = |n: &str| FileInfo::new("rt-archive".to_string(), n.to_string());
    let mut listing = FileListing::first_page(vec![f("a"), f("b")], Some("p2".to_string()));
    assert!(!listing.is_complete());
    assert_eq!(listing.next_page(), Some("p2".to_string()));
    listing.add_page(vec![f("c")], None);
    assert!(listing.is_complete());
    let names: Vec<String> = listing.into_files().iter().map(|x| x.name().clone()).collect();
    assert_eq!(names, vec!["a", "b", "c"]);
}
