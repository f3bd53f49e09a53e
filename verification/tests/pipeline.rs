use sparkling::features::{InferenceFeatureExtractor, TrainingFeatureExtractor};
use sparkling::metadata::MetadataTable;
use sparkling::stop_detector::StopDetector;
use sparkling::stream::{EventOutcome, ProcessingStep, Progress, StreamProcessor};
use sparkling::vehicle::{Stop, Vehicle, VehicleMetadata};

fn stop(seq: u16, name: &str, arrival: &str) -> Stop {
    Stop {
        stop_sequence: seq,
        stop_id: format!("id{}", seq),
        stop_name: name.to_string(),
        arrival_time: arrival.to_string(),
        departure_time: arrival.to_string(),
        stop_lat: 59.33f32.to_bits(),
        stop_lon: 18.06f32.to_bits(),
        shape_dist_traveled: 0.0f32.to_bits(),
    }
}

fn metro_metadata(rst: Option<Vec<Option<u64>>>) -> VehicleMetadata {
    VehicleMetadata {
        trip_id: "trip1".to_string(),
        route_type: Some(401),
        agency_name: Some("SL".to_string()),
        route_short_name: Some("10".to_string()),
        route_long_name: None,
        trip_headsign: Some("Hjulsta".to_string()),
        shape_id: None,
        route_id: Some("9011001001000000".to_string()),
        direction_id: Some(0),
        stops: Some(vec![
            stop(1, "T-Centralen", "10:00:00"),
            stop(2, "Rådhuset", "10:02:00"),
            stop(3, "Fridhemsplan", "10:05:00"),
        ]),
        real_stop_times: rst,
    }
}

// 2024-01-01 09:10:00 UTC
const TS: u64 = 1704100200;

fn vehicle(id: &str, ts: u64, metadata: Option<VehicleMetadata>) -> Vehicle {
    Vehicle {
        id: id.to_string(),
        lng: 18.06f32.to_bits(),
        lat: 59.33f32.to_bits(),
        timestamp: ts,
        trip_id: Some("trip1".to_string()),
        metadata,
        delay: None,
        stop_seq: None,
    }
}

fn padded_csv(tokens: &[u64]) -> String {
    let mut all: Vec<u64> = tokens.to_vec();
    while all.len() < 75 {
        all.push(33);
    }
    all.iter().map(|t| t.to_string()).collect::<Vec<_>>().join(",")
}

#[test]
fn inference_features_encode_reached_stops() {
    let mut step = InferenceFeatureExtractor::init();
    let rst = vec![Some(1704099660), Some(1704099900), None];
    let v = vehicle("bus1", TS, Some(metro_metadata(Some(rst))));
    let (keep, msg) = step.apply(&v, 0).unwrap();
    assert!(keep);
    let (topic, bytes) = msg.unwrap();
    assert_eq!(topic, "lstm-inference-features");
    let expected = format!("bus1:{}", padded_csv(&[31, 34, 150, 167, 49, 15, 50, 16, 51, 17]));
    assert_eq!(String::from_utf8(bytes).unwrap(), expected);
    // the same reached stop does not trigger a second prediction
    let (keep2, msg2) = step.apply(&v, 0).unwrap();
    assert!(keep2);
    assert!(msg2.is_none());
}

#[test]
fn inference_marks_unreached_stops_skipped() {
    let mut step = InferenceFeatureExtractor::init();
    let v = vehicle("bus2", TS, Some(metro_metadata(Some(vec![None, None, None]))));
    let (_, msg) = step.apply(&v, 0).unwrap();
    let (_, bytes) = msg.unwrap();
    let expected = format!("bus2:{}", padded_csv(&[31, 34, 150, 167, 49, 15, 50, 15, 51, 181]));
    assert_eq!(String::from_utf8(bytes).unwrap(), expected);
}

#[test]
fn inference_ignores_short_or_non_metro_trips() {
    let mut step = InferenceFeatureExtractor::init();
    let mut md = metro_metadata(Some(vec![None, None, None]));
    md.route_type = Some(700);
    let v = vehicle("bus3", TS, Some(md));
    assert_eq!(step.apply(&v, 0).unwrap().1, None);
    let mut md2 = metro_metadata(Some(vec![None, None]));
    md2.stops.as_mut().unwrap().truncate(2);
    let v2 = vehicle("bus3", TS, Some(md2));
    assert_eq!(step.apply(&v2, 0).unwrap().1, None);
    let v3 = vehicle("bus3", TS, None);
    assert_eq!(step.apply(&v3, 0).unwrap().1, None);
}

#[test]
fn inference_aborts_on_short_stop_times() {
    let mut step = InferenceFeatureExtractor::init();
    let v = vehicle("bus4", TS, Some(metro_metadata(Some(vec![None, None]))));
    assert!(step.apply(&v, 0).is_none());
}

#[test]
fn inference_aborts_on_unparsable_time() {
    let mut step = InferenceFeatureExtractor::init();
    let mut md = metro_metadata(Some(vec![Some(1704099660), None, None]));
    md.stops.as_mut().unwrap()[2].arrival_time = "10:xx:00".to_string();
    let v = vehicle("bus5", TS, Some(md));
    assert!(step.apply(&v, 0).is_none());
}

#[test]
fn inference_skips_times_past_midnight() {
    let mut step = InferenceFeatureExtractor::init();
    let mut md = metro_metadata(Some(vec![Some(1704099660), None, None]));
    md.stops.as_mut().unwrap()[2].arrival_time = "24:05:00".to_string();
    let v = vehicle("bus6", TS, Some(md));
    assert_eq!(step.apply(&v, 0).unwrap(), (true, None));
}

#[test]
fn midnight_crossing_moves_earlier_stops_back() {
    // trip 23:58 -> 00:01 -> 00:03 observed on 2024-01-02 00:05 UTC
    let mut step = InferenceFeatureExtractor::init();
    let mut md = metro_metadata(Some(vec![None, None, None]));
    {
        let stops = md.stops.as_mut().unwrap();
        stops[0].arrival_time = "23:58:00".to_string();
        stops[1].arrival_time = "00:01:00".to_string();
        stops[2].arrival_time = "00:03:00".to_string();
    }
    let v = vehicle("bus7", 1704153900, Some(md));
    let (_, msg) = step.apply(&v, 0).unwrap();
    let (_, bytes) = msg.unwrap();
    // first stop on 2024-01-01 (Monday) at hour 23
    let expected = format!("bus7:{}", padded_csv(&[31, 34, 150, 180, 49, 15, 50, 15, 51, 181]));
    assert_eq!(String::from_utf8(bytes).unwrap(), expected);
}

#[test]
fn training_features_once_per_trip() {
    let mut step = TrainingFeatureExtractor::init();
    let rst = vec![Some(1704099660), Some(1704099900), Some(1704100200)];
    let v = vehicle("bus1", TS, Some(metro_metadata(Some(rst))));
    let (keep, msg) = step.apply(&v, 0).unwrap();
    assert!(keep);
    let (topic, bytes) = msg.unwrap();
    assert_eq!(topic, "lstm-training-features");
    assert_eq!(String::from_utf8(bytes).unwrap(), padded_csv(&[31, 34, 150, 167, 49, 15, 50, 16, 51, 17, 32]));
    assert_eq!(step.apply(&v, 0).unwrap(), (true, None));
}

#[test]
fn training_waits_for_the_last_stop() {
    let mut step = TrainingFeatureExtractor::init();
    let v = vehicle("bus1", TS, Some(metro_metadata(Some(vec![Some(1), Some(2), None]))));
    assert_eq!(step.apply(&v, 0).unwrap(), (true, None));
    let v2 = vehicle("bus1", TS, Some(metro_metadata(Some(vec![None, None, Some(3)]))));
    assert_eq!(step.apply(&v2, 0).unwrap(), (true, None));
}

#[test]
fn training_aborts_without_trip_id() {
    let mut step = TrainingFeatureExtractor::init();
    let mut v = vehicle("bus1", TS, Some(metro_metadata(Some(vec![Some(1), Some(2), Some(3)]))));
    v.trip_id = None;
    assert!(step.apply(&v, 0).is_none());
}

#[test]
fn stop_detector_records_first_reach() {
    let mut det = StopDetector::init();
    let mut v = vehicle("bus1", 100, Some(metro_metadata(None)));
    assert_eq!(det.apply(&mut v, Some(1)).unwrap(), (true, None));
    assert_eq!(v.metadata.as_ref().unwrap().real_stop_times, Some(vec![None, Some(100), None]));
    let mut later = vehicle("bus1", 200, Some(metro_metadata(None)));
    det.apply(&mut later, Some(1)).unwrap();
    assert_eq!(later.metadata.as_ref().unwrap().real_stop_times, Some(vec![None, Some(100), None]));
    let mut next = vehicle("bus1", 300, Some(metro_metadata(None)));
    det.apply(&mut next, None).unwrap();
    assert_eq!(next.metadata.as_ref().unwrap().real_stop_times, Some(vec![None, Some(100), None]));
    // a new trip starts over
    let mut other = vehicle("bus1", 400, Some(metro_metadata(None)));
    other.trip_id = Some("trip2".to_string());
    det.apply(&mut other, Some(0)).unwrap();
    assert_eq!(other.metadata.as_ref().unwrap().real_stop_times, Some(vec![Some(400), None, None]));
}

#[test]
fn stop_detector_aborts_on_index_past_stops() {
    let mut det = StopDetector::init();
    let mut v = vehicle("bus1", 100, Some(metro_metadata(None)));
    assert!(det.apply(&mut v, Some(3)).is_none());
}

/// Runs one event to its end, answering every stop request with `answer`;
/// returns the outcome and the number of requests.
fn run_event(p: &mut StreamProcessor, v: Vehicle, answer: Option<usize>) -> (Option<EventOutcome>, usize) {
    let mut asked = 0;
    let mut progress = p.process_event(v);
    loop {
        match progress {
            Progress::Done(out) => return (out, asked),
            Progress::Locate(_) => {
                asked += 1;
                progress = p.resume(answer);
            },
        }
    }
}

fn table() -> MetadataTable {
    let mut t = MetadataTable::new();
    t.insert(metro_metadata(None));
    t
}

#[test]
fn default_pipeline_joins_detects_and_predicts() {
    let mut p = StreamProcessor::default(table());
    let v = vehicle("bus1", TS, None);
    let out = run_event(&mut p, v, Some(0)).0.unwrap();
    let fwd = out.vehicle.unwrap();
    let md = fwd.metadata.unwrap();
    assert_eq!(md.trip_headsign.as_deref(), Some("Hjulsta"));
    assert_eq!(md.real_stop_times, Some(vec![Some(TS), None, None]));
    assert_eq!(out.messages.len(), 1);
    assert_eq!(out.messages[0].0, "lstm-inference-features");
    assert_eq!(p.low_watermark(), TS - 5);
}

#[test]
fn late_events_are_dropped() {
    let mut p = StreamProcessor::default(table());
    run_event(&mut p, vehicle("bus1", TS, None), None).0.unwrap();
    let out = run_event(&mut p, vehicle("bus2", TS - 6, None), None).0.unwrap();
    assert!(out.vehicle.is_none());
    assert!(out.messages.is_empty());
    assert_eq!(p.low_watermark(), TS - 5);
    // within the window: accepted, watermark does not move back
    let out2 = run_event(&mut p, vehicle("bus2", TS - 3, None), None).0.unwrap();
    assert!(out2.vehicle.is_some());
    assert_eq!(p.low_watermark(), TS - 5);
}

#[test]
fn vehicles_without_trip_are_dropped_by_the_join() {
    let mut p = StreamProcessor::init(5);
    let mut t = MetadataTable::new();
    t.insert(metro_metadata(None));
    p.register_step(ProcessingStep::MetadataJoin(sparkling::metadata::MetadataJoiner::init(t)));
    let mut v = vehicle("bus1", 100, None);
    v.trip_id = None;
    let out = run_event(&mut p, v, None).0.unwrap();
    assert!(out.vehicle.is_none());
}

#[test]
fn unknown_trip_gets_no_metadata() {
    let mut p = StreamProcessor::default(table());
    let mut v = vehicle("bus1", 100, None);
    v.trip_id = Some("other".to_string());
    let out = run_event(&mut p, v, Some(0)).0.unwrap();
    assert!(out.vehicle.unwrap().metadata.is_none());
    assert!(out.messages.is_empty());
}

#[test]
fn event_before_window_aborts() {
    let mut p = StreamProcessor::init(5);
    assert!(run_event(&mut p, vehicle("bus1", 3, None), None).0.is_none());
}

#[test]
fn stop_detection_asks_for_the_vehicles_stop() {
    let mut p = StreamProcessor::default(table());
    let v = vehicle("bus1", TS, None);
    let (lat, lng) = (v.lat, v.lng);
    match p.process_event(v) {
        Progress::Locate(req) => {
            assert_eq!(req.stops.len(), 3);
            assert_eq!(req.stops[0].stop_name, "T-Centralen");
            assert_eq!((req.lat, req.lng), (lat, lng));
        },
        Progress::Done(_) => panic!("stop detection did not ask"),
    }
    assert!(p.awaiting_location());
    match p.resume(Some(1)) {
        Progress::Done(Some(out)) => {
            let md = out.vehicle.unwrap().metadata.unwrap();
            assert_eq!(md.real_stop_times, Some(vec![None, Some(TS), None]));
        },
        _ => panic!("event did not finish"),
    }
    assert!(!p.awaiting_location());
}

#[test]
fn vehicles_without_metadata_are_not_located() {
    let mut p = StreamProcessor::default(table());
    let mut v = vehicle("bus1", TS, None);
    v.trip_id = Some("other".to_string());
    let (out, asked) = run_event(&mut p, v, Some(0));
    assert!(out.is_some());
    assert_eq!(asked, 0);
}
