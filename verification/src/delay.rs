//! Delay tracking: merging realtime trip updates into the per-stop delays
//! of a trip, and telling a vehicle the delay and stop sequence of the next
//! stop it has yet to pass.

use vstd::prelude::*;
use vstd::hash_map::StringHashMap;
use crate::text::{chars_of, string_from_chars, split_chars, split_spec, parse_unsigned, parse_unsigned_spec};
use crate::time::{DateTime, MIN_TIMESTAMP, MAX_TIMESTAMP, before, is_before, start_of_day, hour, hour_spec};
use crate::vehicle::{Stop, StopView, Vehicle, VehicleView, stops_view};

verus! {

/// A realtime update of one stop of a trip.
#[derive(Debug, Clone, Copy, PartialEq, Eq, Structural)]
pub struct StopTimeUpdate {
    pub stop_sequence: u32,
    pub delay_secs: Option<i32>,
}

/// Realtime updates of the stops of a trip.
#[derive(Debug)]
pub struct TripUpdate {
    pub trip_id: String,
    pub time_updates: Vec<StopTimeUpdate>,
}

/// An event of the delay-tracking stream.
#[derive(Debug)]
pub enum Event {
    Vehicle(Vehicle),
    TripUpdate(TripUpdate),
}

pub struct TripUpdateView {
    pub trip_id: Seq<char>,
    pub time_updates: Seq<StopTimeUpdate>,
}

pub enum EventView {
    Vehicle(VehicleView),
    TripUpdate(TripUpdateView),
}

impl View for Event {
    type V = EventView;

    open spec fn view(&self) -> EventView {
        match self {
            Event::Vehicle(v) => EventView::Vehicle(v@),
            Event::TripUpdate(u) => EventView::TripUpdate(
                TripUpdateView { trip_id: u.trip_id@, time_updates: u.time_updates@ },
            ),
        }
    }
}

/// The key under which the delays of a trip are stored.
pub open spec fn delay_key(trip_id: Seq<char>) -> Seq<char> {
    "delays:"@ + trip_id
}

/// Builds the storage key of a trip's delays.
pub fn make_delay_key(trip_id: &str) -> (r: String)
    ensures
        r@ == delay_key(trip_id@),
{
    let mut cs = chars_of("delays:");
    let t = chars_of(trip_id);
    let mut i: usize = 0;
    let ghost start = cs@;
    while i < t.len()
        invariant
            i <= t.len(),
            cs@ == start + t@.take(i as int),
        decreases t.len() - i,
    {
        cs.push(t[i]);
        assert(t@.take(i + 1) == t@.take(i as int).push(t@[i as int]));
        i = i + 1;
    }
    assert(t@.take(t.len() as int) == t@);
    string_from_chars(&cs)
}

// ---------------------------------------------------------------------------
// Trip updates

/// The value appended when the delays are extended: the last delay where
/// there are at least two, otherwise 0.
pub open spec fn fill_value(d: Seq<i32>) -> i32 {
    if d.len() > 1 {
        d.last()
    } else {
        0
    }
}

/// The delays extended with fill values until there are at least `target`.
pub open spec fn fill_to(d: Seq<i32>, target: int) -> Seq<i32>
    decreases target - d.len(),
{
    if d.len() >= target {
        d
    } else {
        fill_to(d.push(fill_value(d)), target)
    }
}

/// One stop-time update merged into the delays: the delays are extended up
/// to the stop before the updated one, and a reported delay is written at
/// the stop's position (stop sequences count from 1). None where the
/// processing aborts (a delay reported for stop sequence 0).
pub open spec fn apply_update(d: Seq<i32>, u: StopTimeUpdate) -> Option<Seq<i32>> {
    let d1 = fill_to(d, u.stop_sequence - 1);
    match u.delay_secs {
        None => Some(d1),
        Some(x) => if u.stop_sequence == 0 {
            None
        } else if d1.len() >= u.stop_sequence {
            Some(d1.update(u.stop_sequence - 1, x))
        } else {
            Some(d1.push(x))
        },
    }
}

/// The first `k` updates merged in order.
pub open spec fn apply_updates(d: Seq<i32>, ups: Seq<StopTimeUpdate>, k: nat) -> Option<Seq<i32>>
    decreases k,
{
    if k == 0 {
        Some(d)
    } else {
        match apply_updates(d, ups, (k - 1) as nat) {
            None => None,
            Some(d1) => apply_update(d1, ups[k - 1]),
        }
    }
}

/// The delays of a trip with `num_stops` stops after a trip update: the
/// stored delays (none where nothing is stored), every update merged in
/// order, then extended to the trip's stop count.
pub open spec fn merged_delays(stored: Option<Seq<i32>>, ups: Seq<StopTimeUpdate>, num_stops: nat) -> Option<Seq<i32>> {
    let d = match stored {
        Some(s) => s,
        None => Seq::<i32>::empty(),
    };
    match apply_updates(d, ups, ups.len()) {
        None => None,
        Some(d1) => Some(fill_to(d1, num_stops as int)),
    }
}

proof fn lemma_fill_to(d: Seq<i32>, target: int)
    ensures
        fill_to(d, target).len() >= target,
        fill_to(d, target).len() >= d.len(),
        fill_to(d, target).len() == if d.len() >= target { d.len() as int } else { target },
        fill_to(d, target).take(d.len() as int) == d,
    decreases target - d.len(),
{
    if d.len() < target {
        let e = d.push(fill_value(d));
        lemma_fill_to(e, target);
        assert(fill_to(e, target).take(d.len() as int) == fill_to(e, target).take(e.len() as int).take(d.len() as int));
        assert(e.take(d.len() as int) == d);
    } else {
        assert(d.take(d.len() as int) == d);
    }
}

/// Extends the delays with fill values until there are at least `target`.
fn fill(d: &mut Vec<i32>, target: usize)
    ensures
        final(d)@ == fill_to(old(d)@, target as int),
{
    while d.len() < target
        invariant
            fill_to(d@, target as int) == fill_to(old(d)@, target as int),
        decreases target - d.len(),
    {
        let v = if d.len() > 1 {
            d[d.len() - 1]
        } else {
            0
        };
        d.push(v);
    }
}

// ---------------------------------------------------------------------------
// Vehicles

/// Field `i` of a clock time split on ':', read as a `u32`; 0 where it is
/// missing or not a number.
pub open spec fn clock_field(parts: Seq<Seq<char>>, i: int) -> nat {
    if i < parts.len() {
        match parse_unsigned_spec(parts[i], 4294967295) {
            Some(v) => v,
            None => 0,
        }
    } else {
        0
    }
}

/// `dt` moved by `k` seconds, or `dt` itself where the result would leave
/// the dates chrono represents. (`dt` has no leap-second part.)
pub open spec fn shifted(dt: DateTime, k: int) -> DateTime {
    if MIN_TIMESTAMP <= dt.seconds + k <= MAX_TIMESTAMP {
        DateTime { seconds: (dt.seconds + k) as i64, nanos: dt.nanos }
    } else {
        dt
    }
}

/// The time at which a stop with scheduled time `arrival` ("H:M:S") is
/// expected on the local clock reading `now` (a wall-clock date-time with
/// no time zone, so every day has 86400 seconds and no local time is
/// skipped or repeated), with the stop's delay applied:
/// hours past 24 move to the next day when it is afternoon now; the hour is
/// taken modulo 24; a minute or second of 60 or more keeps the clock's
/// own; the sub-second part is cleared; the delay is added in seconds.
pub open spec fn stop_time_spec(now: DateTime, arrival: Seq<char>, delay: i32) -> DateTime {
    let parts = split_spec(arrival, ':');
    let h = clock_field(parts, 0);
    let m = clock_field(parts, 1);
    let s = clock_field(parts, 2);
    let base = if h > 24 && hour_spec(now) > 12 {
        shifted(now, 86400)
    } else {
        now
    };
    let day = (base.seconds as int / 86400) * 86400;
    let tod = base.seconds - day;
    let hh = h % 24;
    let mm = if m < 60 {
        m as int
    } else {
        (tod % 3600) / 60
    };
    let ss = if s < 60 {
        s as int
    } else {
        tod % 60
    };
    shifted(DateTime { seconds: (day + hh * 3600 + mm * 60 + ss) as i64, nanos: 0 }, delay as int)
}

/// The scan over the first `k` stops: whether the previous stop was passed,
/// the delay and stop sequence reported so far, and the last stop's time.
/// The first stop not yet passed after a passed stop (or the first stop, if
/// it is not yet passed) reports its delay and stop sequence.
pub open spec fn scan(
    stops: Seq<StopView>,
    delays: Seq<i32>,
    now: DateTime,
    delay0: Option<i32>,
    seq0: Option<u16>,
    k: nat,
) -> (bool, Option<i32>, Option<u16>, DateTime)
    decreases k,
{
    if k == 0 {
        (true, delay0, seq0, now)
    } else {
        let prev = scan(stops, delays, now, delay0, seq0, (k - 1) as nat);
        let t = stop_time_spec(now, stops[k - 1].arrival_time, delays[k - 1]);
        if before(t, now) {
            (true, prev.1, prev.2, t)
        } else if prev.0 {
            (false, Some(delays[k - 1]), Some(stops[k - 1].stop_sequence), t)
        } else {
            (false, prev.1, prev.2, t)
        }
    }
}

/// The delay and stop sequence a vehicle reports: those of the scan, unless
/// even the last stop's time has passed, in which case the trip has ended:
/// the last stored delay and one past the last stop's sequence. None where
/// processing aborts (fewer stored delays than stops, or a last stop
/// sequence of 65535).
pub open spec fn vehicle_delay_spec(
    stops: Seq<StopView>,
    delays: Seq<i32>,
    now: DateTime,
    delay0: Option<i32>,
    seq0: Option<u16>,
) -> Option<(Option<i32>, Option<u16>)> {
    if delays.len() < stops.len() {
        None
    } else {
        let r = scan(stops, delays, now, delay0, seq0, stops.len());
        if before(r.3, now) {
            if stops.last().stop_sequence == 65535 {
                None
            } else {
                Some((Some(delays.last()), Some((stops.last().stop_sequence + 1) as u16)))
            }
        } else {
            Some((r.1, r.2))
        }
    }
}


/// Merges one stop-time update into the delays (see `apply_update`).
fn merge_update(d: &mut Vec<i32>, u: StopTimeUpdate) -> (ok: bool)
    ensures
        match apply_update(old(d)@, u) {
            None => !ok,
            Some(x) => ok && final(d)@ == x,
        },
{
    if u.stop_sequence > 0 {
        fill(d, (u.stop_sequence - 1) as usize);
    }
    proof {
        if u.stop_sequence == 0 {
            assert(fill_to(old(d)@, -1) == old(d)@);
        }
        lemma_fill_to(old(d)@, u.stop_sequence - 1);
    }
    match u.delay_secs {
        None => true,
        Some(x) => {
            if u.stop_sequence == 0 {
                false
            } else if d.len() >= u.stop_sequence as usize {
                d.set((u.stop_sequence - 1) as usize, x);
                true
            } else {
                d.push(x);
                true
            }
        },
    }
}

/// Field `i` of a clock time split on ':'.
fn clock_field_exec(parts: &Vec<Vec<char>>, i: usize) -> (r: u32)
    ensures
        r as nat == clock_field(parts@.map_values(|p: Vec<char>| p@), i as int),
{
    if i < parts.len() {
        assert(parts@.map_values(|p: Vec<char>| p@)[i as int] == parts@[i as int]@);
        match parse_unsigned(&parts[i], 4294967295u32) {
            Some(v) => v,
            None => 0,
        }
    } else {
        0
    }
}

/// `dt` moved by `k` seconds (see `shifted`).
fn shift(dt: DateTime, k: i64) -> (r: DateTime)
    requires
        MIN_TIMESTAMP <= dt.seconds <= MAX_TIMESTAMP,
        -4294967296 <= k <= 4294967296,
    ensures
        r == shifted(dt, k as int),
        MIN_TIMESTAMP <= r.seconds <= MAX_TIMESTAMP,
{
    let t = dt.seconds + k;
    if MIN_TIMESTAMP <= t && t <= MAX_TIMESTAMP {
        DateTime { seconds: t, nanos: dt.nanos }
    } else {
        dt
    }
}

/// The expected time of a stop (see `stop_time_spec`).
fn stop_time(now: DateTime, arrival: &str, delay: i32) -> (r: DateTime)
    requires
        MIN_TIMESTAMP <= now.seconds <= MAX_TIMESTAMP,
    ensures
        r == stop_time_spec(now, arrival@, delay),
        MIN_TIMESTAMP <= r.seconds <= MAX_TIMESTAMP,
{
    let cs = chars_of(arrival);
    let parts = split_chars(&cs, ':');
    let ghost pv = parts@.map_values(|p: Vec<char>| p@);
    assert(pv =~= split_spec(arrival@, ':'));
    let h = clock_field_exec(&parts, 0);
    let m = clock_field_exec(&parts, 1);
    let s = clock_field_exec(&parts, 2);
    let base = if h > 24 && hour(now) > 12 {
        shift(now, 86400)
    } else {
        now
    };
    let day = start_of_day(base.seconds);
    let tod = base.seconds - day;
    let hh: i64 = (h % 24) as i64;
    let mm: i64 = if m < 60 {
        m as i64
    } else {
        (tod % 3600) / 60
    };
    let ss: i64 = if s < 60 {
        s as i64
    } else {
        tod % 60
    };
    assert(day + 86399 <= MAX_TIMESTAMP) by (nonlinear_arith)
        requires
            day as int == (base.seconds as int / 86400) * 86400,
            base.seconds <= MAX_TIMESTAMP,
    {
        let q = base.seconds as int / 86400;
        assert(q <= 95026236);
    }
    let t = DateTime { seconds: day + hh * 3600 + mm * 60 + ss, nanos: 0 };
    shift(t, delay as i64)
}

/// The delay and stop sequence a vehicle reports (see `vehicle_delay_spec`).
fn vehicle_delay(
    stops: &Vec<Stop>,
    delays: &Vec<i32>,
    now: DateTime,
    delay0: Option<i32>,
    seq0: Option<u16>,
) -> (r: Option<(Option<i32>, Option<u16>)>)
    requires
        MIN_TIMESTAMP <= now.seconds <= MAX_TIMESTAMP,
    ensures
        r == vehicle_delay_spec(stops_view(stops@), delays@, now, delay0, seq0),
{
    let ghost sv = stops_view(stops@);
    let n = stops.len();
    if delays.len() < n {
        return None;
    }
    let mut reached_previous = true;
    let mut delay = delay0;
    let mut stop_seq = seq0;
    let mut last = now;
    let mut i: usize = 0;
    while i < n
        invariant
            i <= n,
            n == stops@.len(),
            n <= delays@.len(),
            sv == stops_view(stops@),
            MIN_TIMESTAMP <= now.seconds <= MAX_TIMESTAMP,
            scan(sv, delays@, now, delay0, seq0, i as nat) == (reached_previous, delay, stop_seq, last),
        decreases n - i,
    {
        let t = stop_time(now, stops[i].arrival_time.as_str(), delays[i]);
        assert(sv[i as int].arrival_time == stops@[i as int].arrival_time@);
        if is_before(t, now) {
            reached_previous = true;
        } else if reached_previous {
            reached_previous = false;
            delay = Some(delays[i]);
            stop_seq = Some(stops[i].stop_sequence);
        } else {
            reached_previous = false;
        }
        last = t;
        i = i + 1;
    }
    if is_before(last, now) {
        let last_seq = stops[n - 1].stop_sequence;
        if last_seq == 65535 {
            return None;
        }
        Some((Some(delays[delays.len() - 1]), Some(last_seq + 1)))
    } else {
        Some((delay, stop_seq))
    }
}

/// What delay tracking does with an event, given the stop counts it has
/// seen per trip, the delays stored for the event's trip (None where none
/// could be read) and the local clock: the new stop counts, the event, whether
/// it is kept, and the delays to store under the trip's key. None where the
/// processing aborts.
///
/// A vehicle with a trip, metadata and stops records its trip's stop count
/// and reports its delay and stop sequence (see `vehicle_delay_spec`, with
/// all-zero delays where none are stored); other vehicles pass unchanged.
/// A trip update of a trip whose stop count is known stores the merged
/// delays (see `merged_delays`); trip updates are never passed on.
pub open spec fn delay_step_spec(
    state: Map<Seq<char>, usize>,
    e: EventView,
    stored: Option<Seq<i32>>,
    now: DateTime,
) -> Option<(Map<Seq<char>, usize>, EventView, bool, Option<(Seq<char>, Seq<i32>)>)> {
    match e {
        EventView::Vehicle(v) => match (v.trip_id, v.metadata) {
            (Some(trip), Some(md)) => match md.stops {
                Some(stops) => {
                    let delays = match stored {
                        Some(d) => d,
                        None => Seq::new(stops.len(), |i: int| 0i32),
                    };
                    match vehicle_delay_spec(stops, delays, now, v.delay, v.stop_seq) {
                        None => None,
                        Some(r) => Some(
                            (
                                state.insert(trip, stops.len() as usize),
                                EventView::Vehicle(VehicleView { delay: r.0, stop_seq: r.1, ..v }),
                                true,
                                None,
                            ),
                        ),
                    }
                },
                None => Some((state, e, true, None)),
            },
            _ => Some((state, e, true, None)),
        },
        EventView::TripUpdate(u) => if state.contains_key(u.trip_id) {
            match merged_delays(stored, u.time_updates, state[u.trip_id] as nat) {
                None => None,
                Some(d) => Some((state, e, false, Some((delay_key(u.trip_id), d)))),
            }
        } else {
            Some((state, e, false, None))
        },
    }
}

/// The trip whose stored delays delay tracking reads for an event, if any.
pub open spec fn delay_read_trip(state: Map<Seq<char>, usize>, e: EventView) -> Option<Seq<char>> {
    match e {
        EventView::Vehicle(v) => match (v.trip_id, v.metadata) {
            (Some(trip), Some(md)) => if md.stops is Some {
                Some(trip)
            } else {
                None
            },
            _ => None,
        },
        EventView::TripUpdate(u) => if state.contains_key(u.trip_id) {
            Some(u.trip_id)
        } else {
            None
        },
    }
}

/// Seconds for which stored delays are kept before they expire.
pub const DELAY_EXPIRY_SECS: u64 = 1000;

/// What one event yields: whether it is passed on, and the delays to store
/// under a key (for `DELAY_EXPIRY_SECS`).
pub struct DelayOutcome {
    pub keep: bool,
    pub store: Option<(String, Vec<i32>)>,
}

/// Tracks the delays of trips.
pub struct DelayProcessor {
    number_of_stops: StringHashMap<usize>,
}

impl View for DelayProcessor {
    type V = Map<Seq<char>, usize>;

    closed spec fn view(&self) -> Map<Seq<char>, usize> {
        self.number_of_stops@
    }
}

impl DelayProcessor {
    pub fn init() -> (r: Self)
        ensures
            r@ == Map::<Seq<char>, usize>::empty(),
    {
        DelayProcessor { number_of_stops: StringHashMap::new() }
    }

    /// The storage key whose delays `apply` needs for the event, if any.
    pub fn read_key(&self, event: &Event) -> (r: Option<String>)
        ensures
            match delay_read_trip(self@, event@) {
                Some(t) => r matches Some(k) && k@ == delay_key(t),
                None => r is None,
            },
    {
        match event {
            Event::Vehicle(v) => match (&v.trip_id, &v.metadata) {
                (Some(trip), Some(md)) => if md.stops.is_some() {
                    Some(make_delay_key(trip.as_str()))
                } else {
                    None
                },
                _ => None,
            },
            Event::TripUpdate(u) => if self.number_of_stops.contains_key(u.trip_id.as_str()) {
                Some(make_delay_key(u.trip_id.as_str()))
            } else {
                None
            },
        }
    }

    /// Applies delay tracking to an event (see `delay_step_spec`); `stored`
    /// holds the delays read under `read_key`, `now` the local clock. None
    /// where processing aborts.
    pub fn apply(&mut self, event: &mut Event, stored: Option<Vec<i32>>, now: DateTime) -> (r: Option<DelayOutcome>)
        requires
            MIN_TIMESTAMP <= now.seconds <= MAX_TIMESTAMP,
        ensures
            match delay_step_spec(
                old(self)@,
                old(event)@,
                match stored {
                    Some(d) => Some(d@),
                    None => None,
                },
                now,
            ) {
                None => r is None,
                Some(x) => {
                    &&& r matches Some(out)
                    &&& final(self)@ == x.0
                    &&& final(event)@ == x.1
                    &&& out.keep == x.2
                    &&& match (out.store, x.3) {
                        (Some(st), Some(sx)) => st.0@ == sx.0 && st.1@ == sx.1,
                        (None, None) => true,
                        _ => false,
                    }
                },
            },
    {
        let ghost stored_view = match &stored {
            Some(d) => Some(d@),
            None => None,
        };
        let ghost event0 = event@;
        match event {
            Event::Vehicle(v) => {
                let trip = match &v.trip_id {
                    Some(t) => t.clone(),
                    None => return Some(DelayOutcome { keep: true, store: None }),
                };
                let result = match &v.metadata {
                    None => return Some(DelayOutcome { keep: true, store: None }),
                    Some(md) => match &md.stops {
                        None => return Some(DelayOutcome { keep: true, store: None }),
                        Some(stops) => {
                            let delays = match stored {
                                Some(d) => d,
                                None => vec![0i32; stops.len()],
                            };
                            proof {
                                assert(stored is None ==> delays@ =~= Seq::new(stops@.len(), |i: int| 0i32));
                            }
                            let r = vehicle_delay(stops, &delays, now, v.delay, v.stop_seq);
                            match r {
                                None => return None,
                                Some(x) => (x, stops.len()),
                            }
                        },
                    },
                };
                self.number_of_stops.insert(trip, result.1);
                v.delay = (result.0).0;
                v.stop_seq = (result.0).1;
                Some(DelayOutcome { keep: true, store: None })
            },
            Event::TripUpdate(u) => {
                let num_stops = match self.number_of_stops.get(u.trip_id.as_str()) {
                    None => return Some(DelayOutcome { keep: false, store: None }),
                    Some(n) => *n,
                };
                let mut delays = match stored {
                    Some(d) => d,
                    None => Vec::new(),
                };
                let ghost d0 = delays@;
                let mut i: usize = 0;
                while i < u.time_updates.len()
                    invariant
                        i <= u.time_updates.len(),
                        apply_updates(d0, u.time_updates@, i as nat) == Some(delays@),
                        d0 == match stored_view {
                            Some(d) => d,
                            None => Seq::<i32>::empty(),
                        },
                        event0 == old(event)@,
                        stored_view == match stored {
                            Some(d) => Some(d@),
                            None => None,
                        },
                        event0 == EventView::TripUpdate(TripUpdateView { trip_id: u.trip_id@, time_updates: u.time_updates@ }),
                        self@ == old(self)@,
                        self@.contains_key(u.trip_id@),
                        self@[u.trip_id@] == num_stops,
                    decreases u.time_updates.len() - i,
                {
                    if !merge_update(&mut delays, u.time_updates[i]) {
                        proof {
                            lemma_updates_none(d0, u.time_updates@, (i + 1) as nat, u.time_updates@.len());
                        }
                        return None;
                    }
                    i = i + 1;
                }
                fill(&mut delays, num_stops);
                let key = make_delay_key(u.trip_id.as_str());
                Some(DelayOutcome { keep: false, store: Some((key, delays)) })
            },
        }
    }
}

/// Merging a trip update leaves at least one delay per stop of the trip.
pub proof fn lemma_merged_covers_stops(stored: Option<Seq<i32>>, ups: Seq<StopTimeUpdate>, num_stops: nat)
    ensures
        merged_delays(stored, ups, num_stops) matches Some(d) ==> d.len() >= num_stops,
{
    let d = match stored {
        Some(s) => s,
        None => Seq::<i32>::empty(),
    };
    if let Some(d1) = apply_updates(d, ups, ups.len()) {
        lemma_fill_to(d1, num_stops as int);
    }
}

/// Merging an update keeps every earlier delay except the one it writes,
/// and never shortens the delays.
proof fn lemma_update_keeps(d: Seq<i32>, u: StopTimeUpdate, i: int)
    requires
        apply_update(d, u) is Some,
        0 <= i < d.len(),
        !(u.delay_secs is Some && i == u.stop_sequence - 1),
    ensures
        apply_update(d, u)->0.len() >= d.len(),
        apply_update(d, u)->0[i] == d[i],
{
    lemma_fill_to(d, u.stop_sequence - 1);
    let d1 = fill_to(d, u.stop_sequence - 1);
    assert(d1[i] == d1.take(d.len() as int)[i]);
}

/// Merging an update that reports a delay writes it at the stop's position.
proof fn lemma_update_writes(d: Seq<i32>, u: StopTimeUpdate, x: i32)
    requires
        apply_update(d, u) is Some,
        u.delay_secs == Some(x),
    ensures
        u.stop_sequence >= 1,
        apply_update(d, u)->0.len() >= u.stop_sequence,
        apply_update(d, u)->0[u.stop_sequence - 1] == x,
{
    lemma_fill_to(d, u.stop_sequence - 1);
}

proof fn lemma_updates_prefix_some(d: Seq<i32>, ups: Seq<StopTimeUpdate>, k: nat, m: nat)
    requires
        apply_updates(d, ups, m) is Some,
        k <= m,
    ensures
        apply_updates(d, ups, k) is Some,
    decreases m - k,
{
    if k < m {
        lemma_updates_prefix_some(d, ups, k, (m - 1) as nat);
    }
}

/// The delay a trip update reports for a stop is what the merged delays
/// hold at that stop's position, unless a later update of the same trip
/// update reports another delay for the same stop.
pub proof fn lemma_last_write_wins(
    stored: Option<Seq<i32>>,
    ups: Seq<StopTimeUpdate>,
    num_stops: nat,
    k: int,
    x: i32,
)
    requires
        0 <= k < ups.len(),
        ups[k].delay_secs == Some(x),
        forall|j: int| k < j < ups.len() ==> !(#[trigger] ups[j].stop_sequence == ups[k].stop_sequence
            && ups[j].delay_secs is Some),
    ensures
        merged_delays(stored, ups, num_stops) matches Some(d) ==> ups[k].stop_sequence >= 1 && d.len()
            >= ups[k].stop_sequence && d[ups[k].stop_sequence - 1] == x,
{
    let d0 = match stored {
        Some(s) => s,
        None => Seq::<i32>::empty(),
    };
    if let Some(dn) = apply_updates(d0, ups, ups.len()) {
        let p = ups[k].stop_sequence - 1;
        lemma_updates_prefix_some(d0, ups, (k + 1) as nat, ups.len());
        lemma_updates_prefix_some(d0, ups, k as nat, ups.len());
        let dk = apply_updates(d0, ups, k as nat)->0;
        lemma_update_writes(dk, ups[k], x);
        lemma_later_keep(d0, ups, k, p, x, ups.len());
        lemma_fill_to(dn, num_stops as int);
        let f = fill_to(dn, num_stops as int);
        assert(f[p] == f.take(dn.len() as int)[p]);
    }
}

/// A delay written by update `k` of a trip update stays through the later
/// updates that report no delay for the same stop.
pub proof fn lemma_later_keep(d0: Seq<i32>, ups: Seq<StopTimeUpdate>, k: int, p: int, x: i32, m: nat)
    requires
        0 <= k < m <= ups.len(),
        p == ups[k].stop_sequence - 1,
        apply_updates(d0, ups, ups.len()) is Some,
        apply_updates(d0, ups, (k + 1) as nat) matches Some(dk) && 0 <= p < dk.len() && dk[p] == x,
        forall|j: int| k < j < ups.len() ==> !(#[trigger] ups[j].stop_sequence == ups[k].stop_sequence
            && ups[j].delay_secs is Some),
    ensures
        apply_updates(d0, ups, m) matches Some(dm) && 0 <= p < dm.len() && dm[p] == x,
    decreases m - k,
{
    if m > k + 1 {
        lemma_later_keep(d0, ups, k, p, x, (m - 1) as nat);
        lemma_updates_prefix_some(d0, ups, m, ups.len());
        let prev = apply_updates(d0, ups, (m - 1) as nat)->0;
        let u = ups[m - 1];
        assert(!(u.stop_sequence == ups[k].stop_sequence && u.delay_secs is Some));
        lemma_update_keeps(prev, u, p);
    }
}

/// The first `m` updates keep every delay they report none for.
proof fn lemma_updates_keep(d0: Seq<i32>, ups: Seq<StopTimeUpdate>, m: nat, i: int)
    requires
        m <= ups.len(),
        apply_updates(d0, ups, m) is Some,
        0 <= i < d0.len(),
        forall|j: int| 0 <= j < ups.len() ==> !(#[trigger] ups[j].delay_secs is Some && ups[j].stop_sequence - 1 == i),
    ensures
        apply_updates(d0, ups, m) matches Some(dm) && i < dm.len() && dm[i] == d0[i],
    decreases m,
{
    if m > 0 {
        lemma_updates_keep(d0, ups, (m - 1) as nat, i);
        let prev = apply_updates(d0, ups, (m - 1) as nat)->0;
        let u = ups[m - 1];
        assert(!(u.delay_secs is Some && u.stop_sequence - 1 == i));
        lemma_update_keeps(prev, u, i);
    }
}

/// Merging a trip update into stored delays keeps every stored delay that
/// no update of it reports a delay for.
pub proof fn lemma_stored_delays_kept(stored: Seq<i32>, ups: Seq<StopTimeUpdate>, num_stops: nat, i: int)
    requires
        0 <= i < stored.len(),
        forall|j: int| 0 <= j < ups.len() ==> !(#[trigger] ups[j].delay_secs is Some && ups[j].stop_sequence - 1 == i),
    ensures
        merged_delays(Some(stored), ups, num_stops) matches Some(d) ==> i < d.len() && d[i] == stored[i],
{
    if let Some(dn) = apply_updates(stored, ups, ups.len()) {
        lemma_updates_keep(stored, ups, ups.len(), i);
        lemma_fill_to(dn, num_stops as int);
        let f = fill_to(dn, num_stops as int);
        assert(f[i] == f.take(dn.len() as int)[i]);
    }
}


proof fn lemma_updates_none(d: Seq<i32>, ups: Seq<StopTimeUpdate>, k: nat, m: nat)
    requires
        apply_updates(d, ups, k) is None,
        k <= m,
    ensures
        apply_updates(d, ups, m) is None,
    decreases m - k,
{
    if k < m {
        lemma_updates_none(d, ups, k, (m - 1) as nat);
    }
}

/// The delays that extending adds: 0 while fewer than two delays exist to
/// copy from, otherwise copies of the last delay.
pub proof fn lemma_fill_values(d: Seq<i32>, target: int, i: int)
    requires
        d.len() <= i < fill_to(d, target).len(),
    ensures
        fill_to(d, target)[i] == if d.len() >= 2 {
            d.last()
        } else {
            0i32
        },
    decreases target - d.len(),
{
    lemma_fill_to(d, target);
    if d.len() < target {
        let e = d.push(fill_value(d));
        lemma_fill_to(e, target);
        if i == d.len() {
            assert(fill_to(e, target)[i] == fill_to(e, target).take(e.len() as int)[i]);
        } else {
            lemma_fill_values(e, target, i);
        }
    }
}

/// Once even the last stop's expected time (its schedule on the clock of
/// `now`, with its stored delay) lies before now, the trip has ended: the
/// vehicle reports the last stored delay and one past the last stop's
/// sequence.
pub proof fn lemma_trip_end_reports_last_delay(
    stops: Seq<StopView>,
    delays: Seq<i32>,
    now: DateTime,
    delay0: Option<i32>,
    seq0: Option<u16>,
)
    requires
        stops.len() >= 1,
        delays.len() >= stops.len(),
        stops.last().stop_sequence < 65535,
        before(stop_time_spec(now, stops.last().arrival_time, delays[stops.len() - 1]), now),
    ensures
        vehicle_delay_spec(stops, delays, now, delay0, seq0) == Some(
            (Some(delays.last()), Some((stops.last().stop_sequence + 1) as u16)),
        ),
{
}

/// Merging a trip update keeps the merged delays, then extends them to the
/// trip's stop count with copies of the last delay where there are at least
/// two, and with 0 otherwise.
pub proof fn lemma_merged_extension(stored: Option<Seq<i32>>, ups: Seq<StopTimeUpdate>, num_stops: nat)
    ensures
        merged_delays(stored, ups, num_stops) matches Some(m) ==> {
            let d1 = apply_updates(
                match stored {
                    Some(s) => s,
                    None => Seq::<i32>::empty(),
                },
                ups,
                ups.len(),
            )->0;
            &&& m.len() == if d1.len() >= num_stops { d1.len() } else { num_stops }
            &&& forall|i: int| 0 <= i < d1.len() ==> #[trigger] m[i] == d1[i]
            &&& forall|i: int| d1.len() <= i < num_stops ==> #[trigger] m[i] == if d1.len() >= 2 {
                d1.last()
            } else {
                0i32
            }
        },
{
    let d = match stored {
        Some(s) => s,
        None => Seq::<i32>::empty(),
    };
    if let Some(d1) = apply_updates(d, ups, ups.len()) {
        let m = fill_to(d1, num_stops as int);
        lemma_fill_to(d1, num_stops as int);
        assert forall|i: int| 0 <= i < d1.len() implies #[trigger] m[i] == d1[i] by {
            assert(m[i] == m.take(d1.len() as int)[i]);
        }
        assert forall|i: int| d1.len() <= i < num_stops implies #[trigger] m[i] == if d1.len() >= 2 {
            d1.last()
        } else {
            0i32
        } by {
            lemma_fill_values(d1, num_stops as int, i);
        }
    }
}

} // verus!
