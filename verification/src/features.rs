//! Turning a metro trip into the token sequences of the arrival-time model:
//! the scheduled stop times, the delay between consecutive reached stops,
//! padding, and the comma-separated wire format.

use vstd::prelude::*;
use vstd::hash_map::StringHashMap;
use vstd::hash_set::StringHashSet;
use vstd::string::StringSliceAdditionalSpecFns;
use crate::text::{chars_of, starts_with_pair, decimal, push_decimal, push_utf8};
use crate::time::{
    DateTime, MIN_TIMESTAMP, MAX_TIMESTAMP, before, is_before, day_start, day_start_spec,
    day_earlier, day_earlier_spec, hms_parse, parse_hms, plain_hms, weekday_spec, hour_spec,
};
use crate::tokens::{
    Token, tokenize_route, tokenize_stop_name, tokenize_time, tokenize_time_delta,
    time_delta_token, route_ids_spec, route_token_spec, stop_names_spec, stop_name_token_spec,
    token_values, START_TOKEN, PAD_TOKEN, SKIP_TOKEN, SEQUENCE_LEN, is_known_route, is_known_stop,
};
use crate::vehicle::{Stop, StopView, MetadataView, VehicleMetadata, Vehicle, VehicleView, stops_view};

verus! {

/// The GTFS route type of metro lines, the only ones the model covers.
pub const METRO_ROUTE_TYPE: u64 = 401;

/// A scheduled time written past midnight ("24:..." through "30:..."), which
/// the feature pipeline does not handle.
pub open spec fn after_midnight(s: Seq<char>) -> bool {
    &&& s.len() >= 2
    &&& {
        ||| s[0] == '2' && s[1] == '4'
        ||| s[0] == '2' && s[1] == '5'
        ||| s[0] == '2' && s[1] == '6'
        ||| s[0] == '2' && s[1] == '7'
        ||| s[0] == '2' && s[1] == '8'
        ||| s[0] == '2' && s[1] == '9'
        ||| s[0] == '3' && s[1] == '0'
    }
}

/// Some stop of the trip is scheduled past midnight.
pub open spec fn any_after_midnight(stops: Seq<StopView>) -> bool {
    exists|i: int| 0 <= i < stops.len() && after_midnight(#[trigger] stops[i].arrival_time)
}

/// Whether some stop's arrival time is written past midnight.
pub fn has_after_midnight(stops: &Vec<Stop>) -> (r: bool)
    ensures
        r == any_after_midnight(stops_view(stops@)),
{
    let mut i: usize = 0;
    while i < stops.len()
        invariant
            i <= stops.len(),
            forall|k: int| 0 <= k < i ==> !after_midnight(#[trigger] stops_view(stops@)[k].arrival_time),
        decreases stops.len() - i,
    {
        let a = chars_of(stops[i].arrival_time.as_str());
        let late = starts_with_pair(&a, '2', '4') || starts_with_pair(&a, '2', '5')
            || starts_with_pair(&a, '2', '6') || starts_with_pair(&a, '2', '7')
            || starts_with_pair(&a, '2', '8') || starts_with_pair(&a, '2', '9')
            || starts_with_pair(&a, '3', '0');
        assert(stops_view(stops@)[i as int].arrival_time == a@);
        if late {
            return true;
        }
        i = i + 1;
    }
    false
}

/// Every stop's arrival time parses as "%H:%M:%S".
pub open spec fn all_times_parse(stops: Seq<StopView>) -> bool {
    forall|i: int| 0 <= i < stops.len() ==> (#[trigger] hms_parse(stops[i].arrival_time)) is Some
}

/// The whole seconds since midnight of a parsed time of day.
pub open spec fn parsed_seconds(s: Seq<char>) -> int {
    match hms_parse(s) {
        Some(t) => t.0 as int,
        None => 0,
    }
}

/// The sub-second part of a parsed time of day.
pub open spec fn parsed_nanos(s: Seq<char>) -> u32 {
    match hms_parse(s) {
        Some(t) => t.1,
        None => 0,
    }
}

/// The scheduled arrivals placed on the day starting at second `day`.
pub open spec fn initial_schedule(day: int, stops: Seq<StopView>) -> Seq<DateTime> {
    Seq::new(
        stops.len(),
        |i: int|
            DateTime {
                seconds: (day + parsed_seconds(stops[i].arrival_time)) as i64,
                nanos: parsed_nanos(stops[i].arrival_time),
            },
    )
}

/// The schedule after `k` steps of the midnight fix, which walks from the
/// last stop backwards and moves a stop one day earlier whenever the stop
/// after it is scheduled before it. None where a date would leave chrono's
/// range.
pub open spec fn rolled(s: Seq<DateTime>, k: nat) -> Option<Seq<DateTime>>
    decreases k,
{
    if k == 0 {
        Some(s)
    } else {
        match rolled(s, (k - 1) as nat) {
            None => None,
            Some(t) => {
                let i = s.len() - k;
                if i >= 1 && before(t[i], t[i - 1]) {
                    match day_earlier_spec(t[i - 1]) {
                        None => None,
                        Some(e) => Some(t.update(i - 1, e)),
                    }
                } else {
                    Some(t)
                }
            },
        }
    }
}

/// The scheduled arrival date-times of the stops of a trip observed at Unix
/// time `ts`: each arrival placed on the day of `ts`, then stops before a
/// midnight crossing moved to the day before. None where processing
/// aborts (a time that does not parse, a date out of chrono's range).
pub open spec fn schedule_spec(ts: u64, stops: Seq<StopView>) -> Option<Seq<DateTime>> {
    match day_start_spec(ts) {
        None => None,
        Some(day) => if !all_times_parse(stops) {
            None
        } else if stops.len() == 0 {
            Some(Seq::<DateTime>::empty())
        } else {
            rolled(initial_schedule(day, stops), (stops.len() - 1) as nat)
        },
    }
}

pub open spec fn in_range(s: Seq<DateTime>) -> bool {
    forall|i: int| 0 <= i < s.len() ==> MIN_TIMESTAMP <= #[trigger] s[i].seconds <= MAX_TIMESTAMP
}

/// Computes the scheduled arrival date-times of a trip observed at `ts`.
pub fn schedule(ts: u64, stops: &Vec<Stop>) -> (r: Option<Vec<DateTime>>)
    ensures
        match schedule_spec(ts, stops_view(stops@)) {
            None => r is None,
            Some(s) => r matches Some(v) && v@ == s && in_range(s) && s.len() == stops@.len(),
        },
{
    let ghost sv = stops_view(stops@);
    let day = match day_start(ts) {
        None => return None,
        Some(d) => d,
    };
    assert(MIN_TIMESTAMP <= day && day <= MAX_TIMESTAMP - 86399) by (nonlinear_arith)
        requires
            day as int == (ts as i64 as int / 86400) * 86400,
            MIN_TIMESTAMP <= ts as i64 <= MAX_TIMESTAMP,
    ;
    let n = stops.len();
    let mut sched: Vec<DateTime> = Vec::new();
    let mut i: usize = 0;
    while i < n
        invariant
            i <= n,
            n == stops@.len(),
            sv == stops_view(stops@),
            MIN_TIMESTAMP <= day <= MAX_TIMESTAMP - 86399,
            day_start_spec(ts) == Some(day as int),
            forall|k: int| 0 <= k < i ==> (#[trigger] hms_parse(sv[k].arrival_time)) is Some,
            sched@ == initial_schedule(day as int, sv).take(i as int),
            in_range(sched@),
        decreases n - i,
    {
        let parsed = parse_hms(stops[i].arrival_time.as_str());
        assert(sv[i as int].arrival_time == stops@[i as int].arrival_time@);
        match parsed {
            None => {
                assert(!all_times_parse(sv));
                return None;
            },
            Some(t) => {
                sched.push(DateTime { seconds: day + t.0 as i64, nanos: t.1 });
                assert(initial_schedule(day as int, sv).take(i + 1) =~= initial_schedule(
                    day as int,
                    sv,
                ).take(i as int).push(DateTime { seconds: (day + t.0) as i64, nanos: t.1 }));
            },
        }
        i = i + 1;
    }
    assert(all_times_parse(sv));
    assert(sched@ == initial_schedule(day as int, sv)) by {
        assert(initial_schedule(day as int, sv).take(n as int) =~= initial_schedule(day as int, sv));
    }
    if n == 0 {
        assert(sched@ =~= Seq::<DateTime>::empty());
        return Some(sched);
    }
    let ghost init = sched@;
    assert(schedule_spec(ts, sv) == rolled(init, (n - 1) as nat));
    let mut k: usize = 1;
    while k < n
        invariant
            1 <= k <= n,
            n == init.len(),
            init == initial_schedule(day as int, sv),
            sv == stops_view(stops@),
            schedule_spec(ts, sv) == rolled(init, (n - 1) as nat),
            rolled(init, (k - 1) as nat) == Some(sched@),
            sched@.len() == n,
            in_range(sched@),
        decreases n - k,
    {
        let j = n - k;
        if is_before(sched[j], sched[j - 1]) {
            match day_earlier(sched[j - 1]) {
                None => {
                    assert(rolled(init, k as nat) is None);
                    proof {
                        lemma_rolled_none(init, k as nat, (n - 1) as nat);
                    }
                    return None;
                },
                Some(e) => {
                    sched.set(j - 1, e);
                },
            }
        }
        k = k + 1;
    }
    Some(sched)
}

proof fn lemma_rolled_none(s: Seq<DateTime>, k: nat, m: nat)
    requires
        rolled(s, k) is None,
        k <= m,
    ensures
        rolled(s, m) is None,
    decreases m - k,
{
    if k < m {
        lemma_rolled_none(s, k, (m - 1) as nat);
    }
}


/// Every stop's name is one the model knows.
pub open spec fn all_stops_known(stops: Seq<StopView>) -> bool {
    forall|i: int| 0 <= i < stops.len() ==> stop_names_spec().contains(#[trigger] stops[i].stop_name)
}

/// The stop-name tokens of the stops of a trip.
pub open spec fn stop_tokens_spec(stops: Seq<StopView>) -> Seq<u64> {
    Seq::new(stops.len(), |i: int| stop_name_token_spec(stops[i].stop_name) as u64)
}

/// The scheduled arrivals as Unix times, one hour earlier than the
/// schedule's clock reads.
pub open spec fn stamps(sched: Seq<DateTime>) -> Seq<int> {
    Seq::new(sched.len(), |i: int| sched[i].seconds - 3600)
}

pub open spec fn fits_i64(x: int) -> bool {
    i64::MIN <= x <= i64::MAX
}

/// The tokens for the first `k` stops after the first one, and the delay
/// last observed. Each stop contributes its name token and then: the skip
/// token beyond the stop index `limit` (where one is given); otherwise the
/// token of the change of delay since the last reached stop, where the stop
/// at the same index in `rst` was reached, and the zero-change token where
/// it was not. None where processing aborts (an index past `rst`, a delay
/// out of the i64 range).
pub open spec fn body_spec(
    names: Seq<u64>,
    rst: Seq<Option<u64>>,
    stamps: Seq<int>,
    limit: Option<int>,
    k: nat,
) -> Option<(Seq<u64>, int)>
    decreases k,
{
    if k == 0 {
        Some((Seq::<u64>::empty(), 0))
    } else {
        match body_spec(names, rst, stamps, limit, (k - 1) as nat) {
            None => None,
            Some(acc) => {
                let j = k - 1;
                let toks = acc.0.push(names[j + 1]);
                if limit matches Some(h) && j > h {
                    Some((toks.push(SKIP_TOKEN), acc.1))
                } else if j >= rst.len() {
                    None
                } else {
                    match rst[j] {
                        None => Some((toks.push(15), acc.1)),
                        Some(rt) => {
                            let nd = (rt as i64) as int - stamps[j];
                            if !fits_i64(nd) || !fits_i64(nd - acc.1) {
                                None
                            } else {
                                Some((toks.push(time_delta_token(nd - acc.1)), nd))
                            }
                        },
                    }
                }
            },
        }
    }
}

/// The token sequence of a trip observed at `ts`, without end token or
/// padding: start token, route token, weekday and hour tokens of the first
/// scheduled arrival, the first stop's name with a zero change of delay, then
/// `body_spec` for the remaining stops. None where processing aborts.
pub open spec fn trip_tokens_spec(
    ts: u64,
    md: MetadataView,
    stops: Seq<StopView>,
    rst: Seq<Option<u64>>,
    limit: Option<int>,
) -> Option<Seq<u64>> {
    match schedule_spec(ts, stops) {
        None => None,
        Some(sched) => {
            if stops.len() == 0 || md.route_id is None || md.direction_id is None
                || !route_ids_spec().contains(md.route_id->0) || !all_stops_known(stops) {
                None
            } else {
                match body_spec(
                    stop_tokens_spec(stops),
                    rst,
                    stamps(sched),
                    limit,
                    (stops.len() - 1) as nat,
                ) {
                    None => None,
                    Some(b) => Some(
                        seq![
                            START_TOKEN,
                            route_token_spec(md.route_id->0, md.direction_id->0) as u64,
                            (150 + weekday_spec(sched[0])) as u64,
                            (157 + hour_spec(sched[0])) as u64,
                            stop_tokens_spec(stops)[0],
                            15u64,
                        ] + b.0,
                    ),
                }
            }
        },
    }
}

/// The stop-name tokens of all stops, or None where a name is unknown.
fn stop_tokens(stops: &Vec<Stop>) -> (r: Option<Vec<u64>>)
    ensures
        match r {
            Some(v) => all_stops_known(stops_view(stops@)) && v@ == stop_tokens_spec(stops_view(stops@)),
            None => !all_stops_known(stops_view(stops@)),
        },
{
    let ghost sv = stops_view(stops@);
    let mut out: Vec<u64> = Vec::new();
    let mut i: usize = 0;
    while i < stops.len()
        invariant
            i <= stops.len(),
            sv == stops_view(stops@),
            forall|k: int| 0 <= k < i ==> stop_names_spec().contains(#[trigger] sv[k].stop_name),
            out@ == stop_tokens_spec(sv).take(i as int),
        decreases stops.len() - i,
    {
        assert(sv[i as int].stop_name == stops@[i as int].stop_name@);
        if !is_known_stop(stops[i].stop_name.as_str()) {
            return None;
        }
        let t = tokenize_stop_name(stops[i].stop_name.as_str());
        out.push(t.0);
        assert(stop_tokens_spec(sv).take(i + 1) =~= stop_tokens_spec(sv).take(i as int).push(t.0));
        i = i + 1;
    }
    assert(stop_tokens_spec(sv).take(stops.len() as int) =~= stop_tokens_spec(sv));
    Some(out)
}

/// Computes the token sequence of a trip observed at `ts` (see
/// `trip_tokens_spec`); `limit` is the last stop index whose delays are
/// encoded, or None for all of them.
pub fn trip_tokens(
    ts: u64,
    md: &VehicleMetadata,
    stops: &Vec<Stop>,
    rst: &Vec<Option<u64>>,
    limit: Option<usize>,
) -> (r: Option<Vec<u64>>)
    ensures
        match trip_tokens_spec(
            ts,
            md@,
            stops_view(stops@),
            rst@,
            match limit {
                Some(h) => Some(h as int),
                None => None,
            },
        ) {
            None => r is None,
            Some(t) => r matches Some(v) && v@ == t,
        },
{
    let ghost sv = stops_view(stops@);
    let ghost lim: Option<int> = match limit {
        Some(h) => Some(h as int),
        None => None,
    };
    let sched = match schedule(ts, stops) {
        None => return None,
        Some(s) => s,
    };
    let n = stops.len();
    if n == 0 {
        return None;
    }
    let route_id = match &md.route_id {
        None => return None,
        Some(r) => r,
    };
    let direction_id = match md.direction_id {
        None => return None,
        Some(d) => d,
    };
    if !is_known_route(route_id.as_str()) {
        return None;
    }
    let names = match stop_tokens(stops) {
        None => return None,
        Some(v) => v,
    };
    let route = tokenize_route(route_id.as_str(), direction_id);
    let (day, hour) = tokenize_time(sched[0]);
    let mut toks: Vec<u64> = Vec::new();
    toks.push(START_TOKEN);
    toks.push(route.0);
    toks.push(day.0);
    toks.push(hour.0);
    toks.push(names[0]);
    toks.push(15);
    let ghost header = toks@;
    let ghost st = stamps(sched@);
    assert(header =~= seq![
        START_TOKEN,
        route_token_spec(md@.route_id->0, md@.direction_id->0) as u64,
        (150 + weekday_spec(sched@[0])) as u64,
        (157 + hour_spec(sched@[0])) as u64,
        stop_tokens_spec(sv)[0],
        15u64,
    ]);
    let mut prev: i64 = 0;
    let mut j: usize = 0;
    while j + 1 < n
        invariant
            j + 1 <= n,
            n == stops@.len(),
            n == sched@.len(),
            names@ == stop_tokens_spec(sv),
            sv == stops_view(stops@),
            st == stamps(sched@),
            in_range(sched@),
            body_spec(names@, rst@, st, lim, j as nat) matches Some(b) && toks@ == header + b.0
                && prev as int == b.1,
            lim == match limit {
                Some(h) => Some(h as int),
                None => None,
            },
            trip_tokens_spec(ts, md@, sv, rst@, lim) == match body_spec(
                names@,
                rst@,
                st,
                lim,
                (n - 1) as nat,
            ) {
                None => None,
                Some(b) => Some(header + b.0),
            },
        decreases n - j,
    {
        let ghost b = body_spec(names@, rst@, st, lim, j as nat)->0;
        toks.push(names[j + 1]);
        let beyond = match limit {
            Some(h) => j > h,
            None => false,
        };
        if beyond {
            toks.push(SKIP_TOKEN);
        } else {
            if j >= rst.len() {
                assert(body_spec(names@, rst@, st, lim, (j + 1) as nat) is None);
                proof {
                    lemma_body_none(names@, rst@, st, lim, (j + 1) as nat, (n - 1) as nat);
                }
                return None;
            }
            match rst[j] {
                None => {
                    toks.push(15);
                },
                Some(rt) => {
                    let stamp = sched[j].seconds - 3600;
                    assert(st[j as int] == stamp);
                    let nd = match (rt as i64).checked_sub(stamp) {
                        None => {
                            proof {
                                lemma_body_none(names@, rst@, st, lim, (j + 1) as nat, (n - 1) as nat);
                            }
                            return None;
                        },
                        Some(x) => x,
                    };
                    let diff = match nd.checked_sub(prev) {
                        None => {
                            proof {
                                lemma_body_none(names@, rst@, st, lim, (j + 1) as nat, (n - 1) as nat);
                            }
                            return None;
                        },
                        Some(x) => x,
                    };
                    let t = tokenize_time_delta(diff);
                    toks.push(t.0);
                    prev = nd;
                },
            }
        }
        proof {
            let b2 = body_spec(names@, rst@, st, lim, (j + 1) as nat)->0;
            assert(toks@ =~= header + b2.0);
        }
        j = j + 1;
    }
    Some(toks)
}

proof fn lemma_body_none(
    names: Seq<u64>,
    rst: Seq<Option<u64>>,
    stamps: Seq<int>,
    limit: Option<int>,
    k: nat,
    m: nat,
)
    requires
        body_spec(names, rst, stamps, limit, k) is None,
        k <= m,
    ensures
        body_spec(names, rst, stamps, limit, m) is None,
    decreases m - k,
{
    if k < m {
        lemma_body_none(names, rst, stamps, limit, k, (m - 1) as nat);
    }
}


/// A sequence padded with the padding token up to the sequence length.
pub open spec fn padded(s: Seq<u64>) -> Seq<u64> {
    if s.len() < SEQUENCE_LEN {
        s + Seq::new((SEQUENCE_LEN - s.len()) as nat, |i: int| PAD_TOKEN)
    } else {
        s
    }
}

/// Pads a sequence with the padding token up to the sequence length.
pub fn pad(toks: &mut Vec<u64>)
    ensures
        final(toks)@ == padded(old(toks)@),
{
    let ghost start = toks@;
    while toks.len() < SEQUENCE_LEN
        invariant
            start.len() <= toks@.len() <= SEQUENCE_LEN || toks@ == start,
            toks@.take(start.len() as int) == start,
            forall|i: int| start.len() <= i < toks@.len() ==> toks@[i] == PAD_TOKEN,
        decreases SEQUENCE_LEN - toks.len(),
    {
        toks.push(PAD_TOKEN);
    }
    proof {
        if start.len() < SEQUENCE_LEN {
            assert(toks@ =~= padded(start));
        } else {
            assert(toks@ =~= start);
        }
    }
}

/// Tokens in decimal, separated by commas.
pub open spec fn token_csv(t: Seq<u64>) -> Seq<u8>
    decreases t.len(),
{
    if t.len() == 0 {
        Seq::<u8>::empty()
    } else if t.len() == 1 {
        decimal(t[0] as nat)
    } else {
        token_csv(t.drop_last()).push(44u8) + decimal(t.last() as nat)
    }
}

/// Appends the tokens in decimal, separated by commas, to `out`.
pub fn write_token_csv(out: &mut Vec<u8>, toks: &Vec<u64>)
    ensures
        final(out)@ == old(out)@ + token_csv(toks@),
{
    let ghost start = out@;
    let mut i: usize = 0;
    while i < toks.len()
        invariant
            i <= toks.len(),
            out@ == start + token_csv(toks@.take(i as int)),
        decreases toks.len() - i,
    {
        if i > 0 {
            out.push(44u8);
        }
        push_decimal(out, toks[i]);
        proof {
            let t = toks@.take(i + 1);
            assert(t.drop_last() == toks@.take(i as int));
            if i == 0 {
                assert(token_csv(toks@.take(0)) == Seq::<u8>::empty());
                assert(out@ =~= start + token_csv(t));
            } else {
                assert(out@ =~= start + token_csv(t));
            }
        }
        i = i + 1;
    }
    assert(toks@.take(toks.len() as int) == toks@);
}

/// The index of the last stop below `k` that was reached, or 0 where none was.
pub open spec fn last_reached(rst: Seq<Option<u64>>, k: nat) -> nat
    decreases k,
{
    if k == 0 {
        0
    } else if rst[k - 1] is Some {
        (k - 1) as nat
    } else {
        last_reached(rst, (k - 1) as nat)
    }
}

proof fn lemma_last_reached_bound(rst: Seq<Option<u64>>, k: nat)
    ensures
        k == 0 || last_reached(rst, k) < k,
    decreases k,
{
    if k > 0 {
        lemma_last_reached_bound(rst, (k - 1) as nat);
    }
}

/// The index of the last stop below `n` that was reached, or 0.
fn last_reached_index(rst: &Vec<Option<u64>>, n: usize) -> (r: usize)
    requires
        n <= rst.len(),
    ensures
        r == last_reached(rst@, n as nat),
{
    let mut k = n;
    while k > 0
        invariant
            k <= n <= rst.len(),
            last_reached(rst@, n as nat) == last_reached(rst@, k as nat),
        decreases k,
    {
        if rst[k - 1].is_some() {
            return k - 1;
        }
        k = k - 1;
    }
    0
}

/// The serialized inference features of vehicle `id`: its id in UTF-8, a
/// colon, then the tokens separated by commas.
pub open spec fn inference_bytes(id: Seq<char>, toks: Seq<u64>) -> Seq<u8> {
    vstd::utf8::encode_utf8(id) + seq![58u8] + token_csv(toks)
}

/// What the inference feature step does with a vehicle, given the highest
/// reached stop index remembered per vehicle id: the new memory and the
/// message bytes (None for no message), or None where processing aborts.
///
/// Only metro vehicles whose metadata holds both stops (at least three) and
/// observed stop times are considered. The last reached stop is looked up;
/// when it is the one already remembered for the vehicle, nothing is sent.
/// Otherwise it is remembered, and unless a stop is scheduled past midnight,
/// the trip's tokens are sent, with the delays up to the last reached stop
/// and skip tokens after it, padded to the sequence length.
pub open spec fn inference_spec(state: Map<Seq<char>, usize>, v: VehicleView) -> Option<
    (Map<Seq<char>, usize>, Option<Seq<u8>>),
> {
    match v.metadata {
        None => Some((state, None)),
        Some(md) => if md.route_type != Some(METRO_ROUTE_TYPE) {
            Some((state, None))
        } else {
            match (md.real_stop_times, md.stops) {
                (Some(rst), Some(stops)) => {
                    let n = stops.len();
                    if n < 3 {
                        Some((state, None))
                    } else if rst.len() < n {
                        None
                    } else {
                        let h = last_reached(rst, n);
                        if state.contains_key(v.id) && state[v.id] == h {
                            Some((state, None))
                        } else {
                            let next = state.insert(v.id, h as usize);
                            if any_after_midnight(stops) {
                                Some((next, None))
                            } else {
                                match trip_tokens_spec(v.timestamp, md, stops, rst, Some(h as int)) {
                                    None => None,
                                    Some(t) => Some((next, Some(inference_bytes(v.id, padded(t))))),
                                }
                            }
                        }
                    }
                },
                _ => Some((state, None)),
            }
        },
    }
}

/// Produces model input for predicting the arrival at the coming stops of
/// metro trips, once per newly reached stop.
pub struct InferenceFeatureExtractor {
    highest_reached_stop_idx: StringHashMap<usize>,
}

impl View for InferenceFeatureExtractor {
    type V = Map<Seq<char>, usize>;

    closed spec fn view(&self) -> Map<Seq<char>, usize> {
        self.highest_reached_stop_idx@
    }
}

/// The topic on which inference features are published.
pub open spec fn inference_topic() -> Seq<char> {
    "lstm-inference-features"@
}

/// The topic on which training features are published.
pub open spec fn training_topic() -> Seq<char> {
    "lstm-training-features"@
}

/// `out` is the step result that `spec` describes: the vehicle is kept, and
/// a message on `topic` is sent exactly where `spec` holds bytes.
pub open spec fn message_matches(out: (bool, Option<(String, Vec<u8>)>), topic: Seq<char>, msg: Option<Seq<u8>>) -> bool {
    &&& out.0
    &&& match msg {
        None => out.1 is None,
        Some(bytes) => out.1 matches Some(m) && m.0@ == topic && m.1@ == bytes,
    }
}

impl InferenceFeatureExtractor {
    pub fn init() -> (r: Self)
        ensures
            r@ == Map::<Seq<char>, usize>::empty(),
    {
        InferenceFeatureExtractor { highest_reached_stop_idx: StringHashMap::new() }
    }

    /// Applies the step to a vehicle (see `inference_spec`). None where the
    /// processing aborts; the vehicle is always kept.
    pub fn apply(&mut self, vehicle: &Vehicle, _low_watermark: u64) -> (r: Option<(bool, Option<(String, Vec<u8>)>)>)
        ensures
            match inference_spec(old(self)@, vehicle@) {
                None => r is None,
                Some(res) => {
                    &&& final(self)@ == res.0
                    &&& r matches Some(out) && message_matches(out, inference_topic(), res.1)
                },
            },
    {
        let md = match &vehicle.metadata {
            None => return Some((true, None)),
            Some(m) => m,
        };
        let metro = match md.route_type {
            Some(t) => t == METRO_ROUTE_TYPE,
            None => false,
        };
        if !metro {
            return Some((true, None));
        }
        let (rst, stops) = match (&md.real_stop_times, &md.stops) {
            (Some(r), Some(s)) => (r, s),
            _ => return Some((true, None)),
        };
        let n = stops.len();
        if n < 3 {
            return Some((true, None));
        }
        if rst.len() < n {
            return None;
        }
        let h = last_reached_index(rst, n);
        let seen = match self.highest_reached_stop_idx.get(vehicle.id.as_str()) {
            Some(old) => *old == h,
            None => false,
        };
        if seen {
            return Some((true, None));
        }
        self.highest_reached_stop_idx.insert(vehicle.id.clone(), h);
        if has_after_midnight(stops) {
            return Some((true, None));
        }
        proof {
            lemma_last_reached_bound(rst@, n as nat);
        }
        let mut toks = match trip_tokens(vehicle.timestamp, md, stops, rst, Some(h)) {
            None => return None,
            Some(t) => t,
        };
        pad(&mut toks);
        let mut bytes: Vec<u8> = Vec::new();
        push_utf8(&mut bytes, vehicle.id.as_str());
        bytes.push(58u8);
        write_token_csv(&mut bytes, &toks);
        assert(bytes@ =~= inference_bytes(vehicle@.id, toks@));
        Some((true, Some(("lstm-inference-features".to_owned(), bytes))))
    }
}

/// How many stops were not reached.
pub open spec fn count_unreached(rst: Seq<Option<u64>>) -> nat
    decreases rst.len(),
{
    if rst.len() == 0 {
        0
    } else {
        count_unreached(rst.drop_last()) + if rst.last() is None {
            1nat
        } else {
            0nat
        }
    }
}

fn count_unreached_exec(rst: &Vec<Option<u64>>) -> (r: usize)
    ensures
        r == count_unreached(rst@),
{
    let mut c: usize = 0;
    let mut i: usize = 0;
    while i < rst.len()
        invariant
            i <= rst.len(),
            c == count_unreached(rst@.take(i as int)),
            c <= i,
        decreases rst.len() - i,
    {
        assert(rst@.take(i + 1).drop_last() == rst@.take(i as int));
        if rst[i].is_none() {
            c = c + 1;
        }
        i = i + 1;
    }
    assert(rst@.take(rst.len() as int) == rst@);
    c
}

/// What the training feature step does with a vehicle, given the trips
/// already emitted: the new set of emitted trips and the message bytes (None
/// for no message), or None where processing aborts.
///
/// Only metro vehicles whose metadata holds stops and observed stop times
/// are considered, and only once the trip is complete: at least three
/// observed times, the last stop reached, and at most half of the stops
/// unreached. Each trip is emitted once; unless a stop is scheduled past
/// midnight, its tokens are sent followed by the end token and padding.
pub open spec fn training_spec(state: Set<Seq<char>>, v: VehicleView) -> Option<(Set<Seq<char>>, Option<Seq<u8>>)> {
    match v.metadata {
        None => Some((state, None)),
        Some(md) => if md.route_type != Some(METRO_ROUTE_TYPE) {
            Some((state, None))
        } else {
            match (md.real_stop_times, md.stops) {
                (Some(rst), Some(stops)) => {
                    if rst.len() < 3 || rst.last() is None || count_unreached(rst) > stops.len() / 2 {
                        Some((state, None))
                    } else {
                        match v.trip_id {
                            None => None,
                            Some(trip) => if state.contains(trip) {
                                Some((state, None))
                            } else {
                                let next = state.insert(trip);
                                if any_after_midnight(stops) {
                                    Some((next, None))
                                } else {
                                    match trip_tokens_spec(v.timestamp, md, stops, rst, None) {
                                        None => None,
                                        Some(t) => Some((next, Some(token_csv(padded(t.push(32u64)))))),
                                    }
                                }
                            },
                        }
                    }
                },
                _ => Some((state, None)),
            }
        },
    }
}

/// Produces training sequences of complete metro trips, once per trip.
pub struct TrainingFeatureExtractor {
    duplicate_filter: StringHashSet,
}

impl View for TrainingFeatureExtractor {
    type V = Set<Seq<char>>;

    closed spec fn view(&self) -> Set<Seq<char>> {
        self.duplicate_filter@
    }
}

impl TrainingFeatureExtractor {
    pub fn init() -> (r: Self)
        ensures
            r@ == Set::<Seq<char>>::empty(),
    {
        TrainingFeatureExtractor { duplicate_filter: StringHashSet::new() }
    }

    /// Applies the step to a vehicle (see `training_spec`). None where the
    /// processing aborts; the vehicle is always kept.
    pub fn apply(&mut self, vehicle: &Vehicle, _low_watermark: u64) -> (r: Option<(bool, Option<(String, Vec<u8>)>)>)
        ensures
            match training_spec(old(self)@, vehicle@) {
                None => r is None,
                Some(res) => {
                    &&& final(self)@ == res.0
                    &&& r matches Some(out) && message_matches(out, training_topic(), res.1)
                },
            },
    {
        let md = match &vehicle.metadata {
            None => return Some((true, None)),
            Some(m) => m,
        };
        let metro = match md.route_type {
            Some(t) => t == METRO_ROUTE_TYPE,
            None => false,
        };
        if !metro {
            return Some((true, None));
        }
        let (rst, stops) = match (&md.real_stop_times, &md.stops) {
            (Some(r), Some(s)) => (r, s),
            _ => return Some((true, None)),
        };
        if rst.len() < 3 || rst[rst.len() - 1].is_none() || count_unreached_exec(rst) > stops.len() / 2 {
            return Some((true, None));
        }
        let trip = match &vehicle.trip_id {
            None => return None,
            Some(t) => t,
        };
        if self.duplicate_filter.contains(trip.as_str()) {
            return Some((true, None));
        }
        self.duplicate_filter.insert(trip.clone());
        if has_after_midnight(stops) {
            return Some((true, None));
        }
        let mut toks = match trip_tokens(vehicle.timestamp, md, stops, rst, None) {
            None => return None,
            Some(t) => t,
        };
        toks.push(32u64);
        pad(&mut toks);
        let mut bytes: Vec<u8> = Vec::new();
        write_token_csv(&mut bytes, &toks);
        Some((true, Some(("lstm-training-features".to_owned(), bytes))))
    }
}


/// A padded sequence is at least the sequence length long, and holds the
/// given sequence followed only by padding.
pub proof fn lemma_padded(s: Seq<u64>)
    ensures
        padded(s).len() == if s.len() < SEQUENCE_LEN { SEQUENCE_LEN as nat } else { s.len() },
        padded(s).take(s.len() as int) == s,
        forall|i: int| s.len() <= i < padded(s).len() ==> padded(s)[i] == PAD_TOKEN,
{
    if s.len() < SEQUENCE_LEN {
        assert(padded(s).take(s.len() as int) =~= s);
    } else {
        assert(padded(s).take(s.len() as int) =~= s);
    }
}

/// Training features are emitted at most once per trip: after a trip's
/// features were emitted, no later vehicle event of that trip emits any.
pub proof fn lemma_training_once_per_trip(state: Set<Seq<char>>, v: VehicleView, w: VehicleView)
    requires
        training_spec(state, v) matches Some(r) && r.1 is Some,
        w.trip_id == v.trip_id,
    ensures
        ({
            let next = training_spec(state, v)->0;
            training_spec(next.0, w) == Some((next.0, None::<Seq<u8>>))
        }),
{
}

/// The last reached stop of a metro vehicle whose stop list the inference
/// step considers (at least three stops, and a stop time for each).
pub open spec fn reached_index(v: VehicleView) -> Option<nat> {
    match v.metadata {
        Some(md) => match (md.real_stop_times, md.stops) {
            (Some(rst), Some(stops)) => if md.route_type == Some(METRO_ROUTE_TYPE) && stops.len() >= 3
                && rst.len() >= stops.len() {
                Some(last_reached(rst, stops.len()))
            } else {
                None
            },
            _ => None,
        },
        None => None,
    }
}

/// Inference features are emitted at most once per reached stop: after a
/// vehicle's features were emitted, a later event of the same vehicle that
/// has not reached a further stop emits none and changes nothing.
pub proof fn lemma_inference_once_per_stop(state: Map<Seq<char>, usize>, v: VehicleView, w: VehicleView)
    requires
        inference_spec(state, v) matches Some(r) && r.1 is Some,
        w.id == v.id,
        reached_index(w) is Some,
        reached_index(w) == reached_index(v),
        reached_index(v)->0 <= usize::MAX,
    ensures
        ({
            let next = inference_spec(state, v)->0;
            inference_spec(next.0, w) == Some((next.0, None::<Seq<u8>>))
        }),
{
}

/// The training step applied to the first `k` vehicles in order: the set of
/// emitted trips and, per vehicle, the message sent (None for none); None
/// where processing aborts.
pub open spec fn training_run(state: Set<Seq<char>>, vs: Seq<VehicleView>, k: nat) -> Option<
    (Set<Seq<char>>, Seq<Option<Seq<u8>>>),
>
    decreases k,
{
    if k == 0 {
        Some((state, Seq::<Option<Seq<u8>>>::empty()))
    } else {
        match training_run(state, vs, (k - 1) as nat) {
            None => None,
            Some(acc) => match training_spec(acc.0, vs[k - 1]) {
                None => None,
                Some(r) => Some((r.0, acc.1.push(r.1))),
            },
        }
    }
}

/// The trips emitted after the first `k` vehicles (empty where processing
/// aborted).
pub open spec fn training_emitted(state: Set<Seq<char>>, vs: Seq<VehicleView>, k: nat) -> Set<Seq<char>> {
    match training_run(state, vs, k) {
        Some(x) => x.0,
        None => Set::<Seq<char>>::empty(),
    }
}

/// The messages sent for the first `k` vehicles, one per vehicle (empty
/// where processing aborted).
pub open spec fn training_messages(state: Set<Seq<char>>, vs: Seq<VehicleView>, k: nat) -> Seq<Option<Seq<u8>>> {
    match training_run(state, vs, k) {
        Some(x) => x.1,
        None => Seq::<Option<Seq<u8>>>::empty(),
    }
}

proof fn lemma_training_run_len(state: Set<Seq<char>>, vs: Seq<VehicleView>, k: nat)
    ensures
        training_run(state, vs, k) is Some ==> training_messages(state, vs, k).len() == k,
    decreases k,
{
    if k > 0 {
        lemma_training_run_len(state, vs, (k - 1) as nat);
    }
}

proof fn lemma_training_run_prefix(state: Set<Seq<char>>, vs: Seq<VehicleView>, m: nat, k: nat)
    requires
        m <= k,
        training_run(state, vs, k) is Some,
    ensures
        training_run(state, vs, m) is Some,
        training_emitted(state, vs, m).subset_of(training_emitted(state, vs, k)),
        training_messages(state, vs, k).len() == k,
        forall|i: int| 0 <= i < m ==> #[trigger] training_messages(state, vs, k)[i] == training_messages(state, vs, m)[i],
    decreases k - m,
{
    lemma_training_run_len(state, vs, k);
    if m < k {
        lemma_training_run_prefix(state, vs, m, (k - 1) as nat);
        lemma_training_run_len(state, vs, (k - 1) as nat);
    }
}

/// Over any sequence of vehicle events, training features are emitted at
/// most once per trip.
pub proof fn lemma_training_once_per_trip_run(state: Set<Seq<char>>, vs: Seq<VehicleView>, i: int, j: int)
    requires
        0 <= i < j < vs.len(),
        vs[i].trip_id == vs[j].trip_id,
        training_run(state, vs, vs.len()) is Some,
    ensures
        training_messages(state, vs, vs.len())[i] is None || training_messages(state, vs, vs.len())[j] is None,
{
    let n = vs.len();
    lemma_training_run_prefix(state, vs, (i + 1) as nat, n);
    lemma_training_run_prefix(state, vs, (j + 1) as nat, n);
    lemma_training_run_prefix(state, vs, (i + 1) as nat, j as nat);
    lemma_training_run_prefix(state, vs, j as nat, n);
    lemma_training_run_prefix(state, vs, i as nat, n);
    lemma_training_run_len(state, vs, i as nat);
    lemma_training_run_len(state, vs, j as nat);
    let si = training_emitted(state, vs, i as nat);
    let sj = training_emitted(state, vs, j as nat);
    let ri = training_spec(si, vs[i])->0;
    let rj = training_spec(sj, vs[j])->0;
    assert(training_messages(state, vs, (i + 1) as nat)[i] == ri.1);
    assert(training_messages(state, vs, (j + 1) as nat)[j] == rj.1);
    if ri.1 is Some {
        let t = vs[i].trip_id->0;
        assert(training_emitted(state, vs, (i + 1) as nat).contains(t));
        assert(sj.contains(t));
    }
}

/// The inference step applied to the first `k` vehicles in order: the last
/// reached stop remembered per vehicle and, per vehicle, the message sent
/// (None for none); None where processing aborts.
pub open spec fn inference_run(state: Map<Seq<char>, usize>, vs: Seq<VehicleView>, k: nat) -> Option<
    (Map<Seq<char>, usize>, Seq<Option<Seq<u8>>>),
>
    decreases k,
{
    if k == 0 {
        Some((state, Seq::<Option<Seq<u8>>>::empty()))
    } else {
        match inference_run(state, vs, (k - 1) as nat) {
            None => None,
            Some(acc) => match inference_spec(acc.0, vs[k - 1]) {
                None => None,
                Some(r) => Some((r.0, acc.1.push(r.1))),
            },
        }
    }
}

/// The stops remembered after the first `k` vehicles (empty where
/// processing aborted).
pub open spec fn inference_remembered(state: Map<Seq<char>, usize>, vs: Seq<VehicleView>, k: nat) -> Map<
    Seq<char>,
    usize,
> {
    match inference_run(state, vs, k) {
        Some(x) => x.0,
        None => Map::<Seq<char>, usize>::empty(),
    }
}

/// The messages sent for the first `k` vehicles, one per vehicle (empty
/// where processing aborted).
pub open spec fn inference_messages(state: Map<Seq<char>, usize>, vs: Seq<VehicleView>, k: nat) -> Seq<
    Option<Seq<u8>>,
> {
    match inference_run(state, vs, k) {
        Some(x) => x.1,
        None => Seq::<Option<Seq<u8>>>::empty(),
    }
}

proof fn lemma_inference_run_len(state: Map<Seq<char>, usize>, vs: Seq<VehicleView>, k: nat)
    ensures
        inference_run(state, vs, k) is Some ==> inference_messages(state, vs, k).len() == k,
    decreases k,
{
    if k > 0 {
        lemma_inference_run_len(state, vs, (k - 1) as nat);
    }
}

proof fn lemma_inference_run_prefix(state: Map<Seq<char>, usize>, vs: Seq<VehicleView>, m: nat, k: nat)
    requires
        m <= k,
        inference_run(state, vs, k) is Some,
    ensures
        inference_run(state, vs, m) is Some,
        inference_messages(state, vs, k).len() == k,
        forall|i: int| 0 <= i < m ==> #[trigger] inference_messages(state, vs, k)[i] == inference_messages(state, vs, m)[i],
    decreases k - m,
{
    lemma_inference_run_len(state, vs, k);
    if m < k {
        lemma_inference_run_prefix(state, vs, m, (k - 1) as nat);
        lemma_inference_run_len(state, vs, (k - 1) as nat);
    }
}

/// While every event of the vehicle `id` after the first `from` events has
/// no reached stop or the reached stop `h`, the remembered stop of `id`
/// stays `h`.
proof fn lemma_inference_remembers(
    state: Map<Seq<char>, usize>,
    vs: Seq<VehicleView>,
    id: Seq<char>,
    h: usize,
    from: nat,
    l: nat,
)
    requires
        from <= l <= vs.len(),
        inference_run(state, vs, l) is Some,
        inference_remembered(state, vs, from).contains_key(id),
        inference_remembered(state, vs, from)[id] == h,
        forall|m: int| from <= m < l && vs[m].id == id ==> reached_index(#[trigger] vs[m]) is None
            || reached_index(vs[m]) == Some(h as nat),
    ensures
        inference_remembered(state, vs, l).contains_key(id),
        inference_remembered(state, vs, l)[id] == h,
    decreases l - from,
{
    if l > from {
        lemma_inference_run_prefix(state, vs, (l - 1) as nat, l);
        lemma_inference_remembers(state, vs, id, h, from, (l - 1) as nat);
        let v = vs[l - 1];
        if v.id == id {
            assert(reached_index(v) is None || reached_index(v) == Some(h as nat));
        }
    }
}

/// Over any sequence of vehicle events, inference features are emitted at
/// most once per reached stop: after an emission for a vehicle at its last
/// reached stop, a later event of that vehicle at the same stop emits none,
/// as long as no event of the vehicle in between reached another stop.
pub proof fn lemma_inference_once_per_stop_run(state: Map<Seq<char>, usize>, vs: Seq<VehicleView>, i: int, j: int)
    requires
        0 <= i < j < vs.len(),
        vs[j].id == vs[i].id,
        reached_index(vs[i]) is Some,
        reached_index(vs[j]) == reached_index(vs[i]),
        reached_index(vs[i])->0 <= usize::MAX,
        forall|m: int| i < m < j && vs[m].id == vs[i].id ==> reached_index(#[trigger] vs[m]) is None
            || reached_index(vs[m]) == reached_index(vs[i]),
        inference_run(state, vs, vs.len()) is Some,
    ensures
        inference_messages(state, vs, vs.len())[i] is None || inference_messages(state, vs, vs.len())[j] is None,
{
    let n = vs.len();
    lemma_inference_run_prefix(state, vs, (i + 1) as nat, n);
    lemma_inference_run_prefix(state, vs, (j + 1) as nat, n);
    lemma_inference_run_prefix(state, vs, j as nat, n);
    lemma_inference_run_prefix(state, vs, i as nat, n);
    lemma_inference_run_len(state, vs, i as nat);
    lemma_inference_run_len(state, vs, j as nat);
    let si = inference_remembered(state, vs, i as nat);
    let sj = inference_remembered(state, vs, j as nat);
    let ri = inference_spec(si, vs[i])->0;
    let rj = inference_spec(sj, vs[j])->0;
    assert(inference_messages(state, vs, (i + 1) as nat)[i] == ri.1);
    assert(inference_messages(state, vs, (j + 1) as nat)[j] == rj.1);
    if ri.1 is Some {
        let h = reached_index(vs[i])->0 as usize;
        assert(inference_remembered(state, vs, (i + 1) as nat).contains_key(vs[i].id));
        assert(inference_remembered(state, vs, (i + 1) as nat)[vs[i].id] == h);
        lemma_inference_remembers(state, vs, vs[i].id, h, (i + 1) as nat, j as nat);
    }
}

/// A trip whose tokens can be computed: observed at a time within chrono's
/// range, with stops, an observed-time entry per stop, a known route with a
/// direction, known stop names, observed times within chrono's range, and
/// every arrival time written plainly as "HH:MM:SS" and read by chrono as
/// that time.
pub open spec fn encodable(ts: u64, md: MetadataView, stops: Seq<StopView>, rst: Seq<Option<u64>>) -> bool {
    &&& ts <= MAX_TIMESTAMP
    &&& stops.len() > 0
    &&& rst.len() >= stops.len()
    &&& md.route_id matches Some(r) && route_ids_spec().contains(r)
    &&& md.direction_id is Some
    &&& all_stops_known(stops)
    &&& forall|i: int| 0 <= i < stops.len() ==> (#[trigger] plain_hms(stops[i].arrival_time)) is Some
        && hms_parse(stops[i].arrival_time) == plain_hms(stops[i].arrival_time)
    &&& forall|i: int| 0 <= i < rst.len() ==> (#[trigger] rst[i] matches Some(t) ==> t <= MAX_TIMESTAMP)
}

proof fn lemma_rolled_some(s: Seq<DateTime>, k: nat)
    requires
        k < s.len(),
        forall|i: int| 0 <= i < s.len() ==> 0 <= #[trigger] s[i].seconds && s[i].nanos < 1_000_000_000,
    ensures
        rolled(s, k) matches Some(t) && t.len() == s.len() && (forall|i: int|
            0 <= i < s.len() ==> s[i].seconds - 86400 <= #[trigger] t[i].seconds <= s[i].seconds && t[i].nanos
                == s[i].nanos) && (forall|i: int| 0 <= i && i + k + 1 < s.len() ==> #[trigger] t[i] == s[i]),
    decreases k,
{
    if k > 0 {
        lemma_rolled_some(s, (k - 1) as nat);
        let t = rolled(s, (k - 1) as nat)->0;
        let i = s.len() - k;
        if i >= 1 && before(t[i], t[i - 1]) {
            assert(t[i - 1] == s[i - 1]);
            let e = day_earlier_spec(t[i - 1])->0;
            let t2 = t.update(i - 1, e);
            assert forall|j: int| 0 <= j < s.len() implies s[j].seconds - 86400 <= #[trigger] t2[j].seconds
                <= s[j].seconds && t2[j].nanos == s[j].nanos by {
                if j != i - 1 {
                    assert(t2[j] == t[j]);
                }
            }
            assert forall|j: int| 0 <= j && j + k + 1 < s.len() implies #[trigger] t2[j] == s[j] by {
                assert(t2[j] == t[j]);
            }
        }
    }
}

proof fn lemma_schedule_some(ts: u64, stops: Seq<StopView>)
    requires
        ts <= MAX_TIMESTAMP,
        stops.len() > 0,
        forall|i: int| 0 <= i < stops.len() ==> (#[trigger] plain_hms(stops[i].arrival_time)) is Some
            && hms_parse(stops[i].arrival_time) == plain_hms(stops[i].arrival_time),
    ensures
        schedule_spec(ts, stops) matches Some(sched) && sched.len() == stops.len() && forall|i: int|
            0 <= i < sched.len() ==> -86400 <= #[trigger] sched[i].seconds <= MAX_TIMESTAMP + 86400,
{
    let t = ts as i64 as int;
    assert(t == ts);
    let day = (t / 86400) * 86400;
    assert(0 <= day <= t) by (nonlinear_arith)
        requires day == (t / 86400) * 86400, t >= 0;
    assert(day_start_spec(ts) == Some(day));
    assert forall|i: int| 0 <= i < stops.len() implies (#[trigger] hms_parse(stops[i].arrival_time)) is Some by {
        assert(plain_hms(stops[i].arrival_time) is Some);
    }
    assert(all_times_parse(stops));
    let init = initial_schedule(day, stops);
    assert forall|i: int| 0 <= i < init.len() implies 0 <= #[trigger] init[i].seconds && init[i].nanos
        < 1_000_000_000 && init[i].seconds <= MAX_TIMESTAMP + 86400 by {
        let a = stops[i].arrival_time;
        assert(plain_hms(a) is Some);
        let p = plain_hms(a)->0;
        assert(p.0 < 86400 && p.1 == 0);
        assert(parsed_seconds(a) == p.0 as int);
        assert(parsed_nanos(a) == 0);
    }
    lemma_rolled_some(init, (stops.len() - 1) as nat);
}

proof fn lemma_body_some(
    names: Seq<u64>,
    rst: Seq<Option<u64>>,
    st: Seq<int>,
    limit: Option<int>,
    k: nat,
)
    requires
        k <= rst.len(),
        k <= st.len(),
        forall|i: int| 0 <= i < rst.len() ==> (#[trigger] rst[i] matches Some(t) ==> t <= MAX_TIMESTAMP),
        forall|i: int| 0 <= i < st.len() ==> -90000 <= #[trigger] st[i] <= MAX_TIMESTAMP + 90000,
    ensures
        body_spec(names, rst, st, limit, k) matches Some(b) && -(MAX_TIMESTAMP + 90000) <= b.1 <= MAX_TIMESTAMP
            + 90000,
    decreases k,
{
    if k > 0 {
        lemma_body_some(names, rst, st, limit, (k - 1) as nat);
        let j = k - 1;
        if let Some(rt) = rst[j] {
            assert(rt <= MAX_TIMESTAMP);
            assert((rt as i64) as int == rt as int);
            assert(-90000 <= st[j] <= MAX_TIMESTAMP + 90000);
        }
    }
}

/// The tokens of an encodable trip can be computed, whatever the limit.
pub proof fn lemma_encodable_tokens(
    ts: u64,
    md: MetadataView,
    stops: Seq<StopView>,
    rst: Seq<Option<u64>>,
    limit: Option<int>,
)
    requires
        encodable(ts, md, stops, rst),
    ensures
        trip_tokens_spec(ts, md, stops, rst, limit) is Some,
{
    lemma_schedule_some(ts, stops);
    let sched = schedule_spec(ts, stops)->0;
    let st = stamps(sched);
    assert forall|i: int| 0 <= i < st.len() implies -90000 <= #[trigger] st[i] <= MAX_TIMESTAMP + 90000 by {
        assert(-86400 <= sched[i].seconds <= MAX_TIMESTAMP + 86400);
    }
    lemma_body_some(stop_tokens_spec(stops), rst, st, limit, (stops.len() - 1) as nat);
}

/// The trip of a vehicle event as the feature steps read it: its metadata,
/// stops and observed stop times, where all are present.
pub open spec fn trip_of(v: VehicleView) -> Option<(MetadataView, Seq<StopView>, Seq<Option<u64>>)> {
    match v.metadata {
        Some(md) => match (md.stops, md.real_stop_times) {
            (Some(stops), Some(rst)) => Some((md, stops, rst)),
            _ => None,
        },
        None => None,
    }
}

/// The vehicle's trip is present, encodable and scheduled before midnight.
pub open spec fn encodable_trip(v: VehicleView) -> bool {
    match trip_of(v) {
        Some(t) => encodable(v.timestamp, t.0, t.1, t.2) && !any_after_midnight(t.1),
        None => false,
    }
}

/// A completed metro trip: at least three stop times, the last stop
/// reached, and at most half of the stops unreached.
pub open spec fn completed_metro_trip(v: VehicleView) -> bool {
    match trip_of(v) {
        Some(t) => t.0.route_type == Some(METRO_ROUTE_TYPE) && t.2.len() >= 3 && t.2.last() is Some
            && count_unreached(t.2) <= t.1.len() / 2,
        None => false,
    }
}

/// A fresh inference step remembers no vehicle, so the first event of a
/// metro vehicle it considers (at least three stops, a stop time for each)
/// whose trip is encodable and scheduled before midnight emits features.
pub proof fn lemma_fresh_inference_emits(v: VehicleView)
    requires
        reached_index(v) is Some,
        encodable_trip(v),
    ensures
        inference_spec(Map::<Seq<char>, usize>::empty(), v) matches Some(r) && r.1 is Some,
{
    let t = trip_of(v)->0;
    let h = last_reached(t.2, t.1.len());
    lemma_encodable_tokens(v.timestamp, t.0, t.1, t.2, Some(h as int));
}

/// A fresh training step has emitted no trip, so the first event of a
/// completed metro trip that is encodable and scheduled before midnight
/// emits features.
pub proof fn lemma_fresh_training_emits(v: VehicleView)
    requires
        v.trip_id is Some,
        completed_metro_trip(v),
        encodable_trip(v),
    ensures
        training_spec(Set::<Seq<char>>::empty(), v) matches Some(r) && r.1 is Some,
{
    let t = trip_of(v)->0;
    lemma_encodable_tokens(v.timestamp, t.0, t.1, t.2, None);
}

/// The stops of the vehicle's trip (none where the trip is not present).
pub open spec fn trip_stops(v: VehicleView) -> Seq<StopView> {
    match trip_of(v) {
        Some(t) => t.1,
        None => Seq::<StopView>::empty(),
    }
}

/// The vehicle's metadata names a metro route.
pub open spec fn is_metro(v: VehicleView) -> bool {
    match v.metadata {
        Some(md) => md.route_type == Some(METRO_ROUTE_TYPE),
        None => false,
    }
}

/// The vehicle's trip is present and, unless some stop is scheduled past
/// midnight, encodable.
pub open spec fn encodable_unless_late(v: VehicleView) -> bool {
    match trip_of(v) {
        Some(t) => !any_after_midnight(t.1) ==> encodable(v.timestamp, t.0, t.1, t.2),
        None => false,
    }
}

/// For a metro vehicle the inference step considers (at least three stops,
/// a stop time for each), whose trip is encodable unless scheduled past
/// midnight: the step remembers the vehicle's last reached stop, and emits
/// exactly where that stop is not the one already remembered for the
/// vehicle and no stop is scheduled past midnight.
pub proof fn lemma_inference_emits_iff(state: Map<Seq<char>, usize>, v: VehicleView)
    requires
        reached_index(v) is Some,
        reached_index(v)->0 <= usize::MAX,
        encodable_unless_late(v),
    ensures
        inference_spec(state, v) matches Some(r) && r.0.contains_key(v.id) && r.0[v.id] == reached_index(v)->0
            && (r.1 is Some <==> !(state.contains_key(v.id) && state[v.id] == reached_index(v)->0)
            && !any_after_midnight(trip_stops(v))),
{
    let t = trip_of(v)->0;
    let h = last_reached(t.2, t.1.len());
    if !any_after_midnight(t.1) {
        lemma_encodable_tokens(v.timestamp, t.0, t.1, t.2, Some(h as int));
    }
}

/// For a metro vehicle on a trip, with stops and stop times, whose trip is
/// encodable unless scheduled past midnight: the training step emits
/// exactly where the trip is completed, was not emitted before, and no stop
/// is scheduled past midnight.
pub proof fn lemma_training_emits_iff(state: Set<Seq<char>>, v: VehicleView)
    requires
        v.trip_id is Some,
        trip_of(v) is Some,
        is_metro(v),
        encodable_unless_late(v),
    ensures
        training_spec(state, v) matches Some(r) && (r.1 is Some <==> completed_metro_trip(v) && !state.contains(
            v.trip_id->0,
        ) && !any_after_midnight(trip_stops(v))),
{
    let t = trip_of(v)->0;
    if !any_after_midnight(t.1) {
        lemma_encodable_tokens(v.timestamp, t.0, t.1, t.2, None);
    }
}

/// Over any sequence of vehicle events, a trip's training features come
/// from the first of its events that completes the trip: no earlier event
/// of the trip was a completed metro trip.
pub proof fn lemma_training_emits_on_first_completion(state: Set<Seq<char>>, vs: Seq<VehicleView>, j: int)
    requires
        0 <= j < vs.len(),
        training_run(state, vs, vs.len()) is Some,
        training_messages(state, vs, vs.len())[j] is Some,
    ensures
        forall|i: int| 0 <= i < j && #[trigger] vs[i].trip_id == vs[j].trip_id ==> !completed_metro_trip(vs[i]),
{
    let n = vs.len();
    lemma_training_run_prefix(state, vs, (j + 1) as nat, n);
    lemma_training_run_prefix(state, vs, j as nat, n);
    lemma_training_run_len(state, vs, j as nat);
    let sj = training_emitted(state, vs, j as nat);
    let rj = training_spec(sj, vs[j])->0;
    assert(training_messages(state, vs, (j + 1) as nat)[j] == rj.1);
    assert forall|i: int| 0 <= i < j && #[trigger] vs[i].trip_id == vs[j].trip_id implies !completed_metro_trip(vs[i]) by {
        if completed_metro_trip(vs[i]) {
            lemma_training_run_prefix(state, vs, (i + 1) as nat, j as nat);
            lemma_training_run_prefix(state, vs, i as nat, j as nat);
            let si = training_emitted(state, vs, i as nat);
            let t = vs[j].trip_id->0;
            assert(training_emitted(state, vs, (i + 1) as nat).contains(t));
            assert(sj.contains(t));
        }
    }
}

/// The delay observed at stop index `i`: its observed time less its
/// scheduled Unix time.
pub open spec fn observed_delay(rst: Seq<Option<u64>>, stamps: Seq<int>, i: int) -> int {
    ((rst[i]->0) as i64) as int - stamps[i]
}

/// The stop at index `j` has its delay encoded (it lies within the limit).
pub open spec fn within_limit(limit: Option<int>, j: int) -> bool {
    match limit {
        Some(h) => j <= h,
        None => true,
    }
}

/// The name token of the `j`-th pair of a token body.
pub open spec fn name_token_at(toks: Seq<u64>, j: int) -> u64 {
    toks[2 * j]
}

/// The delay token of the `j`-th pair of a token body.
pub open spec fn delay_token_at(toks: Seq<u64>, j: int) -> u64 {
    toks[2 * j + 1]
}

/// The tokens of the body of the first `k` stops after the first one
/// (empty where processing aborts).
pub open spec fn body_tokens(
    names: Seq<u64>,
    rst: Seq<Option<u64>>,
    stamps: Seq<int>,
    limit: Option<int>,
    k: nat,
) -> Seq<u64> {
    match body_spec(names, rst, stamps, limit, k) {
        Some(b) => b.0,
        None => Seq::<u64>::empty(),
    }
}

/// The delay carried after the first `k` stops after the first one (0
/// where processing aborts).
pub open spec fn body_delay(
    names: Seq<u64>,
    rst: Seq<Option<u64>>,
    stamps: Seq<int>,
    limit: Option<int>,
    k: nat,
) -> int {
    match body_spec(names, rst, stamps, limit, k) {
        Some(b) => b.1,
        None => 0,
    }
}

/// What the token body of the first `k` stops after the first one holds:
/// one pair per stop, the next stop's name and then its delay token. Past
/// the limit the delay token is the skip token; an unreached stop gets the
/// zero-change token; a reached stop gets the token of the change of its
/// observed delay since the last reached stop before it (since 0 where none
/// was reached), so unreached stops in between do not reset the reference.
/// The delay last carried is that of the last reached stop (0 where none).
#[verifier::rlimit(60)]
pub proof fn lemma_body_tokens(
    names: Seq<u64>,
    rst: Seq<Option<u64>>,
    stamps: Seq<int>,
    limit: Option<int>,
    k: nat,
)
    requires
        body_spec(names, rst, stamps, limit, k) is Some,
    ensures
        body_tokens(names, rst, stamps, limit, k).len() == 2 * k,
        forall|j: int| 0 <= j < k ==> #[trigger] name_token_at(body_tokens(names, rst, stamps, limit, k), j) == names[j + 1],
        forall|j: int|
            0 <= j < k && !within_limit(limit, j) ==> #[trigger] delay_token_at(body_tokens(names, rst, stamps, limit, k), j)
                == SKIP_TOKEN,
        forall|j: int| 0 <= j < k && #[trigger] within_limit(limit, j) ==> j < rst.len(),
        forall|j: int|
            0 <= j < k && within_limit(limit, j) && rst[j] is None ==> #[trigger] delay_token_at(
                body_tokens(names, rst, stamps, limit, k),
                j,
            ) == 15,
        forall|j: int|
            0 <= j < k && within_limit(limit, j) && rst[j] is Some && (forall|q: int| 0 <= q < j ==> #[trigger] rst[q] is None)
                ==> #[trigger] delay_token_at(body_tokens(names, rst, stamps, limit, k), j) == time_delta_token(
                observed_delay(rst, stamps, j),
            ),
        forall|j: int, p: int|
            #![trigger delay_token_at(body_tokens(names, rst, stamps, limit, k), j), rst[p]]
            0 <= p < j < k && within_limit(limit, j) && rst[j] is Some && rst[p] is Some && (forall|q: int|
                p < q < j ==> #[trigger] rst[q] is None) ==> delay_token_at(body_tokens(names, rst, stamps, limit, k), j)
                == time_delta_token(observed_delay(rst, stamps, j) - observed_delay(rst, stamps, p)),
        (k == 0 || within_limit(limit, k - 1)) && (forall|q: int| 0 <= q < k ==> #[trigger] rst[q] is None)
            ==> body_delay(names, rst, stamps, limit, k) == 0,
        forall|p: int|
            (k == 0 || within_limit(limit, k - 1)) && 0 <= p < k && #[trigger] rst[p] is Some && (forall|q: int|
                p < q < k ==> #[trigger] rst[q] is None) ==> body_delay(names, rst, stamps, limit, k) == observed_delay(
                rst,
                stamps,
                p,
            ),
    decreases k,
{
    if k > 0 {
        let j = k - 1;
        lemma_body_tokens(names, rst, stamps, limit, (k - 1) as nat);
        let acc = body_spec(names, rst, stamps, limit, (k - 1) as nat)->0;
        let b = body_spec(names, rst, stamps, limit, k)->0;
        let t = body_tokens(names, rst, stamps, limit, k);
        let t0 = body_tokens(names, rst, stamps, limit, (k - 1) as nat);
        assert(t == b.0);
        assert(body_delay(names, rst, stamps, limit, k) == b.1);
        assert(t0 == acc.0);
        assert(body_delay(names, rst, stamps, limit, (k - 1) as nat) == acc.1);
        assert(t.len() == 2 * k);
        assert forall|i: int| 0 <= i < j implies #[trigger] name_token_at(t, i) == name_token_at(t0, i)
            && delay_token_at(t, i) == delay_token_at(t0, i) by {
            assert(t[2 * i] == t0[2 * i]);
            assert(t[2 * i + 1] == t0[2 * i + 1]);
        }
        assert forall|i: int| 0 <= i < k implies #[trigger] name_token_at(t, i) == names[i + 1] by {
            if i < j {
                assert(name_token_at(t0, i) == names[i + 1]);
            }
        }
        assert forall|i: int| 0 <= i < k && !within_limit(limit, i) implies #[trigger] delay_token_at(t, i)
            == SKIP_TOKEN by {
            if i < j {
                assert(delay_token_at(t0, i) == SKIP_TOKEN);
            }
        }
        assert forall|i: int| 0 <= i < k && within_limit(limit, i) && rst[i] is None implies #[trigger] delay_token_at(
            t,
            i,
        ) == 15 by {
            if i < j {
                assert(delay_token_at(t0, i) == 15);
            }
        }
        assert forall|i: int|
            0 <= i < k && within_limit(limit, i) && rst[i] is Some && (forall|q: int| 0 <= q < i ==> #[trigger] rst[q] is None)
                implies #[trigger] delay_token_at(t, i) == time_delta_token(observed_delay(rst, stamps, i)) by {
            if i < j {
                assert(delay_token_at(t0, i) == time_delta_token(observed_delay(rst, stamps, i)));
            } else {
                assert(j == 0 || within_limit(limit, j - 1));
                assert(acc.1 == 0);
            }
        }
        assert forall|i: int, p: int|
            #![trigger delay_token_at(t, i), rst[p]]
            0 <= p < i < k && within_limit(limit, i) && rst[i] is Some && rst[p] is Some && (forall|q: int|
                p < q < i ==> #[trigger] rst[q] is None) implies delay_token_at(t, i) == time_delta_token(
            observed_delay(rst, stamps, i) - observed_delay(rst, stamps, p),
        ) by {
            if i < j {
                assert(delay_token_at(t0, i) == time_delta_token(
                    observed_delay(rst, stamps, i) - observed_delay(rst, stamps, p),
                ));
            } else {
                assert(j == 0 || within_limit(limit, j - 1));
                assert(acc.1 == observed_delay(rst, stamps, p));
            }
        }
        if within_limit(limit, j) {
            assert(j == 0 || within_limit(limit, j - 1));
            if let Some(rt) = rst[j] {
                assert(b.1 == observed_delay(rst, stamps, j));
                assert forall|p: int|
                    0 <= p < k && #[trigger] rst[p] is Some && (forall|q: int| p < q < k ==> #[trigger] rst[q] is None)
                        implies b.1 == observed_delay(rst, stamps, p) by {
                    if p < j {
                        assert(rst[j] is Some);
                    }
                }
            } else {
                assert(b.1 == acc.1);
                assert forall|p: int|
                    0 <= p < k && #[trigger] rst[p] is Some && (forall|q: int| p < q < k ==> #[trigger] rst[q] is None)
                        implies b.1 == observed_delay(rst, stamps, p) by {
                    assert(p < j);
                    assert forall|q: int| p < q < j implies #[trigger] rst[q] is None by {}
                }
            }
        }
    }
}

/// The token sequence of a trip: six header tokens, then the body of the
/// stops after the first, built from the stop-name tokens, the observed
/// stop times and the scheduled arrival times less an hour.
pub proof fn lemma_trip_tokens_layout(
    ts: u64,
    md: MetadataView,
    stops: Seq<StopView>,
    rst: Seq<Option<u64>>,
    limit: Option<int>,
)
    requires
        trip_tokens_spec(ts, md, stops, rst, limit) is Some,
    ensures
        ({
            let t = trip_tokens_spec(ts, md, stops, rst, limit)->0;
            let sched = schedule_spec(ts, stops)->0;
            let n = stops.len();
            &&& n > 0
            &&& t.len() == 2 * n + 4
            &&& t[0] == START_TOKEN
            &&& t[4] == stop_name_token_spec(stops[0].stop_name) as u64
            &&& t[5] == 15
            &&& t.subrange(6, t.len() as int) == body_tokens(
                stop_tokens_spec(stops),
                rst,
                stamps(sched),
                limit,
                (n - 1) as nat,
            )
            &&& body_spec(stop_tokens_spec(stops), rst, stamps(sched), limit, (n - 1) as nat) is Some
        }),
{
    let sched = schedule_spec(ts, stops)->0;
    let n = stops.len();
    lemma_body_tokens(stop_tokens_spec(stops), rst, stamps(sched), limit, (n - 1) as nat);
    let t = trip_tokens_spec(ts, md, stops, rst, limit)->0;
    let b = body_tokens(stop_tokens_spec(stops), rst, stamps(sched), limit, (n - 1) as nat);
    assert(t.subrange(6, t.len() as int) =~= b);
}

/// Whether an observed stop time is missing.
pub open spec fn unreached_entry() -> spec_fn(Option<u64>) -> bool {
    |x: Option<u64>| x is None
}

/// The number of unreached stops is the number of entries without an
/// observed time.
pub proof fn lemma_count_unreached_counts(rst: Seq<Option<u64>>)
    ensures
        count_unreached(rst) == rst.filter(unreached_entry()).len(),
        count_unreached(rst) <= rst.len(),
    decreases rst.len(),
{
    reveal(Seq::filter);
    if rst.len() > 0 {
        lemma_count_unreached_counts(rst.drop_last());
    }
}

/// An entry without a time adds one to the count of unreached stops; an
/// entry with a time adds none.
pub proof fn lemma_count_unreached_push(rst: Seq<Option<u64>>, x: Option<u64>)
    ensures
        count_unreached(rst.push(x)) == count_unreached(rst) + if x is None {
            1int
        } else {
            0int
        },
{
    assert(rst.push(x).drop_last() =~= rst);
}

} // verus!
