//! The stream processor: drops events that arrive too late, advances the low
//! watermark, and passes each event through the registered processing steps
//! in order, collecting the messages they publish.

use vstd::prelude::*;
use crate::features::{
    InferenceFeatureExtractor, TrainingFeatureExtractor, inference_spec, training_spec,
    inference_topic, training_topic, METRO_ROUTE_TYPE,
};
use crate::metadata::{MetadataJoiner, MetadataTable, join_spec};
use crate::stop_detector::{StopDetector, TripTimes, detect_spec};
use crate::vehicle::{Stop, StopView, Vehicle, VehicleView, MetadataView, clone_stops, stops_view};

verus! {

/// A registered processing step.
pub enum ProcessingStep {
    MetadataJoin(MetadataJoiner),
    StopDetection(StopDetector),
    TrainingFeatures(TrainingFeatureExtractor),
    InferenceFeatures(InferenceFeatureExtractor),
}

/// The state of a processing step.
pub enum StepView {
    MetadataJoin(Map<Seq<char>, MetadataView>),
    StopDetection(Map<Seq<char>, TripTimes>),
    TrainingFeatures(Set<Seq<char>>),
    InferenceFeatures(Map<Seq<char>, usize>),
}

impl View for ProcessingStep {
    type V = StepView;

    open spec fn view(&self) -> StepView {
        match self {
            ProcessingStep::MetadataJoin(s) => StepView::MetadataJoin(s@),
            ProcessingStep::StopDetection(s) => StepView::StopDetection(s@),
            ProcessingStep::TrainingFeatures(s) => StepView::TrainingFeatures(s@),
            ProcessingStep::InferenceFeatures(s) => StepView::InferenceFeatures(s@),
        }
    }
}

/// A published message: topic and payload.
pub type MessageView = (Seq<char>, Seq<u8>);

pub open spec fn message_view(m: Option<Seq<u8>>, topic: Seq<char>) -> Option<MessageView> {
    match m {
        Some(b) => Some((topic, b)),
        None => None,
    }
}

/// One step applied to a vehicle: the step's new state, the vehicle, whether
/// the vehicle is kept, and the message published; None where processing
/// aborts. `reached` is the stop reported for the vehicle (see `resume`).
#[verifier::opaque]
pub open spec fn step_spec(s: StepView, v: VehicleView, reached: Option<usize>) -> Option<
    (StepView, VehicleView, bool, Option<MessageView>),
> {
    match s {
        StepView::MetadataJoin(t) => Some((s, join_spec(t, v), v.trip_id is Some, None)),
        StepView::StopDetection(st) => match detect_spec(st, v, reached) {
            None => None,
            Some(r) => Some((StepView::StopDetection(r.0), r.1, true, None)),
        },
        StepView::TrainingFeatures(st) => match training_spec(st, v) {
            None => None,
            Some(r) => Some((StepView::TrainingFeatures(r.0), v, true, message_view(r.1, training_topic()))),
        },
        StepView::InferenceFeatures(st) => match inference_spec(st, v) {
            None => None,
            Some(r) => Some((StepView::InferenceFeatures(r.0), v, true, message_view(r.1, inference_topic()))),
        },
    }
}

pub open spec fn push_message(msgs: Seq<MessageView>, m: Option<MessageView>) -> Seq<MessageView> {
    match m {
        Some(x) => msgs.push(x),
        None => msgs,
    }
}

/// The first `k` steps applied in order: the steps' states, the vehicle,
/// whether it is still kept, and the messages published. Once a step drops
/// the vehicle, the later steps are not applied. None where a step aborts.
pub open spec fn run_spec(
    steps: Seq<StepView>,
    v: VehicleView,
    reached: Seq<Option<usize>>,
    k: nat,
) -> Option<(Seq<StepView>, VehicleView, bool, Seq<MessageView>)>
    decreases k,
{
    if k == 0 {
        Some((steps, v, true, Seq::<MessageView>::empty()))
    } else {
        match run_spec(steps, v, reached, (k - 1) as nat) {
            None => None,
            Some(acc) => if !acc.2 {
                Some(acc)
            } else {
                match step_spec(acc.0[k - 1], acc.1, reached[k - 1]) {
                    None => None,
                    Some(r) => Some((acc.0.update(k - 1, r.0), r.1, r.2, push_message(acc.3, r.3))),
                }
            },
        }
    }
}

pub open spec fn step_states(r: Option<(Seq<StepView>, VehicleView, bool, Seq<MessageView>)>) -> Seq<StepView> {
    match r {
        Some(x) => x.0,
        None => Seq::<StepView>::empty(),
    }
}

/// The state of the stream processor.
pub struct StreamView {
    pub low_watermark: u64,
    pub window: u64,
    pub steps: Seq<StepView>,
}

/// The watermark after an accepted event: the larger of the old one and
/// the event time less the processing window.
pub open spec fn next_watermark(s: StreamView, v: VehicleView) -> u64 {
    if s.low_watermark >= v.timestamp - s.window {
        s.low_watermark
    } else {
        (v.timestamp - s.window) as u64
    }
}

/// The result of one event, given the stop reported at each
/// step: the processor's new state, the vehicle passed on (None where it was
/// dropped) and the messages published. None where processing aborts.
///
/// An event older than the low watermark is dropped untouched. Otherwise
/// the watermark becomes the larger of itself and the event time less the
/// processing window, and the event runs through the steps.
pub open spec fn event_spec(s: StreamView, v: VehicleView, reached: Seq<Option<usize>>) -> Option<
    (StreamView, Option<VehicleView>, Seq<MessageView>),
> {
    if v.timestamp < s.low_watermark {
        Some((s, None, Seq::<MessageView>::empty()))
    } else if v.timestamp < s.window {
        None
    } else {
        let lw = next_watermark(s, v);
        match run_spec(s.steps, v, reached, s.steps.len()) {
            None => None,
            Some(r) => Some(
                (
                    StreamView { low_watermark: lw, window: s.window, steps: r.0 },
                    if r.2 {
                        Some(r.1)
                    } else {
                        None
                    },
                    r.3,
                ),
            ),
        }
    }
}

/// What one event yields: the vehicle passed on (None where a step dropped
/// it or it came too late) and the messages to publish, in order.
pub struct EventOutcome {
    pub vehicle: Option<Vehicle>,
    pub messages: Vec<(String, Vec<u8>)>,
}

pub open spec fn messages_view(m: Seq<(String, Vec<u8>)>) -> Seq<MessageView> {
    m.map_values(|x: (String, Vec<u8>)| (x.0@, x.1@))
}

pub open spec fn opt_vehicle_view(v: Option<Vehicle>) -> Option<VehicleView> {
    match v {
        Some(x) => Some(x@),
        None => None,
    }
}

/// `r` and the final state `fin` are what `res` describes.
pub open spec fn outcome_is(
    res: Option<(StreamView, Option<VehicleView>, Seq<MessageView>)>,
    r: Option<EventOutcome>,
    fin: StreamView,
) -> bool {
    match res {
        None => r is None,
        Some(x) => {
            &&& r matches Some(out)
            &&& fin == x.0
            &&& opt_vehicle_view(out.vehicle) == x.1
            &&& messages_view(out.messages@) == x.2
        },
    }
}

/// The stop list and position (`f32` bit patterns) of the vehicle at a stop
/// detection step, for which the stop the vehicle is at must be found.
pub struct LocateRequest {
    pub stops: Vec<Stop>,
    pub lat: u32,
    pub lng: u32,
}

/// Where an event stands after a call of `process_event` or `resume`.
pub enum Progress {
    /// The event is processed: its outcome, or None where processing aborted.
    Done(Option<EventOutcome>),
    /// A stop detection step waits for the index of the stop within
    /// detection distance of the vehicle (None where there is none); answer
    /// with `resume`.
    Locate(LocateRequest),
}

/// An event halted at a stop detection step.
struct PendingEvent {
    /// the vehicle as the steps so far left it
    vehicle: Vehicle,
    /// the messages published so far
    messages: Vec<(String, Vec<u8>)>,
    /// the index of the waiting step
    next_step: usize,
    /// the processor's state when the event arrived
    start: Ghost<StreamView>,
    /// the vehicle as it arrived
    event: Ghost<VehicleView>,
    /// the reports of the steps before the waiting one
    reports: Ghost<Seq<Option<usize>>>,
}

/// What the stop detection step `st` must know of the vehicle `v`: its stops
/// and position, for a metro vehicle whose metadata holds stops; None where
/// the step does not look for a stop (another kind of step, or a vehicle
/// that stop detection passes by).
pub open spec fn locate_request(st: StepView, v: VehicleView) -> Option<(Seq<StopView>, u32, u32)> {
    match st {
        StepView::StopDetection(_) => match v.metadata {
            Some(md) => if md.route_type == Some(METRO_ROUTE_TYPE) {
                match md.stops {
                    Some(stops) => Some((stops, v.lat, v.lng)),
                    None => None,
                }
            } else {
                None
            },
            None => None,
        },
        _ => None,
    }
}

/// The reports of the first steps, followed by no report for each of the
/// remaining steps up to `n`.
pub open spec fn padded_reports(r: Seq<Option<usize>>, n: nat) -> Seq<Option<usize>> {
    r + Seq::new((n - r.len()) as nat, |i: int| None::<usize>)
}

/// The event is neither late nor before the processing window.
pub open spec fn accepted(s: StreamView, v: VehicleView) -> bool {
    v.timestamp >= s.low_watermark && v.timestamp >= s.window
}

/// Running the steps with the given reports, the vehicle is still kept when
/// it reaches step `j`, and that step must find the stop the vehicle is at.
pub open spec fn asks_at(steps: Seq<StepView>, v: VehicleView, reports: Seq<Option<usize>>, j: nat) -> bool {
    run_spec(steps, v, reports, j) matches Some(acc) && acc.2 && locate_request(acc.0[j as int], acc.1) is Some
}

/// Two steps of the same kind.
pub open spec fn same_kind(a: StepView, b: StepView) -> bool {
    match (a, b) {
        (StepView::MetadataJoin(_), StepView::MetadataJoin(_)) => true,
        (StepView::StopDetection(_), StepView::StopDetection(_)) => true,
        (StepView::TrainingFeatures(_), StepView::TrainingFeatures(_)) => true,
        (StepView::InferenceFeatures(_), StepView::InferenceFeatures(_)) => true,
        _ => false,
    }
}

/// Two step lists with the same kinds of steps in the same order.
pub open spec fn same_kinds(a: Seq<StepView>, b: Seq<StepView>) -> bool {
    a.len() == b.len() && forall|i: int| 0 <= i < a.len() ==> same_kind(#[trigger] a[i], b[i])
}

/// What a call did with the event `v` that arrived at state `s`, given the
/// reports `reps` handed in so far for its first steps, where `r` is what
/// the call returned and `fin` the processor afterwards.
///
/// `Done`: every later step that had to find the vehicle's stop has been
/// answered, and the outcome is `event_spec` with no report for the
/// remaining steps. Where processing aborted, the processor keeps its
/// window and its kinds of steps, and its watermark has advanced as for an
/// accepted event. `Locate`: the first later step that must find the
/// vehicle's stop waits, and the request holds the vehicle's stops and
/// position there.
pub open spec fn progress_spec(
    s: StreamView,
    v: VehicleView,
    reps: Seq<Option<usize>>,
    r: Progress,
    fin: StreamProcessor,
) -> bool {
    let n = s.steps.len();
    let full = padded_reports(reps, n);
    match r {
        Progress::Done(out) => {
            &&& !fin.awaiting()
            &&& accepted(s, v) ==> forall|j: int| reps.len() <= j < n ==> !#[trigger] asks_at(s.steps, v, full, j as nat)
            &&& match event_spec(s, v, full) {
                Some(x) => {
                    &&& out matches Some(o)
                    &&& fin@ == x.0
                    &&& opt_vehicle_view(o.vehicle) == x.1
                    &&& messages_view(o.messages@) == x.2
                },
                None => {
                    &&& out is None
                    &&& fin@.window == s.window
                    &&& fin@.low_watermark == (if accepted(s, v) { next_watermark(s, v) } else { s.low_watermark })
                    &&& same_kinds(fin@.steps, s.steps)
                },
            }
        },
        Progress::Locate(req) => {
            let k = fin.reports().len();
            &&& accepted(s, v)
            &&& fin.awaiting()
            &&& fin.event_start() == s
            &&& fin.event_vehicle() == v
            &&& reps.len() <= k < n
            &&& fin.reports() == full.take(k as int)
            &&& forall|j: int| reps.len() <= j < k ==> !#[trigger] asks_at(s.steps, v, full, j as nat)
            &&& asks_at(s.steps, v, full, k)
            &&& run_spec(s.steps, v, full, k) matches Some(acc) && locate_request(acc.0[k as int], acc.1) == Some(
                (stops_view(req.stops@), req.lat, req.lng),
            )
        },
    }
}

/// The states of a list of steps.
pub open spec fn steps_view(v: Seq<ProcessingStep>) -> Seq<StepView> {
    v.map_values(|s: ProcessingStep| s@)
}

/// Processes a stream of vehicle events.
pub struct StreamProcessor {
    /// the lowest event timestamp that may appear in following events
    low_watermark: u64,
    /// used to calculate low_watermark
    processing_time_widow: u64,
    /// registered processing steps
    processing_steps: Vec<ProcessingStep>,
    /// the event waiting at a stop detection step, if any
    pending: Option<PendingEvent>,
}

impl View for StreamProcessor {
    type V = StreamView;

    closed spec fn view(&self) -> StreamView {
        StreamView {
            low_watermark: self.low_watermark,
            window: self.processing_time_widow,
            steps: steps_view(self.processing_steps@),
        }
    }
}

/// Applies one step with the given stop report.
fn apply_step(step: &mut ProcessingStep, vehicle: &mut Vehicle, low_watermark: u64, reached: Option<usize>) -> (r:
    Option<(bool, Option<(String, Vec<u8>)>)>)
    ensures
        same_kind(final(step)@, old(step)@),
        match step_spec(old(step)@, old(vehicle)@, reached) {
            None => r is None,
            Some(x) => {
                &&& r matches Some(out)
                &&& final(step)@ == x.0
                &&& final(vehicle)@ == x.1
                &&& out.0 == x.2
                &&& match (out.1, x.3) {
                    (Some(m), Some(mv)) => m.0@ == mv.0 && m.1@ == mv.1,
                    (None, None) => true,
                    _ => false,
                }
            },
        },
{
    reveal(step_spec);
    match step {
        ProcessingStep::MetadataJoin(s) => Some(s.apply(vehicle, low_watermark)),
        ProcessingStep::StopDetection(s) => s.apply(vehicle, reached),
        ProcessingStep::TrainingFeatures(s) => s.apply(vehicle, low_watermark),
        ProcessingStep::InferenceFeatures(s) => s.apply(vehicle, low_watermark),
    }
}

/// Whether `step` must find the stop `vehicle` is at.
fn needs_location(step: &ProcessingStep, vehicle: &Vehicle) -> (r: bool)
    ensures
        r == locate_request(step@, vehicle@) is Some,
{
    match step {
        ProcessingStep::StopDetection(_) => match &vehicle.metadata {
            Some(md) => {
                let metro = match md.route_type {
                    Some(t) => t == METRO_ROUTE_TYPE,
                    None => false,
                };
                metro && md.stops.is_some()
            },
            None => false,
        },
        _ => false,
    }
}

impl StreamProcessor {
    #[verifier::type_invariant]
    closed spec fn pending_consistent(self) -> bool {
        match self.pending {
            None => true,
            Some(p) => {
                let n = p.start@.steps.len();
                let k = p.next_step;
                let full = padded_reports(p.reports@, n);
                &&& p.reports@.len() == k
                &&& k < n
                &&& accepted(p.start@, p.event@)
                &&& self.processing_time_widow == p.start@.window
                &&& self.low_watermark == next_watermark(p.start@, p.event@)
                &&& run_spec(p.start@.steps, p.event@, full, k as nat) == Some(
                    (self@.steps, p.vehicle@, true, messages_view(p.messages@)),
                )
                &&& locate_request(self@.steps[k as int], p.vehicle@) is Some
            },
        }
    }

    /// An event waits at a stop detection step.
    pub closed spec fn awaiting(&self) -> bool {
        self.pending is Some
    }

    /// The processor's state when the waiting event arrived.
    pub closed spec fn event_start(&self) -> StreamView {
        self.pending->0.start@
    }

    /// The waiting event as it arrived.
    pub closed spec fn event_vehicle(&self) -> VehicleView {
        self.pending->0.event@
    }

    /// The reports of the steps before the waiting one.
    pub closed spec fn reports(&self) -> Seq<Option<usize>> {
        self.pending->0.reports@
    }

    /// A processor with the given processing window and no steps.
    pub fn init(processing_time_widow: u64) -> (r: Self)
        ensures
            r@.low_watermark == 0,
            r@.window == processing_time_widow,
            r@.steps == Seq::<StepView>::empty(),
            !r.awaiting(),
    {
        let r = StreamProcessor {
            processing_time_widow,
            low_watermark: 0,
            processing_steps: Vec::new(),
            pending: None,
        };
        assert(r@.steps =~= Seq::<StepView>::empty());
        r
    }

    /// Appends a processing step.
    pub fn register_step(&mut self, step: ProcessingStep)
        requires
            !old(self).awaiting(),
        ensures
            final(self)@.low_watermark == old(self)@.low_watermark,
            final(self)@.window == old(self)@.window,
            final(self)@.steps == old(self)@.steps.push(step@),
            !final(self).awaiting(),
    {
        let ghost s = step@;
        let mut steps: Vec<ProcessingStep> = Vec::new();
        std::mem::swap(&mut steps, &mut self.processing_steps);
        steps.push(step);
        self.processing_steps = steps;
        assert(self@.steps =~= old(self)@.steps.push(s));
    }

    /// The standard pipeline over a loaded metadata table: a processing
    /// window of 5 seconds, then metadata join, stop detection, training
    /// features and inference features.
    pub fn default(table: MetadataTable) -> (r: Self)
        ensures
            r@.low_watermark == 0,
            r@.window == 5,
            r@.steps == seq![
                StepView::MetadataJoin(table@),
                StepView::StopDetection(Map::<Seq<char>, TripTimes>::empty()),
                StepView::TrainingFeatures(Set::<Seq<char>>::empty()),
                StepView::InferenceFeatures(Map::<Seq<char>, usize>::empty()),
            ],
            !r.awaiting(),
    {
        let mut processor = Self::init(5);
        processor.register_step(ProcessingStep::MetadataJoin(MetadataJoiner::init(table)));
        processor.register_step(ProcessingStep::StopDetection(StopDetector::init()));
        processor.register_step(ProcessingStep::TrainingFeatures(TrainingFeatureExtractor::init()));
        processor.register_step(ProcessingStep::InferenceFeatures(InferenceFeatureExtractor::init()));
        assert(processor@.steps =~= seq![
            StepView::MetadataJoin(table@),
            StepView::StopDetection(Map::<Seq<char>, TripTimes>::empty()),
            StepView::TrainingFeatures(Set::<Seq<char>>::empty()),
            StepView::InferenceFeatures(Map::<Seq<char>, usize>::empty()),
        ]);
        processor
    }

    /// The current low watermark.
    pub fn low_watermark(&self) -> (r: u64)
        ensures
            r == self@.low_watermark,
    {
        self.low_watermark
    }

    /// Whether an event waits at a stop detection step.
    pub fn awaiting_location(&self) -> (r: bool)
        ensures
            r == self.awaiting(),
    {
        self.pending.is_some()
    }

    /// Starts processing one event (see `event_spec` and `progress_spec`):
    /// the event runs until it is done or a stop detection step must know
    /// which stop the vehicle is at.
    pub fn process_event(&mut self, vehicle: Vehicle) -> (r: Progress)
        requires
            !old(self).awaiting(),
        ensures
            progress_spec(old(self)@, vehicle@, Seq::<Option<usize>>::empty(), r, *final(self)),
    {
        let ghost s = self@;
        let ghost v = vehicle@;
        let ghost n = s.steps.len();
        if vehicle.timestamp < self.low_watermark {
            let out = EventOutcome { vehicle: None, messages: Vec::new() };
            assert(messages_view(out.messages@) =~= Seq::<MessageView>::empty());
            return Progress::Done(Some(out));
        }
        if vehicle.timestamp < self.processing_time_widow {
            return Progress::Done(None);
        }
        let candidate = vehicle.timestamp - self.processing_time_widow;
        if self.low_watermark < candidate {
            self.low_watermark = candidate;
        }
        let msgs: Vec<(String, Vec<u8>)> = Vec::new();
        assert(messages_view(msgs@) =~= Seq::<MessageView>::empty());
        self.run_from(0, None, vehicle, msgs, Ghost(s), Ghost(v), Ghost(Seq::<Option<usize>>::empty()))
    }

    /// Goes on with the waiting event: `report` is the index of the stop
    /// within detection distance of the vehicle in the request, or None.
    pub fn resume(&mut self, report: Option<usize>) -> (r: Progress)
        requires
            old(self).awaiting(),
        ensures
            progress_spec(
                old(self).event_start(),
                old(self).event_vehicle(),
                old(self).reports().push(report),
                r,
                *final(self),
            ),
    {
        proof {
            use_type_invariant(&*self);
        }
        let mut taken: Option<PendingEvent> = None;
        std::mem::swap(&mut taken, &mut self.pending);
        let p = match taken {
            Some(p) => p,
            None => {
                assert(false);
                return Progress::Done(None);
            },
        };
        let PendingEvent { vehicle, messages, next_step, start, event, reports } = p;
        let ghost s = start@;
        let ghost v = event@;
        let ghost n = s.steps.len();
        let ghost reps = reports@.push(report);
        proof {
            lemma_run_agree(s.steps, v, padded_reports(reports@, n), padded_reports(reps, n), next_step as nat);
        }
        self.run_from(next_step, Some(report), vehicle, messages, Ghost(s), Ghost(v), Ghost(reps))
    }

    /// Runs the steps from `first` on, with the report `answer` for step
    /// `first` where one is given, until the event is done or a step must
    /// find the vehicle's stop.
    fn run_from(
        &mut self,
        first: usize,
        answer: Option<Option<usize>>,
        vehicle: Vehicle,
        messages: Vec<(String, Vec<u8>)>,
        Ghost(start): Ghost<StreamView>,
        Ghost(event): Ghost<VehicleView>,
        Ghost(reps): Ghost<Seq<Option<usize>>>,
    ) -> (r: Progress)
        requires
            old(self).pending is None,
            reps.len() == first + (if answer is Some { 1int } else { 0int }),
            answer matches Some(a) ==> reps[first as int] == a,
            reps.len() <= start.steps.len(),
            accepted(start, event),
            old(self).processing_time_widow == start.window,
            old(self).low_watermark == next_watermark(start, event),
            run_spec(start.steps, event, padded_reports(reps, start.steps.len()), first as nat) == Some(
                (old(self)@.steps, vehicle@, true, messages_view(messages@)),
            ),
        ensures
            progress_spec(start, event, reps, r, *final(self)),
    {
        let ghost n = start.steps.len();
        let ghost full = padded_reports(reps, n);
        proof {
            lemma_run_kinds(start.steps, event, full, first as nat);
        }
        let lw = self.low_watermark;
        let mut steps: Vec<ProcessingStep> = Vec::new();
        std::mem::swap(&mut steps, &mut self.processing_steps);
        let total = steps.len();
        let mut k = first;
        let mut current = vehicle;
        let mut messages = messages;
        while k < total
            invariant
                first <= k <= total,
                total == n,
                n == start.steps.len(),
                reps.len() == first + (if answer is Some { 1int } else { 0int }),
                answer matches Some(a) ==> reps[first as int] == a,
                reps.len() <= n,
                full == padded_reports(reps, n),
                self.pending is None,
                accepted(start, event),
                self.processing_time_widow == start.window,
                self.low_watermark == lw,
                lw == next_watermark(start, event),
                steps@.len() == total,
                self.processing_steps@.len() == 0,
                run_spec(start.steps, event, full, k as nat) == Some(
                    (steps_view(steps@), current@, true, messages_view(messages@)),
                ),
                same_kinds(steps_view(steps@), start.steps),
                forall|j: int| reps.len() <= j < k ==> !#[trigger] asks_at(start.steps, event, full, j as nat),
            decreases total - k,
        {
            let answered = k == first && answer.is_some();
            let rep: Option<usize> = if answered {
                match answer {
                    Some(a) => a,
                    None => None,
                }
            } else {
                None
            };
            assert(full[k as int] == rep);
            assert(steps_view(steps@)[k as int] == steps@[k as int]@);
            if !answered && needs_location(&steps[k], &current) {
                let stops = match &current.metadata {
                    Some(md) => match &md.stops {
                        Some(st) => clone_stops(st),
                        None => Vec::new(),
                    },
                    None => Vec::new(),
                };
                let req = LocateRequest { stops, lat: current.lat, lng: current.lng };
                let ghost taken = full.take(k as int);
                proof {
                    assert(padded_reports(taken, n) =~= full);
                    assert(taken.len() == k);
                }
                self.processing_steps = steps;
                self.pending = Some(
                    PendingEvent {
                        vehicle: current,
                        messages,
                        next_step: k,
                        start: Ghost(start),
                        event: Ghost(event),
                        reports: Ghost(taken),
                    },
                );
                return Progress::Locate(req);
            }
            let ghost acc = run_spec(start.steps, event, full, k as nat)->0;
            let ghost steps_old = steps@;
            let ghost msgs_old = messages@;
            let mut step = steps.remove(k);
            let res = apply_step(&mut step, &mut current, lw, rep);
            steps.insert(k, step);
            proof {
                assert(steps@ =~= steps_old.update(k as int, step));
                assert(steps_view(steps@) =~= acc.0.update(k as int, step@));
            }
            match res {
                None => {
                    proof {
                        assert(run_spec(start.steps, event, full, (k + 1) as nat) is None);
                        lemma_run_none(start.steps, event, full, (k + 1) as nat, n);
                        assert forall|j: int| reps.len() <= j < n implies !#[trigger] asks_at(
                            start.steps,
                            event,
                            full,
                            j as nat,
                        ) by {
                            if j > k {
                                lemma_run_none(start.steps, event, full, (k + 1) as nat, j as nat);
                            }
                        }
                        assert(same_kinds(steps_view(steps@), start.steps));
                    }
                    self.processing_steps = steps;
                    return Progress::Done(None);
                },
                Some((keep, msg)) => {
                    if let Some(m) = msg {
                        messages.push(m);
                    }
                    proof {
                        let nx = run_spec(start.steps, event, full, (k + 1) as nat)->0;
                        assert(messages_view(messages@) =~= nx.3);
                    }
                    if !keep {
                        proof {
                            lemma_run_stopped(start.steps, event, full, (k + 1) as nat, n);
                            assert forall|j: int| reps.len() <= j < n implies !#[trigger] asks_at(
                                start.steps,
                                event,
                                full,
                                j as nat,
                            ) by {
                                if j > k {
                                    lemma_run_stopped(start.steps, event, full, (k + 1) as nat, j as nat);
                                }
                            }
                        }
                        self.processing_steps = steps;
                        return Progress::Done(Some(EventOutcome { vehicle: None, messages }));
                    }
                },
            }
            k = k + 1;
        }
        self.processing_steps = steps;
        Progress::Done(Some(EventOutcome { vehicle: Some(current), messages }))
    }
}

/// Running the steps keeps their kinds.
proof fn lemma_run_kinds(steps: Seq<StepView>, v: VehicleView, r: Seq<Option<usize>>, k: nat)
    requires
        k <= steps.len(),
    ensures
        run_spec(steps, v, r, k) matches Some(acc) ==> same_kinds(acc.0, steps),
    decreases k,
{
    reveal(step_spec);
    if k > 0 {
        lemma_run_kinds(steps, v, r, (k - 1) as nat);
        if let Some(acc) = run_spec(steps, v, r, (k - 1) as nat) {
            if acc.2 {
                if let Some(x) = step_spec(acc.0[k - 1], acc.1, r[k - 1]) {
                    let next = acc.0.update(k - 1, x.0);
                    assert(same_kind(x.0, acc.0[k - 1]));
                    assert forall|i: int| 0 <= i < next.len() implies same_kind(#[trigger] next[i], steps[i]) by {
                        if i != k - 1 {
                            assert(same_kind(acc.0[i], steps[i]));
                        }
                    }
                }
            }
        }
    }
}

/// Once a step dropped the vehicle, no later step changes the outcome.
proof fn lemma_run_stopped(steps: Seq<StepView>, v: VehicleView, r: Seq<Option<usize>>, k: nat, m: nat)
    requires
        run_spec(steps, v, r, k) matches Some(acc) && !acc.2,
        k <= m,
    ensures
        run_spec(steps, v, r, m) == run_spec(steps, v, r, k),
    decreases m - k,
{
    if k < m {
        lemma_run_stopped(steps, v, r, k, (m - 1) as nat);
    }
}

/// The outcome of the first `k` steps depends only on the first `k` stop
/// reports.
proof fn lemma_run_agree(
    steps: Seq<StepView>,
    v: VehicleView,
    r1: Seq<Option<usize>>,
    r2: Seq<Option<usize>>,
    k: nat,
)
    requires
        k <= r1.len(),
        k <= r2.len(),
        forall|i: int| 0 <= i < k ==> r1[i] == r2[i],
    ensures
        run_spec(steps, v, r1, k) == run_spec(steps, v, r2, k),
    decreases k,
{
    if k > 0 {
        lemma_run_agree(steps, v, r1, r2, (k - 1) as nat);
    }
}

proof fn lemma_run_none(steps: Seq<StepView>, v: VehicleView, r: Seq<Option<usize>>, k: nat, m: nat)
    requires
        run_spec(steps, v, r, k) is None,
        k <= m,
    ensures
        run_spec(steps, v, r, m) is None,
    decreases m - k,
{
    if k < m {
        lemma_run_none(steps, v, r, k, (m - 1) as nat);
    }
}


/// The low watermark never decreases and the processing window never
/// changes.
pub proof fn lemma_watermark_monotone(s: StreamView, v: VehicleView, reached: Seq<Option<usize>>)
    ensures
        event_spec(s, v, reached) matches Some(x) ==> x.0.low_watermark >= s.low_watermark
            && x.0.window == s.window,
{
}

/// An event older than the low watermark is dropped: nothing is passed on,
/// nothing is published and no state changes.
pub proof fn lemma_late_event_dropped(s: StreamView, v: VehicleView, reached: Seq<Option<usize>>)
    requires
        v.timestamp < s.low_watermark,
    ensures
        event_spec(s, v, reached) == Some((s, None::<VehicleView>, Seq::<MessageView>::empty())),
{
}

/// After an accepted event at time `t`, every event older than `t` less the
/// processing window is dropped.
pub proof fn lemma_watermark_covers_window(s: StreamView, v: VehicleView, reached: Seq<Option<usize>>)
    ensures
        v.timestamp >= s.low_watermark ==> (event_spec(s, v, reached) matches Some(x)
            ==> x.0.low_watermark >= v.timestamp - s.window),
{
}

/// No step changes a vehicle's id or event time.
pub proof fn lemma_step_keeps_identity(st: StepView, v: VehicleView, reached: Option<usize>)
    ensures
        step_spec(st, v, reached) matches Some(r) ==> r.1.id == v.id && r.1.timestamp == v.timestamp,
{
    reveal(step_spec);
}

proof fn lemma_run_keeps_identity(steps: Seq<StepView>, v: VehicleView, reached: Seq<Option<usize>>, k: nat)
    ensures
        run_spec(steps, v, reached, k) matches Some(r) ==> r.1.id == v.id && r.1.timestamp == v.timestamp,
    decreases k,
{
    if k > 0 {
        lemma_run_keeps_identity(steps, v, reached, (k - 1) as nat);
        if let Some(acc) = run_spec(steps, v, reached, (k - 1) as nat) {
            if acc.2 {
                lemma_step_keeps_identity(acc.0[k - 1], acc.1, reached[k - 1]);
            }
        }
    }
}

/// A vehicle that is passed on keeps its id and event time, and its event
/// time is not older than the low watermark it arrived at.
pub proof fn lemma_forwarded_event(s: StreamView, v: VehicleView, reached: Seq<Option<usize>>)
    ensures
        event_spec(s, v, reached) matches Some(x) ==> (x.1 matches Some(w) ==> w.id == v.id
            && w.timestamp == v.timestamp && v.timestamp >= s.low_watermark),
{
    lemma_run_keeps_identity(s.steps, v, reached, s.steps.len());
}

/// The first `k` events of a stream processed in order, each with its own
/// stop reports: the processor's state and, per event, the vehicle passed
/// on; None where processing aborts.
pub open spec fn stream_run(
    s: StreamView,
    vs: Seq<VehicleView>,
    rs: Seq<Seq<Option<usize>>>,
    k: nat,
) -> Option<(StreamView, Seq<Option<VehicleView>>)>
    decreases k,
{
    if k == 0 {
        Some((s, Seq::<Option<VehicleView>>::empty()))
    } else {
        match stream_run(s, vs, rs, (k - 1) as nat) {
            None => None,
            Some(acc) => match event_spec(acc.0, vs[k - 1], rs[k - 1]) {
                None => None,
                Some(x) => Some((x.0, acc.1.push(x.1))),
            },
        }
    }
}

/// The processor's state after the first `k` events (the start state where
/// processing aborted).
pub open spec fn stream_state(s: StreamView, vs: Seq<VehicleView>, rs: Seq<Seq<Option<usize>>>, k: nat) -> StreamView {
    match stream_run(s, vs, rs, k) {
        Some(x) => x.0,
        None => s,
    }
}

/// The vehicles passed on for the first `k` events, one entry per event
/// (empty where processing aborted).
pub open spec fn stream_forwarded(
    s: StreamView,
    vs: Seq<VehicleView>,
    rs: Seq<Seq<Option<usize>>>,
    k: nat,
) -> Seq<Option<VehicleView>> {
    match stream_run(s, vs, rs, k) {
        Some(x) => x.1,
        None => Seq::<Option<VehicleView>>::empty(),
    }
}

/// Over a stream, the low watermark never decreases and the processing
/// window never changes.
pub proof fn lemma_watermark_monotone_run(
    s: StreamView,
    vs: Seq<VehicleView>,
    rs: Seq<Seq<Option<usize>>>,
    m: nat,
    k: nat,
)
    requires
        m <= k,
        stream_run(s, vs, rs, k) is Some,
    ensures
        stream_run(s, vs, rs, m) is Some,
        stream_state(s, vs, rs, m).low_watermark <= stream_state(s, vs, rs, k).low_watermark,
        stream_state(s, vs, rs, k).window == s.window,
        stream_forwarded(s, vs, rs, k).len() == k,
        forall|i: int| 0 <= i < m ==> #[trigger] stream_forwarded(s, vs, rs, k)[i] == stream_forwarded(s, vs, rs, m)[i],
    decreases k,
{
    if k > 0 {
        if m < k {
            lemma_watermark_monotone_run(s, vs, rs, m, (k - 1) as nat);
        } else {
            lemma_watermark_monotone_run(s, vs, rs, (k - 1) as nat, (k - 1) as nat);
        }
        let prev = stream_state(s, vs, rs, (k - 1) as nat);
        lemma_watermark_monotone(prev, vs[k - 1], rs[k - 1]);
    }
}

/// Over a stream, once an event at time `t` was accepted, every later event
/// older than `t` less the processing window is dropped.
pub proof fn lemma_late_after_accepted_run(
    s: StreamView,
    vs: Seq<VehicleView>,
    rs: Seq<Seq<Option<usize>>>,
    i: int,
    j: int,
)
    requires
        0 <= i < j < vs.len(),
        rs.len() == vs.len(),
        stream_run(s, vs, rs, vs.len()) is Some,
        vs[i].timestamp >= stream_state(s, vs, rs, i as nat).low_watermark,
        vs[j].timestamp + s.window < vs[i].timestamp,
    ensures
        stream_forwarded(s, vs, rs, vs.len())[j] is None,
{
    let n = vs.len();
    lemma_watermark_monotone_run(s, vs, rs, j as nat, n);
    lemma_watermark_monotone_run(s, vs, rs, (i + 1) as nat, j as nat);
    lemma_watermark_monotone_run(s, vs, rs, (j + 1) as nat, n);
    lemma_watermark_monotone_run(s, vs, rs, i as nat, i as nat);
    lemma_watermark_monotone_run(s, vs, rs, j as nat, j as nat);
    let si = stream_state(s, vs, rs, i as nat);
    lemma_watermark_covers_window(si, vs[i], rs[i]);
    let sj = stream_state(s, vs, rs, j as nat);
    lemma_late_event_dropped(sj, vs[j], rs[j]);
}

} // verus!
