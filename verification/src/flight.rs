//! The life of one flight, from engine start to shutdown.
//!
//! Times are whole seconds since the Unix epoch, UTC.

use crate::aircraft::{Aircraft, AircraftView};
use crate::airport::{Airport, AirportView};
use crate::date::{time_field, time_text};
use crate::sim_connection::{SimMessage, SimMessageView};
use crate::text::text_view;
use vstd::prelude::*;

verus! {

/// The phases a tracked flight passes through.
#[derive(Clone, Copy, Debug, PartialEq, Eq, Structural)]
pub enum FlightState {
    Preflight,
    Taxi,
    EnRoute,
    Landed,
    Complete,
}

/// Why a sample could not be applied to a flight.
#[derive(Clone, Copy, Debug, PartialEq, Eq, Structural)]
pub enum TrackError {
    /// The aircraft left the ground where no airport is known.
    InvalidTakeoffAirport,
    /// The aircraft touched the ground where no airport is known.
    InvalidLandingAirport,
}

/// One flight in progress: who flies, how far the flight has come, and when and
/// where each milestone was reached.
#[derive(Debug)]
pub struct Flight {
    pub aircraft: Aircraft,
    pub state: FlightState,
    pub taxi_out: Option<i64>,
    pub departure: Option<(Airport, i64)>,
    pub arrival: Option<(Airport, i64)>,
    pub shutdown: Option<i64>,
}

/// A `Flight` over the views of its aircraft and airports.
pub struct FlightView {
    pub aircraft: AircraftView,
    pub state: FlightState,
    pub taxi_out: Option<i64>,
    pub departure: Option<(AirportView, i64)>,
    pub arrival: Option<(AirportView, i64)>,
    pub shutdown: Option<i64>,
}

/// An airport milestone over the airport's view.
pub open spec fn milestone_view(milestone: Option<(Airport, i64)>) -> Option<(AirportView, i64)> {
    match milestone {
        Some((airport, time)) => Some((airport@, time)),
        None => None,
    }
}

/// The identifier of the airport of a milestone.
pub open spec fn milestone_ident(milestone: Option<(AirportView, i64)>) -> Option<Seq<char>> {
    match milestone {
        Some((airport, _)) => Some(airport.ident),
        None => None,
    }
}

/// The time of a milestone.
pub open spec fn milestone_time(milestone: Option<(AirportView, i64)>) -> Option<i64> {
    match milestone {
        Some((_, time)) => Some(time),
        None => None,
    }
}

/// The fields of a record as sequences of characters.
pub open spec fn record_view(record: Seq<Option<String>>) -> Seq<Option<Seq<char>>> {
    record.map_values(|field: Option<String>| text_view(field))
}

/// An airport lookup result over the airport's view.
pub open spec fn lookup_view(airport: Option<Airport>) -> Option<AirportView> {
    match airport {
        Some(found) => Some(found@),
        None => None,
    }
}

impl View for Flight {
    type V = FlightView;

    open spec fn view(&self) -> FlightView {
        FlightView {
            aircraft: self.aircraft@,
            state: self.state,
            taxi_out: self.taxi_out,
            departure: milestone_view(self.departure),
            arrival: milestone_view(self.arrival),
            shutdown: self.shutdown,
        }
    }
}

/// Copies an airport milestone.
fn clone_milestone(milestone: &Option<(Airport, i64)>) -> (copy: Option<(Airport, i64)>)
    ensures
        copy == *milestone,
{
    match milestone {
        Some((airport, time)) => Some((airport.clone(), *time)),
        None => None,
    }
}

impl Clone for Flight {
    fn clone(&self) -> (copy: Flight)
        ensures
            copy == *self,
    {
        Flight {
            aircraft: self.aircraft.clone(),
            state: self.state,
            taxi_out: self.taxi_out,
            departure: clone_milestone(&self.departure),
            arrival: clone_milestone(&self.arrival),
            shutdown: self.shutdown,
        }
    }
}

impl FlightView {
    /// A flight that has not begun: the aircraft as first seen, no milestone reached.
    pub open spec fn start(aircraft: AircraftView) -> FlightView {
        FlightView {
            aircraft,
            state: FlightState::Preflight,
            taxi_out: None,
            departure: None,
            arrival: None,
            shutdown: None,
        }
    }

    /// Every milestone that the flight's state lies behind has been recorded.
    pub open spec fn well_formed(self) -> bool {
        &&& self.state != FlightState::Preflight ==> self.taxi_out is Some
        &&& (self.state == FlightState::EnRoute || self.state == FlightState::Landed
            || self.state == FlightState::Complete) ==> self.departure is Some
        &&& (self.state == FlightState::Landed || self.state == FlightState::Complete)
            ==> self.arrival is Some
        &&& self.state == FlightState::Complete ==> self.shutdown is Some
    }

    /// The nine fields of the flight's logbook record: the aircraft's title,
    /// type code and registration, the time of taxi, the airport and time of
    /// departure, the airport and time of arrival, and the time of shutdown.
    /// A milestone that was not reached has no field, nor has a time that
    /// cannot be written.
    pub open spec fn record(self) -> Seq<Option<Seq<char>>> {
        seq![
            Some(self.aircraft.title),
            Some(self.aircraft.icao),
            Some(self.aircraft.registration),
            time_text(self.taxi_out),
            milestone_ident(self.departure),
            time_text(milestone_time(self.departure)),
            milestone_ident(self.arrival),
            time_text(milestone_time(self.arrival)),
            time_text(self.shutdown),
        ]
    }

    /// The flight after one sample, taken at `now` with `airport` the airport
    /// found at the sample's position. At most one rule applies, the one of
    /// the flight's state:
    ///
    /// - before taxi, a running engine starts the taxi;
    /// - in taxi, leaving the ground is the departure, from `airport`;
    /// - en route, touching the ground is the arrival, at `airport`;
    /// - once landed, leaving the ground again resumes the flight and keeps
    ///   the arrival as recorded, while stopping all engines on the ground
    ///   completes the flight;
    /// - a complete flight does not change.
    ///
    /// A departure or an arrival without an airport is an error.
    pub open spec fn advance(
        self,
        sample: AircraftView,
        airport: Option<AirportView>,
        now: i64,
    ) -> Result<FlightView, TrackError> {
        match self.state {
            FlightState::Preflight => if sample.any_engine_on() {
                Ok(FlightView { state: FlightState::Taxi, taxi_out: Some(now), ..self })
            } else {
                Ok(self)
            },
            FlightState::Taxi => if !sample.on_ground {
                match airport {
                    Some(from) => Ok(
                        FlightView {
                            state: FlightState::EnRoute,
                            departure: Some((from, now)),
                            ..self
                        },
                    ),
                    None => Err(TrackError::InvalidTakeoffAirport),
                }
            } else {
                Ok(self)
            },
            FlightState::EnRoute => if sample.on_ground {
                match airport {
                    Some(to) => Ok(
                        FlightView {
                            state: FlightState::Landed,
                            arrival: Some((to, now)),
                            ..self
                        },
                    ),
                    None => Err(TrackError::InvalidLandingAirport),
                }
            } else {
                Ok(self)
            },
            FlightState::Landed => if !sample.on_ground {
                Ok(FlightView { state: FlightState::EnRoute, ..self })
            } else if !sample.any_engine_on() {
                Ok(FlightView { state: FlightState::Complete, shutdown: Some(now), ..self })
            } else {
                Ok(self)
            },
            FlightState::Complete => Ok(self),
        }
    }
}

impl Flight {
    /// A flight that has not begun, for the aircraft of the first sample.
    pub fn new(aircraft: &Aircraft) -> (flight: Flight)
        ensures
            flight@ == FlightView::start(aircraft@),
    {
        Flight {
            aircraft: aircraft.clone(),
            state: FlightState::Preflight,
            taxi_out: None,
            departure: None,
            arrival: None,
            shutdown: None,
        }
    }

    /// Records the arrival at `airport` at `time`.
    pub fn arrive(&mut self, airport: &Airport, time: i64)
        ensures
            final(self)@ == (FlightView { arrival: Some((airport@, time)), ..old(self)@ }),
    {
        self.arrival = Some((airport.clone(), time));
    }

    /// Records the departure from `airport` at `time`.
    pub fn depart(&mut self, airport: &Airport, time: i64)
        ensures
            final(self)@ == (FlightView { departure: Some((airport@, time)), ..old(self)@ }),
    {
        self.departure = Some((airport.clone(), time));
    }

    /// The fields of the flight's logbook record, as `FlightView::record`
    /// says.
    pub fn to_record(&self) -> (record: Vec<Option<String>>)
        ensures
            record_view(record@) == self@.record(),
    {
        let mut record: Vec<Option<String>> = Vec::new();
        record.push(Some(self.aircraft.title.clone()));
        record.push(Some(self.aircraft.icao.clone()));
        record.push(Some(self.aircraft.registration.clone()));
        record.push(time_field(self.taxi_out));
        match &self.departure {
            Some((airport, time)) => {
                record.push(Some(airport.ident.clone()));
                record.push(time_field(Some(*time)));
            },
            None => {
                record.push(None);
                record.push(None);
            },
        }
        match &self.arrival {
            Some((airport, time)) => {
                record.push(Some(airport.ident.clone()));
                record.push(time_field(Some(*time)));
            },
            None => {
                record.push(None);
                record.push(None);
            },
        }
        record.push(time_field(self.shutdown));
        assert(record_view(record@) =~= self@.record());
        record
    }

    /// Applies one sample to the flight, as `FlightView::advance` says. On an
    /// error the flight is left as it was.
    pub fn advance(&mut self, sample: &Aircraft, airport: &Option<Airport>, now: i64) -> (result:
        Result<(), TrackError>)
        ensures
            match old(self)@.advance(sample@, lookup_view(*airport), now) {
                Ok(next) => result is Ok && final(self)@ == next,
                Err(error) => result == Err::<(), TrackError>(error) && final(self)@ == old(self)@,
            },
    {
        match self.state {
            FlightState::Preflight => {
                if sample.any_engine_on() {
                    self.taxi_out = Some(now);
                    self.state = FlightState::Taxi;
                }
            },
            FlightState::Taxi => {
                if !sample.on_ground {
                    match airport {
                        Some(from) => {
                            self.depart(from, now);
                            self.state = FlightState::EnRoute;
                        },
                        None => {
                            return Err(TrackError::InvalidTakeoffAirport);
                        },
                    }
                }
            },
            FlightState::EnRoute => {
                if sample.on_ground {
                    match airport {
                        Some(to) => {
                            self.arrive(to, now);
                            self.state = FlightState::Landed;
                        },
                        None => {
                            return Err(TrackError::InvalidLandingAirport);
                        },
                    }
                }
            },
            FlightState::Landed => {
                if !sample.on_ground {
                    self.state = FlightState::EnRoute;
                } else if !sample.any_engine_on() {
                    self.shutdown = Some(now);
                    self.state = FlightState::Complete;
                }
            },
            FlightState::Complete => {},
        }
        Ok(())
    }
}

/// Tracks at most one flight at a time, fed one sample per tick.
#[derive(Debug)]
pub struct FlightTracker {
    pub current: Option<Flight>,
}

impl View for FlightTracker {
    type V = Option<FlightView>;

    open spec fn view(&self) -> Option<FlightView> {
        match self.current {
            Some(flight) => Some(flight@),
            None => None,
        }
    }
}

/// What one tick leaves behind: the flight in progress after it, and the
/// flight that it hands over for the logbook.
pub struct Tick {
    pub current: Option<FlightView>,
    pub completed: Option<FlightView>,
}

/// One tick of the tracker, on a sample taken at `now` with `airport` the
/// airport found at the sample's position.
///
/// With no flight in progress the sample begins one, and the rule for a
/// flight that has not begun is applied to it at once. A flight that an
/// earlier tick completed is handed over and leaves nothing in progress; the
/// sample is not looked at. Any other flight advances by the sample.
pub open spec fn tick(
    current: Option<FlightView>,
    sample: AircraftView,
    airport: Option<AirportView>,
    now: i64,
) -> Result<Tick, TrackError> {
    let flight = match current {
        Some(flight) => flight,
        None => FlightView::start(sample),
    };
    if flight.state == FlightState::Complete {
        Ok(Tick { current: None, completed: Some(flight) })
    } else {
        match flight.advance(sample, airport, now) {
            Ok(next) => Ok(Tick { current: Some(next), completed: None }),
            Err(error) => Err(error),
        }
    }
}

/// What the engine does after a message.
#[derive(Debug)]
pub enum Step {
    /// Ask for the next message.
    Continue,
    /// Write this completed flight to the logbook, then ask for the next
    /// message.
    Log(Flight),
    /// Stop: the simulator is gone.
    Stop,
}

/// A `Step` over the view of its flight.
pub enum StepView {
    Continue,
    Log(FlightView),
    Stop,
}

impl View for Step {
    type V = StepView;

    open spec fn view(&self) -> StepView {
        match *self {
            Step::Continue => StepView::Continue,
            Step::Log(flight) => StepView::Log(flight@),
            Step::Stop => StepView::Stop,
        }
    }
}

/// What a message does to the flight in progress, and what the engine does
/// next, as a pair.
///
/// A sample runs one tick, with `airport` the airport found at its
/// position; a flight that the tick hands over is to be logged. When the
/// simulator quits, the engine stops and the flight in progress is dropped.
/// Any other message changes nothing.
pub open spec fn react(
    current: Option<FlightView>,
    message: SimMessageView,
    airport: Option<AirportView>,
    now: i64,
) -> Result<(Option<FlightView>, StepView), TrackError> {
    match message {
        SimMessageView::SimData(sample) => match tick(current, sample, airport, now) {
            Ok(after) => Ok(
                (
                    after.current,
                    match after.completed {
                        Some(flight) => StepView::Log(flight),
                        None => StepView::Continue,
                    },
                ),
            ),
            Err(error) => Err(error),
        },
        SimMessageView::Quit => Ok((None, StepView::Stop)),
        _ => Ok((current, StepView::Continue)),
    }
}

/// A completed flight over its view.
pub open spec fn completed_view(flight: Option<Flight>) -> Option<FlightView> {
    match flight {
        Some(done) => Some(done@),
        None => None,
    }
}

impl FlightTracker {
    /// A tracker with no flight in progress.
    pub fn new() -> (tracker: FlightTracker)
        ensures
            tracker@ is None,
    {
        FlightTracker { current: None }
    }

    /// Runs one tick, as `tick` says, and returns the completed flight if the
    /// tick hands one over. On an error the tracker is left as it was.
    pub fn update(&mut self, sample: &Aircraft, airport: &Option<Airport>, now: i64) -> (result:
        Result<Option<Flight>, TrackError>)
        ensures
            match tick(old(self)@, sample@, lookup_view(*airport), now) {
                Ok(after) => {
                    &&& result matches Ok(completed)
                    &&& completed_view(completed) == after.completed
                    &&& final(self)@ == after.current
                },
                Err(error) => {
                    &&& result matches Err(reported)
                    &&& reported == error
                    &&& final(self)@ == old(self)@
                },
            },
    {
        let mut flight = match self.current.take() {
            Some(flight) => flight,
            None => Flight::new(sample),
        };
        if flight.state == FlightState::Complete {
            return Ok(Some(flight));
        }
        let advanced = flight.advance(sample, airport, now);
        self.current = Some(flight);
        match advanced {
            Ok(()) => Ok(None),
            Err(error) => Err(error),
        }
    }
}

impl FlightTracker {
    /// Takes one message of the simulator connection, as `react` says. On an
    /// error the tracker is left as it was.
    pub fn on_message(
        &mut self,
        message: &SimMessage,
        airport: &Option<Airport>,
        now: i64,
    ) -> (result: Result<Step, TrackError>)
        ensures
            match react(old(self)@, message@, lookup_view(*airport), now) {
                Ok((current, step)) => {
                    &&& result matches Ok(next)
                    &&& next@ == step
                    &&& final(self)@ == current
                },
                Err(error) => {
                    &&& result matches Err(reported)
                    &&& reported == error
                    &&& final(self)@ == old(self)@
                },
            },
    {
        match message {
            SimMessage::SimData(sample) => match self.update(sample, airport, now) {
                Ok(Some(flight)) => Ok(Step::Log(flight)),
                Ok(None) => Ok(Step::Continue),
                Err(error) => Err(error),
            },
            SimMessage::Quit => {
                self.current = None;
                Ok(Step::Stop)
            },
            _ => Ok(Step::Continue),
        }
    }
}

/// A sample never takes a recorded milestone away: a flight that is well
/// formed stays so.
pub proof fn lemma_advance_keeps_well_formed(
    flight: FlightView,
    sample: AircraftView,
    airport: Option<AirportView>,
    now: i64,
)
    requires
        flight.well_formed(),
    ensures
        flight.advance(sample, airport, now) matches Ok(next) ==> next.well_formed(),
        FlightView::start(sample).well_formed(),
{
}

/// The aircraft of a flight is the one of its first sample: no later sample
/// replaces it.
pub proof fn lemma_advance_keeps_aircraft(
    flight: FlightView,
    sample: AircraftView,
    airport: Option<AirportView>,
    now: i64,
)
    ensures
        flight.advance(sample, airport, now) matches Ok(next) ==> next.aircraft
            == flight.aircraft,
{
}

/// A sample moves a flight by at most one phase: it stays where it is, goes
/// on to the next phase, or, once landed, goes back en route.
pub proof fn lemma_advance_moves_one_phase(
    flight: FlightView,
    sample: AircraftView,
    airport: Option<AirportView>,
    now: i64,
)
    ensures
        flight.advance(sample, airport, now) matches Ok(next) ==> {
            ||| next == flight
            ||| flight.state == FlightState::Preflight && next.state == FlightState::Taxi
            ||| flight.state == FlightState::Taxi && next.state == FlightState::EnRoute
            ||| flight.state == FlightState::EnRoute && next.state == FlightState::Landed
            ||| flight.state == FlightState::Landed && next.state == FlightState::EnRoute
            ||| flight.state == FlightState::Landed && next.state == FlightState::Complete
        },
{
}

/// Touch and go: a landed flight whose aircraft is off the ground again is en
/// route, and nothing else of it changes; the arrival stays as recorded.
pub proof fn lemma_touch_and_go(
    flight: FlightView,
    sample: AircraftView,
    airport: Option<AirportView>,
    now: i64,
)
    requires
        flight.state == FlightState::Landed,
        !sample.on_ground,
    ensures
        flight.advance(sample, airport, now) == Ok::<FlightView, TrackError>(
            FlightView { state: FlightState::EnRoute, ..flight },
        ),
        flight.advance(sample, airport, now)->Ok_0.arrival == flight.arrival,
{
}

/// An airport is missed only where one is needed: leaving the ground in
/// taxi, and touching it en route.
pub proof fn lemma_advance_errors(
    flight: FlightView,
    sample: AircraftView,
    airport: Option<AirportView>,
    now: i64,
)
    ensures
        flight.advance(sample, airport, now) == Err::<FlightView, TrackError>(
            TrackError::InvalidTakeoffAirport,
        ) <==> flight.state == FlightState::Taxi && !sample.on_ground && airport is None,
        flight.advance(sample, airport, now) == Err::<FlightView, TrackError>(
            TrackError::InvalidLandingAirport,
        ) <==> flight.state == FlightState::EnRoute && sample.on_ground && airport is None,
{
}

/// A whole flight, tick by tick. With no flight in progress, five samples
/// make one complete: the first, with no engine running, begins the flight
/// with its aircraft; a running engine starts the taxi; leaving the ground is
/// the departure, from the airport found there; touching the ground is the
/// arrival, at the airport found there; and stopping the engines on the
/// ground is the shutdown. Each milestone bears the time of its sample. The
/// tick after that hands the flight over and leaves none in progress.
pub proof fn lemma_whole_flight(
    samples: Seq<AircraftView>,
    times: Seq<i64>,
    from: AirportView,
    to: AirportView,
    later: (AircraftView, Option<AirportView>, i64),
)
    requires
        samples.len() == 5,
        times.len() == 5,
        !samples[0].any_engine_on(),
        samples[1].any_engine_on(),
        !samples[2].on_ground,
        samples[3].on_ground,
        samples[4].on_ground && !samples[4].any_engine_on(),
    ensures
        ({
            let complete = FlightView {
                aircraft: samples[0],
                state: FlightState::Complete,
                taxi_out: Some(times[1]),
                departure: Some((from, times[2])),
                arrival: Some((to, times[3])),
                shutdown: Some(times[4]),
            };
            let first = tick(None, samples[0], None, times[0])->Ok_0;
            let second = tick(first.current, samples[1], None, times[1])->Ok_0;
            let third = tick(second.current, samples[2], Some(from), times[2])->Ok_0;
            let fourth = tick(third.current, samples[3], Some(to), times[3])->Ok_0;
            let fifth = tick(fourth.current, samples[4], None, times[4]);
            &&& first.current == Some(FlightView::start(samples[0]))
            &&& second.current->Some_0.state == FlightState::Taxi
            &&& third.current->Some_0.state == FlightState::EnRoute
            &&& fourth.current->Some_0.state == FlightState::Landed
            &&& fifth == Ok::<Tick, TrackError>(Tick { current: Some(complete), completed: None })
            &&& tick(Some(complete), later.0, later.1, later.2) == Ok::<Tick, TrackError>(
                Tick { current: None, completed: Some(complete) },
            )
        }),
{
}

/// A tick leaves at most one flight: either one in progress or one handed
/// over, and a flight is handed over exactly when it was complete before.
pub proof fn lemma_tick_one_flight(
    current: Option<FlightView>,
    sample: AircraftView,
    airport: Option<AirportView>,
    now: i64,
)
    ensures
        tick(current, sample, airport, now) matches Ok(after) ==> {
            &&& after.current is Some != after.completed is Some
            &&& after.completed is Some <==> (current matches Some(flight) && flight.state
                == FlightState::Complete)
            &&& after.completed is Some ==> after.completed == current
        },
{
}

} // verus!
