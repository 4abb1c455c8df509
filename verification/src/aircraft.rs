//! One telemetry sample of the tracked aircraft.

use crate::geo::LatLon;
use crate::sim_data::{SimData, SimDataView};
use vstd::prelude::*;

verus! {

/// What the simulator reports of the aircraft at one tick.
#[derive(Debug)]
pub struct Aircraft {
    pub title: String,
    pub icao: String,
    pub registration: String,
    pub position: LatLon,
    pub engines_on: [bool; 4],
    pub on_ground: bool,
}

/// An `Aircraft` with its texts as sequences of characters.
pub struct AircraftView {
    pub title: Seq<char>,
    pub icao: Seq<char>,
    pub registration: Seq<char>,
    pub position: LatLon,
    pub engines_on: Seq<bool>,
    pub on_ground: bool,
}

impl AircraftView {
    /// At least one engine runs.
    pub open spec fn any_engine_on(self) -> bool {
        self.engines_on.contains(true)
    }

    /// The sample that a record of the stream gives: its one engine flag
    /// stands for the first engine, and no other engine runs.
    pub open spec fn of_record(record: SimDataView) -> AircraftView {
        AircraftView {
            title: record.name,
            icao: record.icao,
            registration: record.registration,
            position: LatLon { lat: record.latitude, lon: record.longitude },
            engines_on: seq![record.engine_on, false, false, false],
            on_ground: record.on_ground,
        }
    }
}

impl View for Aircraft {
    type V = AircraftView;

    open spec fn view(&self) -> AircraftView {
        AircraftView {
            title: self.title@,
            icao: self.icao@,
            registration: self.registration@,
            position: self.position,
            engines_on: self.engines_on@,
            on_ground: self.on_ground,
        }
    }
}

impl Clone for Aircraft {
    fn clone(&self) -> (copy: Aircraft)
        ensures
            copy == *self,
    {
        Aircraft {
            title: self.title.clone(),
            icao: self.icao.clone(),
            registration: self.registration.clone(),
            position: self.position,
            engines_on: self.engines_on,
            on_ground: self.on_ground,
        }
    }
}

impl From<SimData> for Aircraft {
    /// The sample that a record of the stream gives, as
    /// `AircraftView::of_record` says.
    fn from(sim_data: SimData) -> (aircraft: Aircraft)
        ensures
            aircraft@ == AircraftView::of_record(sim_data@),
    {
        let aircraft = Aircraft {
            title: sim_data.name,
            icao: sim_data.icao,
            registration: sim_data.registration,
            position: LatLon::new(sim_data.latitude, sim_data.longitude),
            engines_on: [sim_data.engine_on, false, false, false],
            on_ground: sim_data.on_ground,
        };
        assert(aircraft@.engines_on =~= seq![sim_data.engine_on, false, false, false]);
        aircraft
    }
}

impl vstd::std_specs::convert::FromSpecImpl<SimData> for Aircraft {
    open spec fn obeys_from_spec() -> bool {
        true
    }

    open spec fn from_spec(sim_data: SimData) -> Aircraft {
        Aircraft {
            title: sim_data.name,
            icao: sim_data.icao,
            registration: sim_data.registration,
            position: LatLon { lat: sim_data.latitude, lon: sim_data.longitude },
            engines_on: [sim_data.engine_on, false, false, false],
            on_ground: sim_data.on_ground,
        }
    }
}

impl Aircraft {
    /// Whether at least one engine runs.
    pub fn any_engine_on(&self) -> (on: bool)
        ensures
            on == self@.any_engine_on(),
    {
        let on: bool = self.engines_on[0] || self.engines_on[1] || self.engines_on[2]
            || self.engines_on[3];
        proof {
            let flags = self.engines_on@;
            if on {
                let i: int = if flags[0] {
                    0
                } else if flags[1] {
                    1
                } else if flags[2] {
                    2
                } else {
                    3
                };
                assert(flags[i] == true);
            }
        }
        on
    }
}

} // verus!
