//! What a simulator connection hands to the engine.

use crate::aircraft::{Aircraft, AircraftView};
use vstd::prelude::*;

verus! {

/// One message of a simulator connection.
#[derive(Debug)]
pub enum SimMessage {
    /// The connection to the simulator stands.
    Open,
    /// The simulator closed the connection.
    Quit,
    /// A telemetry sample.
    SimData(Aircraft),
    /// No sample came within the time allowed for a read; ask again.
    Waiting,
    /// A message that the engine has no use for.
    Unknown,
}

/// A `SimMessage` over the view of its sample.
pub enum SimMessageView {
    Open,
    Quit,
    SimData(AircraftView),
    Waiting,
    Unknown,
}

impl View for SimMessage {
    type V = SimMessageView;

    open spec fn view(&self) -> SimMessageView {
        match *self {
            SimMessage::Open => SimMessageView::Open,
            SimMessage::Quit => SimMessageView::Quit,
            SimMessage::SimData(aircraft) => SimMessageView::SimData(aircraft@),
            SimMessage::Waiting => SimMessageView::Waiting,
            SimMessage::Unknown => SimMessageView::Unknown,
        }
    }
}

/// A source of simulator messages. A call returns one message and does not
/// wait longer for it than the connection's time limit for a read.
pub trait SimConnection {
    type Error;

    fn next_message(&mut self) -> Result<SimMessage, Self::Error>;
}

} // verus!
