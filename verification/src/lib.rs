//! Flight tracking engine: turns simulator telemetry into flight records.
//!
//! Coordinates are fixed-point integers (whole multiples of 1e-7 degree) and
//! times are whole seconds since the Unix epoch, so every rule of the engine
//! is stated and proved over integers.

pub mod aircraft;
pub mod airport;
pub mod csv_text;
pub mod date;
pub mod decimal;
pub mod flight;
pub mod frame;
pub mod geo;
pub mod logbook;
pub mod msfs;
pub mod sim_connection;
pub mod sim_data;
pub mod sim_string;
pub mod text;
pub mod xplane;
