//! Upcoming departures of one station, for a small rotating display.
//!
//! The provider's raw entries go through [`api::normalize`], which drops
//! what a rider at the station cannot use, cleans the destinations and ranks
//! what is left by the minutes until departure. [`rotation::RotationState`]
//! holds the soonest few and decides when to refresh, rotate and draw;
//! [`departure`] and [`display`] lay the text out. The request to the
//! provider and the panel itself are the business of the program around
//! this library.

pub mod api;
pub mod config;
pub mod departure;
pub mod destination;
pub mod display;
pub mod lines;
pub mod ranking;
pub mod rotation;
pub mod text;
pub mod timestamp;

pub use api::{normalize, FetchError, RawEntry};
pub use config::Config;
pub use departure::{get_mock_departures, Departure};
pub use destination::clean_destination;
pub use display::{smart_wrap, DisplayConfig};
pub use rotation::{format_time, RotationState};
pub use timestamp::Timestamp;
