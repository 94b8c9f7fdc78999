//! What can be set: the station, the pipeline's window, the scheduler's
//! periods, and the panel.

use crate::display::DisplayConfig;
use vstd::prelude::*;

verus! {

/// The settings of one display.
#[derive(Debug, Clone, PartialEq)]
pub struct Config {
    /// The provider's identifier of the station whose departures are shown.
    pub stop_id: String,
    /// A text that names the home station in a direction; a vehicle whose
    /// direction holds it is heading back to where the rider stands.
    pub home_station: String,
    /// How many minutes ahead a departure may be to be shown.
    pub horizon_minutes: u32,
    /// How many of the soonest departures are rotated through.
    pub top_k: usize,
    /// The time between two requests to the provider, in milliseconds.
    pub refresh_period_ms: u64,
    /// The time for which one departure stays on the panel, in milliseconds.
    pub rotate_period_ms: u64,
    /// The time after which a request to the provider is given up, in
    /// milliseconds.
    pub request_timeout_ms: u64,
    /// The pause between two rounds of the scheduler, in milliseconds.
    pub tick_ms: u64,
    /// The panel.
    pub display: DisplayConfig,
}

impl Default for Config {
    /// The display at S+U Warschauer Str.: departures of the next 15
    /// minutes, the soonest three in rotation, a request every 20 seconds
    /// and the next departure every 10.
    fn default() -> (config: Config)
        ensures
            config.stop_id@ == "900120003"@,
            config.home_station@ == "Warschauer"@,
            config.horizon_minutes == 15,
            config.top_k == 3,
            config.refresh_period_ms == 20_000,
            config.rotate_period_ms == 10_000,
            config.request_timeout_ms == 10_000,
            config.tick_ms == 500,
            config.display.width == 64,
            config.display.height == 32,
            config.display.hardware_mapping@ == "regular"@,
    {
        Config {
            stop_id: "900120003".to_owned(),
            home_station: "Warschauer".to_owned(),
            horizon_minutes: 15,
            top_k: 3,
            refresh_period_ms: 20_000,
            rotate_period_ms: 10_000,
            request_timeout_ms: 10_000,
            tick_ms: 500,
            display: DisplayConfig::default(),
        }
    }
}

} // verus!
