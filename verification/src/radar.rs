//! The sensor scheduler: one physical sensor shared between a wide
//! search sweep and narrow tracking sweeps, one operation per tick.

pub mod config;
pub mod manager;
pub mod search;
pub mod track;

pub use config::RadarConfig;
pub use manager::{Error, RadarManager};
pub use search::ScanningRadar;
pub use track::TrackingRadar;
