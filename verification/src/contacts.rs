//! The contact model: raw scans, sensor error bounds, single-sample
//! search contacts, multi-sample tracked contacts, and the sum type that
//! unifies them.

pub mod area;
pub mod contact;
pub mod emitter;
pub mod error;
pub mod interface;
pub mod scan;
pub mod search;
pub mod track;

pub use area::{spec_area_centre_x, spec_area_centre_y, spec_area_expand, spec_initial_height,
    spec_initial_orientation, spec_initial_width};
pub use contact::Contact;
pub use emitter::Emitter;
pub use error::RadarContactError;
pub use interface::{RadarContact, TrackedRadarContact};
pub use scan::ScanData;
pub use search::SearchContact;
pub use track::{TrackSample, TrackedContact};
