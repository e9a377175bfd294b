//! Sensor-fusion and targeting core for a tick-driven vehicle
//! simulation: polynomial root solving, elliptical uncertainty regions,
//! contact identity and fusion, sensor scheduling, and firing solutions.
//!
//! All quantities are fixed-point integers: lengths, times and speeds
//! carry three fractional decimal digits (a scale of 1000), and angles
//! are whole binary units of 1/4096 of a turn.  The arithmetic
//! truncates toward zero at each step, so results are exact statements
//! of the fixed-point computation, with an absolute resolution of one
//! thousandth of a unit; sub-thousandth relative precision of a
//! floating-point evaluation is outside this model, and the square
//! roots and trigonometry are small verified integer approximations
//! rather than rounded exact values.

pub mod board;
pub mod circle;
pub mod contacts;
pub mod ellipse;
pub mod firing_solution;
pub mod fixed;
pub mod geometry;
pub mod intercept;
pub mod kinematics;
pub mod polynomial;
pub mod radar;
pub mod ship_stats;
pub mod trig;

pub use board::ContactBoard;
pub use circle::Circle;
pub use contacts::{Contact, Emitter, RadarContact, RadarContactError, ScanData, SearchContact,
    TrackSample, TrackedContact, TrackedRadarContact};
pub use ellipse::Ellipse;
pub use firing_solution::FiringSolution;
pub use fixed::SCALE;
pub use geometry::{Point, Vector};
pub use intercept::Intercept;
pub use kinematics::{Acceleration, AngularVelocity, Heading, KinematicModel, Position, ShipModel, Velocity};
pub use polynomial::{find_roots_cubic_normalized, find_roots_linear, find_roots_quadratic,
    find_roots_quartic, find_roots_quartic_depressed, Roots};
pub use radar::{RadarConfig, RadarManager, ScanningRadar, TrackingRadar};
pub use ship_stats::{Class, Dimensions, MaxAcceleration};
