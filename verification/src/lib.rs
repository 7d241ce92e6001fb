//! The verified core of a fan control daemon.
//!
//! Once per cycle the daemon evaluates one formula per fan over the
//! temperatures of named sensors and drives each fan at the resulting
//! duty level. This library holds every decision of that cycle and touches
//! neither files nor devices: whoever uses it performs the reads and writes
//! and tells the library what came of them.
//!
//! * `computed` keeps the sensors by name, reads each at most once per cycle,
//!   and turns the result of a formula into a duty level, full speed
//!   whenever the result is no number.
//! * `source` holds temperatures and the two kinds of sensors, `fan` the
//!   duty level and the actuator behind a duty-cycle file.
//! * `control` orders the phases of a cycle.
//! * `binary32`, `binary64` and `rounding` compute with floating-point
//!   numbers by their bit patterns, `decimal` and `text` write and read
//!   numbers as text.
//! * `config` and `cli` are the settings as plain data.

pub mod binary32;
pub mod binary64;
pub mod cli;
pub mod computed;
pub mod config;
pub mod control;
pub mod decimal;
pub mod fan;
pub mod rounding;
pub mod source;
pub mod text;
