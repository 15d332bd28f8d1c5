//! An in-memory personal health tracker: blood-sugar readings, medications,
//! and appointments, with min/max/average statistics over the readings and a
//! day-horizon filter over the appointments.
//!
//! Blood-sugar values are held in fixed point, as tenths of a mg/dL, and
//! instants are held as whole seconds since the Unix epoch (UTC), so that
//! every quantity the logic reads is a plain integer.

mod clock;
pub mod health;
pub mod records;
pub mod stats;
