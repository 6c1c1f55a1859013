//! Discrete-event, age-structured, individual-based epidemic simulation:
//! the tallies, rosters, event calendar and event rules of the engine.
//!
//! The engine keeps, through every event, a tally by state and age class
//! whose marginal totals add up; one roster of infectious individuals per age
//! class, as large as the tally says; one queued transition per live
//! individual, none before the clock; and a clock that never runs backwards.
//! These are proved of every method.
//!
//! Real numbers do not enter the library. A time is carried as a `u64` that
//! orders as the time does (see [`time`]), and so is a probability (see
//! [`categorical`]). Drawing an exponential or gamma variate, computing a
//! rate and writing a record are left to the driver: the engine says what it
//! waits for (see [`simulation::Phase`] and [`simulation::Step`]), and the
//! driver hands it over.
//!
//! - [`counts`], [`sums`]: the tally and the sums it is stated in.
//! - [`vecset`]: the roster, a set with constant-time sampling.
//! - [`queue`]: the calendar of pending transitions.
//! - [`state`], [`catalog`]: the disease states and how they are built from names.
//! - [`config`]: the checks made before a run starts.
//! - [`model`]: individuals and the quantities the rules are stated in.
//! - [`simulation`], [`seeding`], [`events`]: the engine.
//! - [`rng`]: the pseudorandom stream.

pub mod catalog;
pub mod categorical;
pub mod config;
pub mod convert;
pub mod counts;
pub mod errors;
pub mod events;
pub mod model;
pub mod queue;
pub mod rng;
pub mod seeding;
pub mod simulation;
pub mod state;
pub mod sums;
pub mod time;
pub mod vecset;
