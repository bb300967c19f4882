//! A library for tracking work sessions ("intervals"): opening and closing
//! intervals against the local clock, computing elapsed durations net of a
//! configured lunch break, rendering them for display, and persisting the
//! whole interval store as JSON text.

pub mod calendar;
pub mod clock;
pub mod codec;
pub mod config;
pub mod display;
pub mod domain;
pub mod duration;
pub mod store;
pub mod text;
pub mod timestamp;
