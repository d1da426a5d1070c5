//! A fixed-capacity, multi-series time-series buffer that drives a live
//! terminal chart: it accepts scalar samples for a small set of related data
//! series, keeps a bounded sliding window shared across those series, tracks
//! running min/max for axis scaling, and exposes the data in a form ready for
//! rendering.

#![verifier::loop_isolation(false)]

pub mod chart;
pub mod view;
pub mod fmt;
