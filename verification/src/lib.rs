//! Verified core of `wit`, a version-controlled weather journal: the
//! shorthand query language, time specifications, tracked-location
//! configuration, chart canvas and the small pieces of presentation logic.

pub mod canvas;
pub mod chart;
pub mod cli;
pub mod config;
pub mod date;
pub mod display;
pub mod error;
pub mod history;
pub mod journal;
pub mod query;
pub mod text;
