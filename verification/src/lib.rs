//! Core logic of a terminal expense tracker: time-bucketed category
//! aggregation for reports, proportional integer rendering of bar and pie
//! charts, and the state machine behind the interactive browse screen.
//!
//! Everything here is pure logic over plain values; terminal drawing and
//! database access live with the host around the library.

use vstd::prelude::*;

pub mod add;
pub mod amount;
pub mod browse;
pub mod budget;
pub mod commands;
pub mod chart;
pub mod date;
pub mod ids;
pub mod importer;
pub mod model;
pub mod remove;
pub mod report;
pub mod search;
pub mod totals;
pub mod text;
