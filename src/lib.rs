//! Popularity trend scoring for tracked channels.
//!
//! Every sub-score is an exact ratio of integers; the weighted total is a
//! fixed-point integer in millionths.
use vstd::prelude::*;

pub mod observation;
pub mod ratio;
pub mod series;
pub mod timing;
pub mod trend_calculator;
pub mod trend_laws;
