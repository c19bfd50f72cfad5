//! Verified core of a sky-monitoring appliance: deterministic pseudo-random
//! scenario draws, observation and weather vocabularies, UTC time windows,
//! gap-based track stitching, the SkyGraph store and the daily sky brief.
use vstd::prelude::*;

pub mod adsb;
pub mod text;
pub mod clock;
pub mod observation;
pub mod track;
pub mod weather;
pub mod brief;
pub mod graphstore;
pub mod skygraph;

verus! {

} // verus!
