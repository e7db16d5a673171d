//! Matching geotagged photographs to survey stations.
//!
//! Stations come from KML or Excel survey files, photographs from a folder of
//! JPEG files with GPS tags. For a radius in metres the library decides which
//! photographs lie within range of which stations, summarises the result as a
//! tree of counts, and plans the copy of every matched photograph into a
//! folder named after its station.
//!
//! All quantities are exact fixed-point decimals, so every decision in the
//! library is a statement about integers that the verifier can check.

pub mod decimal;
pub mod error;
pub mod handle;
pub mod photo;
pub mod proximity;
pub mod session;
pub mod station;
pub mod text;
pub mod utils;

