//! A geo-spatial crawling and cooccurrence-aggregation library.
//!
//! The crate models coordinates, bounding boxes and matrices with exact
//! integer arithmetic (micro-degrees for angles, fixed-point components for
//! unit vectors, counts for cooccurrence statistics), so that the crawling
//! and aggregation logic can be specified and verified precisely.  Network
//! transfer, file handling and floating-point conversions live outside the
//! library and exchange plain values with it.

pub mod geo_coord;
pub mod json;
pub mod bing_maps;
pub mod scrape;
pub mod cooccurrence;
pub mod clean;
pub mod game;
pub mod generators;
pub mod nat_type;
pub mod comparison;
