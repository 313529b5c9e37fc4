//! Resolution of place names against a hierarchical area catalog, and the
//! cross-reference of the matches with station and forecast-point datasets.

pub mod area;
pub mod catalog;
pub mod forecast;
pub mod laws;
pub mod resolver;
pub mod station;
pub mod table;
pub mod text;
