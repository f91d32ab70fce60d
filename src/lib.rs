//! Road construction consumption report: reads a table of road segments,
//! sums the crystal still needed, and breaks the metal and ceramic still
//! needed into standard unit sizes, largest first.

pub mod manifest;
pub mod laws;
pub mod summary;
pub mod report;
pub mod number;
pub mod table;
