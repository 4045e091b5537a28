//! Geotagging support library: correlates photo capture timestamps with GPS
//! track logs and computes the interpolation endpoints for each photo.

pub mod interp;
pub mod photo;
pub mod timeparse;
pub mod track;
