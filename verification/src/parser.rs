//! Reading of titles, years and episode numbers from file names.

pub mod movie;
pub mod tvshow;
