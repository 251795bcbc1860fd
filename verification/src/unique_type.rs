//! Numbers tagged with a unit, so that quantities of different units cannot
//! be mixed by accident.

pub mod number;
