//! Value types shared with the code that loads observed locations.

pub mod point;
