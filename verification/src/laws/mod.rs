//! What holds of every route tree and every path.

pub mod alternation;
pub mod cardinality;
pub mod consumption;
pub mod identity;
pub mod params;
