//! Matching of paths against trees of nested routes, and enumeration of the
//! routes that such a tree stands for.
//!
//! - `path`: the separator, path components, and when a path is used up.
//! - `segment`: segment patterns, tested against the start of a path.
//! - `model`: route trees and matches as mathematical values.
//! - `nested`: route trees and matches as they are held and computed.
//! - `laws`: what holds of every tree and every path.

pub mod laws;
pub mod model;
pub mod nested;
pub mod path;
pub mod segment;
