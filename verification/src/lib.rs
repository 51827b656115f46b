//! A 2D path of coordinates (a polyline / linear ring) with derived views:
//! per-segment and per-triangle windows, point iteration, a closing
//! operation, an axis-aligned bounding envelope, and an exact squared
//! distance from a query point to the path, for use by spatial indexes.

pub mod coord;
pub mod distance;
pub mod envelope;
pub mod line_string;
pub mod views;
