//! Vectors and points of three-dimensional space.
pub mod point;
pub mod vector3;

pub use point::Point;
pub use vector3::Vector3;
