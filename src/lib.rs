//! Desktop automation primitives: geometry, screen arithmetic, bitmap search,
//! and the decisions behind synthesized mouse and keyboard input.
pub mod color;
pub mod geometry;
pub mod bitmap;
pub mod screen;
pub mod mouse;
pub mod key;
pub mod alert;
pub mod params;
