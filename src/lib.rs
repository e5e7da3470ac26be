//! The tile compositor of a browser: a spatial cache of rendered tiles, the
//! viewport arithmetic of scrolling and pinch zoom, and the state machine
//! that turns inbound messages and window input into scene updates and
//! requests for missing tiles.

pub mod geometry;
pub mod quadtree;
pub mod viewport;
pub mod compositor;
