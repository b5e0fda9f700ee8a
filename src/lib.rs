//! Editor camera navigation and object picking over a scene-graph snapshot,
//! with physics selection bookkeeping.

pub mod input;
pub mod scene;
pub mod pick;
pub mod camera;
pub mod selection;
