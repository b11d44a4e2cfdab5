//! Content model of a 2D game project (categories, entities, animation
//! states and their frames), the row layout that persists it, and the
//! state machine of the store that holds it.

pub mod category;
pub mod error;
pub mod frame;
pub mod state;
pub mod entity;
pub mod project;
pub mod rows;
pub mod schema;
pub mod store;
pub mod editor;
pub mod round_trip;
pub mod engine;
