//! Trims an API description document down to a chosen set of endpoints,
//! keeping every component definition those endpoints depend on.

pub mod assemble;
pub mod catalog;
pub mod color;
pub mod event;
pub mod format;
pub mod laws;
pub mod model;
pub mod order;
pub mod refs;
pub mod resolve;
pub mod search;
pub mod text;
pub mod value;
