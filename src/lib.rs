//! A small 2D engine core: an entity tree of components and child entities,
//! with event, update, reorder and render traversals, and a resource loader
//! that deduplicates texture requests and merges asynchronous completions.

pub mod animation;
pub mod entity;
pub mod event;
pub mod frame;
pub mod registry;
pub mod resource;
pub mod text;
pub mod util;
pub mod window;
