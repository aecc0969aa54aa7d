//! Runtime core of a retained-mode UI toolkit.
//!
//! The core owns a tree of entities, routes events through that tree, and
//! keeps the phases of a frame in order. It decides when a view hears of
//! input, of changed data and of a rebuild, and in what order; it does not
//! open windows, paint or solve layouts.
//!
//! - `entity`: entity handles and the registry that issues them
//! - `tree`: the entity tree, kept as its pre-order traversal
//! - `storage`: sparse per-entity storage
//! - `data`: the model store with its dirty flags and observers
//! - `event`: events, propagation paths and the delivery of one event
//! - `context`: the shared state, the event queue, input and hover
//! - `frame`: the phases of a tick
//! - `application`: the application at startup

pub mod application;
pub mod context;
pub mod data;
pub mod entity;
pub mod event;
pub mod frame;
pub mod storage;
pub mod tree;
