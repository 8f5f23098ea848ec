//! A verified simulation core for a marble-routing puzzle machine.
//!
//! Players place modules (blocks with input and output ports) that route
//! discrete tokens called marbles.  This crate holds the event-driven engine
//! that decides, independent of rendering and physics, what a module does when
//! a marble arrives at one of its inputs, how long it waits, and when and how
//! it emits a marble from an output.  The physics layer, the renderer and the
//! interactive editor live outside; they exchange plain values (entity
//! handles, collision pairs, fire requests) with this crate.

pub mod body;
pub mod entity;
pub mod event;
pub mod interact;
pub mod laws;
pub mod marble;
pub mod model;
pub mod module;
pub mod save_load;
pub mod sim;
pub mod state;
pub mod tracer;
