//! A push-based reactive dataflow runtime, with the typed units that its users measure text in.
pub mod model;
pub mod network;
pub mod node;
pub mod registry;
pub mod runtime;
pub mod unit;
pub mod value;
