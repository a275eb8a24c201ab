//! Host side of an embedded scripting runtime: ordered registries of
//! pattern-keyed callbacks, a listener table for out-of-band messages, and the
//! dispatch of incoming text to the script procedures that registered for it.

pub mod pattern;
pub mod engine;
pub mod registry;
pub mod gmcp;
pub mod text;
pub mod script;
