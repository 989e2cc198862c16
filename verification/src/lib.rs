//! A template-lowering emitter for markup output.
//!
//! The emitter accumulates an ordered list of write operations as a driver
//! walks a template in document order: exact literal text, literal text to be
//! escaped now, and expression splices whose escaping is deferred until the
//! generated procedure runs. Finalizing the emitter yields a generated
//! procedure that, given an output sink, performs every write strictly in
//! emission order and stops at the first write that fails.

pub mod decode;
pub mod escape;
pub mod render;
pub mod sink;
