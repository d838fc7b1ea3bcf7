//! Evaluation core of a small scripting language whose distinguishing
//! feature is the deferred process: a first-class, not-yet-executed
//! description of an external command.  A deferred process runs either as a
//! bare block statement (output discarded) or when converted to an ordinary
//! value type (output captured at that point).
//!
//! The library is pure: it never spawns a process itself.  Every external
//! run is mediated by a trace of process outcomes supplied by the caller.
//! When evaluation needs an outcome the trace does not yet hold, it stops
//! and returns the pending request; the embedding runs the program and
//! calls the evaluator again with the outcome appended.  Given the same
//! tree and the same trace, evaluation is deterministic.

pub mod ast;
pub mod convert;
pub mod display;
pub mod env;
pub mod interpreter;
pub mod text;
pub mod types;
pub mod value;
