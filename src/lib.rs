//! Execution core of a small dynamically typed scripting language: a value
//! algebra that never fails, a folder that turns a flat instruction stream into
//! nested blocks, and a stack machine that runs the result.
pub mod text;
pub mod instruction;
pub mod value;
pub mod fold;
pub mod runtime;
pub mod exec;
pub mod intrinsics;
pub mod step;
pub mod wire;
pub mod semantics;
pub mod laws;
