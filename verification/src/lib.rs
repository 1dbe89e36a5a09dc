//! Argument interpretation for a compilation cache, for the Diab C compiler
//! family: classify a compiler command line, decide whether the invocation
//! can be cached, and rebuild normalized preprocess / compile command lines.

pub mod args;
pub mod diab;
pub mod expand;
pub mod laws;
pub mod strutil;
