//! Path/type model, conversion engine, code generator and ownership runtime
//! for binding native C++ libraries.
use vstd::prelude::*;

pub mod conversion;
pub mod cpp_data;
pub mod cpp_path;
pub mod error;
pub mod rust_code_generator;
pub mod rust_module;
pub mod runtime;
pub mod rust_type;
