//! Locating LLVM's shared library at run time, and generating proxy
//! functions that resolve each LLVM C API symbol from it on every call.

pub mod codegen;
pub mod decl;
pub mod locate;
pub mod text;
pub mod walk;

pub use locate::find_lib_path;
