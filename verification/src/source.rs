//! Access to source files: the capability interface, the model of a file
//! tree, and the backends.

pub mod fs;
pub mod path;
pub mod tree;
pub mod impls;
pub mod laws;
