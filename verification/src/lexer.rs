//! Reading source text.

pub mod input_stream;
