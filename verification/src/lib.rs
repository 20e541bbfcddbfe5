//! The front end's access to its sources: a filesystem abstraction whose
//! in-memory backend is verified, and a cursor over the bytes of a source
//! text.
//!
//! The in-memory backend is a tree of files and folders, reached by
//! slash-separated paths. Each of its operations has a contract over a
//! mathematical model of the tree, and the laws that relate the operations
//! to one another are proved of that model.

pub mod lexer;
pub mod source;
