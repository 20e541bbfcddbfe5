//! The backends of the capability interface.

pub mod native;
pub mod virtual_fs;
