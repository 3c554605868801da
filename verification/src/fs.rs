//! File system objects: security descriptors, tree walks and cancellation.

pub mod acl;
pub mod cancel;
pub mod path;
pub mod scanner;
pub mod walker;
