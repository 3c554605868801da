//! Analysis of effective access in Windows and Active Directory environments.
//!
//! The crate holds the rules of the analyzer: what a SID is and how it is
//! encoded, how directory entries become identities and memberships, how a
//! principal is resolved, how a directory tree is walked without looping, and
//! how the findings are rendered. It performs no I/O of its own.

pub mod ad;
pub mod analysis;
pub mod cli;
pub mod error;
pub mod export;
pub mod fs;
pub mod model;
pub mod order;
pub mod text;
