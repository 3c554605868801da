//! What the command line makes of its inputs, and what it shows.

pub mod evaluation;
pub mod identity;
pub mod inputs;
pub mod report;
pub mod scan;
