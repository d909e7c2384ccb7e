//! The command line's part of the library: turning parsed options into a
//! pipeline, and the events a command-line front end reports.
pub mod event;
pub mod parser;
pub mod paths;
