//! Picks a zoom level for a connected display.
//!
//! The library holds the two pieces of the tool that carry real logic:
//! the rule engine that maps a display resolution to a zoom-level label
//! (`engine`), and the parser that finds the first connected display and
//! its resolution in the status output of a display-configuration tool
//! (`parser`). Process invocation, configuration loading and the command
//! line live outside the library.

pub mod engine;
pub mod parser;
pub mod scan;
