//! Runners: translating a test into activity of the program under test.

pub mod compiled;
pub mod program;
