//! A concurrent test and fuzz harness: the rules by which commands are
//! produced, outcomes are classified and reports are written.

mod chance;
pub mod diff;
pub mod error;
pub mod fuzz;
pub mod fuzzer;
pub mod loader;
pub mod paint;
pub mod process;
pub mod report;
pub mod runner;
pub mod tester;
pub mod testfile;
pub mod text;
