//! The record stream of the pull-request scripts.
//!
//! The scripts print one record a line, `KEY=value`, and a reader decides by them whether a
//! pull request may be run at all. So free text must not be able to make a record of its own:
//!
//! - a record is a line that begins with a key and an equals sign, and its value holds no
//!   line break;
//! - free text is indented, which puts it outside the grammar whatever it holds;
//! - every key stands once.

pub mod fixture;
pub mod records;

pub use fixture::{json_str, skill_dir, ScanFixture};
pub use records::{duplicate_keys, listed_files, records, values};
