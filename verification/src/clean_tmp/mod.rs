//! Reaping the temporary directories that killed test processes leave behind.
//!
//! The test harness keeps everything under one directory for each test process, and removes
//! it when the process ends. A process that is killed does not get there. This command finds
//! what is left, decides from the process in the name of each directory whether anyone still
//! uses it, says so, and deletes on request.

pub mod args;
pub mod owner;
pub mod report;
pub mod size;
pub mod sweep;

pub use args::{
    distinct_roots, moved_base_note, options_within, parse_args, scan_roots, usage, Options,
    DEFAULT_MAX_AGE_HOURS,
};
pub use owner::{
    classify, is_owned, owner_of, parse_pid, pid_is_alive, Owner, ProcessProbe, Reason, Verdict,
};
pub use report::{report, total_size, write_breakdown, Candidate, MAX_LISTED};
pub use size::{
    human_bytes, human_duration, human_size, sum_bytes, DirSize, Entry, SizeWalk, Step,
    MAX_SIZE_WALK_DEPTH, MAX_SIZE_WALK_ENTRIES,
};
pub use sweep::{
    collect, run_begin, run_conclude, run_gather, run_unreadable, settle, sweep, Found, Plan,
    RunOutput, Sweep,
};
