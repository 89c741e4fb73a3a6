//! A small engine for temporarily blocking network domains through the OS
//! hosts file.
//!
//! The library holds the logic of the tool: how a blocking entry is formed,
//! how lines naming a blocked domain are removed from the hosts-file text,
//! which domains a session owns, and which commands the DNS-cache flush
//! chain runs on each platform. All file and process I/O is left to the
//! caller, which feeds results back into these functions.

#![verifier::loop_isolation(false)]

mod text;
mod error;
mod hosts;
mod dns;
mod app;

pub use error::BlockError;
pub use text::{
    is_space, trim_spec, trim_left, trim_right, trim, lines_of, join_lines, find_char,
    contains_at, contains_sub,
};
pub use hosts::{
    blocking_entry_spec, blocking_entry, block_domain, unblock_domains, get_hosts_path,
    line_blocked, kept_lines, remove_domains_spec, lemma_block_adds_entry,
    lemma_cleanup_removes_all, lemma_cleanup_idempotent, lemma_block_cleanup_round_trip,
};
pub use app::{App, BlockRequest, initial_message, with_message};
pub use dns::{
    Platform, StepRule, CommandOutcome, FlushStep, StepModel, DnsFlush, flush_dns, flush_plan,
    step_succeeds, systemd_steps, linux_fallback_steps, flush_failure_message,
};
