//! A parallel incremental build driver.
//!
//! The library holds the decisions of the driver: how targets are looked up,
//! how a target's fingerprint is formed, when a target is up to date, and the
//! scheduler that orders the work of a run. Performing that work (reading
//! files, spawning shell commands, writing the database) is left to the caller,
//! which reports back what happened.

mod config;
mod driver;
mod error;
mod fingerprint;
mod jobs;

pub use config::{
    contains_name, find_dynamic_match, has_producer, is_first_producer, produces, Build,
    Configuration, Rule,
};
pub use driver::{
    all_inputs, before_command, count_in, first_failure, is_dynamic_match,
    lemma_command_at_most_once, lemma_inputs_finish_before_command, lemma_jobs_within_limit,
    lemma_no_rule_no_command, lemma_recorded_only_after_success,
    lemma_unchanged_observation_skipped, observed_decision, past_dynamic, past_inputs,
    rule_command, state_after, Action, Driver, Event, Observation, TaskState,
};
pub use error::DriverError;
pub use fingerprint::{
    all_present, command_bytes, command_view, decide, decision_of, fingerprint, fingerprint_chunks,
    fingerprint_of, is_up_to_date, lemma_changed_fingerprint_runs, lemma_missing_output_runs,
    lemma_no_rule_never_runs, lemma_unchanged_target_skipped, le_bytes, timestamp_bytes,
    up_to_date, Decision, Timestamp,
};
pub use jobs::{job_limit_or_default, resolve_job_limit};
