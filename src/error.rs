use vstd::prelude::*;

verus! {

/// Why a run, or one target of it, failed.
#[derive(Clone, Debug, PartialEq, Eq)]
pub enum DriverError {
    /// A default output names no target of the configuration.
    DefaultOutputNotFound(String),
    /// A dynamic module lists no inputs for the target's outputs, or lists an
    /// input that the configuration does not produce. Holds the target's id.
    DynamicDependencyNotFound(String),
    /// A file could not be read or inspected: its path and the cause.
    Io(String, String),
    /// A command exited unsuccessfully: the command and its exit code.
    CommandExit(String, Option<i32>),
    /// The fingerprint database failed.
    Database(String),
    /// A dynamic fragment would break the graph (a cycle, a duplicate output).
    Validation(String),
    /// A dynamic module could not be parsed or compiled.
    DynamicModule(String),
}

} // verus!
