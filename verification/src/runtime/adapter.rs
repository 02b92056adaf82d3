//! The contract every runtime adapter fulfils: seven operations, and two
//! capability flags for guarantees only some runtimes give. Live attach
//! and resume are different guarantees, so they are declared as flags,
//! never faked as one common operation.

use vstd::prelude::*;
use crate::runtime::events::Event;
use crate::runtime::types::{Capabilities, Identity, RuntimeHandle, Status, TaskId, Workspace};

verus! {

#[derive(Debug, Clone, PartialEq, Eq)]
pub enum AdapterError {
    LaunchFailed(String),
    NotFound,
    Unsupported,
    Io(String),
}

pub trait AgentRuntimeAdapter {
    /// Starts a new runtime instance for the ecosystem's own task id, if
    /// any (never a runtime-internal session id).
    fn launch(&mut self, cwd: &str, task: Option<TaskId>) -> Result<RuntimeHandle, AdapterError>;

    /// Terminates a running instance.
    fn stop(&mut self, handle: &RuntimeHandle) -> Result<(), AdapterError>;

    /// Correlation and liveness of the instance.
    fn status(&self, handle: &RuntimeHandle) -> Result<Status, AdapterError>;

    /// What the instance reports about itself; never authoritative.
    fn identity(&self, handle: &RuntimeHandle) -> Result<Identity, AdapterError>;

    /// What the adapter claims the instance can do; not a grant.
    fn capabilities(&self, handle: &RuntimeHandle) -> Result<Capabilities, AdapterError>;

    /// The instance's working directory and repository.
    fn workspace(&self, handle: &RuntimeHandle) -> Result<Workspace, AdapterError>;

    /// The instance's events, already in the common vocabulary.
    fn events(&self, handle: &RuntimeHandle) -> Result<Vec<Event>, AdapterError>;

    /// Whether a running instance can be reconnected to live. No, unless
    /// an adapter says otherwise.
    fn supports_live_attach(&self) -> (r: bool)
        default_ensures
            !r,
    {
        false
    }

    /// Whether a stopped instance can be resumed from durable storage.
    /// No, unless an adapter says otherwise.
    fn supports_resume(&self) -> (r: bool)
        default_ensures
            !r,
    {
        false
    }
}

} // verus!
