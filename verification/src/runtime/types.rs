//! Contract types of the runtime-adapter boundary: opaque handles, task
//! ids, and the claims an adapter makes about a launched runtime.

use vstd::prelude::*;
use crate::text::{copy_opt_string, copy_strings};

verus! {

/// Opaque handle to a launched runtime instance. Only the adapter that
/// issued it knows what the text inside means.
#[derive(Debug, Clone, PartialEq, Eq, Hash)]
pub struct RuntimeHandle(String);

impl View for RuntimeHandle {
    type V = Seq<char>;

    closed spec fn view(&self) -> Seq<char> {
        self.0@
    }
}

impl RuntimeHandle {
    pub fn new(id: &str) -> (h: RuntimeHandle)
        ensures
            h@ == id@,
    {
        RuntimeHandle(String::from_str(id))
    }

    /// Builds a handle from an owned string.
    pub fn from_string(id: String) -> (h: RuntimeHandle)
        ensures
            h@ == id@,
    {
        RuntimeHandle(id)
    }

    pub fn as_str(&self) -> (s: &str)
        ensures
            s@ == self@,
    {
        self.0.as_str()
    }

    /// A handle with the same text.
    pub fn duplicate(&self) -> (h: RuntimeHandle)
        ensures
            h@ == self@,
    {
        RuntimeHandle(self.0.clone())
    }

    /// Whether two handles name the same runtime.
    pub fn same(&self, other: &RuntimeHandle) -> (b: bool)
        ensures
            b == (self@ == other@),
    {
        self.0 == other.0
    }
}

/// The ecosystem's own task identifier, structurally distinct from any
/// runtime-internal session id.
#[derive(Debug, Clone, PartialEq, Eq, Hash)]
pub struct TaskId(String);

impl View for TaskId {
    type V = Seq<char>;

    closed spec fn view(&self) -> Seq<char> {
        self.0@
    }
}

impl TaskId {
    pub fn new(id: &str) -> (t: TaskId)
        ensures
            t@ == id@,
    {
        TaskId(String::from_str(id))
    }

    pub fn as_str(&self) -> (s: &str)
        ensures
            s@ == self@,
    {
        self.0.as_str()
    }

    /// A task id with the same text.
    pub fn duplicate(&self) -> (t: TaskId)
        ensures
            t@ == self@,
    {
        TaskId(self.0.clone())
    }
}

/// Self-reported identity; never authoritative on its own.
#[derive(Debug, Clone, PartialEq, Eq)]
pub struct Identity {
    pub model: Option<String>,
    pub role: Option<String>,
    pub repository: Option<String>,
    pub instance: Option<String>,
    pub task: Option<String>,
}

impl Identity {
    /// The identity with every field absent.
    pub fn empty() -> (r: Identity)
        ensures
            r.model is None && r.role is None && r.repository is None && r.instance is None
                && r.task is None,
    {
        Identity { model: None, role: None, repository: None, instance: None, task: None }
    }

    pub fn duplicate(&self) -> (r: Identity)
        ensures
            r == *self,
    {
        Identity {
            model: copy_opt_string(&self.model),
            role: copy_opt_string(&self.role),
            repository: copy_opt_string(&self.repository),
            instance: copy_opt_string(&self.instance),
            task: copy_opt_string(&self.task),
        }
    }
}

impl Default for Identity {
    fn default() -> (r: Identity)
        ensures
            r.model is None && r.role is None && r.repository is None && r.instance is None
                && r.task is None,
    {
        Identity::empty()
    }
}

/// What an adapter claims a runtime can do; not a verified grant.
#[derive(Debug, Clone, PartialEq, Eq)]
pub struct Capabilities {
    pub declared: Vec<String>,
}

impl Capabilities {
    pub fn duplicate(&self) -> (r: Capabilities)
        ensures
            r.declared@ == self.declared@,
    {
        Capabilities { declared: copy_strings(&self.declared) }
    }
}

impl Default for Capabilities {
    fn default() -> (r: Capabilities)
        ensures
            r.declared@.len() == 0,
    {
        Capabilities { declared: Vec::new() }
    }
}

/// OS-level workspace association of a runtime.
#[derive(Debug, Clone, PartialEq, Eq)]
pub struct Workspace {
    pub cwd: Option<String>,
    pub repo_association: Option<String>,
}

impl Workspace {
    pub fn duplicate(&self) -> (r: Workspace)
        ensures
            r == *self,
    {
        Workspace {
            cwd: copy_opt_string(&self.cwd),
            repo_association: copy_opt_string(&self.repo_association),
        }
    }
}

impl Default for Workspace {
    fn default() -> (r: Workspace)
        ensures
            r.cwd is None && r.repo_association is None,
    {
        Workspace { cwd: None, repo_association: None }
    }
}

/// Correlation/liveness status of a runtime: a freshness axis, not a
/// trust axis, and separate from the process lifecycle.
#[derive(Debug, Clone, Copy, PartialEq, Eq, Structural)]
pub enum Status {
    Fresh,
    Stale,
    Orphaned,
    NotFound,
}

impl Default for Status {
    fn default() -> (r: Status)
        ensures
            r == Status::Fresh,
    {
        Status::Fresh
    }
}

} // verus!
