//! The agent-runtime status panel of the desktop shell: what it shows about
//! the runtimes it launched through the adapter contract. The contract has
//! no "list every handle" operation, so the panel remembers the handles it
//! launched, as any caller would. It is backed by the in-memory adapter.

use vstd::prelude::*;
use crate::runtime::adapter::{AdapterError, AgentRuntimeAdapter};
use crate::runtime::events::ostr;
use crate::runtime::lifecycle::{transition_step, LifecycleState};
use crate::runtime::mock::{is_launch_record, mock_name, HandleRecord, MockAdapter};
use crate::runtime::types::{Capabilities, Identity, RuntimeHandle, Status, TaskId, Workspace};
use crate::text::{debug_str, debug_text, push_str};

verus! {

/// One launched runtime, as the adapter's per-handle queries describe it.
#[derive(Debug, Clone)]
pub struct AgentRuntimeSummary {
    pub handle: String,
    pub status: Status,
    pub identity: Identity,
    pub capabilities: Capabilities,
    pub workspace: Workspace,
}

/// The text `format!("{err:?}")` gives for an adapter error.
pub open spec fn error_text(e: AdapterError) -> Seq<char> {
    match e {
        AdapterError::LaunchFailed(m) => "LaunchFailed("@ + debug_text(m@) + ")"@,
        AdapterError::NotFound => "NotFound"@,
        AdapterError::Unsupported => "Unsupported"@,
        AdapterError::Io(m) => "Io("@ + debug_text(m@) + ")"@,
    }
}

/// An adapter error in its debug form, the message the panel reports.
pub fn to_message(err: AdapterError) -> (m: String)
    ensures
        m@ == error_text(err),
{
    let mut m = String::new();
    match err {
        AdapterError::LaunchFailed(s) => {
            push_str(&mut m, "LaunchFailed(");
            let d = debug_str(s.as_str());
            push_str(&mut m, d.as_str());
            push_str(&mut m, ")");
        },
        AdapterError::NotFound => push_str(&mut m, "NotFound"),
        AdapterError::Unsupported => push_str(&mut m, "Unsupported"),
        AdapterError::Io(s) => {
            push_str(&mut m, "Io(");
            let d = debug_str(s.as_str());
            push_str(&mut m, d.as_str());
            push_str(&mut m, ")");
        },
    }
    m
}

/// `s` describes the handle `h` whose record is `rec`.
pub open spec fn describes(s: AgentRuntimeSummary, h: Seq<char>, rec: HandleRecord) -> bool {
    &&& s.handle@ == h
    &&& s.status == rec.status
    &&& s.identity == rec.identity
    &&& s.capabilities.declared@ == rec.capabilities
    &&& s.workspace == rec.workspace
}

/// The panel's state: the adapter and the handles launched through it.
pub struct AgentRuntimePanelState {
    adapter: MockAdapter,
    handles: Vec<RuntimeHandle>,
}

impl AgentRuntimePanelState {
    #[verifier::type_invariant]
    spec fn inv(self) -> bool {
        forall|i: int|
            0 <= i < self.handles@.len() ==> self.adapter.records().dom().contains(
                #[trigger] self.handles@[i]@,
            )
    }

    /// The adapter behind the panel.
    pub closed spec fn runtime(&self) -> MockAdapter {
        self.adapter
    }

    /// The handles the panel launched, in launch order.
    pub closed spec fn launched_handles(&self) -> Seq<Seq<char>> {
        self.handles@.map_values(|h: RuntimeHandle| h@)
    }

    /// A panel that has launched nothing.
    pub fn new() -> (r: AgentRuntimePanelState)
        ensures
            r.launched_handles().len() == 0,
            r.runtime().records() == Map::<Seq<char>, HandleRecord>::empty(),
            r.runtime().lifecycle() == Map::<Seq<char>, LifecycleState>::empty(),
            r.runtime().launched() == 0,
            !r.runtime().live_attach_flag(),
            !r.runtime().resume_flag(),
    {
        let r = AgentRuntimePanelState { adapter: MockAdapter::new(), handles: Vec::new() };
        assert(r.launched_handles() =~= Seq::<Seq<char>>::empty());
        r
    }

    /// Every launched runtime with its current status, identity,
    /// capabilities and workspace, in launch order.
    pub fn list_agent_runtimes(&self) -> (r: Result<Vec<AgentRuntimeSummary>, String>)
        ensures
            r matches Ok(v) && v@.len() == self.launched_handles().len() && forall|i: int|
                0 <= i < v@.len() ==> describes(
                    #[trigger] v@[i],
                    self.launched_handles()[i],
                    self.runtime().records()[self.launched_handles()[i]],
                ),
    {
        proof {
            use_type_invariant(self);
        }
        let mut out: Vec<AgentRuntimeSummary> = Vec::new();
        for i in 0..self.handles.len()
            invariant
                out@.len() == i,
                forall|k: int|
                    0 <= k < i ==> describes(
                        #[trigger] out@[k],
                        self.launched_handles()[k],
                        self.runtime().records()[self.launched_handles()[k]],
                    ),
        {
            let handle = &self.handles[i];
            proof {
                use_type_invariant(self);
                assert(self.launched_handles()[i as int] == handle@);
            }
            let status = match self.adapter.status(handle) {
                Ok(s) => s,
                Err(e) => return Err(to_message(e)),
            };
            let identity = match self.adapter.identity(handle) {
                Ok(v) => v,
                Err(e) => return Err(to_message(e)),
            };
            let capabilities = match self.adapter.capabilities(handle) {
                Ok(v) => v,
                Err(e) => return Err(to_message(e)),
            };
            let workspace = match self.adapter.workspace(handle) {
                Ok(v) => v,
                Err(e) => return Err(to_message(e)),
            };
            out.push(
                AgentRuntimeSummary {
                    handle: String::from_str(handle.as_str()),
                    status,
                    identity,
                    capabilities,
                    workspace,
                },
            );
        }
        Ok(out)
    }

    /// Launches a runtime in `cwd` for the ecosystem task `task`, if any,
    /// and starts tracking it; answers with its handle.
    pub fn launch_agent_runtime(&mut self, cwd: &str, task: Option<String>) -> (r: Result<
        String,
        String,
    >)
        ensures
            old(self).runtime().launched() < u64::MAX ==> (match r {
                Ok(h) => {
                    &&& h@ == mock_name((old(self).runtime().launched() + 1) as nat)
                    &&& final(self).launched_handles() == old(self).launched_handles().push(h@)
                    &&& final(self).runtime().lifecycle() == old(self).runtime().lifecycle().insert(
                        h@,
                        LifecycleState::Running,
                    )
                    &&& final(self).runtime().records() == old(self).runtime().records().insert(
                        h@,
                        final(self).runtime().records()[h@],
                    )
                    &&& is_launch_record(final(self).runtime().records()[h@], cwd@, ostr(task))
                    &&& final(self).runtime().launched() == old(self).runtime().launched() + 1
                },
                Err(_) => false,
            }),
            old(self).runtime().launched() == u64::MAX ==> (match r {
                Ok(_) => false,
                Err(m) => {
                    &&& m@ == "LaunchFailed("@ + debug_text("no handle numbers left"@) + ")"@
                    &&& final(self).launched_handles() == old(self).launched_handles()
                    &&& final(self).runtime() == old(self).runtime()
                },
            }),
    {
        proof {
            use_type_invariant(&*self);
        }
        let mut cur = AgentRuntimePanelState::new();
        std::mem::swap(self, &mut cur);
        proof {
            use_type_invariant(&cur);
        }
        let AgentRuntimePanelState { mut adapter, mut handles } = cur;
        let ghost old_adapter = adapter;
        let ghost old_records = adapter.records();
        let ghost old_handles = handles@;
        let task_id = match &task {
            Some(t) => Some(TaskId::new(t.as_str())),
            None => None,
        };
        match adapter.launch(cwd, task_id) {
            Ok(handle) => {
                let text = String::from_str(handle.as_str());
                let ghost hv = handle@;
                assert(old_adapter.launched() < u64::MAX);
                assert(adapter.records().dom().contains(hv));
                handles.push(handle);
                proof {
                    assert(handles@[old_handles.len() as int]@ == hv);
                    assert forall|i: int| 0 <= i < handles@.len() implies adapter.records().dom().contains(
                        #[trigger] handles@[i]@,
                    ) by {
                        if i < old_handles.len() {
                            assert(handles@[i] == old_handles[i]);
                            assert(old_records.dom().contains(old_handles[i]@));
                        }
                    }
                }
                *self = AgentRuntimePanelState { adapter, handles };
                proof {
                    assert(self.launched_handles() =~= old(self).launched_handles().push(text@));
                }
                Ok(text)
            },
            Err(e) => {
                assert(adapter == old_adapter);
                *self = AgentRuntimePanelState { adapter, handles };
                Err(to_message(e))
            },
        }
    }

    /// Stops the launched runtime `handle`; anything the lifecycle refuses
    /// is reported as `NotFound`.
    pub fn stop_agent_runtime(&mut self, handle: &str) -> (r: Result<(), String>)
        ensures
            (r is Ok) == (transition_step(
                old(self).runtime().lifecycle(),
                handle@,
                LifecycleState::Stopped,
            ).0 is Ok),
            r matches Err(m) ==> m@ == "NotFound"@,
            final(self).runtime().lifecycle() == transition_step(
                old(self).runtime().lifecycle(),
                handle@,
                LifecycleState::Stopped,
            ).1,
            final(self).runtime().records() == old(self).runtime().records(),
            final(self).launched_handles() == old(self).launched_handles(),
    {
        proof {
            use_type_invariant(&*self);
        }
        let mut cur = AgentRuntimePanelState::new();
        std::mem::swap(self, &mut cur);
        proof {
            use_type_invariant(&cur);
        }
        let AgentRuntimePanelState { mut adapter, handles } = cur;
        let res = adapter.stop(&RuntimeHandle::new(handle));
        *self = AgentRuntimePanelState { adapter, handles };
        match res {
            Ok(()) => Ok(()),
            Err(e) => Err(to_message(e)),
        }
    }
}

impl Default for AgentRuntimePanelState {
    fn default() -> (r: AgentRuntimePanelState)
        ensures
            r.launched_handles().len() == 0,
            r.runtime().records() == Map::<Seq<char>, HandleRecord>::empty(),
            r.runtime().lifecycle() == Map::<Seq<char>, LifecycleState>::empty(),
            r.runtime().launched() == 0,
    {
        AgentRuntimePanelState::new()
    }
}

} // verus!
