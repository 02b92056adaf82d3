//! An in-memory adapter: no subprocess, no I/O. It shows that the adapter
//! contract can be implemented, and driven by a caller that does not know
//! which runtime is underneath.

use vstd::prelude::*;
use crate::runtime::adapter::{AdapterError, AgentRuntimeAdapter};
use crate::runtime::events::{copy_events, events_view, ostr, otask, Event, EventV};
use crate::runtime::keyed::{
    distinct_keys, find_key, keyed, lemma_keyed_empty, lemma_keyed_push, lemma_keyed_set,
};
use crate::runtime::lifecycle::{transition_step, HandleRegistry, LifecycleState};
use crate::runtime::types::{Capabilities, Identity, RuntimeHandle, Status, TaskId, Workspace};
use crate::text::{dec, lemma_dec_injective, push_decimal, push_str};

verus! {

#[derive(Debug)]
struct HandleState {
    identity: Identity,
    capabilities: Capabilities,
    workspace: Workspace,
    status: Status,
    events: Vec<Event>,
}

/// What the adapter keeps about one launched handle.
pub struct HandleRecord {
    pub identity: Identity,
    pub capabilities: Seq<String>,
    pub workspace: Workspace,
    pub status: Status,
    pub events: Seq<EventV>,
}

spec fn record_of(s: HandleState) -> HandleRecord {
    HandleRecord {
        identity: s.identity,
        capabilities: s.capabilities.declared@,
        workspace: s.workspace,
        status: s.status,
        events: events_view(s.events@),
    }
}

/// The text of the handle issued by the `n`-th launch.
pub open spec fn mock_name(n: nat) -> Seq<char> {
    seq!['m', 'o', 'c', 'k', '-'] + dec(n)
}

/// The record of a handle just launched in `cwd` for `task`: nothing known
/// but the task and the working directory, status `Fresh`, no events.
pub open spec fn is_launch_record(r: HandleRecord, cwd: Seq<char>, task: Option<Seq<char>>) -> bool {
    &&& r.identity.model is None
    &&& r.identity.role is None
    &&& r.identity.repository is None
    &&& r.identity.instance is None
    &&& ostr(r.identity.task) == task
    &&& r.capabilities.len() == 0
    &&& ostr(r.workspace.cwd) == Some(cwd)
    &&& r.workspace.repo_association is None
    &&& r.status == Status::Fresh
    &&& r.events.len() == 0
}

/// `r` with its events replaced by `events`.
pub open spec fn with_events(r: HandleRecord, events: Seq<EventV>) -> HandleRecord {
    HandleRecord {
        identity: r.identity,
        capabilities: r.capabilities,
        workspace: r.workspace,
        status: r.status,
        events,
    }
}

#[derive(Debug)]
pub struct MockAdapter {
    registry: HandleRegistry,
    states: Vec<(RuntimeHandle, HandleState)>,
    next_id: u64,
    supports_live_attach: bool,
    supports_resume: bool,
}

/// Distinct launches get distinct handles: the handle of the `a`-th launch
/// is never that of the `b`-th.
pub proof fn law_handles_never_repeat(a: nat, b: nat)
    ensures
        mock_name(a) == mock_name(b) ==> a == b,
{
    if mock_name(a) == mock_name(b) {
        assert(dec(a) =~= mock_name(a).subrange(5, mock_name(a).len() as int));
        assert(dec(b) =~= mock_name(b).subrange(5, mock_name(b).len() as int));
        lemma_dec_injective(a, b);
    }
}

impl MockAdapter {
    #[verifier::type_invariant]
    spec fn inv(self) -> bool {
        &&& distinct_keys(self.states@)
        &&& self.registry@.dom() == keyed(self.states@).dom()
        &&& forall|k: Seq<char>|
            #[trigger] self.registry@.dom().contains(k) ==> exists|n: nat|
                1 <= n <= self.next_id && k == #[trigger] mock_name(n)
    }

    /// Lifecycle state of every handle issued so far.
    pub closed spec fn lifecycle(&self) -> Map<Seq<char>, LifecycleState> {
        self.registry@
    }

    /// What is kept about every handle issued so far.
    pub closed spec fn records(&self) -> Map<Seq<char>, HandleRecord> {
        keyed(self.states@).map_values(|s: HandleState| record_of(s))
    }

    /// How many handles have been issued.
    pub closed spec fn launched(&self) -> u64 {
        self.next_id
    }

    pub closed spec fn live_attach_flag(&self) -> bool {
        self.supports_live_attach
    }

    pub closed spec fn resume_flag(&self) -> bool {
        self.supports_resume
    }

    /// An adapter that has issued nothing, with both capability flags off.
    pub fn new() -> (r: MockAdapter)
        ensures
            r.lifecycle() == Map::<Seq<char>, LifecycleState>::empty(),
            r.records() == Map::<Seq<char>, HandleRecord>::empty(),
            r.launched() == 0,
            !r.live_attach_flag(),
            !r.resume_flag(),
    {
        let states: Vec<(RuntimeHandle, HandleState)> = Vec::new();
        proof {
            lemma_keyed_empty(states@);
        }
        let r = MockAdapter {
            registry: HandleRegistry::new(),
            states,
            next_id: 0,
            supports_live_attach: false,
            supports_resume: false,
        };
        assert(r.records() =~= Map::<Seq<char>, HandleRecord>::empty());
        r
    }

    /// Sets whether the adapter claims live attach. A real adapter's flags
    /// are fixed by what it implements; this one is configured for tests.
    pub fn with_live_attach(self, value: bool) -> (r: MockAdapter)
        ensures
            r.lifecycle() == self.lifecycle(),
            r.records() == self.records(),
            r.launched() == self.launched(),
            r.live_attach_flag() == value,
            r.resume_flag() == self.resume_flag(),
    {
        proof {
            use_type_invariant(&self);
        }
        let MockAdapter { registry, states, next_id, supports_live_attach: _, supports_resume } =
            self;
        MockAdapter { registry, states, next_id, supports_live_attach: value, supports_resume }
    }

    /// Sets whether the adapter claims resume, as `with_live_attach` does
    /// for live attach.
    pub fn with_resume(self, value: bool) -> (r: MockAdapter)
        ensures
            r.lifecycle() == self.lifecycle(),
            r.records() == self.records(),
            r.launched() == self.launched(),
            r.live_attach_flag() == self.live_attach_flag(),
            r.resume_flag() == value,
    {
        proof {
            use_type_invariant(&self);
        }
        let MockAdapter { registry, states, next_id, supports_live_attach, supports_resume: _ } =
            self;
        MockAdapter { registry, states, next_id, supports_live_attach, supports_resume: value }
    }

    /// Sets the events that `events()` will report for `handle`; a handle
    /// the adapter never issued is ignored.
    pub fn script_events(&mut self, handle: &RuntimeHandle, events: Vec<Event>)
        ensures
            final(self).records() == (if old(self).records().dom().contains(handle@) {
                old(self).records().insert(
                    handle@,
                    with_events(old(self).records()[handle@], events_view(events@)),
                )
            } else {
                old(self).records()
            }),
            final(self).lifecycle() == old(self).lifecycle(),
            final(self).launched() == old(self).launched(),
            final(self).live_attach_flag() == old(self).live_attach_flag(),
            final(self).resume_flag() == old(self).resume_flag(),
    {
        proof {
            use_type_invariant(&*self);
        }
        match find_key(&self.states, handle) {
            None => {},
            Some(i) => {
                let mut cur = MockAdapter::new();
                std::mem::swap(self, &mut cur);
                proof {
                    use_type_invariant(&cur);
                }
                let MockAdapter { registry, mut states, next_id, supports_live_attach, supports_resume } =
                    cur;
                let key = states[i].0.duplicate();
                let st = HandleState {
                    identity: states[i].1.identity.duplicate(),
                    capabilities: states[i].1.capabilities.duplicate(),
                    workspace: states[i].1.workspace.duplicate(),
                    status: states[i].1.status,
                    events,
                };
                let ghost old_states = states@;
                proof {
                    lemma_keyed_set(states@, i as int, (key, st));
                }
                states.set(i, (key, st));
                assert(keyed(states@).dom() =~= keyed(old_states).dom());
                *self = MockAdapter { registry, states, next_id, supports_live_attach, supports_resume };
                proof {
                    assert(record_of(st) == with_events(
                        record_of(old_states[i as int].1),
                        events_view(events@),
                    ));
                    assert(self.records() =~= old(self).records().insert(
                        handle@,
                        with_events(old(self).records()[handle@], events_view(events@)),
                    ));
                }
            },
        }
    }
}

impl Default for MockAdapter {
    fn default() -> (r: MockAdapter)
        ensures
            r.lifecycle() == Map::<Seq<char>, LifecycleState>::empty(),
            r.records() == Map::<Seq<char>, HandleRecord>::empty(),
            r.launched() == 0,
            !r.live_attach_flag(),
            !r.resume_flag(),
    {
        MockAdapter::new()
    }
}

impl AgentRuntimeAdapter for MockAdapter {
    /// Issues the handle `mock-N` for the `N`-th launch, registers it and
    /// moves it to `Running`. Refused only once every handle number has
    /// been used.
    fn launch(&mut self, cwd: &str, task: Option<TaskId>) -> (r: Result<RuntimeHandle, AdapterError>)
        ensures
            old(self).launched() < u64::MAX ==> (match r {
                Ok(h) => {
                    &&& h@ == mock_name((old(self).launched() + 1) as nat)
                    &&& !old(self).lifecycle().dom().contains(h@)
                    &&& final(self).lifecycle() == old(self).lifecycle().insert(
                        h@,
                        LifecycleState::Running,
                    )
                    &&& final(self).records() == old(self).records().insert(
                        h@,
                        final(self).records()[h@],
                    )
                    &&& is_launch_record(final(self).records()[h@], cwd@, otask(task))
                    &&& final(self).launched() == old(self).launched() + 1
                    &&& final(self).live_attach_flag() == old(self).live_attach_flag()
                    &&& final(self).resume_flag() == old(self).resume_flag()
                },
                Err(_) => false,
            }),
            old(self).launched() == u64::MAX ==> (match r {
                Ok(_) => false,
                Err(e) => {
                    &&& e matches AdapterError::LaunchFailed(m)
                    &&& m@ == "no handle numbers left"@
                    &&& *final(self) == *old(self)
                },
            }),
            final(self).lifecycle().dom() == final(self).records().dom(),
    {
        proof {
            use_type_invariant(&*self);
        }
        if self.next_id == u64::MAX {
            return Err(AdapterError::LaunchFailed(String::from_str("no handle numbers left")));
        }
        let n: u64 = self.next_id + 1;
        let mut name = String::new();
        push_str(&mut name, "mock-");
        push_decimal(&mut name, n);
        proof {
            reveal_strlit("mock-");
        }
        let handle = RuntimeHandle::from_string(name);
        assert(handle@ =~= mock_name(n as nat));
        let mut cur = MockAdapter::new();
        std::mem::swap(self, &mut cur);
        proof {
            use_type_invariant(&cur);
        }
        let MockAdapter { mut registry, mut states, next_id, supports_live_attach, supports_resume } =
            cur;
        proof {
            if registry@.dom().contains(handle@) {
                let m = choose|m: nat| 1 <= m <= next_id && handle@ == #[trigger] mock_name(m);
                law_handles_never_repeat(m, n as nat);
            }
        }
        match registry.register(handle.duplicate()) {
            Ok(()) => {},
            Err(_) => {
                assert(false);
                return Err(AdapterError::LaunchFailed(String::new()));
            },
        }
        match registry.transition(&handle, LifecycleState::Running) {
            Ok(()) => {},
            Err(_) => {
                assert(false);
                return Err(AdapterError::LaunchFailed(String::new()));
            },
        }
        let task_text = match task {
            Some(t) => Some(String::from_str(t.as_str())),
            None => None,
        };
        let st = HandleState {
            identity: Identity {
                model: None,
                role: None,
                repository: None,
                instance: None,
                task: task_text,
            },
            capabilities: Capabilities { declared: Vec::new() },
            workspace: Workspace { cwd: Some(String::from_str(cwd)), repo_association: None },
            status: Status::Fresh,
            events: Vec::new(),
        };
        let key = handle.duplicate();
        proof {
            lemma_keyed_push(states@, (key, st));
        }
        states.push((key, st));
        proof {
            assert(registry@.dom() =~= keyed(states@).dom());
            assert forall|k: Seq<char>| #[trigger] registry@.dom().contains(k) implies exists|m: nat|
                1 <= m <= n && k == #[trigger] mock_name(m) by {
                if k == handle@ {
                    assert(k == mock_name(n as nat));
                } else {
                    let m = choose|m: nat| 1 <= m <= next_id && k == #[trigger] mock_name(m);
                    assert(k == mock_name(m));
                }
            }
        }
        let issued = handle;
        *self = MockAdapter { registry, states, next_id: n, supports_live_attach, supports_resume };
        proof {
            assert(self.records() =~= old(self).records().insert(handle@, record_of(st)));
            assert(self.lifecycle().dom() =~= self.records().dom());
        }
        Ok(issued)
    }

    /// Moves `handle` to `Stopped`; anything the lifecycle refuses (an
    /// unknown handle, a second stop) is `NotFound`.
    fn stop(&mut self, handle: &RuntimeHandle) -> (r: Result<(), AdapterError>)
        ensures
            (r is Ok) == (transition_step(
                old(self).lifecycle(),
                handle@,
                LifecycleState::Stopped,
            ).0 is Ok),
            r matches Err(e) ==> e == AdapterError::NotFound,
            final(self).lifecycle() == transition_step(
                old(self).lifecycle(),
                handle@,
                LifecycleState::Stopped,
            ).1,
            final(self).records() == old(self).records(),
            final(self).launched() == old(self).launched(),
            final(self).live_attach_flag() == old(self).live_attach_flag(),
            final(self).resume_flag() == old(self).resume_flag(),
            final(self).lifecycle().dom() == final(self).records().dom(),
    {
        proof {
            use_type_invariant(&*self);
        }
        let mut cur = MockAdapter::new();
        std::mem::swap(self, &mut cur);
        proof {
            use_type_invariant(&cur);
        }
        let MockAdapter { mut registry, states, next_id, supports_live_attach, supports_resume } =
            cur;
        let ghost before = registry@;
        let res = registry.transition(handle, LifecycleState::Stopped);
        proof {
            if res is Ok {
                assert(registry@.dom() =~= before.dom());
            }
        }
        *self = MockAdapter { registry, states, next_id, supports_live_attach, supports_resume };
        match res {
            Ok(()) => Ok(()),
            Err(_) => Err(AdapterError::NotFound),
        }
    }

    fn status(&self, handle: &RuntimeHandle) -> (r: Result<Status, AdapterError>)
        ensures
            match r {
                Ok(s) => self.records().dom().contains(handle@) && s == self.records()[handle@].status,
                Err(e) => !self.records().dom().contains(handle@) && e == AdapterError::NotFound,
            },
    {
        proof {
            use_type_invariant(self);
        }
        match find_key(&self.states, handle) {
            Some(i) => Ok(self.states[i].1.status),
            None => Err(AdapterError::NotFound),
        }
    }

    fn identity(&self, handle: &RuntimeHandle) -> (r: Result<Identity, AdapterError>)
        ensures
            match r {
                Ok(v) => self.records().dom().contains(handle@) && v == self.records()[handle@].identity,
                Err(e) => !self.records().dom().contains(handle@) && e == AdapterError::NotFound,
            },
    {
        proof {
            use_type_invariant(self);
        }
        match find_key(&self.states, handle) {
            Some(i) => Ok(self.states[i].1.identity.duplicate()),
            None => Err(AdapterError::NotFound),
        }
    }

    fn capabilities(&self, handle: &RuntimeHandle) -> (r: Result<Capabilities, AdapterError>)
        ensures
            match r {
                Ok(v) => self.records().dom().contains(handle@) && v.declared@
                    == self.records()[handle@].capabilities,
                Err(e) => !self.records().dom().contains(handle@) && e == AdapterError::NotFound,
            },
    {
        proof {
            use_type_invariant(self);
        }
        match find_key(&self.states, handle) {
            Some(i) => Ok(self.states[i].1.capabilities.duplicate()),
            None => Err(AdapterError::NotFound),
        }
    }

    fn workspace(&self, handle: &RuntimeHandle) -> (r: Result<Workspace, AdapterError>)
        ensures
            match r {
                Ok(v) => self.records().dom().contains(handle@) && v == self.records()[handle@].workspace,
                Err(e) => !self.records().dom().contains(handle@) && e == AdapterError::NotFound,
            },
    {
        proof {
            use_type_invariant(self);
        }
        match find_key(&self.states, handle) {
            Some(i) => Ok(self.states[i].1.workspace.duplicate()),
            None => Err(AdapterError::NotFound),
        }
    }

    fn events(&self, handle: &RuntimeHandle) -> (r: Result<Vec<Event>, AdapterError>)
        ensures
            match r {
                Ok(v) => self.records().dom().contains(handle@) && events_view(v@)
                    == self.records()[handle@].events,
                Err(e) => !self.records().dom().contains(handle@) && e == AdapterError::NotFound,
            },
    {
        proof {
            use_type_invariant(self);
        }
        match find_key(&self.states, handle) {
            Some(i) => Ok(copy_events(&self.states[i].1.events)),
            None => Err(AdapterError::NotFound),
        }
    }

    fn supports_live_attach(&self) -> (r: bool)
        ensures
            r == self.live_attach_flag(),
    {
        self.supports_live_attach
    }

    fn supports_resume(&self) -> (r: bool)
        ensures
            r == self.resume_flag(),
    {
        self.supports_resume
    }
}

} // verus!
