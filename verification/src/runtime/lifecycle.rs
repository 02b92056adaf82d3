//! Process lifecycle of launched runtimes, kept as its own axis, separate
//! from identity freshness (`Status`).
//!
//! Legal transitions only: `Launching -> Running`, `Running -> Stopped`.
//! Re-registering a known handle, or moving a handle any other way, is
//! rejected with a typed error and changes nothing.

use vstd::prelude::*;
use crate::runtime::keyed::{distinct_keys, find_key, keyed, lemma_keyed_empty, lemma_keyed_push, lemma_keyed_set};
use crate::runtime::types::RuntimeHandle;

verus! {

#[derive(Debug, Clone, Copy, PartialEq, Eq, Structural)]
pub enum LifecycleState {
    Launching,
    Running,
    Stopped,
}

#[derive(Debug, Clone, Copy, PartialEq, Eq, Structural)]
pub enum TransitionError {
    UnknownHandle,
    IllegalTransition { from: LifecycleState, to: LifecycleState },
}

/// The two moves the lifecycle allows.
pub open spec fn legal_transition(from: LifecycleState, to: LifecycleState) -> bool {
    ||| (from == LifecycleState::Launching && to == LifecycleState::Running)
    ||| (from == LifecycleState::Running && to == LifecycleState::Stopped)
}

/// Position of a state along the lifecycle.
pub open spec fn rank(s: LifecycleState) -> int {
    match s {
        LifecycleState::Launching => 0,
        LifecycleState::Running => 1,
        LifecycleState::Stopped => 2,
    }
}

/// Registering `h` in a registry whose contents are `m`: the result and the
/// contents afterwards.
pub open spec fn register_step(m: Map<Seq<char>, LifecycleState>, h: Seq<char>) -> (
    Result<(), TransitionError>,
    Map<Seq<char>, LifecycleState>,
) {
    if m.dom().contains(h) {
        (Err(TransitionError::IllegalTransition { from: m[h], to: LifecycleState::Launching }), m)
    } else {
        (Ok(()), m.insert(h, LifecycleState::Launching))
    }
}

/// Moving `h` to `to` in a registry whose contents are `m`: the result and
/// the contents afterwards.
pub open spec fn transition_step(
    m: Map<Seq<char>, LifecycleState>,
    h: Seq<char>,
    to: LifecycleState,
) -> (Result<(), TransitionError>, Map<Seq<char>, LifecycleState>) {
    if !m.dom().contains(h) {
        (Err(TransitionError::UnknownHandle), m)
    } else if !legal_transition(m[h], to) {
        (Err(TransitionError::IllegalTransition { from: m[h], to }), m)
    } else {
        (Ok(()), m.insert(h, to))
    }
}

/// Tracks the lifecycle state of every handle it has been told about.
#[derive(Debug)]
pub struct HandleRegistry {
    states: Vec<(RuntimeHandle, LifecycleState)>,
}

impl View for HandleRegistry {
    type V = Map<Seq<char>, LifecycleState>;

    closed spec fn view(&self) -> Map<Seq<char>, LifecycleState> {
        keyed(self.states@)
    }
}

impl HandleRegistry {
    #[verifier::type_invariant]
    spec fn inv(self) -> bool {
        distinct_keys(self.states@)
    }

    /// An empty registry.
    pub fn new() -> (r: HandleRegistry)
        ensures
            r@ == Map::<Seq<char>, LifecycleState>::empty(),
    {
        let r = HandleRegistry { states: Vec::new() };
        proof {
            lemma_keyed_empty(r.states@);
        }
        r
    }

    /// Starts tracking `handle` in state `Launching`. A handle that is
    /// already known is rejected and the registry is left as it was.
    pub fn register(&mut self, handle: RuntimeHandle) -> (r: Result<(), TransitionError>)
        ensures
            (r, final(self)@) == register_step(old(self)@, handle@),
    {
        proof {
            use_type_invariant(&*self);
        }
        match find_key(&self.states, &handle) {
            Some(i) => {
                let current = self.states[i].1;
                Err(TransitionError::IllegalTransition { from: current, to: LifecycleState::Launching })
            },
            None => {
                proof {
                    lemma_keyed_push(self.states@, (handle, LifecycleState::Launching));
                }
                let mut states: Vec<(RuntimeHandle, LifecycleState)> = Vec::new();
                std::mem::swap(&mut states, &mut self.states);
                states.push((handle, LifecycleState::Launching));
                self.states = states;
                Ok(())
            },
        }
    }

    /// Moves `handle` to `to` when that is a legal transition from its
    /// current state; otherwise reports why not and changes nothing.
    pub fn transition(&mut self, handle: &RuntimeHandle, to: LifecycleState) -> (r: Result<
        (),
        TransitionError,
    >)
        ensures
            (r, final(self)@) == transition_step(old(self)@, handle@, to),
    {
        proof {
            use_type_invariant(&*self);
        }
        match find_key(&self.states, handle) {
            None => Err(TransitionError::UnknownHandle),
            Some(i) => {
                let current = self.states[i].1;
                let legal = (current == LifecycleState::Launching && to == LifecycleState::Running)
                    || (current == LifecycleState::Running && to == LifecycleState::Stopped);
                if !legal {
                    return Err(TransitionError::IllegalTransition { from: current, to });
                }
                let key = self.states[i].0.duplicate();
                proof {
                    lemma_keyed_set(self.states@, i as int, (key, to));
                }
                let mut states: Vec<(RuntimeHandle, LifecycleState)> = Vec::new();
                std::mem::swap(&mut states, &mut self.states);
                states.set(i, (key, to));
                self.states = states;
                Ok(())
            },
        }
    }

    /// The current state of `handle`, if it is known.
    pub fn get(&self, handle: &RuntimeHandle) -> (r: Option<LifecycleState>)
        ensures
            r == (if self@.dom().contains(handle@) {
                Some(self@[handle@])
            } else {
                None
            }),
    {
        proof {
            use_type_invariant(&*self);
        }
        match find_key(&self.states, handle) {
            Some(i) => Some(self.states[i].1),
            None => None,
        }
    }
}

impl Default for HandleRegistry {
    fn default() -> (r: HandleRegistry)
        ensures
            r@ == Map::<Seq<char>, LifecycleState>::empty(),
    {
        HandleRegistry::new()
    }
}

/// A rejected registration or transition leaves the registry exactly as it
/// was.
pub proof fn law_rejected_step_changes_nothing(
    m: Map<Seq<char>, LifecycleState>,
    h: Seq<char>,
    to: LifecycleState,
)
    ensures
        register_step(m, h).0 is Err ==> register_step(m, h).1 == m,
        transition_step(m, h, to).0 is Err ==> transition_step(m, h, to).1 == m,
{
}

/// Registering a handle the registry does not know always succeeds and
/// leaves it `Launching`; registering a known handle always fails.
pub proof fn law_register_then_get(m: Map<Seq<char>, LifecycleState>, h: Seq<char>)
    ensures
        register_step(m, h).0 is Ok <==> !m.dom().contains(h),
        register_step(m, h).0 is Ok ==> register_step(m, h).1[h] == LifecycleState::Launching,
{
}

/// No step ever forgets a handle or moves any handle backwards along
/// `Launching -> Running -> Stopped`; a successful transition moves its
/// handle exactly one step forward.
pub proof fn law_states_only_advance(
    m: Map<Seq<char>, LifecycleState>,
    h: Seq<char>,
    to: LifecycleState,
    k: Seq<char>,
)
    requires
        m.dom().contains(k),
    ensures
        register_step(m, h).1.dom().contains(k),
        rank(register_step(m, h).1[k]) == rank(m[k]),
        transition_step(m, h, to).1.dom().contains(k),
        rank(transition_step(m, h, to).1[k]) >= rank(m[k]),
        transition_step(m, h, to).0 is Ok ==> rank(to) == rank(m[h]) + 1,
{
}

/// A stopped handle can never transition again.
pub proof fn law_stopped_is_final(m: Map<Seq<char>, LifecycleState>, h: Seq<char>, to: LifecycleState)
    requires
        m.dom().contains(h),
        m[h] == LifecycleState::Stopped,
    ensures
        transition_step(m, h, to).0 is Err,
{
}

/// For a fresh handle the whole lifecycle `register`, `Running`, `Stopped`
/// succeeds step by step, and then the handle stays `Stopped`.
pub proof fn law_full_lifecycle(m: Map<Seq<char>, LifecycleState>, h: Seq<char>, to: LifecycleState)
    requires
        !m.dom().contains(h),
    ensures
        ({
            let (r1, m1) = register_step(m, h);
            let (r2, m2) = transition_step(m1, h, LifecycleState::Running);
            let (r3, m3) = transition_step(m2, h, LifecycleState::Stopped);
            let (r4, m4) = transition_step(m3, h, to);
            &&& r1 is Ok && r2 is Ok && r3 is Ok && r4 is Err
            &&& m1[h] == LifecycleState::Launching
            &&& m2[h] == LifecycleState::Running
            &&& m3[h] == LifecycleState::Stopped
            &&& m4[h] == LifecycleState::Stopped
        }),
{
}

} // verus!
