use tauricode::runtime::adapter::{AdapterError, AgentRuntimeAdapter};
use tauricode::runtime::events::{Event, OutputKind, ToolStatus};
use tauricode::runtime::lifecycle::{HandleRegistry, LifecycleState, TransitionError};
use tauricode::runtime::mock::MockAdapter;
use tauricode::runtime::opencode_registry::{liveness_status, OpenCodeRegistry};
use tauricode::runtime::types::{Capabilities, Identity, RuntimeHandle, Status, TaskId, Workspace};

fn sample_events() -> Vec<Event> {
    let handle = RuntimeHandle::new("h1");
    let task = TaskId::new("MYLISP-TASK-1");
    vec![
        Event::RuntimeStarted {
            handle: handle.clone(),
            pid: Some(1234),
            cwd: Some("/home/agents/GitHub/tauricode".to_string()),
        },
        Event::TaskBound {
            handle: handle.clone(),
            task_id: task.clone(),
            origin: Some("swarm-cli".to_string()),
        },
        Event::OutputChunk {
            handle: handle.clone(),
            task_id: Some(task.clone()),
            output_kind: OutputKind::Reasoning,
            content: "thinking...".to_string(),
        },
        Event::ToolStarted {
            handle: handle.clone(),
            task_id: Some(task.clone()),
            tool_name: "bash".to_string(),
        },
        Event::ToolCompleted {
            handle: handle.clone(),
            task_id: Some(task.clone()),
            tool_name: "bash".to_string(),
            status: ToolStatus::Succeeded,
            result_ref: Some("evidence/run-1.log".to_string()),
        },
        Event::StatusChanged { handle: handle.clone(), status: Status::Fresh },
        Event::Error {
            handle: handle.clone(),
            message: "stream error".to_string(),
            retryable: Some(true),
        },
        Event::RuntimeStopped { handle, exit_code: Some(0), reason: None },
    ]
}

#[test]
fn vocabulary_is_exactly_eight_variants() {
    fn assert_exhaustive(e: &Event) {
        match e {
            Event::RuntimeStarted { .. }
            | Event::RuntimeStopped { .. }
            | Event::TaskBound { .. }
            | Event::OutputChunk { .. }
            | Event::ToolStarted { .. }
            | Event::ToolCompleted { .. }
            | Event::StatusChanged { .. }
            | Event::Error { .. } => {}
        }
    }
    for event in sample_events() {
        assert_exhaustive(&event);
    }
}

#[test]
fn duplicated_events_keep_their_content() {
    for event in sample_events() {
        assert_eq!(event.duplicate(), event);
    }
}

#[test]
fn legal_transition_sequence_succeeds() {
    let mut registry = HandleRegistry::new();
    let handle = RuntimeHandle::new("h1");

    registry.register(handle.clone()).unwrap();
    assert_eq!(registry.get(&handle), Some(LifecycleState::Launching));

    registry.transition(&handle, LifecycleState::Running).unwrap();
    assert_eq!(registry.get(&handle), Some(LifecycleState::Running));

    registry.transition(&handle, LifecycleState::Stopped).unwrap();
    assert_eq!(registry.get(&handle), Some(LifecycleState::Stopped));
}

#[test]
fn illegal_transition_is_rejected() {
    let mut registry = HandleRegistry::new();
    let handle = RuntimeHandle::new("h2");
    registry.register(handle.clone()).unwrap();

    let err = registry.transition(&handle, LifecycleState::Stopped).unwrap_err();
    assert_eq!(
        err,
        TransitionError::IllegalTransition {
            from: LifecycleState::Launching,
            to: LifecycleState::Stopped,
        }
    );
    assert_eq!(registry.get(&handle), Some(LifecycleState::Launching));
}

#[test]
fn stopped_handle_cannot_transition_further() {
    let mut registry = HandleRegistry::new();
    let handle = RuntimeHandle::new("h3");
    registry.register(handle.clone()).unwrap();
    registry.transition(&handle, LifecycleState::Running).unwrap();
    registry.transition(&handle, LifecycleState::Stopped).unwrap();

    let err = registry.transition(&handle, LifecycleState::Running).unwrap_err();
    assert_eq!(
        err,
        TransitionError::IllegalTransition {
            from: LifecycleState::Stopped,
            to: LifecycleState::Running,
        }
    );
}

#[test]
fn unknown_handle_lookup_returns_none_not_panic() {
    let registry = HandleRegistry::new();
    let handle = RuntimeHandle::new("never-registered");
    assert_eq!(registry.get(&handle), None);
}

#[test]
fn unknown_handle_transition_returns_typed_error_not_panic() {
    let mut registry = HandleRegistry::new();
    let handle = RuntimeHandle::new("never-registered");
    let err = registry.transition(&handle, LifecycleState::Running).unwrap_err();
    assert_eq!(err, TransitionError::UnknownHandle);
}

#[test]
fn double_register_is_rejected() {
    let mut registry = HandleRegistry::new();
    let handle = RuntimeHandle::new("h4");
    registry.register(handle.clone()).unwrap();
    let err = registry.register(handle).unwrap_err();
    assert!(matches!(err, TransitionError::IllegalTransition { .. }));
}

#[test]
fn double_register_reports_the_current_state_and_changes_nothing() {
    let mut registry = HandleRegistry::new();
    let handle = RuntimeHandle::new("h5");
    registry.register(handle.clone()).unwrap();
    registry.transition(&handle, LifecycleState::Running).unwrap();
    let err = registry.register(handle.clone()).unwrap_err();
    assert_eq!(
        err,
        TransitionError::IllegalTransition {
            from: LifecycleState::Running,
            to: LifecycleState::Launching,
        }
    );
    assert_eq!(registry.get(&handle), Some(LifecycleState::Running));
}

#[test]
fn running_cannot_go_back_to_launching() {
    let mut registry = HandleRegistry::new();
    let handle = RuntimeHandle::new("h6");
    registry.register(handle.clone()).unwrap();
    registry.transition(&handle, LifecycleState::Running).unwrap();
    let err = registry.transition(&handle, LifecycleState::Launching).unwrap_err();
    assert_eq!(
        err,
        TransitionError::IllegalTransition {
            from: LifecycleState::Running,
            to: LifecycleState::Launching,
        }
    );
    assert_eq!(registry.get(&handle), Some(LifecycleState::Running));
}

#[test]
fn handles_are_independent_in_the_registry() {
    let mut registry = HandleRegistry::default();
    let a = RuntimeHandle::new("a");
    let b = RuntimeHandle::new("b");
    registry.register(a.clone()).unwrap();
    registry.register(b.clone()).unwrap();
    registry.transition(&a, LifecycleState::Running).unwrap();
    assert_eq!(registry.get(&a), Some(LifecycleState::Running));
    assert_eq!(registry.get(&b), Some(LifecycleState::Launching));
}

fn drive_full_lifecycle(adapter: &mut impl AgentRuntimeAdapter) -> RuntimeHandle {
    let handle = adapter
        .launch("/home/agents/GitHub/tauricode", Some(TaskId::new("T-1")))
        .expect("launch should succeed");

    let status = adapter.status(&handle).expect("status should resolve");
    assert_eq!(status, Status::Fresh);

    let workspace = adapter.workspace(&handle).expect("workspace should resolve");
    assert_eq!(workspace.cwd.as_deref(), Some("/home/agents/GitHub/tauricode"));

    adapter.stop(&handle).expect("stop should succeed");

    handle
}

#[test]
fn full_lifecycle_via_generic_trait_bound() {
    let mut adapter = MockAdapter::new();
    let handle = drive_full_lifecycle(&mut adapter);

    let err = adapter.stop(&handle).unwrap_err();
    assert_eq!(err, AdapterError::NotFound);
}

#[test]
fn scripted_events_are_returned_in_order() {
    let mut adapter = MockAdapter::new();
    let handle = adapter.launch("/tmp/x", None).unwrap();

    let scripted = vec![
        Event::RuntimeStarted {
            handle: handle.clone(),
            pid: Some(999),
            cwd: Some("/tmp/x".to_string()),
        },
        Event::ToolStarted { handle: handle.clone(), task_id: None, tool_name: "bash".to_string() },
        Event::ToolCompleted {
            handle: handle.clone(),
            task_id: None,
            tool_name: "bash".to_string(),
            status: ToolStatus::Succeeded,
            result_ref: None,
        },
        Event::OutputChunk {
            handle: handle.clone(),
            task_id: None,
            output_kind: OutputKind::Text,
            content: "done".to_string(),
        },
    ];
    adapter.script_events(&handle, scripted.clone());

    let observed = adapter.events(&handle).unwrap();
    assert_eq!(observed, scripted);
}

#[test]
fn unknown_handle_returns_typed_error_not_panic() {
    let adapter = MockAdapter::new();
    let bogus = RuntimeHandle::new("never-launched");
    assert_eq!(adapter.status(&bogus).unwrap_err(), AdapterError::NotFound);
    assert_eq!(adapter.identity(&bogus).unwrap_err(), AdapterError::NotFound);
    assert_eq!(adapter.events(&bogus).unwrap_err(), AdapterError::NotFound);
}

#[test]
fn capability_flags_default_false_until_configured() {
    let plain = MockAdapter::new();
    assert!(!plain.supports_live_attach());
    assert!(!plain.supports_resume());

    let configured = MockAdapter::new().with_live_attach(true).with_resume(true);
    assert!(configured.supports_live_attach());
    assert!(configured.supports_resume());
}

#[test]
fn launches_are_numbered_from_one() {
    let mut adapter = MockAdapter::default();
    let first = adapter.launch("/a", None).unwrap();
    let second = adapter.launch("/b", Some(TaskId::new("T-9"))).unwrap();
    assert_eq!(first.as_str(), "mock-1");
    assert_eq!(second.as_str(), "mock-2");
    assert_eq!(adapter.identity(&first).unwrap().task, None);
    assert_eq!(adapter.identity(&second).unwrap().task.as_deref(), Some("T-9"));
    assert_eq!(adapter.workspace(&second).unwrap().cwd.as_deref(), Some("/b"));
    assert!(adapter.capabilities(&second).unwrap().declared.is_empty());
    assert!(adapter.events(&second).unwrap().is_empty());
}

#[test]
fn stopping_one_handle_leaves_the_other_running() {
    let mut adapter = MockAdapter::new();
    let a = adapter.launch("/a", None).unwrap();
    let b = adapter.launch("/b", None).unwrap();
    adapter.stop(&a).unwrap();
    assert_eq!(adapter.stop(&a).unwrap_err(), AdapterError::NotFound);
    adapter.stop(&b).unwrap();
    assert_eq!(adapter.stop(&RuntimeHandle::new("mock-3")).unwrap_err(), AdapterError::NotFound);
}

#[test]
fn scripting_an_unknown_handle_changes_nothing() {
    let mut adapter = MockAdapter::new();
    let known = adapter.launch("/a", None).unwrap();
    adapter.script_events(&RuntimeHandle::new("other"), sample_events());
    assert!(adapter.events(&known).unwrap().is_empty());
    assert_eq!(adapter.events(&RuntimeHandle::new("other")).unwrap_err(), AdapterError::NotFound);
}

#[test]
fn runtime_handle_roundtrips_as_str() {
    let h = RuntimeHandle::new("abc-123");
    assert_eq!(h.as_str(), "abc-123");
}

#[test]
fn task_id_roundtrips_as_str() {
    let t = TaskId::new("MYLISP-TASK-42");
    assert_eq!(t.as_str(), "MYLISP-TASK-42");
}

#[test]
fn identity_default_is_all_none() {
    let id = Identity::default();
    assert_eq!(id.model, None);
    assert_eq!(id.role, None);
    assert_eq!(id.repository, None);
    assert_eq!(id.instance, None);
    assert_eq!(id.task, None);
}

#[test]
fn capabilities_default_is_empty() {
    assert!(Capabilities::default().declared.is_empty());
}

#[test]
fn workspace_default_is_all_none() {
    let w = Workspace::default();
    assert_eq!(w.cwd, None);
    assert_eq!(w.repo_association, None);
}

#[test]
fn status_default_is_fresh() {
    assert_eq!(Status::default(), Status::Fresh);
}

#[test]
fn opencode_registry_hands_out_ports_and_handles() {
    let mut r = OpenCodeRegistry::new();
    assert_eq!(r.claim_port(), Ok(39901));
    assert_eq!(r.claim_port(), Ok(39902));
    let h1 = r.record_launch("/w/a", Some(TaskId::new("T-1"))).unwrap();
    let h2 = r.record_launch("/w/b", None).unwrap();
    assert_eq!(h1.as_str(), "opencode-1");
    assert_eq!(h2.as_str(), "opencode-2");
    assert_eq!(r.identity(&h1).unwrap().task.as_deref(), Some("T-1"));
    assert_eq!(r.workspace(&h2).unwrap().cwd.as_deref(), Some("/w/b"));
    assert_eq!(r.forget(&h1), Ok(()));
    assert_eq!(r.forget(&h1), Err(AdapterError::NotFound));
    assert_eq!(r.identity(&h1), Err(AdapterError::NotFound));
    assert!(r.lookup(&h2).is_ok());
    let h3 = r.record_launch("/w/c", None).unwrap();
    assert_eq!(h3.as_str(), "opencode-3");
    assert_eq!(liveness_status(true), Status::Fresh);
    assert_eq!(liveness_status(false), Status::Orphaned);
}

#[test]
fn stop_unknown_handle_returns_typed_error() {
    let mut registry = OpenCodeRegistry::new();
    let bogus = RuntimeHandle::new("never-launched");
    assert_eq!(registry.forget(&bogus).unwrap_err(), AdapterError::NotFound);
}

#[test]
fn launch_without_task_leaves_identity_task_none() {
    let mut registry = OpenCodeRegistry::new();
    registry.claim_port().unwrap();
    let handle = registry.record_launch("/home/agents/GitHub/tauricode", None).expect("launch should succeed");
    let identity = registry.identity(&handle).unwrap();
    assert_eq!(identity.task, None);
    registry.forget(&handle).expect("stop should succeed");
}
